//! Host-facing description of a single hardware operation request: its kind
//! and the optional parameters the dispatching layer reads. Paths are
//! separator-unified on the way in, matching the normalizer's first step.

use vstd::prelude::*;
use crate::chars::str_to_chars;
use crate::chars::chars_to_string;
use crate::normalize::slashify;

verus! {

/// The kind of hardware operation a skill requests.
#[derive(Debug, Clone, PartialEq, Eq, Structural)]
pub enum HardwareOpType {
    GpuCompute,
    FileRead,
    FileWrite,
    SensorRead,
    NetworkRequest,
    CameraCapture,
}

/// One pending hardware operation with its optional parameters.
#[derive(Debug, Clone)]
pub struct HardwareOp {
    pub op_type: HardwareOpType,
    pub shader_code: Option<String>,
    pub data: Option<Vec<u8>>,
    pub path: Option<String>,
    pub url: Option<String>,
    pub sensor_type: Option<String>,
    pub method: Option<String>,
}

impl HardwareOp {
    /// A fresh request of the given kind: no parameters set, except the
    /// request method, which defaults to `GET`.
    pub fn new(op_type: HardwareOpType) -> (r: HardwareOp)
        ensures
            r.op_type == op_type,
            r.shader_code is None,
            r.data is None,
            r.path is None,
            r.url is None,
            r.sensor_type is None,
            r.method matches Some(m) && m@ == "GET"@,
    {
        HardwareOp {
            op_type,
            shader_code: None,
            data: None,
            path: None,
            url: None,
            sensor_type: None,
            method: Some(String::from_str("GET")),
        }
    }

    pub fn set_shader_code(&mut self, code: String)
        ensures
            *final(self) == (HardwareOp { shader_code: Some(code), ..*old(self) }),
    {
        self.shader_code = Some(code);
    }

    pub fn set_data(&mut self, data: Vec<u8>)
        ensures
            *final(self) == (HardwareOp { data: Some(data), ..*old(self) }),
    {
        self.data = Some(data);
    }

    /// Stores a path with its separators unified to forward slashes.
    pub fn set_path(&mut self, path: String)
        ensures
            final(self).path matches Some(p) && p@ == slashify(path@),
            final(self).op_type == old(self).op_type,
            final(self).shader_code == old(self).shader_code,
            final(self).data == old(self).data,
            final(self).url == old(self).url,
            final(self).sensor_type == old(self).sensor_type,
            final(self).method == old(self).method,
    {
        let chars = str_to_chars(path.as_str());
        let mut unified: Vec<char> = Vec::new();
        let mut i: usize = 0;
        while i < chars.len()
            invariant
                chars@ == path@,
                i <= chars@.len(),
                unified@ == slashify(path@.take(i as int)),
            decreases chars@.len() - i,
        {
            let c = chars[i];
            if c == '\\' {
                unified.push('/');
            } else {
                unified.push(c);
            }
            i = i + 1;
            assert(unified@ =~= slashify(path@.take(i as int)));
        }
        assert(path@.take(path@.len() as int) =~= path@);
        self.path = Some(chars_to_string(&unified));
    }

    pub fn set_url(&mut self, url: String)
        ensures
            *final(self) == (HardwareOp { url: Some(url), ..*old(self) }),
    {
        self.url = Some(url);
    }

    pub fn set_sensor_type(&mut self, st: String)
        ensures
            *final(self) == (HardwareOp { sensor_type: Some(st), ..*old(self) }),
    {
        self.sensor_type = Some(st);
    }

    pub fn set_method(&mut self, m: String)
        ensures
            *final(self) == (HardwareOp { method: Some(m), ..*old(self) }),
    {
        self.method = Some(m);
    }
}

} // verus!
