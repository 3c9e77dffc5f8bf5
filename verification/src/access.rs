//! Self-contained access checks over an in-memory manifest document: each
//! takes the manifest as JSON text, parses it, and answers one
//! authorization question. A document that does not parse is a typed
//! failure, never a default answer.

use vstd::prelude::*;
use crate::capability::CapabilityManifest;
use crate::capability::ManifestView;
use crate::capability::validate_spec;
use crate::chars::str_to_chars;
use crate::chars::chars_to_string;
use crate::chars::contains_chars;
use crate::chars::contains_run;
use crate::json::parse_manifest;
use crate::json::ParseError;
use crate::normalize::normalize_seq;
use crate::normalize::normalize_chars;

verus! {

/// True when `suf` is a suffix of `s`.
pub open spec fn ends_with(s: Seq<char>, suf: Seq<char>) -> bool {
    suf.len() <= s.len() && s.skip(s.len() - suf.len()) == suf
}

/// The file-access decision over an already-parsed manifest: the path is
/// normalized; any remaining `..` run denies outright; paths ending in
/// `.tmp` or containing a `/temp/` run are checked as writes, all others as
/// reads.
pub open spec fn file_access_spec(m: ManifestView, path: Seq<char>) -> bool {
    let np = normalize_seq(path);
    if contains_run(np, ".."@) {
        false
    } else {
        let op = if ends_with(np, ".tmp"@) || contains_run(np, "/temp/"@) {
            "write"@
        } else {
            "read"@
        };
        validate_spec(m, op, np)
    }
}

/// Decides whether the manifest given as JSON text permits a file access on
/// `path`, inferring the operation from the normalized path's shape.
pub fn validate_file_access(path: &str, manifest_json: &str) -> (r: Result<bool, ParseError>)
    ensures
        (r is Ok) == (parse_manifest(manifest_json@) is Some),
        r matches Ok(b) ==> parse_manifest(manifest_json@) matches Some(m) && b
            == file_access_spec(m, path@),
        r matches Err(e) ==> e == ParseError::MalformedManifest,
{
    let manifest = match CapabilityManifest::parse(manifest_json) {
        Ok(m) => m,
        Err(e) => {
            return Err(e);
        },
    };
    let pc = str_to_chars(path);
    let np = normalize_chars(&pc);
    let updir = str_to_chars("..");
    if contains_chars(&np, &updir) {
        return Ok(false);
    }
    proof {
        reveal_strlit(".tmp");
    }
    let n = np.len();
    let is_tmp = n >= 4 && np[n - 4] == '.' && np[n - 3] == 't' && np[n - 2] == 'm' && np[n - 1]
        == 'p';
    proof {
        if n >= 4 {
            assert(np@.skip(n - 4) =~= seq![np@[n - 4], np@[n - 3], np@[n - 2], np@[n - 1]]);
            if is_tmp {
                assert(np@.skip(n - 4) =~= ".tmp"@);
            } else {
                assert(np@.skip(np@.len() - ".tmp"@.len()) != ".tmp"@);
            }
        }
        assert(is_tmp == ends_with(np@, ".tmp"@));
    }
    let temp_run = str_to_chars("/temp/");
    let is_temp = contains_chars(&np, &temp_run);
    let np_string = chars_to_string(&np);
    let verdict = if is_tmp || is_temp {
        manifest.validate("write", np_string.as_str())
    } else {
        manifest.validate("read", np_string.as_str())
    };
    Ok(verdict)
}

/// Decides whether the manifest given as JSON text grants GPU access.
pub fn validate_gpu_access(manifest_json: &str) -> (r: Result<bool, ParseError>)
    ensures
        (r is Ok) == (parse_manifest(manifest_json@) is Some),
        r matches Ok(b) ==> parse_manifest(manifest_json@) matches Some(m) && b == m.gpu,
        r matches Err(e) ==> e == ParseError::MalformedManifest,
{
    match CapabilityManifest::parse(manifest_json) {
        Ok(m) => Ok(m.has_gpu()),
        Err(e) => Err(e),
    }
}

/// Decides whether the manifest given as JSON text grants network access.
pub fn validate_network_access(manifest_json: &str) -> (r: Result<bool, ParseError>)
    ensures
        (r is Ok) == (parse_manifest(manifest_json@) is Some),
        r matches Ok(b) ==> parse_manifest(manifest_json@) matches Some(m) && b == m.network,
        r matches Err(e) ==> e == ParseError::MalformedManifest,
{
    match CapabilityManifest::parse(manifest_json) {
        Ok(m) => Ok(m.has_network()),
        Err(e) => Err(e),
    }
}

/// Decides whether the manifest given as JSON text grants sensor access.
pub fn validate_sensor_access(manifest_json: &str) -> (r: Result<bool, ParseError>)
    ensures
        (r is Ok) == (parse_manifest(manifest_json@) is Some),
        r matches Ok(b) ==> parse_manifest(manifest_json@) matches Some(m) && b == m.sensors,
        r matches Err(e) ==> e == ParseError::MalformedManifest,
{
    match CapabilityManifest::parse(manifest_json) {
        Ok(m) => Ok(m.has_sensors()),
        Err(e) => Err(e),
    }
}

/// Decides whether the manifest given as JSON text grants camera access.
pub fn validate_camera_access(manifest_json: &str) -> (r: Result<bool, ParseError>)
    ensures
        (r is Ok) == (parse_manifest(manifest_json@) is Some),
        r matches Ok(b) ==> parse_manifest(manifest_json@) matches Some(m) && b == m.camera,
        r matches Err(e) ==> e == ParseError::MalformedManifest,
{
    match CapabilityManifest::parse(manifest_json) {
        Ok(m) => Ok(m.has_camera()),
        Err(e) => Err(e),
    }
}

} // verus!
