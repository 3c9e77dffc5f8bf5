//! Buffer framing for GPU compute dispatch. Device buffers must be sized to
//! a four-byte alignment, so input data is zero-padded up to the aligned
//! size before submission and the device's output is trimmed back to the
//! caller's original length afterwards. The dispatch itself is an external
//! concern; only this framing arithmetic is the core's.

use vstd::prelude::*;

verus! {

/// The smallest multiple of four that is at least `len`.
pub open spec fn aligned_size_spec(len: nat) -> nat {
    if len % 4 == 0 {
        len
    } else {
        (len / 4 + 1) * 4
    }
}

/// Rounds a buffer length up to the four-byte alignment.
pub fn aligned_size(len: usize) -> (r: usize)
    requires
        len <= usize::MAX - 3,
    ensures
        r == aligned_size_spec(len as nat),
        r % 4 == 0,
        len <= r < len + 4,
{
    if len % 4 == 0 {
        len
    } else {
        (len / 4 + 1) * 4
    }
}

/// Zero-pads `data` up to the aligned size; the original bytes stay in
/// place, only zeros follow them.
pub fn pad_to_alignment(data: &Vec<u8>) -> (r: Vec<u8>)
    requires
        data@.len() <= usize::MAX - 3,
    ensures
        r@.len() == aligned_size_spec(data@.len()),
        r@.take(data@.len() as int) == data@,
        forall|k: int| data@.len() <= k < r@.len() ==> r@[k] == 0,
{
    let target = aligned_size(data.len());
    let mut r: Vec<u8> = Vec::new();
    let mut i: usize = 0;
    while i < data.len()
        invariant
            i <= data@.len(),
            r@ == data@.take(i as int),
        decreases data@.len() - i,
    {
        r.push(data[i]);
        i = i + 1;
        assert(r@ =~= data@.take(i as int));
    }
    assert(r@ =~= data@);
    while r.len() < target
        invariant
            data@.len() <= r@.len() <= target,
            target == aligned_size_spec(data@.len()),
            r@.take(data@.len() as int) == data@,
            forall|k: int| data@.len() <= k < r@.len() ==> r@[k] == 0,
        decreases target - r@.len(),
    {
        r.push(0);
        assert(r@.take(data@.len() as int) =~= data@);
    }
    r
}

/// Trims a device result back to the caller's original length.
pub fn trim_to_length(data: &Vec<u8>, len: usize) -> (r: Vec<u8>)
    requires
        len <= data@.len(),
    ensures
        r@ == data@.take(len as int),
{
    let mut r: Vec<u8> = Vec::new();
    let mut i: usize = 0;
    while i < len
        invariant
            len <= data@.len(),
            i <= len,
            r@ == data@.take(i as int),
        decreases len - i,
    {
        r.push(data[i]);
        i = i + 1;
        assert(r@ =~= data@.take(i as int));
    }
    r
}

} // verus!
