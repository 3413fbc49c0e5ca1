//! Where fetched source blobs live on disk, addressed by their digest.

use vstd::prelude::*;
use crate::strutil::{chars_of, string_of, append_chars, copy_range};

verus! {

/// Path of a fetched source blob:
/// `build-cache/source/<h[0:2]>/<h[2:4]>/<h>`.
pub fn source_path(hash: &str) -> (r: String)
    requires
        hash@.len() >= 4,
    ensures
        r@ == "build-cache/source/"@ + hash@.take(2) + "/"@ + hash@.subrange(2, 4) + "/"@ + hash@,
{
    let hc = chars_of(hash);
    let mut out = chars_of("build-cache/source/");
    let pre = copy_range(&hc, 0, 2);
    proof {
        assert(pre@ =~= hash@.take(2));
    }
    append_chars(&mut out, &pre);
    let sep = chars_of("/");
    append_chars(&mut out, &sep);
    let mid = copy_range(&hc, 2, 4);
    append_chars(&mut out, &mid);
    append_chars(&mut out, &sep);
    append_chars(&mut out, &hc);
    string_of(&out)
}

} // verus!
