//! Path filter: decides which directory entries are eligible candidates.
//!
//! A candidate must not be hidden, must be a regular file, must carry one of
//! the recognized image extensions (an exact, case-sensitive set), and must
//! not be empty. Entry names are handled as their UTF-8 bytes.

use vstd::prelude::*;

verus! {

/// A name is hidden when it begins with an ASCII dot.
pub open spec fn is_hidden_spec(name: Seq<u8>) -> bool {
    name.len() > 0 && name[0] == 46u8
}

/// The name ends with the given suffix.
pub open spec fn has_suffix_spec(name: Seq<u8>, suffix: Seq<u8>) -> bool {
    name.len() >= suffix.len() && name.skip(name.len() - suffix.len()) == suffix
}

/// The recognized image extensions: `.jpeg`, `.JPEG`, `.jpg`, `.JPG`,
/// `.png`, `.PNG` — exact and case-sensitive.
pub open spec fn is_applicable_image_spec(name: Seq<u8>) -> bool {
    ||| has_suffix_spec(name, seq![46u8, 106u8, 112u8, 101u8, 103u8])
    ||| has_suffix_spec(name, seq![46u8, 74u8, 80u8, 69u8, 71u8])
    ||| has_suffix_spec(name, seq![46u8, 106u8, 112u8, 103u8])
    ||| has_suffix_spec(name, seq![46u8, 74u8, 80u8, 71u8])
    ||| has_suffix_spec(name, seq![46u8, 112u8, 110u8, 103u8])
    ||| has_suffix_spec(name, seq![46u8, 80u8, 78u8, 71u8])
}

/// An entry is an eligible candidate: not hidden, a regular file, a
/// recognized image extension, and a non-zero byte size.
pub open spec fn eligible_spec(is_file: bool, name: Seq<u8>, size: u64) -> bool {
    &&& !is_hidden_spec(name)
    &&& is_file
    &&& is_applicable_image_spec(name)
    &&& size > 0
}

/// Decides whether an entry name is hidden (begins with `.`). A hidden
/// directory's whole subtree is pruned from the scan by the caller.
pub fn is_hidden(name: &[u8]) -> (r: bool)
    ensures
        r == is_hidden_spec(name@),
{
    name.len() > 0 && name[0] == 46u8
}

/// Decides whether `name` ends with `suffix`.
pub fn has_suffix(name: &[u8], suffix: &[u8]) -> (r: bool)
    ensures
        r == has_suffix_spec(name@, suffix@),
{
    let n: usize = name.len();
    let m: usize = suffix.len();
    if n < m {
        return false;
    }
    let off: usize = n - m;
    let mut k: usize = 0;
    while k < m
        invariant
            n == name@.len(),
            m == suffix@.len(),
            m <= n,
            off == n - m,
            k <= m,
            forall|t: int| 0 <= t < k ==> name@[off + t] == suffix@[t],
        decreases m - k,
    {
        if name[off + k] != suffix[k] {
            assert(!has_suffix_spec(name@, suffix@)) by {
                if name@.skip(name@.len() - suffix@.len()) == suffix@ {
                    assert(name@.skip(off as int)[k as int] == name@[off + k]);
                }
            }
            return false;
        }
        k += 1;
    }
    assert(name@.skip(off as int) =~= suffix@);
    true
}

/// Decides whether an entry name carries one of the recognized image
/// extensions.
pub fn is_applicable_image(name: &[u8]) -> (r: bool)
    ensures
        r == is_applicable_image_spec(name@),
{
    let jpeg_lower: [u8; 5] = [46u8, 106u8, 112u8, 101u8, 103u8];
    let jpeg_upper: [u8; 5] = [46u8, 74u8, 80u8, 69u8, 71u8];
    let jpg_lower: [u8; 4] = [46u8, 106u8, 112u8, 103u8];
    let jpg_upper: [u8; 4] = [46u8, 74u8, 80u8, 71u8];
    let png_lower: [u8; 4] = [46u8, 112u8, 110u8, 103u8];
    let png_upper: [u8; 4] = [46u8, 80u8, 78u8, 71u8];
    has_suffix(name, jpeg_lower.as_slice()) || has_suffix(name, jpeg_upper.as_slice())
        || has_suffix(name, jpg_lower.as_slice()) || has_suffix(name, jpg_upper.as_slice())
        || has_suffix(name, png_lower.as_slice()) || has_suffix(name, png_upper.as_slice())
}

/// Applies the whole path-filter rule to one entry.
pub fn is_eligible(is_file: bool, name: &[u8], size: u64) -> (r: bool)
    ensures
        r == eligible_spec(is_file, name@, size),
{
    if is_hidden(name) {
        return false;
    }
    if !is_file {
        return false;
    }
    if !is_applicable_image(name) {
        return false;
    }
    size > 0
}

} // verus!
