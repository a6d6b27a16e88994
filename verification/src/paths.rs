use crate::text::chars_of;
use vstd::prelude::*;
use vstd::string::*;

verus! {

/// `base` joined with `rel` as `PathBuf::join` does on Unix: an absolute `rel` replaces
/// `base`; otherwise a `/` is put between them unless `base` is empty or already ends with one.
pub open spec fn path_join(base: Seq<char>, rel: Seq<char>) -> Seq<char> {
    if rel.len() > 0 && rel[0] == '/' {
        rel
    } else if base.len() == 0 || base.last() == '/' {
        base + rel
    } else {
        base + "/"@ + rel
    }
}

/// Joins `base` with `rel` (std `Path::join` on Unix).
pub fn join_path(base: &str, rel: &str) -> (r: String)
    ensures
        r@ == path_join(base@, rel@),
{
    let rel_chars = chars_of(rel);
    if rel_chars.len() > 0 && rel_chars[0] == '/' {
        return rel.to_owned();
    }
    let chars = chars_of(base);
    let mut r = base.to_owned();
    if chars.len() == 0 || chars[chars.len() - 1] == '/' {
        r.append(rel);
    } else {
        r.append("/");
        r.append(rel);
    }
    r
}

} // verus!
