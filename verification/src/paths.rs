//! Paths as strings, joined the way `std::path::Path::join` joins them on Unix.

use vstd::prelude::*;

use crate::text::{chars_of, concat_chars, string_of};

verus! {

broadcast use vstd::string::group_string_axioms;

/// Whether a path is absolute (starts at the root).
pub open spec fn is_absolute_spec(p: Seq<char>) -> bool {
    p.len() > 0 && p[0] == '/'
}

/// `base` joined with `rest`: an absolute `rest` replaces `base`; otherwise a
/// separator is put between them unless `base` is empty or already ends in one.
pub open spec fn join_spec(base: Seq<char>, rest: Seq<char>) -> Seq<char> {
    if is_absolute_spec(rest) {
        rest
    } else if base.len() == 0 || base.last() == '/' {
        base + rest
    } else {
        base + seq!['/'] + rest
    }
}

/// Whether `p` is an absolute path.
pub fn is_absolute(p: &str) -> (r: bool)
    ensures
        r == is_absolute_spec(p@),
{
    let cs = chars_of(p);
    cs.len() > 0 && cs[0] == '/'
}

/// `base` joined with `rest`.
pub fn join(base: &str, rest: &str) -> (r: String)
    ensures
        r@ == join_spec(base@, rest@),
{
    let b = chars_of(base);
    let r = chars_of(rest);
    if r.len() > 0 && r[0] == '/' {
        return string_of(&r);
    }
    if b.len() == 0 || b[b.len() - 1] == '/' {
        let v = concat_chars(&b, &r);
        string_of(&v)
    } else {
        let mut b2 = b.clone();
        b2.push('/');
        let v = concat_chars(&b2, &r);
        proof {
            assert(b2@ == b@ + seq!['/']);
        }
        string_of(&v)
    }
}

} // verus!
