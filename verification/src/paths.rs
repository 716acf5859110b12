//! Joining path components, as `Path::join` does for relative components.
use vstd::prelude::*;

use crate::text::{chars_of, push_char, push_str};

verus! {

/// `base` joined with `comp`: an absolute component replaces the base, an
/// empty base yields the component, and a separator is inserted unless the
/// base already ends with one.
pub open spec fn spec_join(base: Seq<char>, comp: Seq<char>) -> Seq<char> {
    if comp.len() > 0 && comp[0] == '/' {
        comp
    } else if base.len() == 0 {
        comp
    } else if base.last() == '/' {
        base + comp
    } else {
        base + seq!['/'] + comp
    }
}

/// Joins a path component onto a base path.
pub fn join_path(base: &str, comp: &str) -> (r: String)
    ensures
        r@ == spec_join(base@, comp@),
{
    let b = chars_of(base);
    let c = chars_of(comp);
    let mut r = String::new();
    if c.len() > 0 && c[0] == '/' {
        push_str(&mut r, comp);
    } else if b.len() == 0 {
        push_str(&mut r, comp);
    } else if b[b.len() - 1] == '/' {
        push_str(&mut r, base);
        push_str(&mut r, comp);
    } else {
        push_str(&mut r, base);
        push_char(&mut r, '/');
        push_str(&mut r, comp);
    }
    proof {
        assert(r@ =~= spec_join(base@, comp@));
    }
    r
}

} // verus!
