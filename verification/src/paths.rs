//! Paths as texts, with `/` between their components.

use crate::text::{chars_of, push_all, string_of};
use vstd::prelude::*;

verus! {

/// The path of `name` inside `base`. A `name` that begins with `/` stands for
/// itself; an empty `base` adds nothing; otherwise the two are joined by a
/// `/`, unless `base` ends with one.
pub open spec fn join_path(base: Seq<char>, name: Seq<char>) -> Seq<char> {
    if name.len() > 0 && name[0] == '/' {
        name
    } else if base.len() == 0 {
        name
    } else if base.last() == '/' {
        base + name
    } else {
        base + seq!['/'] + name
    }
}

/// The path of `name` inside `base`.
pub fn join(base: &str, name: &str) -> (r: String)
    ensures
        r@ == join_path(base@, name@),
{
    let b = chars_of(base);
    let n = chars_of(name);
    if n.len() > 0 && n[0] == '/' {
        return string_of(n.as_slice());
    }
    if b.len() == 0 {
        return string_of(n.as_slice());
    }
    let mut out: Vec<char> = Vec::new();
    push_all(&mut out, b.as_slice());
    if b[b.len() - 1] != '/' {
        out.push('/');
    }
    push_all(&mut out, n.as_slice());
    assert(out@ =~= join_path(base@, name@));
    string_of(out.as_slice())
}

} // verus!
