use vstd::prelude::*;
use crate::model::{Annotation, Arg};

verus! {

/// The arguments of `a` when it is list-shaped and its head is exactly `name`.
pub open spec fn meta_args(a: Annotation, name: Seq<char>) -> Option<Seq<Arg>> {
    match a.args {
        Some(args) => if a.head@ == name { Some(args@) } else { None },
        None => None,
    }
}

/// Reads annotation `attr` as `path(args...)`: its arguments when it is
/// list-shaped and its head is `path`, else nothing.
pub fn parse_meta_with_path<'a>(attr: &'a Annotation, path: &str) -> (r: Option<&'a Vec<Arg>>)
    ensures
        match r {
            Some(args) => meta_args(*attr, path@) == Some(args@),
            None => meta_args(*attr, path@) is None,
        },
{
    match &attr.args {
        Some(args) => {
            let head = attr.head.as_str();
            if str_eq(head, path) {
                Some(args)
            } else {
                None
            }
        },
        None => None,
    }
}

/// Whether two strings hold the same characters.
pub fn str_eq(a: &str, b: &str) -> (r: bool)
    ensures
        r == (a@ == b@),
{
    let n = a.unicode_len();
    if n != b.unicode_len() {
        return false;
    }
    let mut i: usize = 0;
    while i < n
        invariant
            n == a@.len(),
            n == b@.len(),
            i <= n,
            a@.subrange(0, i as int) == b@.subrange(0, i as int),
        decreases n - i,
    {
        if a.get_char(i) != b.get_char(i) {
            return false;
        }
        assert(a@.subrange(0, i + 1) =~= a@.subrange(0, i as int).push(a@[i as int]));
        assert(b@.subrange(0, i + 1) =~= b@.subrange(0, i as int).push(b@[i as int]));
        i = i + 1;
    }
    assert(a@ =~= a@.subrange(0, n as int));
    assert(b@ =~= b@.subrange(0, n as int));
    true
}

} // verus!
