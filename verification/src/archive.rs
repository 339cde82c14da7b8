//! Which entries of the data directory are moved into the folder of the day.

use vstd::prelude::*;
use vstd::std_specs::iter::IteratorSpec;
use vstd::string::StrSliceExecFns;

verus! {

/// `name` is one of the two files that stay in the data directory.
pub open spec fn is_reserved(name: Seq<char>) -> bool {
    name == "solutions.json"@ || name == "blank.png"@
}

/// Tells whether two strings hold the same characters.
pub fn same_text(a: &str, b: &str) -> (same: bool)
    ensures
        same == (a@ == b@),
{
    let n = a.unicode_len();
    if n != b.unicode_len() {
        return false;
    }
    let mut rest = b.chars();
    for c in it: a.chars()
        invariant
            n == a@.len(),
            n == b@.len(),
            it.seq() == a@,
            it.index() <= n,
            rest.remaining() == b@.skip(it.index() as int),
            forall|k: int| 0 <= k < it.index() ==> a@[k] == b@[k],
    {
        let ghost i = it.index() as int;
        let ghost before = rest;
        let other = rest.next();
        proof {
            assert(before.remaining().len() > 0);
            assert(before.remaining()[0] == b@[i]);
            assert(before.remaining().drop_first() =~= b@.skip(i + 1));
        }
        if other != Some(c) {
            return false;
        }
    }
    assert(a@ =~= b@);
    true
}

/// An entry of the data directory is moved into the folder of the day if it is
/// a file, is not one of the two reserved files, and does not have the name of
/// the day.
pub fn should_archive(is_file: bool, file_name: &str, date: &str) -> (moved: bool)
    ensures
        moved == (is_file && !is_reserved(file_name@) && file_name@ != date@),
{
    is_file && !same_text(file_name, "solutions.json") && !same_text(file_name, "blank.png")
        && !same_text(file_name, date)
}

} // verus!
