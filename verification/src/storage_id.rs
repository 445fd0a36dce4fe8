//! Identifiers that name files, below directories whose names slashes separate.
use vstd::prelude::*;

use crate::failure::{fault_of, Failure};
use crate::text::{join2, same_text, split, split_on, texts};

verus! {

/// A segment between slashes that a path passes over: nothing, or the current
/// directory.
pub open spec fn passed_over(segment: Seq<char>) -> bool {
    segment.len() == 0 || segment == "."@
}

/// Whether `value`, read as a path, is a single plain component: its first
/// segment is a name and no other segment names anything.
pub open spec fn is_safe_id(value: Seq<char>) -> bool {
    let parts = split_on(value, '/');
    &&& !passed_over(parts[0])
    &&& parts[0] != ".."@
    &&& forall|i: int| 1 <= i < parts.len() ==> passed_over(#[trigger] parts[i])
}

/// What is wrong with `value` as an identifier.
pub open spec fn storage_id_fault(kind: Seq<char>, value: Seq<char>) -> Option<Seq<char>> {
    if value.len() == 0 {
        Some(kind + " must not be empty"@)
    } else if !is_safe_id(value) {
        Some(kind + " must be a single path component"@)
    } else {
        None
    }
}

fn skips(segment: &str) -> (r: bool)
    ensures
        r == passed_over(segment@),
{
    proof {
        reveal_strlit("");
        assert(segment@.len() == 0 ==> segment@ =~= ""@);
    }
    same_text(segment, "") || same_text(segment, ".")
}

/// Accepts `value` as a file name only where it is a single plain path component.
pub fn ensure_safe_storage_id(kind: &str, value: &str) -> (r: Result<(), Failure>)
    ensures
        fault_of(r) == storage_id_fault(kind@, value@),
{
    proof {
        reveal_strlit("");
        assert(value@.len() == 0 ==> value@ =~= ""@);
    }
    if same_text(value, "") {
        return Err(Failure { message: join2(kind, " must not be empty") });
    }
    let parts = split(value, '/');
    let ghost all = texts(parts@);
    assert(all[0] == parts@[0]@);
    let mut plain = !skips(parts[0].as_str()) && !same_text(parts[0].as_str(), "..");
    let mut i: usize = 1;
    while i < parts.len()
        invariant
            1 <= i <= parts@.len(),
            all == texts(parts@),
            plain == (!passed_over(all[0]) && all[0] != ".."@ && forall|k: int|
                1 <= k < i ==> passed_over(#[trigger] all[k])),
        decreases parts@.len() - i,
    {
        assert(all[i as int] == parts@[i as int]@);
        if !skips(parts[i].as_str()) {
            plain = false;
        }
        i += 1;
    }
    if plain {
        Ok(())
    } else {
        Err(Failure { message: join2(kind, " must be a single path component") })
    }
}

} // verus!
