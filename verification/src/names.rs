//! Name lookup for the deduplicating arenas.
//!
//! Every store keys its entries by name; the key list is a vector kept
//! free of duplicates, and an entry's identifier is its position in it.

use vstd::prelude::*;

verus! {

/// Whether `name` occurs among `names`.
pub open spec fn spec_contains_name(names: Seq<String>, name: Seq<char>) -> bool {
    exists|j: int| 0 <= j < names.len() && names[j]@ == name
}

/// The position of `name` among `names`; meaningful only when the names
/// are pairwise distinct and `name` occurs.
pub open spec fn spec_name_index(names: Seq<String>, name: Seq<char>) -> int {
    choose|j: int| 0 <= j < names.len() && names[j]@ == name
}

/// Whether the names are pairwise distinct.
pub open spec fn spec_names_distinct(names: Seq<String>) -> bool {
    forall|i: int, j: int| 0 <= i < j < names.len() ==> names[i]@ != names[j]@
}

/// Finds the first position of `name` among `names`.
pub fn find_name(names: &Vec<String>, name: &String) -> (r: Option<usize>)
    ensures
        match r {
            Some(i) => i < names@.len() && names@[i as int]@ == name@ && forall|j: int|
                0 <= j < i ==> names@[j]@ != name@,
            None => !spec_contains_name(names@, name@),
        },
        r is Some <==> spec_contains_name(names@, name@),
{
    let mut i: usize = 0;
    while i < names.len()
        invariant
            i <= names@.len(),
            forall|j: int| 0 <= j < i ==> names@[j]@ != name@,
        decreases names@.len() - i,
    {
        if names[i] == *name {
            return Some(i);
        }
        i = i + 1;
    }
    None
}

/// Under distinctness, the first position found is the only one.
pub proof fn lemma_name_index_unique(names: Seq<String>, name: Seq<char>, i: int)
    requires
        spec_names_distinct(names),
        0 <= i < names.len(),
        names[i]@ == name,
    ensures
        spec_name_index(names, name) == i,
{
    let j = spec_name_index(names, name);
    assert(0 <= j < names.len() && names[j]@ == name);
}

} // verus!
