//! Small string helpers shared by the library.

use vstd::prelude::*;

verus! {

/// Equality of two string slices by their character sequences.
pub fn str_eq(a: &str, b: &str) -> (r: bool)
    ensures
        r == (a@ == b@),
{
    let owned_a: String = a.to_owned();
    let owned_b: String = b.to_owned();
    owned_a == owned_b
}

/// The character sequences of a list of strings.
pub open spec fn name_views(names: Seq<String>) -> Seq<Seq<char>> {
    names.map_values(|s: String| s@)
}

/// First position holding `key`, scanning left to right.
pub fn find_key_i32(keys: &Vec<i32>, key: i32) -> (r: Option<usize>)
    ensures
        match r {
            Some(i) => i < keys@.len() && keys@[i as int] == key
                && (forall|t: int| 0 <= t < i ==> keys@[t] != key),
            None => forall|t: int| 0 <= t < keys@.len() ==> keys@[t] != key,
        },
{
    let mut i: usize = 0;
    while i < keys.len()
        invariant
            i <= keys@.len(),
            forall|t: int| 0 <= t < i ==> keys@[t] != key,
        decreases keys@.len() - i,
    {
        if keys[i] == key {
            return Some(i);
        }
        i += 1;
    }
    None
}

/// First position whose string has the characters of `key`, scanning left to
/// right.
pub fn find_key_name(keys: &Vec<String>, key: &String) -> (r: Option<usize>)
    ensures
        match r {
            Some(i) => i < keys@.len() && keys@[i as int]@ == key@
                && (forall|t: int| 0 <= t < i ==> keys@[t]@ != key@),
            None => forall|t: int| 0 <= t < keys@.len() ==> keys@[t]@ != key@,
        },
{
    let mut i: usize = 0;
    while i < keys.len()
        invariant
            i <= keys@.len(),
            forall|t: int| 0 <= t < i ==> keys@[t]@ != key@,
        decreases keys@.len() - i,
    {
        if keys[i].eq(key) {
            return Some(i);
        }
        i += 1;
    }
    None
}

/// Whether `key` occurs in the list.
pub fn contains_i32(keys: &Vec<i32>, key: i32) -> (r: bool)
    ensures
        r == keys@.contains(key),
{
    match find_key_i32(keys, key) {
        Some(i) => {
            proof {
                assert(keys@[i as int] == key);
            }
            true
        },
        None => {
            proof {
                assert(!keys@.contains(key));
            }
            false
        },
    }
}

/// Whether a string with the characters of `key` occurs in the list.
pub fn contains_name(keys: &Vec<String>, key: &String) -> (r: bool)
    ensures
        r == name_views(keys@).contains(key@),
{
    match find_key_name(keys, key) {
        Some(i) => {
            proof {
                assert(name_views(keys@)[i as int] == key@);
            }
            true
        },
        None => {
            proof {
                assert forall|t: int| 0 <= t < name_views(keys@).len() implies name_views(keys@)[t]
                    != key@ by {
                    assert(name_views(keys@)[t] == keys@[t]@);
                }
            }
            false
        },
    }
}

} // verus!
