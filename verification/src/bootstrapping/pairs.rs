//! The bijective map between names and numbers that an encoding context
//! keeps, as far as this library uses it.
//!
//! The map is `bimap::BiHashMap`. Nothing in this file is proved: each
//! function states what the map's documentation and source say of one of
//! its methods, over the pairs that the map holds.

use bimap::BiHashMap;
use std::collections::hash_map::RandomState;
use vstd::prelude::*;

verus! {

#[verifier::external_type_specification]
#[verifier::external_body]
#[verifier::reject_recursive_types(L)]
#[verifier::reject_recursive_types(R)]
#[verifier::reject_recursive_types(LS)]
#[verifier::reject_recursive_types(RS)]
pub struct ExBiHashMap<L, R, LS, RS>(BiHashMap<L, R, LS, RS>);

/// The pairs that a map holds, as the number that each name stands with.
pub uninterp spec fn pairs(map: BiHashMap<String, usize, RandomState, RandomState>) -> Map<
    Seq<char>,
    nat,
>;

/// The pairs after `left` and `right` were put in: the pair that held
/// `left` and the pair that held `right` are gone, and the new pair stands.
pub open spec fn inserted(held: Map<Seq<char>, nat>, left: Seq<char>, right: nat) -> Map<
    Seq<char>,
    nat,
> {
    Map::new(
        |name: Seq<char>| name == left || (held.contains_key(name) && held[name] != right),
        |name: Seq<char>|
            if name == left {
                right
            } else {
                held[name]
            },
    )
}

/// `BiHashMap::new`: the map it makes holds no pair.
#[verifier::external_body]
pub(crate) fn empty_map() -> (result: BiHashMap<String, usize, RandomState, RandomState>)
    ensures
        forall|name: Seq<char>| !(#[trigger] pairs(result).contains_key(name)),
{
    BiHashMap::new()
}

/// `BiHashMap::get_by_left`: the number that stands with `left`, where a
/// pair holds `left`.
#[verifier::external_body]
pub(crate) fn number_of(
    map: &BiHashMap<String, usize, RandomState, RandomState>,
    left: &String,
) -> (result: Option<usize>)
    ensures
        match result {
            Some(right) => pairs(*map).contains_key(left@) && pairs(*map)[left@] == right as nat,
            None => !pairs(*map).contains_key(left@),
        },
{
    map.get_by_left(left).copied()
}

/// `BiHashMap::get_by_right`: a copy of the name that stands with `right`,
/// where a pair holds `right`.
#[verifier::external_body]
pub(crate) fn name_of(
    map: &BiHashMap<String, usize, RandomState, RandomState>,
    right: usize,
) -> (result: Option<String>)
    ensures
        match result {
            Some(left) => pairs(*map).contains_key(left@) && pairs(*map)[left@] == right as nat,
            None => forall|name: Seq<char>|
                pairs(*map).contains_key(name) ==> #[trigger] pairs(*map)[name] != right as nat,
        },
{
    map.get_by_right(&right).cloned()
}

/// `BiHashMap::insert`: puts the pair in, and removes the pair that held
/// `left` and the pair that held `right` before.
#[verifier::external_body]
pub(crate) fn put(
    map: &mut BiHashMap<String, usize, RandomState, RandomState>,
    left: String,
    right: usize,
)
    ensures
        pairs(*final(map)) == inserted(pairs(*old(map)), left@, right as nat),
{
    map.insert(left, right);
}

/// `BiHashMap::iter`: copies of the pairs that the map holds, each pair
/// once, in an order that is not stated.
#[verifier::external_body]
pub(crate) fn listed(map: &BiHashMap<String, usize, RandomState, RandomState>) -> (result: Vec<
    (String, usize),
>)
    ensures
        forall|i: int|
            0 <= i < result@.len() ==> pairs(*map).contains_key((#[trigger] result@[i]).0@)
                && pairs(*map)[result@[i].0@] == result@[i].1 as nat,
        forall|name: Seq<char>| #[trigger]
            pairs(*map).contains_key(name) ==> exists|i: int|
                0 <= i < result@.len() && (#[trigger] result@[i]).0@ == name,
        forall|i: int, j: int|
            0 <= i < j < result@.len() ==> (#[trigger] result@[i]).0@ != (#[trigger] result@[j]).0@,
{
    map.iter().map(|(left, right)| (left.clone(), *right)).collect()
}

/// `BiHashMap::clone`: the copy holds the same pairs.
#[verifier::external_body]
pub(crate) fn copied(map: &BiHashMap<String, usize, RandomState, RandomState>) -> (result:
    BiHashMap<String, usize, RandomState, RandomState>)
    ensures
        pairs(result) == pairs(*map),
{
    map.clone()
}

} // verus!
