//! Enumeration of arrangements and of Cartesian products, done by `itertools`.
//!
//! Verus does not look inside `itertools`. The functions here that call it
//! carry contracts that are taken on trust from its documentation and source.

use crate::expression::Element;
use itertools::structs::Permutations;
use itertools::Itertools;
use std::ops::Range;
use vstd::prelude::*;

verus! {

/// An arrangement of length `k` over `n` positions: `k` positions below `n`,
/// no position twice.
pub open spec fn is_arrangement(order: Seq<usize>, n: nat, k: nat) -> bool {
    &&& order.len() == k
    &&& forall|i: int| 0 <= i < order.len() ==> (#[trigger] order[i]) < n
    &&& order.no_duplicates()
}

/// `items` lists arrangements of length `k` over `n` positions, and misses none.
pub open spec fn lists_arrangements(items: Seq<Seq<usize>>, n: nat, k: nat) -> bool {
    &&& forall|j: int| 0 <= j < items.len() ==> is_arrangement(#[trigger] items[j], n, k)
    &&& forall|order: Seq<usize>| #[trigger]
        is_arrangement(order, n, k) ==> items.contains(order)
}

/// The contents of each vector.
pub open spec fn rows_of(vectors: Seq<Vec<Element>>) -> Seq<Seq<Element>> {
    vectors.map_values(|row: Vec<Element>| row@)
}

/// A row of a Cartesian product: one value from each pool, in the pools' order.
pub open spec fn is_choice(pools: Seq<Seq<Element>>, row: Seq<Element>) -> bool {
    &&& row.len() == pools.len()
    &&& forall|i: int| 0 <= i < row.len() ==> (#[trigger] pools[i]).contains(row[i])
}

/// The number of rows of a Cartesian product: the product of the pools' sizes.
pub open spec fn count_choices(pools: Seq<Seq<Element>>) -> nat
    decreases pools.len(),
{
    if pools.len() == 0 {
        1
    } else {
        count_choices(pools.drop_last()) * pools.last().len()
    }
}

/// `itertools::structs::Permutations`, the iterator that
/// `Itertools::permutations` returns. Nothing inside it is visible here.
#[verifier::external_type_specification]
#[verifier::external_body]
#[verifier::reject_recursive_types(I)]
pub struct ExPermutations<I: Iterator>(Permutations<I>);

/// The arrangements that a walk over the positions `0..n` has yet to hand
/// out, in the order in which it will hand them out.
pub uninterp spec fn pending(walk: Permutations<Range<usize>>) -> Seq<Seq<usize>>;

/// Calls `Itertools::permutations` on the range `0..n`.
///
/// Trusted: the iterator hands out every arrangement of length `k` over the
/// positions `0..n`, and nothing else. Nothing is claimed of their order.
#[verifier::external_body]
pub(crate) fn arrangements(n: usize, k: usize) -> (walk: Permutations<Range<usize>>)
    ensures
        lists_arrangements(pending(walk), n as nat, k as nat),
{
    (0..n).permutations(k)
}

/// Calls `Iterator::next` on a walk made by `arrangements`.
///
/// Trusted: the call hands out the first pending arrangement and leaves the
/// others pending; once none is pending it returns `None`, and goes on doing so.
#[verifier::external_body]
pub(crate) fn next_arrangement(walk: &mut Permutations<Range<usize>>) -> (item: Option<
    Vec<usize>,
>)
    ensures
        match item {
            Some(order) => {
                &&& pending(*old(walk)).len() > 0
                &&& order@ == pending(*old(walk))[0]
                &&& pending(*final(walk)) == pending(*old(walk)).skip(1)
            },
            None => pending(*old(walk)).len() == 0 && pending(*final(walk)).len() == 0,
        },
{
    walk.next()
}

/// Calls `Itertools::multi_cartesian_product` on the pools and collects what
/// it yields.
///
/// Trusted: the rows are the ways of taking one value from each pool, in the
/// pools' order, and every such way is among them; there are as many rows as
/// the product of the pools' sizes; and where no pool holds a value twice, no
/// row comes twice. Nothing is claimed of the rows' order.
#[verifier::external_body]
pub(crate) fn cartesian_product(pools: Vec<Vec<Element>>) -> (rows: Vec<Vec<Element>>)
    requires
        count_choices(rows_of(pools@)) <= usize::MAX,
    ensures
        forall|j: int|
            0 <= j < rows@.len() ==> is_choice(rows_of(pools@), #[trigger] rows_of(rows@)[j]),
        forall|row: Seq<Element>| #[trigger]
            is_choice(rows_of(pools@), row) ==> rows_of(rows@).contains(row),
        rows@.len() == count_choices(rows_of(pools@)),
        (forall|i: int| 0 <= i < pools@.len() ==> (#[trigger] rows_of(pools@)[i]).no_duplicates())
            ==> rows_of(rows@).no_duplicates(),
{
    pools.into_iter().multi_cartesian_product().collect()
}

} // verus!
