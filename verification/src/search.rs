//! The search: every arrangement of the numbers and operator slots, at each of
//! the five lengths, is evaluated until one reaches the target.

use crate::enumerate::{
    arrangements, cartesian_product, count_choices, is_arrangement, is_choice,
    lists_arrangements, next_arrangement, pending, rows_of,
};
use crate::expression::{compute, evaluate, pointees, Element};
use vstd::prelude::*;

verus! {

/// The tokens found at the positions of `order`, in that order.
pub open spec fn arrange(tokens: Seq<Element>, order: Seq<usize>) -> Seq<Element> {
    order.map_values(|position: usize| tokens[position as int])
}

/// `expression` is made of `length` of the tokens, each position used at most
/// once, in some order.
pub open spec fn is_draw(tokens: Seq<Element>, length: nat, expression: Seq<Element>) -> bool {
    exists|order: Seq<usize>| #[trigger]
        is_arrangement(order, tokens.len(), length) && expression == arrange(tokens, order)
}

/// The lengths at which expressions are tried.
pub open spec fn is_length(length: nat) -> bool {
    length == 11 || length == 9 || length == 7 || length == 5 || length == 3
}

/// `expression` is one of the expressions tried over these tokens.
pub open spec fn is_candidate_of(tokens: Seq<Element>, expression: Seq<Element>) -> bool {
    is_length(expression.len()) && is_draw(tokens, expression.len(), expression)
}

/// The numbers as operand tokens.
pub open spec fn operands(numbers: Seq<usize>) -> Seq<Element> {
    numbers.map_values(|n: usize| Element::Number(n))
}

/// A filling of the five operator slots.
pub open spec fn is_slots(operators: Seq<Element>) -> bool {
    &&& operators.len() == 5
    &&& forall|i: int| 0 <= i < operators.len() ==> (#[trigger] operators[i]).is_operator()
}

/// The four operators, each once.
pub open spec fn is_pool(pool: Seq<Element>) -> bool {
    pool == seq![Element::Add, Element::Subtract, Element::Multiply, Element::Divide]
}

/// Four to the power of `n`.
pub open spec fn four_to(n: nat) -> nat
    decreases n,
{
    if n == 0 {
        1
    } else {
        4 * four_to((n - 1) as nat)
    }
}

/// `expression` is one of the expressions tried for these numbers, under
/// some filling of the operator slots.
pub open spec fn is_candidate(numbers: Seq<usize>, expression: Seq<Element>) -> bool {
    exists|operators: Seq<Element>| #[trigger]
        is_slots(operators) && is_candidate_of(operands(numbers) + operators, expression)
}

/// `expression` is a candidate for these numbers whose value is the target.
pub open spec fn is_solution(numbers: Seq<usize>, target: usize, expression: Seq<Element>) -> bool {
    is_candidate(numbers, expression) && evaluate(expression) == Some(target)
}

/// Some candidate for these numbers has the target as its value.
pub open spec fn solvable(numbers: Seq<usize>, target: usize) -> bool {
    exists|expression: Seq<Element>| #[trigger] is_solution(numbers, target, expression)
}

/// What a search may report: a solution, or nothing where there is none.
pub open spec fn is_outcome(numbers: Seq<usize>, target: usize, found: Option<Vec<Element>>) -> bool {
    match found {
        Some(expression) => is_solution(numbers, target, expression@),
        None => !solvable(numbers, target),
    }
}

/// References to the tokens at the positions of `order`.
fn select<'a>(tokens: &'a Vec<Element>, order: &Vec<usize>) -> (candidate: Vec<&'a Element>)
    requires
        forall|i: int| 0 <= i < order@.len() ==> (#[trigger] order@[i]) < tokens@.len(),
    ensures
        pointees(candidate@) == arrange(tokens@, order@),
{
    let mut candidate: Vec<&Element> = Vec::with_capacity(order.len());
    let mut i: usize = 0;
    while i < order.len()
        invariant
            i <= order@.len(),
            forall|i: int| 0 <= i < order@.len() ==> (#[trigger] order@[i]) < tokens@.len(),
            candidate@.len() == i,
            pointees(candidate@) == arrange(tokens@, order@.take(i as int)),
        decreases order@.len() - i,
    {
        let ghost before = pointees(candidate@);
        candidate.push(&tokens[order[i]]);
        assert(pointees(candidate@) =~= before.push(tokens@[order@[i as int] as int]));
        assert(pointees(candidate@) =~= arrange(tokens@, order@.take(i + 1)));
        i += 1;
    }
    assert(order@.take(i as int) =~= order@);
    candidate
}

/// Copies of the tokens that the references point at.
fn owned(candidate: &Vec<&Element>) -> (expression: Vec<Element>)
    ensures
        expression@ == pointees(candidate@),
{
    let mut expression: Vec<Element> = Vec::with_capacity(candidate.len());
    let mut i: usize = 0;
    while i < candidate.len()
        invariant
            i <= candidate@.len(),
            expression@.len() == i,
            expression@ == pointees(candidate@).take(i as int),
        decreases candidate@.len() - i,
    {
        expression.push(*candidate[i]);
        assert(expression@ =~= pointees(candidate@).take(i + 1));
        i += 1;
    }
    assert(pointees(candidate@).take(i as int) =~= pointees(candidate@));
    expression
}

/// Tries every arrangement of `length` of the tokens. Returns one whose value
/// is the target, or `None` where there is none. The empty expression has no
/// value, so at length zero there is none.
pub fn search_length(tokens: &Vec<Element>, length: usize, target: usize) -> (found: Option<
    Vec<Element>,
>)
    ensures
        match found {
            Some(expression) => is_draw(tokens@, length as nat, expression@) && evaluate(
                expression@,
            ) == Some(target),
            None => forall|expression: Seq<Element>| #[trigger]
                is_draw(tokens@, length as nat, expression) ==> evaluate(expression) != Some(
                    target,
                ),
        },
{
    if length == 0 {
        assert forall|expression: Seq<Element>| #[trigger]
            is_draw(tokens@, 0, expression) implies evaluate(expression).is_none() by {
            assert(expression.len() == 0);
        }
        return None;
    }
    let mut walk = arrangements(tokens.len(), length);
    let ghost all = pending(walk);
    let ghost mut seen: int = 0;
    assert(all.skip(0) =~= all);
    loop
        invariant
            length > 0,
            lists_arrangements(all, tokens@.len(), length as nat),
            0 <= seen <= all.len(),
            pending(walk) == all.skip(seen),
            forall|j: int| 0 <= j < seen ==> evaluate(arrange(tokens@, #[trigger] all[j])) != Some(target),
        decreases pending(walk).len(),
    {
        match next_arrangement(&mut walk) {
            None => {
                assert forall|expression: Seq<Element>| #[trigger]
                    is_draw(tokens@, length as nat, expression) implies evaluate(expression)
                    != Some(target) by {
                    let order = choose|order: Seq<usize>| #[trigger]
                        is_arrangement(order, tokens@.len(), length as nat) && expression
                            == arrange(tokens@, order);
                    assert(all.contains(order));
                }
                return None;
            },
            Some(order) => {
                assert(order@ == all[seen]);
                assert(is_arrangement(all[seen], tokens@.len(), length as nat));
                let candidate = select(tokens, &order);
                if let Some(value) = compute(candidate.as_slice()) {
                    if value == target {
                        return Some(owned(&candidate));
                    }
                }
                proof {
                    assert(all.skip(seen).skip(1) =~= all.skip(seen + 1));
                    seen = seen + 1;
                }
            },
        }
    }
}

/// The numbers as operand tokens, followed by the operators.
fn assemble(numbers: &Vec<usize>, operators: &Vec<Element>) -> (tokens: Vec<Element>)
    ensures
        tokens@ == operands(numbers@) + operators@,
{
    let mut tokens: Vec<Element> = Vec::with_capacity(numbers.len());
    let mut i: usize = 0;
    while i < numbers.len()
        invariant
            i <= numbers@.len(),
            tokens@ == operands(numbers@).take(i as int),
        decreases numbers@.len() - i,
    {
        tokens.push(Element::Number(numbers[i]));
        assert(tokens@ =~= operands(numbers@).take(i + 1));
        i += 1;
    }
    assert(operands(numbers@).take(i as int) =~= operands(numbers@));
    let mut j: usize = 0;
    while j < operators.len()
        invariant
            j <= operators@.len(),
            tokens@ == operands(numbers@) + operators@.take(j as int),
        decreases operators@.len() - j,
    {
        tokens.push(operators[j]);
        assert(tokens@ =~= operands(numbers@) + operators@.take(j + 1));
        j += 1;
    }
    assert(operators@.take(j as int) =~= operators@);
    tokens
}

/// Searches the expressions made of the numbers and of one filling of the
/// operator slots, at each of the five lengths, the shortest first. Returns
/// one whose value is the target, or `None` where there is none.
pub fn search_slots(numbers: &Vec<usize>, operators: &Vec<Element>, target: usize) -> (found:
    Option<Vec<Element>>)
    ensures
        match found {
            Some(expression) => is_candidate_of(operands(numbers@) + operators@, expression@)
                && evaluate(expression@) == Some(target),
            None => forall|expression: Seq<Element>| #[trigger]
                is_candidate_of(operands(numbers@) + operators@, expression) ==> evaluate(
                    expression,
                ) != Some(target),
        },
{
    let tokens = assemble(numbers, operators);
    let mut length: usize = 3;
    while length <= 11
        invariant
            tokens@ == operands(numbers@) + operators@,
            3 <= length <= 13,
            length % 2 == 1,
            forall|expression: Seq<Element>|
                expression.len() < length && #[trigger] is_candidate_of(tokens@, expression)
                    ==> evaluate(expression) != Some(target),
        decreases 13 - length,
    {
        let found = search_length(&tokens, length, target);
        if found.is_some() {
            return found;
        }
        length += 2;
    }
    None
}

/// Pools that each hold the four operators give four times as many rows with
/// each pool, and none of them holds an operator twice.
proof fn lemma_count_pools(pools: Seq<Seq<Element>>)
    requires
        forall|i: int| 0 <= i < pools.len() ==> is_pool(#[trigger] pools[i]),
    ensures
        count_choices(pools) == four_to(pools.len()),
        forall|i: int| 0 <= i < pools.len() ==> (#[trigger] pools[i]).no_duplicates(),
    decreases pools.len(),
{
    if pools.len() > 0 {
        lemma_count_pools(pools.drop_last());
        assert(is_pool(pools.last()));
        assert(pools.last().len() == 4);
    }
}

/// The pool holds the operators and nothing else.
proof fn lemma_pool_holds(pool: Seq<Element>, token: Element)
    requires
        is_pool(pool),
    ensures
        pool.contains(token) == token.is_operator(),
{
    assert(pool[0] == Element::Add);
    assert(pool[1] == Element::Subtract);
    assert(pool[2] == Element::Multiply);
    assert(pool[3] == Element::Divide);
}

/// Every filling of the five operator slots, each slot holding one of the
/// four operators: 1024 fillings, each of them once.
pub fn operator_slots() -> (slots: Vec<Vec<Element>>)
    ensures
        slots@.len() == 1024,
        forall|j: int| 0 <= j < slots@.len() ==> is_slots(#[trigger] rows_of(slots@)[j]),
        forall|operators: Seq<Element>| #[trigger]
            is_slots(operators) ==> rows_of(slots@).contains(operators),
        rows_of(slots@).no_duplicates(),
{
    let mut pools: Vec<Vec<Element>> = Vec::with_capacity(5);
    while pools.len() < 5
        invariant
            pools@.len() <= 5,
            forall|i: int| 0 <= i < pools@.len() ==> is_pool(#[trigger] rows_of(pools@)[i]),
        decreases 5 - pools@.len(),
    {
        let ghost before = rows_of(pools@);
        let pool = vec![Element::Add, Element::Subtract, Element::Multiply, Element::Divide];
        pools.push(pool);
        assert(rows_of(pools@) =~= before.push(pool@));
    }
    let ghost given = rows_of(pools@);
    proof {
        lemma_count_pools(given);
        reveal_with_fuel(four_to, 6);
    }
    let slots = cartesian_product(pools);
    assert forall|j: int| 0 <= j < slots@.len() implies is_slots(
        #[trigger] rows_of(slots@)[j],
    ) by {
        let row = rows_of(slots@)[j];
        assert(is_choice(given, row));
        assert forall|i: int| 0 <= i < row.len() implies (#[trigger] row[i]).is_operator() by {
            assert(given[i].contains(row[i]));
            lemma_pool_holds(given[i], row[i]);
        }
    }
    assert forall|operators: Seq<Element>| #[trigger] is_slots(operators) implies rows_of(
        slots@,
    ).contains(operators) by {
        assert forall|i: int| 0 <= i < operators.len() implies (#[trigger] given[i]).contains(
            operators[i],
        ) by {
            lemma_pool_holds(given[i], operators[i]);
        }
        assert(is_choice(given, operators));
    }
    slots
}

/// Searches every candidate for the numbers: every filling of the operator
/// slots, every length, every arrangement. Returns a solution, or `None`
/// where the numbers have none.
pub fn solve(numbers: &Vec<usize>, target: usize) -> (found: Option<Vec<Element>>)
    ensures
        is_outcome(numbers@, target, found),
{
    let slots = operator_slots();
    let mut i: usize = 0;
    while i < slots.len()
        invariant
            i <= slots@.len(),
            forall|j: int| 0 <= j < slots@.len() ==> is_slots(#[trigger] rows_of(slots@)[j]),
            forall|j: int, expression: Seq<Element>|
                0 <= j < i && #[trigger] is_candidate_of(
                    operands(numbers@) + rows_of(slots@)[j],
                    expression,
                ) ==> evaluate(expression) != Some(target),
        decreases slots@.len() - i,
    {
        let found = search_slots(numbers, &slots[i], target);
        if found.is_some() {
            assert(is_slots(rows_of(slots@)[i as int]));
            return found;
        }
        i += 1;
    }
    assert forall|expression: Seq<Element>| !#[trigger] is_solution(
        numbers@,
        target,
        expression,
    ) by {
        if is_solution(numbers@, target, expression) {
            let operators = choose|operators: Seq<Element>| #[trigger]
                is_slots(operators) && is_candidate_of(operands(numbers@) + operators, expression);
            assert(rows_of(slots@).contains(operators));
            let j = choose|j: int| 0 <= j < slots@.len() && rows_of(slots@)[j] == operators;
            assert(is_candidate_of(operands(numbers@) + rows_of(slots@)[j], expression));
        }
    }
    None
}

/// Two searches over the same numbers and target end alike: both report a
/// solution, each one a candidate whose value is the target though not
/// necessarily the same one, or both report that there is none.
pub proof fn lemma_outcomes_agree(
    numbers: Seq<usize>,
    target: usize,
    first: Option<Vec<Element>>,
    second: Option<Vec<Element>>,
)
    requires
        is_outcome(numbers, target, first),
        is_outcome(numbers, target, second),
    ensures
        first.is_some() == second.is_some(),
        first.is_some() == solvable(numbers, target),
        first matches Some(expression) ==> evaluate(expression@) == Some(target),
        second matches Some(expression) ==> evaluate(expression@) == Some(target),
{
}

} // verus!
