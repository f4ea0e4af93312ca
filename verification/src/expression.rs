//! Tokens of a postfix expression and the stack machine that evaluates them.

use vstd::prelude::*;

verus! {

/// One token of a postfix expression: an operand or one of the four operators.
#[derive(Debug, Hash, PartialEq, Eq, Clone, Copy, Structural)]
pub enum Element {
    Add,
    Subtract,
    Multiply,
    Divide,
    Number(usize),
}

impl Element {
    /// True of the four operators, false of an operand.
    pub open spec fn is_operator(self) -> bool {
        !(self is Number)
    }
}

/// The value an operator makes of its two operands, where `b` was pushed
/// before `a`. There is none where the exact result is negative, fractional,
/// undefined, or too large for a `usize`.
pub open spec fn apply(op: Element, b: usize, a: usize) -> Option<usize> {
    match op {
        Element::Add => if b + a <= usize::MAX {
            Some((b + a) as usize)
        } else {
            None
        },
        Element::Subtract => if a <= b {
            Some((b - a) as usize)
        } else {
            None
        },
        Element::Multiply => if b * a <= usize::MAX {
            Some((b * a) as usize)
        } else {
            None
        },
        Element::Divide => if a != 0 && b % a == 0 {
            Some((b / a) as usize)
        } else {
            None
        },
        Element::Number(_) => None,
    }
}

/// The stack after one token: an operand is pushed; an operator replaces the
/// two topmost values by its result, and fails where there are fewer than two
/// or where `apply` gives no value.
pub open spec fn step(stack: Seq<usize>, token: Element) -> Option<Seq<usize>> {
    match token {
        Element::Number(x) => Some(stack.push(x)),
        _ => if stack.len() < 2 {
            None
        } else {
            match apply(token, stack[stack.len() - 2], stack[stack.len() - 1]) {
                Some(value) => Some(stack.take(stack.len() - 2).push(value)),
                None => None,
            }
        },
    }
}

/// The stack after the tokens have been taken from left to right, starting
/// from `stack`; `None` as soon as one step fails.
pub open spec fn run(tokens: Seq<Element>, stack: Seq<usize>) -> Option<Seq<usize>>
    decreases tokens.len(),
{
    if tokens.len() == 0 {
        Some(stack)
    } else {
        match step(stack, tokens[0]) {
            Some(next) => run(tokens.skip(1), next),
            None => None,
        }
    }
}

/// The value of a postfix expression: the top of the stack once every token
/// has been taken, however many values lie below it.
pub open spec fn evaluate(tokens: Seq<Element>) -> Option<usize> {
    match run(tokens, Seq::empty()) {
        Some(stack) => if stack.len() > 0 {
            Some(stack.last())
        } else {
            None
        },
        None => None,
    }
}

/// The tokens that a sequence of references points at.
pub open spec fn pointees(expression: Seq<&Element>) -> Seq<Element> {
    expression.map_values(|token: &Element| *token)
}

/// Takes one token on the stack. Returns false, with the stack in no
/// particular state, where the step fails.
fn advance(stack: &mut Vec<usize>, token: &Element) -> (done: bool)
    ensures
        done == step(old(stack)@, *token).is_some(),
        done ==> Some(final(stack)@) == step(old(stack)@, *token),
{
    if let Element::Number(x) = token {
        stack.push(*x);
        return true;
    }
    let a = match stack.pop() {
        Some(a) => a,
        None => return false,
    };
    let b = match stack.pop() {
        Some(b) => b,
        None => return false,
    };
    let value = match token {
        Element::Add => b.checked_add(a),
        Element::Subtract => b.checked_sub(a),
        Element::Multiply => b.checked_mul(a),
        Element::Divide => match b.checked_rem(a) {
            Some(0) => b.checked_div(a),
            _ => None,
        },
        Element::Number(_) => None,
    };
    match value {
        Some(value) => {
            assert(stack@ =~= old(stack)@.take(old(stack)@.len() - 2));
            stack.push(value);
            true
        },
        None => false,
    }
}

/// Evaluates a postfix expression on a stack of unsigned integers.
pub fn compute(expression: &[&Element]) -> (result: Option<usize>)
    requires
        expression@.len() > 0,
    ensures
        result == evaluate(pointees(expression@)),
{
    let ghost tokens = pointees(expression@);
    let mut stack: Vec<usize> = Vec::with_capacity(6);
    let mut i: usize = 0;
    assert(tokens.skip(0) =~= tokens && stack@ =~= Seq::empty());
    while i < expression.len()
        invariant
            i <= expression@.len(),
            tokens == pointees(expression@),
            run(tokens, Seq::empty()) == run(tokens.skip(i as int), stack@),
            i > 0 ==> stack@.len() > 0,
        decreases expression@.len() - i,
    {
        assert(tokens.skip(i as int).skip(1) =~= tokens.skip(i + 1));
        if !advance(&mut stack, expression[i]) {
            return None;
        }
        i += 1;
    }
    Some(stack[stack.len() - 1])
}

/// Running two sequences joined end to end is running the first and then,
/// from the stack it leaves, the second.
pub proof fn lemma_run_concat(first: Seq<Element>, second: Seq<Element>, stack: Seq<usize>)
    ensures
        run(first + second, stack) == match run(first, stack) {
            Some(middle) => run(second, middle),
            None => None,
        },
    decreases first.len(),
{
    if first.len() == 0 {
        assert(first + second =~= second);
    } else {
        assert((first + second)[0] == first[0]);
        assert((first + second).skip(1) =~= first.skip(1) + second);
        match step(stack, first[0]) {
            Some(next) => lemma_run_concat(first.skip(1), second, next),
            None => {},
        }
    }
}

/// Two operands followed by an operator: the operand written first is the
/// left one, so `5 2 -` is five minus two.
pub proof fn lemma_operands_in_order(left: usize, right: usize, op: Element)
    requires
        op.is_operator(),
    ensures
        evaluate(seq![Element::Number(left), Element::Number(right), op]) == apply(
            op,
            left,
            right,
        ),
{
    let tokens = seq![Element::Number(left), Element::Number(right), op];
    let one = Seq::<usize>::empty().push(left);
    let two = one.push(right);
    assert(step(Seq::empty(), tokens[0]) == Some(one));
    assert(tokens.skip(1)[0] == Element::Number(right));
    assert(tokens.skip(1).skip(1)[0] == op);
    assert(tokens.skip(1).skip(1).skip(1).len() == 0);
    assert(run(tokens, Seq::empty()) == run(tokens.skip(1), one));
    assert(run(tokens.skip(1), one) == run(tokens.skip(1).skip(1), two));
    match apply(op, left, right) {
        Some(value) => {
            let top = two.take(0).push(value);
            assert(step(two, op) == Some(top));
            assert(run(tokens.skip(1).skip(1).skip(1), top) == Some(top));
        },
        None => {},
    }
}

/// A difference is never negative: `left right -` has a value exactly where
/// `right` is at most `left`.
pub proof fn lemma_subtract_direction(left: usize, right: usize)
    ensures
        evaluate(seq![Element::Number(left), Element::Number(right), Element::Subtract]) == (
        if right <= left {
            Some((left - right) as usize)
        } else {
            None
        }),
{
    lemma_operands_in_order(left, right, Element::Subtract);
}

/// A quotient is exact: `left right /` has a value exactly where `right` is
/// not zero and divides `left`.
pub proof fn lemma_divide_exact(left: usize, right: usize)
    ensures
        evaluate(seq![Element::Number(left), Element::Number(right), Element::Divide]) == (
        if right != 0 && left % right == 0 {
            Some((left / right) as usize)
        } else {
            None
        }),
{
    lemma_operands_in_order(left, right, Element::Divide);
}

/// A token that cannot be taken leaves the whole expression without a value,
/// whatever follows it.
pub proof fn lemma_failed_step(before: Seq<Element>, token: Element, after: Seq<Element>)
    requires
        match run(before, Seq::empty()) {
            Some(stack) => step(stack, token).is_none(),
            None => true,
        },
    ensures
        evaluate(before + seq![token] + after).is_none(),
{
    let tail = seq![token] + after;
    assert(before + seq![token] + after =~= before + tail);
    lemma_run_concat(before, tail, Seq::empty());
    match run(before, Seq::empty()) {
        Some(stack) => {
            assert(tail[0] == token);
        },
        None => {},
    }
}

/// An operator that finds fewer than two values on the stack leaves the
/// expression without a value.
pub proof fn lemma_underflow(before: Seq<Element>, op: Element, after: Seq<Element>)
    requires
        op.is_operator(),
        match run(before, Seq::empty()) {
            Some(stack) => stack.len() < 2,
            None => true,
        },
    ensures
        evaluate(before + seq![op] + after).is_none(),
{
    lemma_failed_step(before, op, after);
}

/// A division whose divisor, the top of the stack, is zero leaves the
/// expression without a value.
pub proof fn lemma_divide_by_zero(before: Seq<Element>, after: Seq<Element>)
    requires
        match run(before, Seq::empty()) {
            Some(stack) => stack.len() > 0 && stack.last() == 0,
            None => true,
        },
    ensures
        evaluate(before + seq![Element::Divide] + after).is_none(),
{
    lemma_failed_step(before, Element::Divide, after);
}

} // verus!
