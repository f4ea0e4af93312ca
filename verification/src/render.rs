//! Text for tokens, expressions and the outcome of a search.

use crate::expression::Element;
use itertools::Itertools;
use vstd::prelude::*;
use vstd::string::StringExecFns;

verus! {

/// The character of a decimal digit.
pub open spec fn digit(d: nat) -> char {
    if d == 0 {
        '0'
    } else if d == 1 {
        '1'
    } else if d == 2 {
        '2'
    } else if d == 3 {
        '3'
    } else if d == 4 {
        '4'
    } else if d == 5 {
        '5'
    } else if d == 6 {
        '6'
    } else if d == 7 {
        '7'
    } else if d == 8 {
        '8'
    } else {
        '9'
    }
}

/// The decimal digits of a number, most significant first, without leading
/// zeros.
pub open spec fn decimal(n: nat) -> Seq<char>
    decreases n,
{
    if n < 10 {
        seq![digit(n)]
    } else {
        decimal(n / 10).push(digit(n % 10))
    }
}

/// The text of a token: an operator's symbol, or an operand's decimal digits.
pub open spec fn symbol(token: Element) -> Seq<char> {
    match token {
        Element::Add => seq!['+'],
        Element::Subtract => seq!['-'],
        Element::Multiply => seq!['*'],
        Element::Divide => seq!['/'],
        Element::Number(n) => decimal(n as nat),
    }
}

/// The parts in order, with the separator between each two neighbours.
pub open spec fn joined(parts: Seq<Seq<char>>, separator: Seq<char>) -> Seq<char>
    decreases parts.len(),
{
    if parts.len() == 0 {
        Seq::empty()
    } else if parts.len() == 1 {
        parts[0]
    } else {
        joined(parts.drop_last(), separator) + separator + parts.last()
    }
}

/// The text of an expression: its tokens' texts with one space between them.
pub open spec fn rendered(expression: Seq<Element>) -> Seq<char> {
    joined(expression.map_values(|token: Element| symbol(token)), seq![' '])
}

/// The text of each string.
pub open spec fn texts(parts: Seq<String>) -> Seq<Seq<char>> {
    parts.map_values(|part: String| part@)
}

/// Calls `Itertools::join` on the strings.
///
/// Trusted: the result is the strings in order with the separator between
/// each two neighbours, and is empty where there are no strings.
#[verifier::external_body]
fn join(parts: &Vec<String>, separator: &str) -> (text: String)
    ensures
        text@ == joined(texts(parts@), separator@),
{
    parts.iter().join(separator)
}

/// The one-character string of a decimal digit.
fn digit_text(d: usize) -> (text: &'static str)
    requires
        d < 10,
    ensures
        text@ == seq![digit(d as nat)],
{
    proof {
        reveal_strlit("0");
        reveal_strlit("1");
        reveal_strlit("2");
        reveal_strlit("3");
        reveal_strlit("4");
        reveal_strlit("5");
        reveal_strlit("6");
        reveal_strlit("7");
        reveal_strlit("8");
        reveal_strlit("9");
    }
    let text = match d {
        0 => "0",
        1 => "1",
        2 => "2",
        3 => "3",
        4 => "4",
        5 => "5",
        6 => "6",
        7 => "7",
        8 => "8",
        _ => "9",
    };
    assert(text@ =~= seq![digit(d as nat)]);
    text
}

/// A number in decimal digits.
fn decimal_text(n: usize) -> (text: String)
    ensures
        text@ == decimal(n as nat),
    decreases n,
{
    if n < 10 {
        String::from_str(digit_text(n))
    } else {
        let mut text = decimal_text(n / 10);
        text.append(digit_text(n % 10));
        assert(text@ =~= decimal(n as nat));
        text
    }
}

impl Element {
    /// An operator as its one-character symbol, an operand in decimal digits.
    pub fn to_string(&self) -> (text: String)
        ensures
            text@ == symbol(*self),
    {
        proof {
            reveal_strlit("+");
            reveal_strlit("-");
            reveal_strlit("*");
            reveal_strlit("/");
        }
        let text = match self {
            Element::Add => String::from_str("+"),
            Element::Subtract => String::from_str("-"),
            Element::Multiply => String::from_str("*"),
            Element::Divide => String::from_str("/"),
            Element::Number(x) => decimal_text(*x),
        };
        assert(text@ =~= symbol(*self));
        text
    }
}

/// An expression in postfix order, its tokens separated by single spaces.
pub fn render(expression: &Vec<Element>) -> (text: String)
    ensures
        text@ == rendered(expression@),
{
    let mut parts: Vec<String> = Vec::with_capacity(expression.len());
    let mut i: usize = 0;
    while i < expression.len()
        invariant
            i <= expression@.len(),
            parts@.len() == i,
            forall|j: int| 0 <= j < i ==> (#[trigger] parts@[j])@ == symbol(expression@[j]),
        decreases expression@.len() - i,
    {
        parts.push(expression[i].to_string());
        i += 1;
    }
    proof {
        reveal_strlit(" ");
        assert(" "@ =~= seq![' ']);
        assert(texts(parts@) =~= expression@.map_values(|token: Element| symbol(token)));
    }
    join(&parts, " ")
}

/// The line that tells the outcome of a search: the expression found, or
/// that there is no solution.
pub fn report(found: &Option<Vec<Element>>) -> (text: String)
    ensures
        text@ == match found {
            Some(expression) => rendered(expression@),
            None => "no solution!"@,
        },
{
    match found {
        Some(expression) => render(expression),
        None => String::from_str("no solution!"),
    }
}

} // verus!
