use countdown::{compute, Element};

fn eval(tokens: &[Element]) -> Option<usize> {
    let refs: Vec<&Element> = tokens.iter().collect();
    compute(&refs)
}

#[test]
fn test_compute() {
    assert!(compute(&[&Element::Number(1), &Element::Number(2), &Element::Add]) == Some(3));
    assert!(compute(&[&Element::Number(2), &Element::Number(2), &Element::Divide,]) == Some(1));
    assert!(
        compute(&[&Element::Number(2), &Element::Number(4), &Element::Multiply,]) == Some(8)
    );
    assert!(
        compute(&[
            &Element::Number(7),
            &Element::Number(2),
            &Element::Number(3),
            &Element::Multiply,
            &Element::Subtract,
        ]) == Some(1)
    );
    assert!(
        compute(&[
            &Element::Number(7),
            &Element::Number(100),
            &Element::Number(25),
            &Element::Subtract,
            &Element::Multiply,
            &Element::Number(3),
            &Element::Number(10),
            &Element::Number(2),
            &Element::Add,
            &Element::Multiply,
            &Element::Add
        ]) == Some(561)
    );
}

#[test]
fn add_sums_two_operands() {
    assert_eq!(eval(&[Element::Number(1), Element::Number(2), Element::Add]), Some(3));
}

#[test]
fn divide_gives_exact_quotient() {
    assert_eq!(eval(&[Element::Number(2), Element::Number(2), Element::Divide]), Some(1));
    assert_eq!(eval(&[Element::Number(6), Element::Number(2), Element::Divide]), Some(3));
}

#[test]
fn multiply_gives_product() {
    assert_eq!(eval(&[Element::Number(2), Element::Number(4), Element::Multiply]), Some(8));
}

#[test]
fn nested_expression_reduces_innermost_first() {
    let tokens = [
        Element::Number(7),
        Element::Number(2),
        Element::Number(3),
        Element::Multiply,
        Element::Subtract,
    ];
    assert_eq!(eval(&tokens), Some(1));
}

#[test]
fn long_expression_reaches_561() {
    let tokens = [
        Element::Number(7),
        Element::Number(100),
        Element::Number(25),
        Element::Subtract,
        Element::Multiply,
        Element::Number(3),
        Element::Number(10),
        Element::Number(2),
        Element::Add,
        Element::Multiply,
        Element::Add,
    ];
    assert_eq!(eval(&tokens), Some(561));
}

#[test]
fn subtract_takes_first_operand_as_left() {
    assert_eq!(eval(&[Element::Number(5), Element::Number(2), Element::Subtract]), Some(3));
    assert_eq!(eval(&[Element::Number(2), Element::Number(5), Element::Subtract]), None);
}

#[test]
fn divide_takes_first_operand_as_left() {
    assert_eq!(eval(&[Element::Number(8), Element::Number(2), Element::Divide]), Some(4));
    assert_eq!(eval(&[Element::Number(2), Element::Number(8), Element::Divide]), None);
}

#[test]
fn divide_by_zero_has_no_value() {
    assert_eq!(eval(&[Element::Number(5), Element::Number(0), Element::Divide]), None);
    assert_eq!(eval(&[Element::Number(0), Element::Number(0), Element::Divide]), None);
}

#[test]
fn inexact_division_has_no_value() {
    assert_eq!(eval(&[Element::Number(5), Element::Number(2), Element::Divide]), None);
}

#[test]
fn operator_without_two_values_has_no_value() {
    assert_eq!(eval(&[Element::Number(1), Element::Add]), None);
    assert_eq!(eval(&[Element::Multiply]), None);
    assert_eq!(eval(&[Element::Subtract, Element::Number(1), Element::Number(2)]), None);
}

#[test]
fn failure_is_final() {
    let tokens = [
        Element::Number(1),
        Element::Number(2),
        Element::Subtract,
        Element::Number(5),
        Element::Number(6),
        Element::Add,
    ];
    assert_eq!(eval(&tokens), None);
    let tokens = [Element::Number(4), Element::Number(0), Element::Divide, Element::Number(1)];
    assert_eq!(eval(&tokens), None);
}

#[test]
fn zero_is_a_valid_intermediate() {
    assert_eq!(eval(&[Element::Number(3), Element::Number(3), Element::Subtract]), Some(0));
    assert_eq!(eval(&[Element::Number(0), Element::Number(5), Element::Divide]), Some(0));
    assert_eq!(eval(&[Element::Number(0), Element::Number(5), Element::Multiply]), Some(0));
    let tokens = [
        Element::Number(4),
        Element::Number(4),
        Element::Subtract,
        Element::Number(9),
        Element::Add,
    ];
    assert_eq!(eval(&tokens), Some(9));
}

#[test]
fn overflow_has_no_value() {
    assert_eq!(eval(&[Element::Number(usize::MAX), Element::Number(1), Element::Add]), None);
    assert_eq!(eval(&[Element::Number(usize::MAX), Element::Number(2), Element::Multiply]), None);
    assert_eq!(
        eval(&[Element::Number(usize::MAX), Element::Number(0), Element::Add]),
        Some(usize::MAX)
    );
    assert_eq!(
        eval(&[Element::Number(usize::MAX), Element::Number(1), Element::Multiply]),
        Some(usize::MAX)
    );
}

#[test]
fn top_of_stack_is_the_value_whatever_lies_below() {
    assert_eq!(eval(&[Element::Number(9)]), Some(9));
    assert_eq!(eval(&[Element::Number(4), Element::Number(7)]), Some(7));
    assert_eq!(
        eval(&[Element::Number(1), Element::Number(2), Element::Number(3), Element::Add]),
        Some(5)
    );
    let tokens = [
        Element::Number(1),
        Element::Number(2),
        Element::Number(3),
        Element::Number(4),
        Element::Number(5),
        Element::Add,
        Element::Add,
        Element::Add,
        Element::Number(6),
    ];
    assert_eq!(eval(&tokens), Some(6));
}

#[test]
fn tokens_compare_by_structure() {
    assert_eq!(Element::Number(3), Element::Number(3));
    assert_ne!(Element::Number(3), Element::Number(4));
    assert_ne!(Element::Add, Element::Subtract);
    let copy = Element::Divide;
    assert_eq!(copy, Element::Divide);
}
