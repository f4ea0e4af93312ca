use countdown::{parse_arguments, parse_number, InputError, Puzzle, EX_USAGE};

fn strings(words: &[&str]) -> Vec<String> {
    words.iter().map(|word| word.to_string()).collect()
}

#[test]
fn numbers_are_read_in_decimal() {
    assert_eq!(parse_number("0"), Some(0));
    assert_eq!(parse_number("7"), Some(7));
    assert_eq!(parse_number("42"), Some(42));
    assert_eq!(parse_number("1000000"), Some(1000000));
    assert_eq!(parse_number("007"), Some(7));
}

#[test]
fn a_leading_plus_is_accepted() {
    assert_eq!(parse_number("+7"), Some(7));
    assert_eq!(parse_number("+0"), Some(0));
    assert_eq!(parse_number("+"), None);
    assert_eq!(parse_number("++7"), None);
    assert_eq!(parse_number("7+"), None);
}

#[test]
fn anything_but_digits_is_rejected() {
    assert_eq!(parse_number(""), None);
    assert_eq!(parse_number("-1"), None);
    assert_eq!(parse_number("-0"), None);
    assert_eq!(parse_number(" 4"), None);
    assert_eq!(parse_number("4 "), None);
    assert_eq!(parse_number("4a"), None);
    assert_eq!(parse_number("1_000"), None);
    assert_eq!(parse_number("1.5"), None);
    assert_eq!(parse_number("0x10"), None);
    assert_eq!(parse_number("\u{0663}"), None);
}

#[test]
fn numbers_beyond_the_machine_word_are_rejected() {
    let largest = format!("{}", usize::MAX);
    assert_eq!(parse_number(&largest), Some(usize::MAX));
    let beyond = format!("{}0", usize::MAX);
    assert_eq!(parse_number(&beyond), None);
    let next = format!("{}", usize::MAX as u128 + 1);
    assert_eq!(parse_number(&next), None);
    assert_eq!(parse_number("99999999999999999999999999999999999999999"), None);
}

#[test]
fn numbers_are_read_as_the_standard_library_reads_them() {
    let samples = [
        "", "+", "-", "0", "00", "+00", "12", "+12", "-12", "12 ", " 12", "1 2", "a", "1a", "\u{0661}",
        "18446744073709551615", "18446744073709551616", "4294967295", "4294967296", "+-1",
    ];
    for sample in samples {
        assert_eq!(parse_number(sample), sample.parse::<usize>().ok(), "{:?}", sample);
    }
}

#[test]
fn seven_numbers_make_a_puzzle() {
    let arguments = strings(&["1", "2", "3", "4", "5", "6", "21"]);
    assert_eq!(
        parse_arguments(&arguments),
        Ok(Puzzle { numbers: vec![1, 2, 3, 4, 5, 6], target: 21 })
    );
    let arguments = strings(&["100", "75", "50", "25", "0", "+3", "952"]);
    assert_eq!(
        parse_arguments(&arguments),
        Ok(Puzzle { numbers: vec![100, 75, 50, 25, 0, 3], target: 952 })
    );
}

#[test]
fn any_other_count_is_a_usage_error() {
    assert_eq!(parse_arguments(&Vec::new()), Err(InputError::Usage));
    assert_eq!(
        parse_arguments(&strings(&["1", "2", "3", "4", "5", "6"])),
        Err(InputError::Usage)
    );
    assert_eq!(
        parse_arguments(&strings(&["1", "2", "3", "4", "5", "6", "7", "8"])),
        Err(InputError::Usage)
    );
    assert_eq!(parse_arguments(&strings(&["x"])), Err(InputError::Usage));
}

#[test]
fn a_bad_number_among_seven_is_malformed() {
    assert_eq!(
        parse_arguments(&strings(&["1", "2", "three", "4", "5", "6", "7"])),
        Err(InputError::Malformed)
    );
    assert_eq!(
        parse_arguments(&strings(&["1", "2", "3", "4", "5", "6", "-7"])),
        Err(InputError::Malformed)
    );
    assert_eq!(
        parse_arguments(&strings(&["", "2", "3", "4", "5", "6", "7"])),
        Err(InputError::Malformed)
    );
}

#[test]
fn usage_error_has_its_own_exit_status() {
    assert_eq!(EX_USAGE, 64);
}
