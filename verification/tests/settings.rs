use stgv::bit::BitDistribution;
use stgv::cli::{ConfigError, CLI};
use stgv::parse::{first_dash, is_word, number, ParseError};
use stgv::steg::StegMethod;

fn options(max_bit: Option<u8>) -> CLI {
    CLI {
        decode: false,
        compress: false,
        check_max_length: false,
        method: StegMethod::LeastSignificantBit,
        distribution: BitDistribution::Sequential,
        seed: None,
        max_bit,
        output: None,
        input: None,
        image: "image.png".to_string(),
    }
}

#[test]
fn validate_takes_a_max_bit_from_one_to_four() {
    for n in 1..=4u8 {
        assert_eq!(options(Some(n)).validate(), Ok(()));
    }
    assert_eq!(options(None).validate(), Ok(()));
}

#[test]
fn validate_refuses_a_max_bit_outside_one_to_four() {
    assert_eq!(options(Some(0)).validate(), Err(ConfigError::MaxBit(0)));
    assert_eq!(options(Some(5)).validate(), Err(ConfigError::MaxBit(5)));
    assert_eq!(options(Some(255)).validate(), Err(ConfigError::MaxBit(255)));
}

#[test]
fn distribution_names_are_read() {
    assert_eq!(BitDistribution::from_str("sequential"), Ok(BitDistribution::Sequential));
    assert_eq!(BitDistribution::from_str("linear-5"), Ok(BitDistribution::Linear { length: 5 }));
    assert_eq!(
        BitDistribution::from_str("linear-1234"),
        Ok(BitDistribution::Linear { length: 1234 })
    );
}

#[test]
fn linear_without_length_has_length_zero() {
    assert_eq!(BitDistribution::from_str("linear"), Ok(BitDistribution::Linear { length: 0 }));
}

#[test]
fn only_the_part_after_the_first_hyphen_is_the_length() {
    assert_eq!(BitDistribution::from_str("linear-5-6"), Ok(BitDistribution::Linear { length: 5 }));
    assert_eq!(BitDistribution::from_str("sequential-9"), Ok(BitDistribution::Sequential));
    assert_eq!(BitDistribution::from_str("sequential-"), Ok(BitDistribution::Sequential));
}

#[test]
fn linear_length_follows_the_rules_for_unsigned_numbers() {
    assert_eq!(BitDistribution::from_str("linear-+7"), Ok(BitDistribution::Linear { length: 7 }));
    assert_eq!(BitDistribution::from_str("linear-007"), Ok(BitDistribution::Linear { length: 7 }));
    assert_eq!(BitDistribution::from_str("linear-0"), Ok(BitDistribution::Linear { length: 0 }));
    assert_eq!(
        BitDistribution::from_str(&format!("linear-{}", usize::MAX)),
        Ok(BitDistribution::Linear { length: usize::MAX })
    );
}

#[test]
fn linear_length_that_is_no_number_is_refused() {
    for text in [
        "linear-",
        "linear--5",
        "linear-x",
        "linear-5x",
        "linear- 5",
        "linear-+",
        "linear-++5",
        "linear-5.0",
        "linear-\u{665}",
    ] {
        assert_eq!(BitDistribution::from_str(text), Err(ParseError::BadLength), "{}", text);
    }
}

#[test]
fn linear_length_that_does_not_fit_is_refused() {
    let too_big = format!("linear-{}0", usize::MAX);
    assert_eq!(BitDistribution::from_str(&too_big), Err(ParseError::BadLength));
    let next = format!("linear-{}", usize::MAX as u128 + 1);
    assert_eq!(BitDistribution::from_str(&next), Err(ParseError::BadLength));
}

#[test]
fn linear_length_agrees_with_the_standard_parser() {
    for text in ["0", "1", "+1", "42", "000", "+", "", "-1", "1e3", " 1", "1 ", "99999999999999999999999"] {
        let ours = BitDistribution::from_str(&format!("linear-{}", text));
        match text.parse::<usize>() {
            Ok(n) => assert_eq!(ours, Ok(BitDistribution::Linear { length: n }), "{:?}", text),
            Err(_) => assert_eq!(ours, Err(ParseError::BadLength), "{:?}", text),
        }
    }
}

#[test]
fn unknown_distribution_is_refused() {
    for text in ["", "Sequential", "seq", "linearly", "linea-5", "-linear", "random", "linear 5"] {
        assert_eq!(
            BitDistribution::from_str(text),
            Err(ParseError::UnknownDistribution),
            "{:?}",
            text
        );
    }
}

#[test]
fn method_names_are_read() {
    assert_eq!(StegMethod::from_str("lsb"), Ok(StegMethod::LeastSignificantBit));
    assert_eq!(StegMethod::from_str("rsb"), Ok(StegMethod::RandomSignificantBit));
}

#[test]
fn unknown_method_is_refused() {
    for text in ["", "LSB", "lsb ", "msb", "rsb-2", "ls"] {
        assert_eq!(StegMethod::from_str(text), Err(ParseError::UnknownMethod), "{:?}", text);
    }
}

#[test]
fn first_dash_finds_the_hyphen() {
    assert_eq!(first_dash(b"linear-5-6", 0), 6);
    assert_eq!(first_dash(b"linear-5-6", 7), 8);
    assert_eq!(first_dash(b"linear-5-6", 9), 10);
    assert_eq!(first_dash(b"linear", 0), 6);
    assert_eq!(first_dash(b"-", 0), 0);
}

#[test]
fn is_word_compares_a_part_of_the_text() {
    assert!(is_word(b"linear-5", 0, 6, b"linear"));
    assert!(!is_word(b"linear-5", 0, 5, b"linear"));
    assert!(!is_word(b"linear-5", 0, 6, b"linean"));
    assert!(is_word(b"linear-5", 7, 8, b"5"));
    assert!(is_word(b"linear-5", 3, 3, b""));
}

#[test]
fn number_reads_digits() {
    assert_eq!(number(b"abc123", 3, 6), Some(123));
    assert_eq!(number(b"abc123", 3, 5), Some(12));
    assert_eq!(number(b"abc123", 2, 6), None);
    assert_eq!(number(b"+9", 0, 2), Some(9));
    assert_eq!(number(b"+9", 0, 1), None);
    assert_eq!(number(b"9", 1, 1), None);
}
