use sw::num::{parse_frac, parse_u64, IntError, ParseFracErr};

#[test]
fn tests_basic() {
    assert_eq!(parse_frac("1", 1), Ok(1));
    assert_eq!(parse_frac("2", 1), Ok(2));
    assert_eq!(parse_frac("23", 1), Ok(2));
    assert_eq!(parse_frac("23", 2), Ok(23));
    assert_eq!(parse_frac("2", 2), Ok(20));
    assert_eq!(
        parse_frac("24🪴21", 5),
        Err(ParseFracErr::ParseDigit {
            idx: 2,
            len: 4,
            err: IntError::InvalidDigit
        })
    );
    {
        let s = (u64::from(u32::MAX) + 1).to_string();
        assert_eq!(
            parse_frac(&s, s.len() as _),
            Err(ParseFracErr::NumeratorOverflow { idx: s.len() - 1 })
        );
    }
}

#[test]
fn frac_truncates_past_places() {
    assert_eq!(parse_frac("1234567891", 9), Ok(123_456_789));
    assert_eq!(parse_frac("", 9), Ok(0));
    assert_eq!(parse_frac("5", 9), Ok(500_000_000));
}

#[test]
fn frac_huge_place_overflows() {
    assert_eq!(parse_frac("5", 11), Err(ParseFracErr::NumeratorOverflow { idx: 0 }));
    assert_eq!(parse_frac("0", 200), Ok(0));
}

#[test]
fn whole_numbers() {
    let b = "+42".as_bytes();
    assert_eq!(parse_u64(b, 0, 3), Ok(42));
    assert_eq!(parse_u64(b, 0, 1), Err(IntError::InvalidDigit));
    assert_eq!(parse_u64(b, 1, 1), Err(IntError::Empty));
    let big = "18446744073709551615".as_bytes();
    assert_eq!(parse_u64(big, 0, big.len()), Ok(u64::MAX));
    let over = "18446744073709551616".as_bytes();
    assert_eq!(parse_u64(over, 0, over.len()), Err(IntError::PosOverflow));
    let neg = "-1".as_bytes();
    assert_eq!(parse_u64(neg, 0, 2), Err(IntError::InvalidDigit));
}
