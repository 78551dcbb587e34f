use beijing_bus::bus::i32_to_decimal;
use beijing_bus::text::{parse_i32, split_commas_exec, usize_to_decimal};

#[test]
fn decimal_formatting() {
    assert_eq!(usize_to_decimal(0), "0");
    assert_eq!(usize_to_decimal(7), "7");
    assert_eq!(usize_to_decimal(10), "10");
    assert_eq!(usize_to_decimal(1413772960), "1413772960");
    assert_eq!(usize_to_decimal(usize::MAX), usize::MAX.to_string());
    assert_eq!(i32_to_decimal(0), "0");
    assert_eq!(i32_to_decimal(-5), "-5");
    assert_eq!(i32_to_decimal(i32::MIN), "-2147483648");
    assert_eq!(i32_to_decimal(i32::MAX), "2147483647");
}

#[test]
fn integer_parsing_matches_from_str() {
    for s in ["42", "-42", "+7", "", "-", "+", "2147483647", "2147483648", "-2147483648",
              "-2147483649", " 1", "1 ", "1a", "007", "-0", "99999999999999999999", "１"] {
        assert_eq!(parse_i32(s), s.parse::<i32>().ok(), "{:?}", s);
    }
}

#[test]
fn comma_splitting_matches_split() {
    for s in ["a,b,,c", "", ",", "116.1,39.9,116.2,39.8", "x,", "北京,上海"] {
        let expected: Vec<String> = s.split(',').map(|p| p.to_string()).collect();
        assert_eq!(split_commas_exec(s), expected, "{:?}", s);
    }
}
