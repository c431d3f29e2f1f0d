use atelierbuch::zahl::{dezimal, zahl_lesen};

#[test]
fn dezimal_schreibt_wie_display() {
    assert_eq!(dezimal(0), "0");
    assert_eq!(dezimal(7), "7");
    assert_eq!(dezimal(1259), "1259");
    assert_eq!(dezimal(-42), "-42");
    assert_eq!(dezimal(i64::MAX), "9223372036854775807");
    assert_eq!(dezimal(i64::MIN), "-9223372036854775808");
    for n in [-1000i64, -10, -9, -1, 1, 9, 10, 99, 100, 101, 123456789] {
        assert_eq!(dezimal(n), n.to_string());
    }
}

#[test]
fn zahl_lesen_wie_parse() {
    assert_eq!(zahl_lesen("102"), Some(102));
    assert_eq!(zahl_lesen("+7"), Some(7));
    assert_eq!(zahl_lesen("-0012"), Some(-12));
    assert_eq!(zahl_lesen("0"), Some(0));
    assert_eq!(zahl_lesen(""), None);
    assert_eq!(zahl_lesen("+"), None);
    assert_eq!(zahl_lesen("-"), None);
    assert_eq!(zahl_lesen("12a"), None);
    assert_eq!(zahl_lesen(" 12"), None);
    assert_eq!(zahl_lesen("1.5"), None);
    assert_eq!(zahl_lesen("9223372036854775807"), Some(i64::MAX));
    assert_eq!(zahl_lesen("9223372036854775808"), None);
    assert_eq!(zahl_lesen("-9223372036854775808"), Some(i64::MIN));
    assert_eq!(zahl_lesen("-9223372036854775809"), None);
    assert_eq!(zahl_lesen("99999999999999999999999"), None);
    for s in ["", "+", "-", "+-1", "--1", "007", "-0", "+0", "12x", "x12", "١٢", "42", "-9223372036854775808"] {
        assert_eq!(zahl_lesen(s), s.parse::<i64>().ok(), "{s}");
    }
}

#[test]
fn gelesen_was_geschrieben() {
    for n in [i64::MIN, -1259, -1, 0, 1, 101, 1259, i64::MAX] {
        assert_eq!(zahl_lesen(&dezimal(n)), Some(n));
    }
}
