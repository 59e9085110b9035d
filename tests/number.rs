use car_price_regression::number::is_float_text;

#[test]
fn accepts_decimal_forms() {
    for s in ["0", "240000", "-1.5", "+2", "1.", ".5", "1e10", "1E-3", "2.5e+7", "007"] {
        assert!(is_float_text(s), "{}", s);
    }
}

#[test]
fn accepts_special_words_in_any_case() {
    for s in ["inf", "-inf", "+Infinity", "INFINITY", "NaN", "nan", "iNf"] {
        assert!(is_float_text(s), "{}", s);
    }
}

#[test]
fn rejects_malformed_text() {
    for s in ["", ".", "+", "-", "e5", "1e", "1e+", "1.2.3", " 1", "1 ", "abc", "0x10", "1_000", "in", "infinit", "nana", "1,5", "--1"] {
        assert!(!is_float_text(s), "{}", s);
    }
}

#[test]
fn agrees_with_f64_parsing() {
    let samples = [
        "3650", "-0.0", "1.5e3", ".e1", "1.e1", "e", "+.5", "5.", "inf", "-NaN", "infinityx", "1e-400", "٣", "1\u{2003}", "12e3.4",
    ];
    for s in samples {
        assert_eq!(is_float_text(s), s.parse::<f64>().is_ok(), "{}", s);
    }
}
