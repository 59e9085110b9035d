use car_price_regression::record::{format_model_record, parse_model_record, Field, ModelRecord, RecordError};

fn fields(r: &ModelRecord) -> (String, String, String, String) {
    (r.intercept().to_string(), r.slope().to_string(), r.range_min().to_string(), r.range_max().to_string())
}

#[test]
fn reads_four_fields_in_order() {
    let r = parse_model_record("8499.5 -4551.25 22899 240000\n").unwrap();
    assert_eq!(
        fields(&r),
        ("8499.5".to_string(), "-4551.25".to_string(), "22899".to_string(), "240000".to_string())
    );
}

#[test]
fn any_white_space_separates_fields() {
    let r = parse_model_record("\t 1\n\n2\r\n3\u{3000}4   ").unwrap();
    assert_eq!(fields(&r), ("1".to_string(), "2".to_string(), "3".to_string(), "4".to_string()));
}

#[test]
fn tokens_after_the_fourth_are_ignored() {
    let r = parse_model_record("1 2 3 4 five").unwrap();
    assert_eq!(r.range_max(), "4");
}

#[test]
fn two_fields_only_is_missing_range_min() {
    assert_eq!(parse_model_record("1.0 2.0").unwrap_err(), RecordError::MissingField(Field::RangeMin));
}

#[test]
fn empty_text_is_missing_intercept() {
    assert_eq!(parse_model_record("").unwrap_err(), RecordError::MissingField(Field::Intercept));
    assert_eq!(parse_model_record(" \n ").unwrap_err(), RecordError::MissingField(Field::Intercept));
}

#[test]
fn three_fields_is_missing_range_max() {
    assert_eq!(parse_model_record("1 2 3").unwrap_err(), RecordError::MissingField(Field::RangeMax));
}

#[test]
fn non_number_field_is_reported() {
    assert_eq!(parse_model_record("1 x 3 4").unwrap_err(), RecordError::InvalidNumber(Field::Slope));
    assert_eq!(parse_model_record("one").unwrap_err(), RecordError::InvalidNumber(Field::Intercept));
    assert_eq!(parse_model_record("1 2 3 4,0").unwrap_err(), RecordError::InvalidNumber(Field::RangeMax));
}

#[test]
fn invalid_field_comes_before_later_missing_one() {
    assert_eq!(parse_model_record("1 2 z").unwrap_err(), RecordError::InvalidNumber(Field::RangeMin));
}

#[test]
fn field_names() {
    assert_eq!(Field::Intercept.name(), "intercept");
    assert_eq!(Field::Slope.name(), "slope");
    assert_eq!(Field::RangeMin.name(), "range minimum");
    assert_eq!(Field::RangeMax.name(), "range maximum");
}

#[test]
fn new_checks_each_field() {
    let e = ModelRecord::new("1".to_string(), "2".to_string(), "".to_string(), "4".to_string()).unwrap_err();
    assert_eq!(e, RecordError::InvalidNumber(Field::RangeMin));
    let e = ModelRecord::new("1 ".to_string(), "2".to_string(), "3".to_string(), "4".to_string()).unwrap_err();
    assert_eq!(e, RecordError::InvalidNumber(Field::Intercept));
}

#[test]
fn format_joins_with_spaces_and_ends_the_line() {
    let r = ModelRecord::new("1.5".to_string(), "-2".to_string(), "0".to_string(), "100".to_string()).unwrap();
    assert_eq!(format_model_record(&r), "1.5 -2 0 100\n");
}

#[test]
fn save_then_load_gives_the_same_record() {
    let r = ModelRecord::new("8499.5".to_string(), "-4551.25".to_string(), "22899".to_string(), "240000".to_string()).unwrap();
    let back = parse_model_record(&format_model_record(&r)).unwrap();
    assert_eq!(fields(&back), fields(&r));
}

#[test]
fn save_then_load_keeps_float_values() {
    let values = [0.1f64, -1234.5678e-9, 6.02214076e23, f64::MIN_POSITIVE, -0.0];
    for w in values.windows(4) {
        let r = ModelRecord::new(w[0].to_string(), w[1].to_string(), w[2].to_string(), w[3].to_string()).unwrap();
        let back = parse_model_record(&format_model_record(&r)).unwrap();
        let got: Vec<f64> = [back.intercept(), back.slope(), back.range_min(), back.range_max()]
            .iter()
            .map(|t| t.parse::<f64>().unwrap())
            .collect();
        for (g, v) in got.iter().zip(w.iter()) {
            assert!((g - v).abs() <= 1e-9 * v.abs());
        }
    }
}
