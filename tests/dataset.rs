use car_price_regression::dataset::{dataset_from_table, load_dataset, Column, DatasetError, Observation};

fn pairs(v: &[Observation]) -> Vec<(String, String)> {
    v.iter().map(|o| (o.km().to_string(), o.price().to_string())).collect()
}

fn p(k: &str, v: &str) -> (String, String) {
    (k.to_string(), v.to_string())
}

#[test]
fn reads_observations_in_order() {
    let v = load_dataset(b"km,price\n240000,3650\n139800,3800\n150500,4400\n").unwrap();
    assert_eq!(pairs(&v), vec![p("240000", "3650"), p("139800", "3800"), p("150500", "4400")]);
}

#[test]
fn columns_are_found_by_name() {
    let v = load_dataset(b"price,owner,km\n3650,a,240000\n").unwrap();
    assert_eq!(pairs(&v), vec![p("240000", "3650")]);
}

#[test]
fn constant_mileage_dataset_loads() {
    let v = load_dataset(b"km,price\n500,1000\n500,2000\n500,1500\n").unwrap();
    assert_eq!(pairs(&v), vec![p("500", "1000"), p("500", "2000"), p("500", "1500")]);
}

#[test]
fn header_only_is_empty() {
    assert!(load_dataset(b"km,price\n").unwrap().is_empty());
    assert!(load_dataset(b"").unwrap().is_empty());
    assert!(load_dataset(b"mileage,cost\n").unwrap().is_empty());
}

#[test]
fn missing_column_is_reported() {
    assert_eq!(load_dataset(b"mileage,price\n1,2\n").unwrap_err(), DatasetError::MissingColumn(Column::Km));
    assert_eq!(load_dataset(b"km,cost\n1,2\n").unwrap_err(), DatasetError::MissingColumn(Column::Price));
}

#[test]
fn non_numeric_field_fails_the_whole_load() {
    let e = load_dataset(b"km,price\n1,2\n3,four\n5,6\n").unwrap_err();
    assert_eq!(e, DatasetError::InvalidNumber { record: 2, column: Column::Price });
    let e = load_dataset(b"km,price\nx,y\n").unwrap_err();
    assert_eq!(e, DatasetError::InvalidNumber { record: 1, column: Column::Km });
}

#[test]
fn unequal_records_are_unreadable() {
    assert_eq!(load_dataset(b"km,price\n1\n").unwrap_err(), DatasetError::Unreadable);
}

#[test]
fn invalid_utf8_is_unreadable() {
    assert_eq!(load_dataset(b"km,price\n1,\xff\n").unwrap_err(), DatasetError::Unreadable);
}

#[test]
fn short_record_is_missing_a_field() {
    let rows = vec![
        vec!["km".to_string(), "price".to_string()],
        vec!["1".to_string()],
    ];
    let e = dataset_from_table(&rows).unwrap_err();
    assert_eq!(e, DatasetError::MissingField { record: 1, column: Column::Price });
}
