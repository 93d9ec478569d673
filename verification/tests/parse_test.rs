use restations::parse::{
    parse_coordinate, parse_i64, parse_row, prepare_csv_string, split_row, trim_bytes, RowError,
    MIN_COLUMNS,
};
use restations::station::{BoolDeserializer, ProviderId};

fn bytes(s: &str) -> Vec<u8> {
    s.as_bytes().to_vec()
}

/// Builds one 72-field row with the columns the parser reads.
fn make_fields(id: &str, name: &str, uic: &str, lat: &str, lon: &str, country: &str) -> Vec<Vec<u8>> {
    let mut fields = vec![Vec::new(); MIN_COLUMNS];
    fields[0] = bytes(id);
    fields[1] = bytes(name);
    fields[3] = bytes(uic);
    fields[5] = bytes(lat);
    fields[6] = bytes(lon);
    fields[8] = bytes(country);
    fields
}

#[test]
fn trim_removes_surrounding_whitespace() {
    assert_eq!(trim_bytes(&bytes("  Lisboa \t\r\n")), bytes("Lisboa"));
    assert_eq!(trim_bytes(&bytes("")), bytes(""));
    assert_eq!(trim_bytes(&bytes("   ")), bytes(""));
    assert_eq!(trim_bytes(&bytes("a b")), bytes("a b"));
}

#[test]
fn split_row_splits_on_semicolons_and_trims() {
    let fields = split_row(&bytes("1; Berlin Hbf ;x;8011160"));
    assert_eq!(fields.len(), 4);
    assert_eq!(fields[0], bytes("1"));
    assert_eq!(fields[1], bytes("Berlin Hbf"));
    assert_eq!(fields[2], bytes("x"));
    assert_eq!(fields[3], bytes("8011160"));
    assert_eq!(split_row(&bytes("")).len(), 1);
    assert_eq!(split_row(&bytes(";")).len(), 2);
}

#[test]
fn parse_i64_accepts_signed_decimals() {
    assert_eq!(parse_i64(&bytes("9430007")), Some(9430007));
    assert_eq!(parse_i64(&bytes("-42")), Some(-42));
    assert_eq!(parse_i64(&bytes("+7")), Some(7));
    assert_eq!(parse_i64(&bytes("0")), Some(0));
    assert_eq!(parse_i64(&bytes("9223372036854775807")), Some(i64::MAX));
    assert_eq!(parse_i64(&bytes("-9223372036854775808")), Some(i64::MIN));
    assert_eq!(parse_i64(&bytes("9223372036854775808")), None);
    assert_eq!(parse_i64(&bytes("")), None);
    assert_eq!(parse_i64(&bytes("-")), None);
    assert_eq!(parse_i64(&bytes("12a")), None);
    assert_eq!(parse_i64(&bytes("1.5")), None);
}

#[test]
fn parse_coordinate_yields_microdegrees() {
    assert_eq!(parse_coordinate(&bytes("38.71387")), Some(38_713_870));
    assert_eq!(parse_coordinate(&bytes("-9.122271")), Some(-9_122_271));
    assert_eq!(parse_coordinate(&bytes("51.507")), Some(51_507_000));
    assert_eq!(parse_coordinate(&bytes("0")), Some(0));
    assert_eq!(parse_coordinate(&bytes("180")), Some(180_000_000));
    assert_eq!(parse_coordinate(&bytes("-0.5")), Some(-500_000));
    assert_eq!(parse_coordinate(&bytes(".5")), Some(500_000));
    assert_eq!(parse_coordinate(&bytes("2.")), Some(2_000_000));
    // The seventh fractional digit and beyond are dropped.
    assert_eq!(parse_coordinate(&bytes("1.2345678")), Some(1_234_567));
    assert_eq!(parse_coordinate(&bytes("")), None);
    assert_eq!(parse_coordinate(&bytes(".")), None);
    assert_eq!(parse_coordinate(&bytes("-")), None);
    assert_eq!(parse_coordinate(&bytes("12,5")), None);
    assert_eq!(parse_coordinate(&bytes("1.2.3")), None);
    assert_eq!(parse_coordinate(&bytes("abc")), None);
}

#[test]
fn parse_row_decodes_the_lisbon_row() {
    let fields = make_fields(
        "9430007",
        "Lisbon Santa Apolónia",
        "9430007",
        "38.71387",
        "-9.122271",
        "PT",
    );
    let rec = parse_row(&fields).expect("the row is well-formed");
    assert_eq!(rec.id, 9430007);
    assert_eq!(rec.name, bytes("Lisbon Santa Apolónia"));
    assert_eq!(rec.uic, bytes("9430007"));
    assert_eq!(rec.latitude, Some(38_713_870));
    assert_eq!(rec.longitude, Some(-9_122_271));
    assert_eq!(rec.country, Some(bytes("PT")));
}

#[test]
fn parse_row_reports_each_failure() {
    let short = vec![bytes("1"), bytes("x")];
    assert_eq!(parse_row(&short), Err(RowError::MissingColumns));

    let bad_id = make_fields("x1", "A", "1", "", "", "");
    assert_eq!(parse_row(&bad_id), Err(RowError::BadId));

    let no_name = make_fields("1", "", "1", "", "", "");
    assert_eq!(parse_row(&no_name), Err(RowError::EmptyName));

    let bad_lat = make_fields("1", "A", "1", "abc", "1.0", "");
    assert_eq!(parse_row(&bad_lat), Err(RowError::BadLatitude));

    let bad_lon = make_fields("1", "A", "1", "1.0", "abc", "");
    assert_eq!(parse_row(&bad_lon), Err(RowError::BadLongitude));
}

#[test]
fn parse_row_treats_missing_coordinates_as_absent() {
    let rec = parse_row(&make_fields("7", "Nowhere", "77", "", "", "")).unwrap();
    assert_eq!(rec.latitude, None);
    assert_eq!(rec.longitude, None);
    assert_eq!(rec.country, None);

    let rec = parse_row(&make_fields("7", "Somewhere", "78", "48.0", "", "DE")).unwrap();
    assert_eq!(rec.latitude, Some(48_000_000));
    assert_eq!(rec.longitude, None);
}

#[test]
fn prepare_csv_string_blanks_mean_no_value() {
    assert_eq!(prepare_csv_string(&bytes("")), None);
    assert_eq!(prepare_csv_string(&bytes("  \t")), None);
    assert_eq!(prepare_csv_string(&bytes(" x ")), Some(bytes(" x ")));
    assert_eq!(prepare_csv_string(&bytes("PT")), Some(bytes("PT")));
}

#[test]
fn bool_fields_accept_t_and_f_only() {
    assert_eq!(BoolDeserializer::from_text(&bytes("t")), Ok(true));
    assert_eq!(BoolDeserializer::from_text(&bytes("f")), Ok(false));
    assert_eq!(BoolDeserializer::from_text(&bytes("x")), Err(RowError::BadBool));
    assert_eq!(BoolDeserializer::from_text(&bytes("")), Err(RowError::BadBool));
    assert_eq!(BoolDeserializer::from_int(1), Ok(true));
    assert_eq!(BoolDeserializer::from_int(0), Ok(false));
    assert_eq!(BoolDeserializer::from_int(2), Err(RowError::BadBool));
}

#[test]
fn provider_id_parses_its_column_pair() {
    let p = ProviderId::parse(&bytes("8711184"), &bytes("t")).unwrap();
    assert_eq!(p.id(), Some(&bytes("8711184")));
    assert!(p.is_enabled());

    let p = ProviderId::parse(&bytes(""), &bytes("f")).unwrap();
    assert_eq!(p.id(), None);
    assert!(!p.is_enabled());

    assert!(ProviderId::parse(&bytes("1"), &bytes("maybe")).is_err());
}
