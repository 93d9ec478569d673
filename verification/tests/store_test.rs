use restations::station::{Info, StationRecord};
use restations::store::{Search, StationStore};

fn bytes(s: &str) -> Vec<u8> {
    s.as_bytes().to_vec()
}

fn station(id: i64, name: &str, uic: &str, lat: Option<i64>, lon: Option<i64>) -> StationRecord {
    StationRecord {
        id,
        name: bytes(name),
        uic: bytes(uic),
        latitude: lat,
        longitude: lon,
        country: None,
        info: Info::empty(),
    }
}

fn filled_store(rows: Vec<StationRecord>) -> StationStore {
    let mut store = StationStore::new();
    store.replace_all(rows);
    store
}

#[test]
fn replace_all_counts_and_replaces() {
    let mut store = StationStore::new();
    assert_eq!(store.count(), 0);
    let n = store.replace_all(vec![station(1, "A", "1", None, None)]);
    assert_eq!(n, 1);
    assert_eq!(store.count(), 1);
    let n = store.replace_all(vec![
        station(2, "B", "2", None, None),
        station(3, "C", "3", None, None),
    ]);
    assert_eq!(n, 2);
    assert_eq!(store.count(), 2);
    assert_eq!(Search::by_place_id(&store, &bytes("1")).is_err(), true);
}

#[test]
fn all_lists_only_addressable_stations() {
    let store = filled_store(vec![
        station(1, "A", "1", None, None),
        station(2, "No key", "", None, None),
        station(3, "C", "3", None, None),
    ]);
    let rows = Search::all(&store, 10);
    assert_eq!(rows.len(), 2);
    assert_eq!(rows[0].name, bytes("A"));
    assert_eq!(rows[1].name, bytes("C"));
    let limited = Search::all(&store, 1);
    assert_eq!(limited.len(), 1);
    assert_eq!(limited[0].name, bytes("A"));
}

#[test]
fn by_name_matches_case_insensitive_substrings() {
    let store = filled_store(vec![
        station(1, "Berlin Hbf", "1", None, None),
        station(2, "Bremen", "2", None, None),
        station(3, "Berlin-Lichtenberg", "3", None, None),
    ]);
    let rows = Search::by_name(&store, &bytes("berlin"), 10);
    assert_eq!(rows.len(), 2);
    assert_eq!(rows[0].name, bytes("Berlin Hbf"));
    assert_eq!(rows[1].name, bytes("Berlin-Lichtenberg"));
    let rows = Search::by_name(&store, &bytes("LIN H"), 10);
    assert_eq!(rows.len(), 1);
}

#[test]
fn by_name_searches_localized_names_too() {
    let mut seville = station(1, "Sevilla", "1", None, None);
    seville.info.fr = Some(bytes("Seville"));
    let store = filled_store(vec![seville, station(2, "Berlin", "2", None, None)]);
    let rows = Search::by_name(&store, &bytes("Seville"), 10);
    assert_eq!(rows.len(), 1);
    assert_eq!(rows[0].name, bytes("Sevilla"));
}

#[test]
fn by_place_id_finds_exactly_the_uic() {
    let store = filled_store(vec![
        station(1, "A", "8011160", None, None),
        station(2, "B", "8010100", None, None),
    ]);
    let rec = Search::by_place_id(&store, &bytes("8010100")).unwrap();
    assert_eq!(rec.name, bytes("B"));
    assert!(Search::by_place_id(&store, &bytes("8010")).is_err());
    assert!(Search::by_place_id(&store, &bytes("")).is_err());
}

#[test]
fn by_position_keeps_only_stations_in_the_box() {
    let store = filled_store(vec![
        station(1, "Near", "1", Some(48_100_000), Some(2_100_000)),
        station(2, "Far north", "2", Some(49_500_000), Some(2_000_000)),
        station(3, "Far east", "3", Some(48_000_000), Some(4_000_000)),
        station(4, "Edge", "4", Some(49_000_000), Some(3_000_000)),
    ]);
    let rows = Search::by_position(&store, 48_000_000, 2_000_000, 10);
    assert_eq!(rows.len(), 2);
    assert_eq!(rows[0].name, bytes("Near"));
    assert_eq!(rows[1].name, bytes("Edge"));
}

#[test]
fn stations_missing_a_coordinate_never_enter_the_box() {
    let store = filled_store(vec![
        station(1, "Lat only", "1", Some(48_000_000), None),
        station(2, "Lon only", "2", None, Some(2_000_000)),
        station(3, "Both", "3", Some(48_000_000), Some(2_000_000)),
    ]);
    let rows = Search::by_position(&store, 48_000_000, 2_000_000, 10);
    assert_eq!(rows.len(), 1);
    assert_eq!(rows[0].name, bytes("Both"));
    // The same station still appears in listing and name search.
    assert_eq!(Search::all(&store, 10).len(), 3);
    assert_eq!(Search::by_name(&store, &bytes("Lat only"), 10).len(), 1);
}

#[test]
fn by_name_and_position_needs_both() {
    let store = filled_store(vec![
        station(1, "Berlin Hbf", "1", Some(52_525_000), Some(13_369_000)),
        station(2, "Berlin far", "2", Some(54_000_000), Some(13_369_000)),
        station(3, "Potsdam", "3", Some(52_391_000), Some(13_067_000)),
    ]);
    let rows = Search::by_name_and_position(&store, &bytes("berlin"), 52_500_000, 13_400_000, 10);
    assert_eq!(rows.len(), 1);
    assert_eq!(rows[0].name, bytes("Berlin Hbf"));
}
