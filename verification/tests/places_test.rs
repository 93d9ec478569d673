use restations::osdm::{
    OsdmGeoPosition, OsdmInitialPlaceInput, OsdmPlaceRequest, OsdmPlaceRestrictions,
    PlacesResponse,
};
use restations::places::{list, search, show};
use restations::station::{Info, StationRecord};
use restations::store::StationStore;

fn bytes(s: &str) -> Vec<u8> {
    s.as_bytes().to_vec()
}

fn station(id: i64, name: &str, uic: &str, lat: Option<i64>, lon: Option<i64>) -> StationRecord {
    StationRecord {
        id,
        name: bytes(name),
        uic: bytes(uic),
        latitude: lat,
        longitude: lon,
        country: None,
        info: Info::empty(),
    }
}

fn filled_store(rows: Vec<StationRecord>) -> StationStore {
    let mut store = StationStore::new();
    store.replace_all(rows);
    store
}

fn request(
    name: Option<&str>,
    position: Option<(i64, i64)>,
    limit: Option<usize>,
) -> OsdmPlaceRequest {
    OsdmPlaceRequest {
        place_input: Some(OsdmInitialPlaceInput {
            name: name.map(bytes),
            geo_position: position.map(|(latitude, longitude)| OsdmGeoPosition {
                latitude,
                longitude,
            }),
        }),
        restrictions: limit.map(|n| OsdmPlaceRestrictions { number_of_results: Some(n) }),
    }
}

fn places_of(r: PlacesResponse) -> Vec<restations::osdm::OsdmPlace> {
    match r {
        PlacesResponse::Found(resp) => resp.places,
        PlacesResponse::NotFound(_) => panic!("expected places"),
    }
}

#[test]
fn test_list_empty() {
    let store = StationStore::new();
    let places = places_of(list(&store));
    assert_eq!(places.len(), 0);
}

#[test]
fn test_list_single_record() {
    let store = filled_store(vec![station(1, "Test Station", "test-station", None, None)]);
    let places = places_of(list(&store));
    assert_eq!(places.len(), 1);
    assert_eq!(places[0].name, bytes("Test Station"));
    assert_eq!(places[0].id, bytes("urn:uic:stn:test-station"));
    assert_eq!(places[0].object_type, bytes("StopPlace"));
}

#[test]
fn search_without_criteria_lists_everything_up_to_the_default() {
    let mut rows = Vec::new();
    for i in 0..25 {
        rows.push(station(i, &format!("S{}", i), &format!("u{}", i), None, None));
    }
    let store = filled_store(rows);
    let req = OsdmPlaceRequest { place_input: None, restrictions: None };
    let places = places_of(search(&store, &req).unwrap());
    // Twenty is the default limit on the results.
    assert_eq!(places.len(), 20);
    assert_eq!(places[0].name, bytes("S0"));
}

#[test]
fn search_by_name_keeps_gateway_order() {
    let store = filled_store(vec![
        station(1, "Berlin", "1", None, None),
        station(2, "Bremen", "2", None, None),
        station(3, "Berlin-Lichtenberg", "3", None, None),
    ]);
    let places = places_of(search(&store, &request(Some("Berlin"), None, None)).unwrap());
    assert_eq!(places.len(), 2);
    assert_eq!(places[0].name, bytes("Berlin"));
    assert_eq!(places[1].name, bytes("Berlin-Lichtenberg"));
}

#[test]
fn blank_name_means_no_name_constraint() {
    let store = filled_store(vec![
        station(1, "Berlin", "1", None, None),
        station(2, "Bremen", "2", None, None),
    ]);
    let places = places_of(search(&store, &request(Some("   "), None, None)).unwrap());
    assert_eq!(places.len(), 2);
}

#[test]
fn test_search_geo_position() {
    let store = filled_store(vec![
        // Store order deliberately lists the farther station first.
        station(2, "London Waterloo", "2", Some(51_503_000), Some(-113_000)),
        station(1, "London Charing Cross", "1", Some(51_507_000), Some(-123_000)),
    ]);
    let places = places_of(
        search(&store, &request(None, Some((51_508_362, -123_835)), None)).unwrap(),
    );
    assert_eq!(places.len(), 2);
    assert_eq!(places[0].name, bytes("London Charing Cross"));
    assert_eq!(places[1].name, bytes("London Waterloo"));
}

#[test]
fn test_search_geo_position_with_results_limit() {
    let store = filled_store(vec![
        station(1, "London Charing Cross", "1", Some(51_507_000), Some(-123_000)),
        station(2, "London Waterloo", "2", Some(51_503_000), Some(-113_000)),
    ]);
    let places = places_of(
        search(&store, &request(None, Some((51_508_362, -123_835)), Some(1))).unwrap(),
    );
    assert_eq!(places.len(), 1);
    assert_eq!(places[0].name, bytes("London Charing Cross"));
}

#[test]
fn position_search_ranks_by_true_distance() {
    // A at the query point, B five kilometers away, C fifty kilometers
    // away; stored farthest first.
    let store = filled_store(vec![
        station(3, "C", "3", Some(48_450_000), Some(2_000_000)),
        station(2, "B", "2", Some(48_045_000), Some(2_000_000)),
        station(1, "A", "1", Some(48_000_000), Some(2_000_000)),
    ]);
    let places = places_of(
        search(&store, &request(None, Some((48_000_000, 2_000_000)), None)).unwrap(),
    );
    assert_eq!(places.len(), 3);
    assert_eq!(places[0].name, bytes("A"));
    assert_eq!(places[1].name, bytes("B"));
    assert_eq!(places[2].name, bytes("C"));
}

#[test]
fn exact_name_match_outranks_substring_match() {
    // Both stations sit at the same distance from the query point.
    let store = filled_store(vec![
        station(1, "Berlin-Lichtenberg", "1", Some(52_545_000), Some(13_400_000)),
        station(2, "Berlin", "2", Some(52_455_000), Some(13_400_000)),
    ]);
    let places = places_of(
        search(
            &store,
            &request(Some("Berlin"), Some((52_500_000, 13_400_000)), None),
        )
        .unwrap(),
    );
    assert_eq!(places.len(), 2);
    assert_eq!(places[0].name, bytes("Berlin"));
    assert_eq!(places[1].name, bytes("Berlin-Lichtenberg"));
}

#[test]
fn a_much_closer_substring_match_beats_a_far_exact_match() {
    // The exact-name bonus is worth one hundred kilometers: an exact
    // match about 130 km away loses to a substring match about 1 km away.
    let store = filled_store(vec![
        station(1, "Berlin", "1", Some(910_000), Some(910_000)),
        station(2, "Berlin-Lichtenberg", "2", Some(9_000), Some(0)),
    ]);
    let places = places_of(
        search(&store, &request(Some("Berlin"), Some((0, 0)), None)).unwrap(),
    );
    assert_eq!(places.len(), 2);
    assert_eq!(places[0].name, bytes("Berlin-Lichtenberg"));
    assert_eq!(places[1].name, bytes("Berlin"));
}

#[test]
fn position_search_excludes_half_known_coordinates() {
    let store = filled_store(vec![
        station(1, "Lat only", "1", Some(48_000_000), None),
        station(2, "Here", "2", Some(48_000_000), Some(2_000_000)),
    ]);
    let places = places_of(
        search(&store, &request(None, Some((48_000_000, 2_000_000)), None)).unwrap(),
    );
    assert_eq!(places.len(), 1);
    assert_eq!(places[0].name, bytes("Here"));
}

#[test]
fn out_of_range_position_is_a_validation_error() {
    let store = StationStore::new();
    let result = search(&store, &request(None, Some((95_000_000, 0)), None));
    assert!(matches!(
        result,
        Err(restations::error::Error::Validation(_))
    ));
}

#[test]
fn show_finds_by_uic_or_reports_not_found() {
    let store = filled_store(vec![station(
        9430007,
        "Lisbon Santa Apolónia",
        "9430007",
        Some(38_713_870),
        Some(-9_122_271),
    )]);
    match show(&store, &bytes("9430007")) {
        PlacesResponse::Found(resp) => {
            assert_eq!(resp.places.len(), 1);
            assert_eq!(resp.places[0].name, bytes("Lisbon Santa Apolónia"));
            assert_eq!(resp.places[0].id, bytes("urn:uic:stn:9430007"));
            let geo = resp.places[0].geo_position.unwrap();
            assert_eq!(geo.latitude, 38_713_870);
            assert_eq!(geo.longitude, -9_122_271);
        }
        PlacesResponse::NotFound(_) => panic!("the station is stored"),
    }
    match show(&store, &bytes("0000000")) {
        PlacesResponse::Found(_) => panic!("no such station"),
        PlacesResponse::NotFound(problem) => {
            assert_eq!(problem.code, bytes("not-found"));
        }
    }
}
