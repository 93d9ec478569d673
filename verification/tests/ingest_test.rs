use restations::ingest::{run_sync, Ingestor, SyncEvent};
use restations::places::{search, show};
use restations::osdm::{OsdmGeoPosition, OsdmInitialPlaceInput, OsdmPlaceRequest,
    OsdmPlaceRestrictions, PlacesResponse};
use restations::station::StationRecord;
use restations::store::{Search, StationStore};

fn bytes(s: &str) -> Vec<u8> {
    s.as_bytes().to_vec()
}

/// A header row naming all the columns the dataset carries.
fn header() -> String {
    let mut cols = vec![String::from("col"); 72];
    cols[0] = "id".into();
    cols[1] = "name".into();
    cols[3] = "uic".into();
    cols[5] = "latitude".into();
    cols[6] = "longitude".into();
    cols[8] = "country".into();
    cols.join(";")
}

/// One data row with the columns the parser reads.
fn row(id: &str, name: &str, uic: &str, lat: &str, lon: &str, country: &str) -> String {
    let mut cols = vec![String::new(); 72];
    cols[0] = id.into();
    cols[1] = name.into();
    cols[3] = uic.into();
    cols[5] = lat.into();
    cols[6] = lon.into();
    cols[8] = country.into();
    cols.join(";")
}

fn names(rows: &[StationRecord]) -> Vec<Vec<u8>> {
    rows.iter().map(|r| r.name.clone()).collect()
}

#[test]
fn sync_stages_rows_and_commits_at_once() {
    let source = format!(
        "{}\n{}\n{}\n",
        header(),
        row("1", "Berlin", "8011160", "52.525", "13.369", "DE"),
        row("2", "Lisbon", "9430007", "38.71387", "-9.122271", "PT"),
    );
    let mut store = StationStore::new();
    let events = vec![SyncEvent::Chunk(source.into_bytes())];
    let count = run_sync(&events, &mut store).unwrap();
    assert_eq!(count, 2);
    assert_eq!(store.count(), 2);
    let rows = Search::all(&store, 10);
    assert_eq!(names(&rows), vec![bytes("Berlin"), bytes("Lisbon")]);
}

#[test]
fn chunking_does_not_matter() {
    let source = format!(
        "{}\n{}\n{}\n",
        header(),
        row("1", "Berlin", "8011160", "52.525", "13.369", "DE"),
        row("2", "Lisbon", "9430007", "38.71387", "-9.122271", "PT"),
    );
    let whole = source.clone().into_bytes();

    let mut store_one = StationStore::new();
    run_sync(&vec![SyncEvent::Chunk(whole.clone())], &mut store_one).unwrap();

    // The same bytes, one byte per chunk.
    let mut store_two = StationStore::new();
    let trickle: Vec<SyncEvent> =
        whole.iter().map(|b| SyncEvent::Chunk(vec![*b])).collect();
    run_sync(&trickle, &mut store_two).unwrap();

    assert_eq!(names(&Search::all(&store_one, 10)), names(&Search::all(&store_two, 10)));
    assert_eq!(store_one.count(), store_two.count());
}

#[test]
fn resync_is_idempotent() {
    let source = format!(
        "{}\n{}\n",
        header(),
        row("1", "Berlin", "8011160", "52.525", "13.369", "DE"),
    );
    let mut store = StationStore::new();
    let events = vec![SyncEvent::Chunk(source.clone().into_bytes())];
    let first = run_sync(&events, &mut store).unwrap();
    let listed_first = names(&Search::all(&store, 100));
    let second = run_sync(&events, &mut store).unwrap();
    let listed_second = names(&Search::all(&store, 100));
    assert_eq!(first, second);
    assert_eq!(listed_first, listed_second);
    assert_eq!(store.count(), 1);
}

#[test]
fn one_malformed_row_is_skipped_not_fatal() {
    let source = format!(
        "{}\n{}\n{}\n{}\n",
        header(),
        row("1", "Good One", "1", "48.0", "2.0", ""),
        row("2", "Bad", "2", "not-a-number", "2.0", ""),
        row("3", "Good Two", "3", "", "", ""),
    );
    let mut ing = Ingestor::new();
    ing.push_chunk(&source.into_bytes());
    assert_eq!(ing.skipped_rows(), 1);
    assert_eq!(ing.staged_rows(), 2);
    let mut store = StationStore::new();
    let (count, skipped) = ing.finish(&mut store);
    assert_eq!(count, 2);
    assert_eq!(skipped, 1);
    assert_eq!(names(&Search::all(&store, 10)), vec![bytes("Good One"), bytes("Good Two")]);
}

#[test]
fn a_failed_run_leaves_the_store_as_it_was() {
    // First, a successful run.
    let good = format!("{}\n{}\n", header(), row("1", "Old", "1", "", "", ""));
    let mut store = StationStore::new();
    run_sync(&vec![SyncEvent::Chunk(good.into_bytes())], &mut store).unwrap();
    assert_eq!(store.count(), 1);

    // Then one that fails mid-stream: nothing of it becomes visible.
    let partial = format!("{}\n{}\n", header(), row("2", "New", "2", "", "", ""));
    let events = vec![
        SyncEvent::Chunk(partial.into_bytes()),
        SyncEvent::NetworkError(bytes("connection reset")),
        SyncEvent::Chunk(row("3", "Later", "3", "", "", "").into_bytes()),
    ];
    let result = run_sync(&events, &mut store);
    assert!(matches!(result, Err(restations::error::Error::HttpClient(_))));
    assert_eq!(store.count(), 1);
    assert_eq!(names(&Search::all(&store, 10)), vec![bytes("Old")]);
}

#[test]
fn a_final_unterminated_row_still_counts() {
    let source = format!("{}\n{}", header(), row("1", "NoNewline", "1", "", "", ""));
    let mut store = StationStore::new();
    let count = run_sync(&vec![SyncEvent::Chunk(source.into_bytes())], &mut store).unwrap();
    assert_eq!(count, 1);
}

#[test]
fn blank_lines_are_neither_rows_nor_errors() {
    let source = format!("{}\n\n{}\n\r\n", header(), row("1", "A", "1", "", "", ""));
    let mut ing = Ingestor::new();
    ing.push_chunk(&source.into_bytes());
    assert_eq!(ing.skipped_rows(), 0);
    assert_eq!(ing.staged_rows(), 1);
}

#[test]
fn synced_stations_answer_id_and_position_lookups() {
    // The full path: one source row in, then both lookups.
    let source = format!(
        "{}\n{}\n",
        header(),
        row("9430007", "Lisbon Santa Apolónia", "9430007", "38.71387", "-9.122271", "PT"),
    );
    let mut store = StationStore::new();
    let count = run_sync(&vec![SyncEvent::Chunk(source.into_bytes())], &mut store).unwrap();
    assert_eq!(count, 1);

    match show(&store, &bytes("9430007")) {
        PlacesResponse::Found(resp) => {
            assert_eq!(resp.places[0].name, bytes("Lisbon Santa Apolónia"));
            assert_eq!(resp.places[0].country, Some(bytes("PT")));
            let geo = resp.places[0].geo_position.unwrap();
            assert_eq!(geo.latitude, 38_713_870);
            assert_eq!(geo.longitude, -9_122_271);
        }
        PlacesResponse::NotFound(_) => panic!("the station was synced"),
    }

    let req = OsdmPlaceRequest {
        place_input: Some(OsdmInitialPlaceInput {
            name: None,
            geo_position: Some(OsdmGeoPosition { latitude: 38_710_000, longitude: -9_120_000 }),
        }),
        restrictions: Some(OsdmPlaceRestrictions { number_of_results: Some(1) }),
    };
    match search(&store, &req).unwrap() {
        PlacesResponse::Found(resp) => {
            assert_eq!(resp.places.len(), 1);
            assert_eq!(resp.places[0].name, bytes("Lisbon Santa Apolónia"));
        }
        PlacesResponse::NotFound(_) => panic!("expected places"),
    }
}

#[test]
fn records_survive_the_sync_unchanged() {
    let mut info_row = row("5", "Wien Hbf", "8103000", "48.185", "16.378", "AT");
    // Put a German alias in the first info column.
    {
        let mut cols: Vec<&str> = info_row.split(';').collect();
        cols[54] = "Wien Hauptbahnhof";
        info_row = cols.join(";");
    }
    let source = format!("{}\n{}\n", header(), info_row);
    let mut store = StationStore::new();
    run_sync(&vec![SyncEvent::Chunk(source.into_bytes())], &mut store).unwrap();
    let rec = Search::by_place_id(&store, &bytes("8103000")).unwrap();
    assert_eq!(rec.id, 5);
    assert_eq!(rec.country, Some(bytes("AT")));
    assert_eq!(rec.info.de, Some(bytes("Wien Hauptbahnhof")));
    // The alias is searchable like the display name.
    assert_eq!(Search::by_name(&store, &bytes("hauptbahnhof"), 10).len(), 1);
}
