//! The place types of the search interface.
//!
//! A [`OsdmPlace`] is what searches hand back to the surrounding HTTP
//! adapter: the station's public identifier (derived from its UIC code),
//! its display name, and its position when both coordinates are present.
//! The request types carry the parsed query: an optional name pattern, an
//! optional position in microdegrees, and an optional result limit.

use vstd::prelude::*;

use crate::station::StationModel;
use crate::station::StationRecord;
use crate::station::clone_bytes;

verus! {

/// A position in microdegrees.
#[derive(PartialEq, Eq, Structural, Clone, Copy, Debug)]
pub struct OsdmGeoPosition {
    pub latitude: i64,
    pub longitude: i64,
}

/// A related link; carried for interface compatibility, never filled in.
pub struct OsdmLink {
    rel: Vec<u8>,
    href: Vec<u8>,
    _type: Vec<u8>,
    value: Vec<u8>,
}

/// Spec-level value of a place.
#[verifier::ext_equal]
pub struct PlaceModel {
    pub id: Seq<u8>,
    pub object_type: Seq<u8>,
    pub name: Seq<u8>,
    pub alternative_ids: Seq<Seq<u8>>,
    pub geo_position: Option<OsdmGeoPosition>,
    pub country: Option<Seq<u8>>,
}

/// A place: one station as the search interface presents it, carrying
/// its public identifier, display name, optional position, and optional
/// country hint.
pub struct OsdmPlace {
    pub id: Vec<u8>,
    pub object_type: Vec<u8>,
    pub name: Vec<u8>,
    pub alternative_ids: Vec<Vec<u8>>,
    pub geo_position: Option<OsdmGeoPosition>,
    pub country: Option<Vec<u8>>,
    pub _links: Vec<OsdmLink>,
}

impl View for OsdmPlace {
    type V = PlaceModel;

    open spec fn view(&self) -> PlaceModel {
        PlaceModel {
            id: self.id@,
            object_type: self.object_type@,
            name: self.name@,
            alternative_ids: self.alternative_ids@.map_values(|v: Vec<u8>| v@),
            geo_position: self.geo_position,
            country: crate::station::opt_bytes(self.country),
        }
    }
}

/// The prefix of every place identifier.
pub open spec fn place_id_prefix() -> Seq<u8> {
    seq![117u8, 114u8, 110u8, 58u8, 117u8, 105u8, 99u8, 58u8, 115u8, 116u8, 110u8, 58u8]
}

/// The object type of every place.
pub open spec fn stop_place_type() -> Seq<u8> {
    seq![83u8, 116u8, 111u8, 112u8, 80u8, 108u8, 97u8, 99u8, 101u8]
}

/// The place a station record presents as: its UIC code behind the
/// identifier prefix, its display name, and its position when both
/// coordinates are present.
pub open spec fn spec_place_of(m: StationModel) -> PlaceModel {
    PlaceModel {
        id: place_id_prefix() + m.uic,
        object_type: stop_place_type(),
        name: m.name,
        alternative_ids: Seq::empty(),
        geo_position: match (m.latitude, m.longitude) {
            (Some(lat), Some(lon)) => Some(OsdmGeoPosition { latitude: lat, longitude: lon }),
            _ => None,
        },
        country: m.country,
    }
}

/// The places of a sequence of stations, in order.
pub open spec fn place_seq(ms: Seq<StationModel>) -> Seq<PlaceModel> {
    ms.map_values(|m: StationModel| spec_place_of(m))
}

impl OsdmPlace {
    /// Presents one station as a place.
    pub fn from(station: &StationRecord) -> (r: OsdmPlace)
        ensures
            r@ == spec_place_of(station@),
    {
        let mut id: Vec<u8> = Vec::new();
        id.push(117);
        id.push(114);
        id.push(110);
        id.push(58);
        id.push(117);
        id.push(105);
        id.push(99);
        id.push(58);
        id.push(115);
        id.push(116);
        id.push(110);
        id.push(58);
        let mut k: usize = 0;
        while k < station.uic.len()
            invariant
                k <= station.uic@.len(),
                id@ == place_id_prefix() + station.uic@.subrange(0, k as int),
            decreases station.uic@.len() - k,
        {
            id.push(station.uic[k]);
            assert(id@ =~= place_id_prefix() + station.uic@.subrange(0, k + 1 as int));
            k = k + 1;
        }
        assert(id@ =~= place_id_prefix() + station.uic@);
        let mut object_type: Vec<u8> = Vec::new();
        object_type.push(83);
        object_type.push(116);
        object_type.push(111);
        object_type.push(112);
        object_type.push(80);
        object_type.push(108);
        object_type.push(97);
        object_type.push(99);
        object_type.push(101);
        assert(object_type@ =~= stop_place_type());
        let geo_position = match (station.latitude, station.longitude) {
            (Some(latitude), Some(longitude)) => Some(
                OsdmGeoPosition { latitude, longitude },
            ),
            _ => None,
        };
        let r = OsdmPlace {
            id,
            object_type,
            name: clone_bytes(&station.name),
            alternative_ids: Vec::new(),
            geo_position,
            country: crate::station::clone_opt_bytes(&station.country),
            _links: Vec::new(),
        };
        assert(r@.alternative_ids =~= Seq::<Seq<u8>>::empty());
        assert(r@ =~= spec_place_of(station@));
        r
    }
}

/// The name and position constraints of a search request.
pub struct OsdmInitialPlaceInput {
    pub name: Option<Vec<u8>>,
    pub geo_position: Option<OsdmGeoPosition>,
}

/// The restrictions of a search request.
pub struct OsdmPlaceRestrictions {
    pub number_of_results: Option<usize>,
}

/// A search request: optional constraints and optional restrictions.
pub struct OsdmPlaceRequest {
    pub place_input: Option<OsdmInitialPlaceInput>,
    pub restrictions: Option<OsdmPlaceRestrictions>,
}

/// A list of places, the successful response of every search.
pub struct OsdmPlaceResponse {
    pub places: Vec<OsdmPlace>,
}

impl View for OsdmPlaceResponse {
    type V = Seq<PlaceModel>;

    open spec fn view(&self) -> Seq<PlaceModel> {
        self.places@.map_values(|p: OsdmPlace| p@)
    }
}

/// A problem report, the response when a place cannot be found.
pub struct OsdmProblem {
    pub code: Vec<u8>,
    pub title: Vec<u8>,
}

/// What a place endpoint responds: places, or a problem.
pub enum PlacesResponse {
    Found(OsdmPlaceResponse),
    NotFound(OsdmProblem),
}

impl OsdmPlaceResponse {
    /// Presents a sequence of stations as places, keeping their order.
    pub fn from(stations: &Vec<StationRecord>) -> (r: OsdmPlaceResponse)
        ensures
            r@ == place_seq(crate::station::models(stations@)),
    {
        let mut places: Vec<OsdmPlace> = Vec::new();
        let mut i: usize = 0;
        while i < stations.len()
            invariant
                i <= stations@.len(),
                places@.len() == i,
                forall|k: int|
                    0 <= k < i ==> #[trigger] places@[k]@ == spec_place_of(stations@[k]@),
            decreases stations@.len() - i,
        {
            let p = OsdmPlace::from(&stations[i]);
            places.push(p);
            i = i + 1;
        }
        let r = OsdmPlaceResponse { places };
        assert(r@ =~= place_seq(crate::station::models(stations@)));
        r
    }
}

} // verus!
