//! The station data model.
//!
//! A [`StationRecord`] is one row of the stations dataset as it is persisted
//! and returned by searches. Textual fields are carried as UTF-8 bytes;
//! coordinates are carried as microdegrees (millionths of a degree), so a
//! latitude of 38.713870 degrees is stored as `38_713_870`. A missing
//! coordinate means the station is unavailable for geographic search.

use vstd::prelude::*;

verus! {

/// Spec-level value of one localized info field set: the eighteen optional
/// alternate names, in the fixed language order of [`Info`].
pub type InfoModel = Seq<Option<Seq<u8>>>;

/// Spec-level value of a [`StationRecord`].
#[verifier::ext_equal]
pub struct StationModel {
    pub id: i64,
    pub name: Seq<u8>,
    pub uic: Seq<u8>,
    pub latitude: Option<i64>,
    pub longitude: Option<i64>,
    pub country: Option<Seq<u8>>,
    pub info: InfoModel,
}

/// Localized alternate names of a station, one optional field per supported
/// language code. Each is searched exactly like the display name.
#[derive(Debug, PartialEq)]
pub struct Info {
    pub de: Option<Vec<u8>>,
    pub en: Option<Vec<u8>>,
    pub es: Option<Vec<u8>>,
    pub fr: Option<Vec<u8>>,
    pub it: Option<Vec<u8>>,
    pub nb: Option<Vec<u8>>,
    pub nl: Option<Vec<u8>>,
    pub cs: Option<Vec<u8>>,
    pub da: Option<Vec<u8>>,
    pub hu: Option<Vec<u8>>,
    pub ja: Option<Vec<u8>>,
    pub ko: Option<Vec<u8>>,
    pub pl: Option<Vec<u8>>,
    pub pt: Option<Vec<u8>>,
    pub ru: Option<Vec<u8>>,
    pub sv: Option<Vec<u8>>,
    pub tr: Option<Vec<u8>>,
    pub zh: Option<Vec<u8>>,
}

/// View of an optional byte field.
pub open spec fn opt_bytes(o: Option<Vec<u8>>) -> Option<Seq<u8>> {
    match o {
        Some(v) => Some(v@),
        None => None,
    }
}

impl View for Info {
    type V = InfoModel;

    open spec fn view(&self) -> InfoModel {
        seq![
            opt_bytes(self.de),
            opt_bytes(self.en),
            opt_bytes(self.es),
            opt_bytes(self.fr),
            opt_bytes(self.it),
            opt_bytes(self.nb),
            opt_bytes(self.nl),
            opt_bytes(self.cs),
            opt_bytes(self.da),
            opt_bytes(self.hu),
            opt_bytes(self.ja),
            opt_bytes(self.ko),
            opt_bytes(self.pl),
            opt_bytes(self.pt),
            opt_bytes(self.ru),
            opt_bytes(self.sv),
            opt_bytes(self.tr),
            opt_bytes(self.zh),
        ]
    }
}

/// One station row, as persisted and as returned by searches.
#[derive(Debug, PartialEq)]
pub struct StationRecord {
    pub id: i64,
    pub name: Vec<u8>,
    pub uic: Vec<u8>,
    pub latitude: Option<i64>,
    pub longitude: Option<i64>,
    pub country: Option<Vec<u8>>,
    pub info: Info,
}

impl View for StationRecord {
    type V = StationModel;

    open spec fn view(&self) -> StationModel {
        StationModel {
            id: self.id,
            name: self.name@,
            uic: self.uic@,
            latitude: self.latitude,
            longitude: self.longitude,
            country: opt_bytes(self.country),
            info: self.info@,
        }
    }
}

/// The spec-level contents of a sequence of records.
pub open spec fn models(rows: Seq<StationRecord>) -> Seq<StationModel> {
    rows.map_values(|r: StationRecord| r@)
}

impl StationModel {
    /// A station can be addressed and listed only when its external `uic`
    /// key is non-empty.
    pub open spec fn has_uic(self) -> bool {
        self.uic.len() > 0
    }

    /// A station takes part in geographic search only when both
    /// coordinates are present.
    pub open spec fn has_position(self) -> bool {
        self.latitude is Some && self.longitude is Some
    }
}

/// Copies one byte field.
pub fn clone_bytes(v: &Vec<u8>) -> (r: Vec<u8>)
    ensures
        r@ == v@,
{
    let mut r: Vec<u8> = Vec::new();
    let mut i: usize = 0;
    while i < v.len()
        invariant
            i <= v.len(),
            r@ == v@.subrange(0, i as int),
        decreases v.len() - i,
    {
        r.push(v[i]);
        i = i + 1;
    }
    assert(r@ == v@);
    r
}

/// Copies an optional byte field.
pub fn clone_opt_bytes(o: &Option<Vec<u8>>) -> (r: Option<Vec<u8>>)
    ensures
        opt_bytes(r) == opt_bytes(*o),
{
    match o {
        Some(v) => Some(clone_bytes(v)),
        None => None,
    }
}

impl Info {
    /// An info set with every field absent.
    pub fn empty() -> (r: Info)
        ensures
            forall|j: int| 0 <= j < 18 ==> r@[j] is None,
    {
        Info {
            de: None,
            en: None,
            es: None,
            fr: None,
            it: None,
            nb: None,
            nl: None,
            cs: None,
            da: None,
            hu: None,
            ja: None,
            ko: None,
            pl: None,
            pt: None,
            ru: None,
            sv: None,
            tr: None,
            zh: None,
        }
    }

    /// Borrows the `j`th info field, in the fixed language order of the
    /// view.
    pub fn field_at(&self, j: usize) -> (r: &Option<Vec<u8>>)
        requires
            j < 18,
        ensures
            opt_bytes(*r) == self@[j as int],
    {
        if j == 0 {
            &self.de
        } else if j == 1 {
            &self.en
        } else if j == 2 {
            &self.es
        } else if j == 3 {
            &self.fr
        } else if j == 4 {
            &self.it
        } else if j == 5 {
            &self.nb
        } else if j == 6 {
            &self.nl
        } else if j == 7 {
            &self.cs
        } else if j == 8 {
            &self.da
        } else if j == 9 {
            &self.hu
        } else if j == 10 {
            &self.ja
        } else if j == 11 {
            &self.ko
        } else if j == 12 {
            &self.pl
        } else if j == 13 {
            &self.pt
        } else if j == 14 {
            &self.ru
        } else if j == 15 {
            &self.sv
        } else if j == 16 {
            &self.tr
        } else {
            &self.zh
        }
    }

    /// Copies the info set.
    pub fn duplicate(&self) -> (r: Info)
        ensures
            r@ == self@,
    {
        let r = Info {
            de: clone_opt_bytes(&self.de),
            en: clone_opt_bytes(&self.en),
            es: clone_opt_bytes(&self.es),
            fr: clone_opt_bytes(&self.fr),
            it: clone_opt_bytes(&self.it),
            nb: clone_opt_bytes(&self.nb),
            nl: clone_opt_bytes(&self.nl),
            cs: clone_opt_bytes(&self.cs),
            da: clone_opt_bytes(&self.da),
            hu: clone_opt_bytes(&self.hu),
            ja: clone_opt_bytes(&self.ja),
            ko: clone_opt_bytes(&self.ko),
            pl: clone_opt_bytes(&self.pl),
            pt: clone_opt_bytes(&self.pt),
            ru: clone_opt_bytes(&self.ru),
            sv: clone_opt_bytes(&self.sv),
            tr: clone_opt_bytes(&self.tr),
            zh: clone_opt_bytes(&self.zh),
        };
        assert(r@ =~= self@);
        r
    }
}

/// What a provider id field decodes to: an empty field means "no id",
/// anything else is kept as an opaque string.
pub open spec fn spec_provider_id(s: Seq<u8>) -> Option<Seq<u8>> {
    if s.len() == 0 {
        None
    } else {
        Some(s)
    }
}

/// What a textual boolean field decodes to: `t` or `f`, nothing else.
pub open spec fn spec_bool_text(s: Seq<u8>) -> Option<bool> {
    if s.len() == 1 && s[0] == 116 {
        Some(true)
    } else if s.len() == 1 && s[0] == 102 {
        Some(false)
    } else {
        None
    }
}

/// Decodes the boolean columns of the dataset.
pub struct BoolDeserializer;

impl BoolDeserializer {
    /// Decodes a textual boolean field: `t` is true, `f` is false, any
    /// other text is rejected.
    pub fn from_text(s: &Vec<u8>) -> (r: Result<bool, crate::parse::RowError>)
        ensures
            match r {
                Ok(b) => spec_bool_text(s@) == Some(b),
                Err(e) => spec_bool_text(s@) is None && e == crate::parse::RowError::BadBool,
            },
    {
        if s.len() == 1 && s[0] == 116 {
            Ok(true)
        } else if s.len() == 1 && s[0] == 102 {
            Ok(false)
        } else {
            Err(crate::parse::RowError::BadBool)
        }
    }

    /// Decodes a stored boolean field: `1` is true, `0` is false, any
    /// other number is rejected.
    pub fn from_int(v: i64) -> (r: Result<bool, crate::parse::RowError>)
        ensures
            match r {
                Ok(b) => (v == 1 || v == 0) && b == (v == 1),
                Err(e) => v != 1 && v != 0 && e == crate::parse::RowError::BadBool,
            },
    {
        if v == 1 {
            Ok(true)
        } else if v == 0 {
            Ok(false)
        } else {
            Err(crate::parse::RowError::BadBool)
        }
    }
}

/// One provider's id for a station, with its enabled flag, decoded from a
/// pair of dataset columns.
pub struct ProviderId {
    id: Option<Vec<u8>>,
    is_enabled: bool,
}

/// Spec-level value of a [`ProviderId`]: the optional id text and the
/// enabled flag.
pub struct ProviderIdModel {
    pub id: Option<Seq<u8>>,
    pub is_enabled: bool,
}

impl View for ProviderId {
    type V = ProviderIdModel;

    closed spec fn view(&self) -> ProviderIdModel {
        ProviderIdModel { id: opt_bytes(self.id), is_enabled: self.is_enabled }
    }
}

impl ProviderId {
    /// The provider's id, when the field was present.
    pub fn id(&self) -> (r: Option<&Vec<u8>>)
        ensures
            match r {
                Some(v) => self@.id == Some(v@),
                None => self@.id is None,
            },
    {
        self.id.as_ref()
    }

    /// Whether the provider serves this station.
    pub fn is_enabled(&self) -> (r: bool)
        ensures
            r == self@.is_enabled,
    {
        self.is_enabled
    }

    /// Decodes a provider id column pair: an empty id means "no id", and
    /// the enabled flag must be `t` or `f`.
    pub fn parse(id_field: &Vec<u8>, enabled_field: &Vec<u8>) -> (r: Result<
        ProviderId,
        crate::parse::RowError,
    >)
        ensures
            match r {
                Ok(p) => {
                    &&& p@.id == spec_provider_id(id_field@)
                    &&& spec_bool_text(enabled_field@) == Some(p@.is_enabled)
                },
                Err(e) => spec_bool_text(enabled_field@) is None && e
                    == crate::parse::RowError::BadBool,
            },
    {
        let enabled = match BoolDeserializer::from_text(enabled_field) {
            Ok(b) => b,
            Err(e) => {
                return Err(e);
            },
        };
        let id = if id_field.len() == 0 {
            None
        } else {
            Some(clone_bytes(id_field))
        };
        Ok(ProviderId { id, is_enabled: enabled })
    }
}

impl StationRecord {
    /// Copies the record.
    pub fn duplicate(&self) -> (r: StationRecord)
        ensures
            r@ == self@,
    {
        StationRecord {
            id: self.id,
            name: clone_bytes(&self.name),
            uic: clone_bytes(&self.uic),
            latitude: self.latitude,
            longitude: self.longitude,
            country: clone_opt_bytes(&self.country),
            info: self.info.duplicate(),
        }
    }
}

} // verus!
