//! The record that the lookup provider returns, and the record that the
//! service hands out.
use vstd::prelude::*;

verus! {

/// A coordinate in degrees, held as the bit pattern of its binary64 value.
#[derive(Clone, Copy, Debug, PartialEq, Eq, Structural)]
pub struct Coordinate {
    pub bits: u64,
}

/// One entry of a names mapping: a language tag and the name in that language.
#[derive(Clone, Debug, PartialEq, Eq)]
pub struct LocalizedName {
    pub language: String,
    pub name: String,
}

#[derive(Clone, Debug, PartialEq, Eq)]
pub struct RawCountry {
    pub iso_code: Option<String>,
}

#[derive(Clone, Debug, PartialEq, Eq)]
pub struct RawCity {
    pub names: Option<Vec<LocalizedName>>,
}

#[derive(Clone, Debug, PartialEq, Eq)]
pub struct RawPostal {
    pub code: Option<String>,
}

#[derive(Clone, Debug, PartialEq, Eq)]
pub struct RawSubdivision {
    pub names: Option<Vec<LocalizedName>>,
}

#[derive(Clone, Debug, PartialEq, Eq)]
pub struct RawLocation {
    pub metro_code: Option<u16>,
    pub latitude: Option<Coordinate>,
    pub longitude: Option<Coordinate>,
}

/// What the lookup provider knows of an address. Every part may be missing.
/// Subdivisions run from the largest to the smallest.
#[derive(Clone, Debug, PartialEq, Eq)]
pub struct RawProviderRecord {
    pub country: Option<RawCountry>,
    pub city: Option<RawCity>,
    pub postal: Option<RawPostal>,
    pub subdivisions: Option<Vec<RawSubdivision>>,
    pub location: Option<RawLocation>,
}

/// The normalised record of one request. Every field may be absent on its own.
#[derive(Clone, Debug, PartialEq, Eq)]
pub struct GeoRecord {
    pub country_code: Option<String>,
    pub city_name: Option<String>,
    pub postal_code: Option<String>,
    pub region_name: Option<String>,
    pub dma_code: Option<u16>,
    pub latitude: Option<Coordinate>,
    pub longitude: Option<Coordinate>,
}

/// A `GeoRecord` with each text as its characters.
pub ghost struct GeoRecordView {
    pub country_code: Option<Seq<char>>,
    pub city_name: Option<Seq<char>>,
    pub postal_code: Option<Seq<char>>,
    pub region_name: Option<Seq<char>>,
    pub dma_code: Option<u16>,
    pub latitude: Option<Coordinate>,
    pub longitude: Option<Coordinate>,
}

pub open spec fn text_of(o: Option<String>) -> Option<Seq<char>> {
    match o {
        Some(s) => Some(s@),
        None => None,
    }
}

impl View for GeoRecord {
    type V = GeoRecordView;

    open spec fn view(&self) -> GeoRecordView {
        GeoRecordView {
            country_code: text_of(self.country_code),
            city_name: text_of(self.city_name),
            postal_code: text_of(self.postal_code),
            region_name: text_of(self.region_name),
            dma_code: self.dma_code,
            latitude: self.latitude,
            longitude: self.longitude,
        }
    }
}

/// The record in which every field is absent.
pub open spec fn absent_record() -> GeoRecordView {
    GeoRecordView {
        country_code: None,
        city_name: None,
        postal_code: None,
        region_name: None,
        dma_code: None,
        latitude: None,
        longitude: None,
    }
}

/// The tag of the English language in a names mapping.
pub open spec fn english() -> Seq<char> {
    "en"@
}

/// The name under `language`: that of the first entry with this tag.
pub open spec fn name_in(names: Seq<LocalizedName>, language: Seq<char>) -> Option<Seq<char>>
    decreases names.len(),
{
    if names.len() == 0 {
        None
    } else if names[0].language@ == language {
        Some(names[0].name@)
    } else {
        name_in(names.drop_first(), language)
    }
}

/// The English name in a names mapping that may be missing.
pub open spec fn english_name(names: Option<Vec<LocalizedName>>) -> Option<Seq<char>> {
    match names {
        Some(n) => name_in(n@, english()),
        None => None,
    }
}

pub open spec fn country_code_of(raw: RawProviderRecord) -> Option<Seq<char>> {
    match raw.country {
        Some(c) => text_of(c.iso_code),
        None => None,
    }
}

pub open spec fn postal_code_of(raw: RawProviderRecord) -> Option<Seq<char>> {
    match raw.postal {
        Some(p) => text_of(p.code),
        None => None,
    }
}

pub open spec fn city_name_of(raw: RawProviderRecord) -> Option<Seq<char>> {
    match raw.city {
        Some(c) => english_name(c.names),
        None => None,
    }
}

/// The English name of the first subdivision; absent where there is none.
pub open spec fn region_name_of(raw: RawProviderRecord) -> Option<Seq<char>> {
    match raw.subdivisions {
        Some(subs) => if subs@.len() > 0 {
            english_name(subs@[0].names)
        } else {
            None
        },
        None => None,
    }
}

pub open spec fn dma_code_of(raw: RawProviderRecord) -> Option<u16> {
    match raw.location {
        Some(l) => l.metro_code,
        None => None,
    }
}

pub open spec fn latitude_of(raw: RawProviderRecord) -> Option<Coordinate> {
    match raw.location {
        Some(l) => l.latitude,
        None => None,
    }
}

pub open spec fn longitude_of(raw: RawProviderRecord) -> Option<Coordinate> {
    match raw.location {
        Some(l) => l.longitude,
        None => None,
    }
}

/// The normalised record of a provider record: each field from its own part.
pub open spec fn extracted(raw: RawProviderRecord) -> GeoRecordView {
    GeoRecordView {
        country_code: country_code_of(raw),
        city_name: city_name_of(raw),
        postal_code: postal_code_of(raw),
        region_name: region_name_of(raw),
        dma_code: dma_code_of(raw),
        latitude: latitude_of(raw),
        longitude: longitude_of(raw),
    }
}

/// Copies a text that may be absent.
pub fn copy_text(o: &Option<String>) -> (r: Option<String>)
    ensures
        text_of(r) == text_of(*o),
{
    match o {
        Some(s) => Some(s.clone()),
        None => None,
    }
}

/// Looks a name up by its language tag.
pub fn find_name(names: &Vec<LocalizedName>, language: &String) -> (r: Option<String>)
    ensures
        text_of(r) == name_in(names@, language@),
{
    let mut i: usize = 0;
    proof {
        assert(names@.subrange(0, names@.len() as int) =~= names@);
    }
    while i < names.len()
        invariant
            i <= names@.len(),
            name_in(names@, language@) == name_in(
                names@.subrange(i as int, names@.len() as int),
                language@,
            ),
        decreases names@.len() - i,
    {
        proof {
            assert(names@.subrange(i as int, names@.len() as int).drop_first()
                =~= names@.subrange(i + 1, names@.len() as int));
        }
        if names[i].language == *language {
            return Some(names[i].name.clone());
        }
        i = i + 1;
    }
    None
}

/// The English name in a names mapping that may be missing.
pub fn find_english_name(names: &Option<Vec<LocalizedName>>) -> (r: Option<String>)
    ensures
        text_of(r) == english_name(*names),
{
    match names {
        Some(n) => {
            let tag: String = "en".to_owned();
            find_name(n, &tag)
        },
        None => None,
    }
}

impl GeoRecord {
    /// The record in which every field is absent.
    pub fn absent() -> (r: GeoRecord)
        ensures
            r@ == absent_record(),
    {
        GeoRecord {
            country_code: None,
            city_name: None,
            postal_code: None,
            region_name: None,
            dma_code: None,
            latitude: None,
            longitude: None,
        }
    }
}

/// Normalises a provider record. Never fails: a part that is missing leaves
/// only its own fields absent.
pub fn extract(raw: &RawProviderRecord) -> (r: GeoRecord)
    ensures
        r@ == extracted(*raw),
{
    let country_code = match &raw.country {
        Some(c) => copy_text(&c.iso_code),
        None => None,
    };
    let postal_code = match &raw.postal {
        Some(p) => copy_text(&p.code),
        None => None,
    };
    let city_name = match &raw.city {
        Some(c) => find_english_name(&c.names),
        None => None,
    };
    let region_name = match &raw.subdivisions {
        Some(subs) => if subs.len() > 0 {
            find_english_name(&subs[0].names)
        } else {
            None
        },
        None => None,
    };
    let (dma_code, latitude, longitude) = match &raw.location {
        Some(l) => (l.metro_code, l.latitude, l.longitude),
        None => (None, None, None),
    };
    GeoRecord { country_code, city_name, postal_code, region_name, dma_code, latitude, longitude }
}

/// A provider record with every part missing gives the record with every
/// field absent.
pub proof fn extraction_of_nothing(raw: RawProviderRecord)
    requires
        raw.country.is_none(),
        raw.city.is_none(),
        raw.postal.is_none(),
        raw.subdivisions.is_none(),
        raw.location.is_none(),
    ensures
        extracted(raw) == absent_record(),
{
}

/// An empty sequence of subdivisions gives no region name, and leaves every
/// other field as its own part gives it.
pub proof fn no_subdivision_no_region(raw: RawProviderRecord)
    requires
        raw.subdivisions.is_some(),
        raw.subdivisions.unwrap()@.len() == 0,
    ensures
        extracted(raw).region_name.is_none(),
        extracted(raw).country_code == country_code_of(raw),
        extracted(raw).city_name == city_name_of(raw),
        extracted(raw).postal_code == postal_code_of(raw),
        extracted(raw).dma_code == dma_code_of(raw),
{
}

/// The fields are independent: two provider records that agree on one part
/// agree on the fields read from it, whatever their other parts hold.
pub proof fn fields_depend_on_their_part_only(a: RawProviderRecord, b: RawProviderRecord)
    ensures
        a.country == b.country ==> extracted(a).country_code == extracted(b).country_code,
        a.city == b.city ==> extracted(a).city_name == extracted(b).city_name,
        a.postal == b.postal ==> extracted(a).postal_code == extracted(b).postal_code,
        a.subdivisions == b.subdivisions ==> extracted(a).region_name == extracted(
            b,
        ).region_name,
        a.location == b.location ==> extracted(a).dma_code == extracted(b).dma_code
            && extracted(a).latitude == extracted(b).latitude && extracted(a).longitude
            == extracted(b).longitude,
{
}

} // verus!
