//! The lookup provider: a MaxMind database held in memory.
//!
//! The database reader and the records it decodes are opaque here. What the
//! pipeline reads of a decoded record is copied out as `ProviderParts`; what
//! a database answers for an address is a named function of its bytes and
//! the address, and everything after the answer is verified.
use vstd::prelude::*;
use maxminddb::geoip2::City;
use crate::ip::IpAddress;
use crate::record::{
    absent_record, copy_text, english, english_name, extracted, name_in, text_of, Coordinate,
    GeoRecord, GeoRecordView, LocalizedName, RawCity, RawCountry, RawLocation, RawPostal,
    RawProviderRecord, RawSubdivision,
};
use crate::service::{
    first_step, geoip_service, record_for, Config, Request, Response, Step, StepView,
};

verus! {

/// A MaxMind database held in memory: a `maxminddb::Reader` over the bytes
/// of the database file.
#[verifier::external_body]
pub struct Database {
    reader: maxminddb::Reader<Vec<u8>>,
}

/// `maxminddb::MaxMindDbError`.
#[verifier::external_type_specification]
#[verifier::external_body]
pub struct ExMaxMindDbError(maxminddb::MaxMindDbError);

/// An address as the arrays that the reader takes: four octets, or eight
/// 16-bit groups.
#[derive(Clone, Copy, Debug, PartialEq, Eq)]
pub enum PackedAddress {
    V4([u8; 4]),
    V6([u16; 8]),
}

/// The address that the arrays hold.
pub open spec fn unpacked(packed: PackedAddress) -> IpAddress {
    match packed {
        PackedAddress::V4(o) => IpAddress::V4(o[0], o[1], o[2], o[3]),
        PackedAddress::V6(g) => IpAddress::V6(g[0], g[1], g[2], g[3], g[4], g[5], g[6], g[7]),
    }
}

/// Packs an address into arrays.
pub fn pack(ip: IpAddress) -> (r: PackedAddress)
    ensures
        unpacked(r) == ip,
{
    match ip {
        IpAddress::V4(a, b, c, d) => PackedAddress::V4([a, b, c, d]),
        IpAddress::V6(a, b, c, d, e, f, g, h) => PackedAddress::V6([a, b, c, d, e, f, g, h]),
    }
}

/// What the pipeline reads of a decoded city record, as plain values: the
/// country's ISO code, the English name of the city, the postal code, the
/// English name of each subdivision in their order, the metro code, and
/// each coordinate as the bit pattern of its binary64 value.
#[derive(Clone, Debug, PartialEq, Eq)]
pub struct ProviderParts {
    pub country_code: Option<String>,
    pub city_name: Option<String>,
    pub postal_code: Option<String>,
    pub subdivision_names: Vec<Option<String>>,
    pub metro_code: Option<u16>,
    pub latitude_bits: Option<u64>,
    pub longitude_bits: Option<u64>,
}

/// The coordinate with the given bit pattern, where there is one.
pub open spec fn coordinate_of(bits: Option<u64>) -> Option<Coordinate> {
    match bits {
        Some(b) => Some(Coordinate { bits: b }),
        None => None,
    }
}

/// `ProviderParts` with each text as its characters.
pub ghost struct ProviderPartsView {
    pub country_code: Option<Seq<char>>,
    pub city_name: Option<Seq<char>>,
    pub postal_code: Option<Seq<char>>,
    pub subdivision_names: Seq<Option<Seq<char>>>,
    pub metro_code: Option<u16>,
    pub latitude: Option<Coordinate>,
    pub longitude: Option<Coordinate>,
}

impl View for ProviderParts {
    type V = ProviderPartsView;

    open spec fn view(&self) -> ProviderPartsView {
        ProviderPartsView {
            country_code: text_of(self.country_code),
            city_name: text_of(self.city_name),
            postal_code: text_of(self.postal_code),
            subdivision_names: Seq::new(
                self.subdivision_names@.len(),
                |i: int| text_of(self.subdivision_names@[i]),
            ),
            metro_code: self.metro_code,
            latitude: coordinate_of(self.latitude_bits),
            longitude: coordinate_of(self.longitude_bits),
        }
    }
}

/// The bytes of the database file that a `Database` was made from.
pub uninterp spec fn database_bytes(database: Database) -> Seq<u8>;

/// Whether `maxminddb::Reader::from_source` accepts these bytes as a
/// database file.
pub uninterp spec fn is_database(bytes: Seq<u8>) -> bool;

/// What a database with these bytes answers for an address: the parts of
/// the city record that `maxminddb::Reader::lookup` finds and
/// `maxminddb::LookupResult::decode` decodes, or `None` where the address is
/// not found or its record cannot be decoded.
pub uninterp spec fn provider_answer(bytes: Seq<u8>, ip: IpAddress) -> Option<ProviderPartsView>;

/// Calls `maxminddb::Reader::from_source` on the bytes of a database file.
/// Whether it accepts them depends on the bytes alone, and the reader keeps
/// the bytes it was given.
#[verifier::external_body]
fn read_database(bytes: Vec<u8>) -> (r: Result<Database, maxminddb::MaxMindDbError>)
    ensures
        r.is_ok() == is_database(bytes@),
        r.is_ok() ==> database_bytes(r.unwrap()) == bytes@,
{
    Ok(Database { reader: maxminddb::Reader::from_source(bytes)? })
}

/// Calls `maxminddb::Reader::lookup` with the address and
/// `maxminddb::LookupResult::decode` for a `maxminddb::geoip2::City` on what
/// it finds, and copies the fields that the pipeline reads. The reader works
/// on its bytes alone, so the result is the answer of those bytes for the
/// address; an error of either call comes back as it is.
#[verifier::external_body]
fn find_parts(database: &Database, address: PackedAddress) -> (r: Result<
    Option<ProviderParts>,
    maxminddb::MaxMindDbError,
>)
    ensures
        match r {
            Ok(Some(parts)) => provider_answer(database_bytes(*database), unpacked(address))
                == Some(parts@),
            Ok(None) => provider_answer(database_bytes(*database), unpacked(address)).is_none(),
            Err(_) => provider_answer(database_bytes(*database), unpacked(address)).is_none(),
        },
{
    let address = match address {
        PackedAddress::V4(octets) => octets.into(),
        PackedAddress::V6(groups) => groups.into(),
    };
    Ok(database.reader.lookup(address)?.decode::<City>()?.map(|c| ProviderParts {
        country_code: c.country.iso_code.map(String::from),
        city_name: c.city.names.english.map(String::from),
        postal_code: c.postal.code.map(String::from),
        subdivision_names: c.subdivisions.iter().map(|s| s.names.english.map(String::from)).collect(),
        metro_code: c.location.metro_code,
        latitude_bits: c.location.latitude.map(|v| v.to_bits()),
        longitude_bits: c.location.longitude.map(|v| v.to_bits()),
    }))
}

/// The coordinate with the given bit pattern, where there is one.
pub fn coordinate(bits: Option<u64>) -> (r: Option<Coordinate>)
    ensures
        r == coordinate_of(bits),
{
    match bits {
        Some(b) => Some(Coordinate { bits: b }),
        None => None,
    }
}

/// The names mapping that holds `name` under the English tag and nothing
/// else.
pub fn english_only(name: Option<String>) -> (r: Vec<LocalizedName>)
    ensures
        name_in(r@, english()) == text_of(name),
        r@.len() == if name.is_some() { 1nat } else { 0nat },
{
    let mut names: Vec<LocalizedName> = Vec::new();
    match name {
        Some(n) => {
            names.push(LocalizedName { language: "en".to_owned(), name: n });
            proof {
                assert(names@[0].language@ == english());
            }
        },
        None => {},
    }
    names
}

/// One subdivision for each name, in the same order, each with its name
/// under the English tag.
pub fn subdivisions_of(names: Vec<Option<String>>) -> (r: Vec<RawSubdivision>)
    ensures
        r@.len() == names@.len(),
        forall|i: int|
            0 <= i < r@.len() ==> english_name((#[trigger] r@[i]).names) == text_of(names@[i]),
{
    let mut subdivisions: Vec<RawSubdivision> = Vec::new();
    let mut i: usize = 0;
    while i < names.len()
        invariant
            i <= names@.len(),
            subdivisions@.len() == i,
            forall|j: int|
                0 <= j < i ==> english_name((#[trigger] subdivisions@[j]).names) == text_of(
                    names@[j],
                ),
        decreases names@.len() - i,
    {
        let name = copy_text(&names[i]);
        subdivisions.push(RawSubdivision { names: Some(english_only(name)) });
        i = i + 1;
    }
    subdivisions
}

/// Whether every part of a provider record is there.
pub open spec fn is_complete(raw: RawProviderRecord) -> bool {
    &&& raw.country.is_some()
    &&& raw.city.is_some()
    &&& raw.postal.is_some()
    &&& raw.subdivisions.is_some()
    &&& raw.location.is_some()
}

/// Whether a provider record holds what the parts hold: every part is
/// there, each field is the part's, and each English name is found under
/// its tag.
pub open spec fn reads_as(raw: RawProviderRecord, parts: ProviderPartsView) -> bool {
    &&& is_complete(raw)
    &&& text_of(raw.country.unwrap().iso_code) == parts.country_code
    &&& english_name(raw.city.unwrap().names) == parts.city_name
    &&& text_of(raw.postal.unwrap().code) == parts.postal_code
    &&& raw.subdivisions.unwrap()@.len() == parts.subdivision_names.len()
    &&& forall|i: int|
        0 <= i < parts.subdivision_names.len() ==> english_name(
            (#[trigger] raw.subdivisions.unwrap()@[i]).names,
        ) == parts.subdivision_names[i]
    &&& raw.location.unwrap().metro_code == parts.metro_code
    &&& raw.location.unwrap().latitude == parts.latitude
    &&& raw.location.unwrap().longitude == parts.longitude
}

/// The normalised record of the parts: the region is the first
/// subdivision's name.
pub open spec fn record_of_parts(parts: ProviderPartsView) -> GeoRecordView {
    GeoRecordView {
        country_code: parts.country_code,
        city_name: parts.city_name,
        postal_code: parts.postal_code,
        region_name: if parts.subdivision_names.len() > 0 {
            parts.subdivision_names[0]
        } else {
            None
        },
        dma_code: parts.metro_code,
        latitude: parts.latitude,
        longitude: parts.longitude,
    }
}

/// The normalised record of an answer of the provider: a miss gives the
/// record with every field absent.
pub open spec fn record_of_answer(answer: Option<ProviderPartsView>) -> GeoRecordView {
    match answer {
        Some(parts) => record_of_parts(parts),
        None => absent_record(),
    }
}

/// A provider record that reads as the parts is normalised to the record
/// of the parts.
pub proof fn extraction_of_parts(raw: RawProviderRecord, parts: ProviderPartsView)
    requires
        reads_as(raw, parts),
    ensures
        extracted(raw) == record_of_parts(parts),
{
}

/// The provider record of the parts of a decoded city record. It holds
/// every part, with the fields of an unknown part missing.
pub fn raw_record(parts: ProviderParts) -> (r: RawProviderRecord)
    ensures
        reads_as(r, parts@),
{
    RawProviderRecord {
        country: Some(RawCountry { iso_code: parts.country_code }),
        city: Some(RawCity { names: Some(english_only(parts.city_name)) }),
        postal: Some(RawPostal { code: parts.postal_code }),
        subdivisions: Some(subdivisions_of(parts.subdivision_names)),
        location: Some(
            RawLocation {
                metro_code: parts.metro_code,
                latitude: coordinate(parts.latitude_bits),
                longitude: coordinate(parts.longitude_bits),
            },
        ),
    }
}

/// Parses the bytes of a database file; `None` where they are no database.
/// The database answers from those bytes.
pub fn open(bytes: Vec<u8>) -> (r: Option<Database>)
    ensures
        r.is_some() == is_database(bytes@),
        r.is_some() ==> database_bytes(r.unwrap()) == bytes@,
{
    match read_database(bytes) {
        Ok(database) => Some(database),
        Err(_) => None,
    }
}

/// Looks an address up: the provider record of what the database answers.
/// An address that the database does not hold, and one that it cannot
/// answer for, give `None`.
pub fn lookup(database: &Database, ip: IpAddress) -> (r: Option<RawProviderRecord>)
    ensures
        match provider_answer(database_bytes(*database), ip) {
            Some(parts) => r.is_some() && reads_as(r.unwrap(), parts),
            None => r.is_none(),
        },
{
    match find_parts(database, pack(ip)) {
        Ok(Some(parts)) => Some(raw_record(parts)),
        Ok(None) => None,
        Err(_) => None,
    }
}

/// The record of an address: the normalised record of what the database
/// answers, or the record with every field absent.
pub fn geolocalize(database: &Database, ip: IpAddress) -> (r: GeoRecord)
    ensures
        r@ == record_of_answer(provider_answer(database_bytes(*database), ip)),
{
    let found = lookup(database, ip);
    record_for(&found)
}

/// What a request is served with: a finished response, or the record to
/// encode into one.
#[derive(Clone, Debug, PartialEq, Eq)]
pub enum Served {
    Response(Response),
    Record(GeoRecord),
}

/// Serves a request up to the encoding of its record. A request that is
/// turned away gets its response and the database is not asked; an
/// admitted one gets the record of its address.
pub fn serve(req: &Request, config: &Config, database: &Database) -> (r: Served)
    ensures
        match first_step(*req, *config) {
            StepView::Respond { status, body } => match r {
                Served::Response(response) => response.status == status && response.body@ == body,
                Served::Record(_) => false,
            },
            StepView::Lookup { ip } => match r {
                Served::Response(_) => false,
                Served::Record(record) => record@ == record_of_answer(
                    provider_answer(database_bytes(*database), ip),
                ),
            },
        },
{
    match geoip_service(req, config) {
        Step::Respond(response) => Served::Response(response),
        Step::Lookup(ip) => Served::Record(geolocalize(database, ip)),
    }
}

} // verus!
