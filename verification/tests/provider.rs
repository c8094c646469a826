use geoip_service::ip::IpAddress;
use geoip_service::provider::{
    coordinate, geolocalize, lookup, open, pack, raw_record, serve, PackedAddress, ProviderParts,
    Served,
};
use geoip_service::record::{extract, Coordinate, RawLocation};
use geoip_service::record::GeoRecord;
use geoip_service::service::{
    geoip_service, success_response, Config, Credential, Method, Request, Response, Step,
};

fn text(s: &str) -> Vec<u8> {
    let mut out = vec![0x40 | s.len() as u8];
    out.extend_from_slice(s.as_bytes());
    out
}

fn map_of(entries: Vec<(&str, Vec<u8>)>) -> Vec<u8> {
    let mut out = vec![0xe0 | entries.len() as u8];
    for (key, value) in entries {
        out.extend(text(key));
        out.extend(value);
    }
    out
}

fn array_of(items: Vec<Vec<u8>>) -> Vec<u8> {
    let mut out = vec![items.len() as u8, 0x04];
    for item in items {
        out.extend(item);
    }
    out
}

fn uint16(v: u16) -> Vec<u8> {
    vec![0xa2, (v >> 8) as u8, (v & 0xff) as u8]
}

fn uint32(v: u32) -> Vec<u8> {
    let mut out = vec![0xc4];
    out.extend_from_slice(&v.to_be_bytes());
    out
}

fn uint64(v: u64) -> Vec<u8> {
    let mut out = vec![0x08, 0x02];
    out.extend_from_slice(&v.to_be_bytes());
    out
}

fn double(v: f64) -> Vec<u8> {
    let mut out = vec![0x68];
    out.extend_from_slice(&v.to_be_bytes());
    out
}

fn names(entries: Vec<(&str, &str)>) -> Vec<u8> {
    map_of(vec![("names", map_of(entries.into_iter().map(|(k, v)| (k, text(v))).collect()))])
}

/// An IPv4 database of one node: addresses whose first bit is 0 share
/// `record`, the others are not in it.
fn database(record: Vec<u8>) -> Vec<u8> {
    let mut out = vec![0, 0, 17, 0, 0, 1];
    out.extend_from_slice(&[0u8; 16]);
    out.extend(record);
    out.extend_from_slice(b"\xab\xcd\xefMaxMind.com");
    out.extend(map_of(vec![
        ("binary_format_major_version", uint16(2)),
        ("binary_format_minor_version", uint16(0)),
        ("build_epoch", uint64(1_600_000_000)),
        ("database_type", text("GeoIP2-City")),
        ("description", map_of(vec![("en", text("test"))])),
        ("ip_version", uint16(4)),
        ("languages", array_of(vec![text("en")])),
        ("node_count", uint32(1)),
        ("record_size", uint16(24)),
    ]));
    out
}

fn city_record() -> Vec<u8> {
    map_of(vec![
        ("city", names(vec![("de", "Bergblick"), ("en", "Mountain View")])),
        ("country", map_of(vec![("iso_code", text("US"))])),
        (
            "location",
            map_of(vec![
                ("latitude", double(37.386)),
                ("longitude", double(-122.0838)),
                ("metro_code", uint16(807)),
            ]),
        ),
        ("postal", map_of(vec![("code", text("94043"))])),
        (
            "subdivisions",
            array_of(vec![names(vec![("en", "California")]), names(vec![("en", "Santa Clara")])]),
        ),
    ])
}

#[test]
fn bytes_that_are_no_database_are_refused() {
    assert!(open(vec![]).is_none());
    assert!(open(b"not a database".to_vec()).is_none());
}

#[test]
fn known_address_is_located() {
    let db = open(database(city_record())).expect("a database");
    let record = geolocalize(&db, IpAddress::V4(8, 8, 8, 8));
    assert_eq!(record.country_code, Some("US".to_string()));
    assert_eq!(record.city_name, Some("Mountain View".to_string()));
    assert_eq!(record.postal_code, Some("94043".to_string()));
    assert_eq!(record.region_name, Some("California".to_string()));
    assert_eq!(record.dma_code, Some(807));
    assert_eq!(record.latitude.map(|c| f64::from_bits(c.bits)), Some(37.386));
    assert_eq!(record.longitude.map(|c| f64::from_bits(c.bits)), Some(-122.0838));
}

#[test]
fn unknown_address_gives_the_absent_record() {
    let db = open(database(city_record())).expect("a database");
    assert!(lookup(&db, IpAddress::V4(203, 0, 113, 1)).is_none());
    assert_eq!(geolocalize(&db, IpAddress::V4(203, 0, 113, 1)), GeoRecord::absent());
}

#[test]
fn address_of_the_other_family_gives_the_absent_record() {
    let db = open(database(city_record())).expect("a database");
    assert_eq!(geolocalize(&db, IpAddress::V6(0x2001, 0x4860, 0x4860, 0, 0, 0, 0, 0x8888)), GeoRecord::absent());
}

#[test]
fn partial_provider_record_is_located() {
    let record = map_of(vec![
        ("country", map_of(vec![("iso_code", text("DE"))])),
        ("city", names(vec![("de", "Köln")])),
    ]);
    let db = open(database(record)).expect("a database");
    let raw = lookup(&db, IpAddress::V4(1, 2, 3, 4)).expect("a record");
    assert_eq!(raw.country.and_then(|c| c.iso_code), Some("DE".to_string()));
    assert_eq!(raw.subdivisions, Some(vec![]));
    let found = geolocalize(&db, IpAddress::V4(1, 2, 3, 4));
    assert_eq!(found.country_code, Some("DE".to_string()));
    assert_eq!(found.city_name, None);
    assert_eq!(found.region_name, None);
    assert_eq!(found.postal_code, None);
    assert_eq!(found.dma_code, None);
    assert_eq!(found.latitude, None);
}

fn text_or_null(value: &Option<String>) -> serde_json::Value {
    match value {
        Some(s) => serde_json::Value::String(s.clone()),
        None => serde_json::Value::Null,
    }
}

fn encoded(record: &GeoRecord) -> Option<String> {
    let mut object = serde_json::Map::new();
    object.insert("country_code".to_string(), text_or_null(&record.country_code));
    object.insert("city_name".to_string(), text_or_null(&record.city_name));
    object.insert("postal_code".to_string(), text_or_null(&record.postal_code));
    object.insert("region_name".to_string(), text_or_null(&record.region_name));
    serde_json::to_string(&serde_json::Value::Object(object)).ok()
}

fn respond_to(path: &str, credential: Credential, calls: &mut u32) -> Response {
    let config = Config { gate_enabled: true, strict_status: true, tokens: vec!["fb6c9".to_string()] };
    let request = Request { method: Method::Get, path: path.as_bytes().to_vec(), credential };
    match geoip_service(&request, &config) {
        Step::Respond(response) => response,
        Step::Lookup(ip) => {
            *calls += 1;
            let db = open(database(city_record())).expect("a database");
            success_response(encoded(&geolocalize(&db, ip)))
        },
    }
}

#[test]
fn known_address_with_valid_token_is_served() {
    let mut calls = 0;
    let response = respond_to("/api/locate/8.8.8.8", Credential::Token("fb6c9".to_string()), &mut calls);
    assert_eq!(calls, 1);
    assert_eq!(response.status, 200);
    let body = serde_json::from_str::<serde_json::Value>(&response.body).expect("a JSON body");
    assert_eq!(body["country_code"], serde_json::Value::String("US".to_string()));
    assert_eq!(body["region_name"], serde_json::Value::String("California".to_string()));
}

#[test]
fn absent_address_is_served_an_empty_record() {
    let mut calls = 0;
    let response = respond_to("/api/locate/203.0.113.1", Credential::Token("fb6c9".to_string()), &mut calls);
    assert_eq!(calls, 1);
    assert_eq!(response.status, 200);
    let body = serde_json::from_str::<serde_json::Value>(&response.body).expect("a JSON body");
    assert_eq!(body["country_code"], serde_json::Value::Null);
    assert_eq!(body["city_name"], serde_json::Value::Null);
}

#[test]
fn rejected_requests_never_reach_the_provider() {
    let mut calls = 0;
    assert_eq!(respond_to("/api/locate/8.8.8.8", Credential::Absent, &mut calls).status, 401);
    assert_eq!(respond_to("/api/locate/8.8.8.8", Credential::Unreadable, &mut calls).status, 401);
    assert_eq!(respond_to("/api/locate/8.8.8.8", Credential::Token("x".to_string()), &mut calls).status, 401);
    assert_eq!(respond_to("/api/locate/not-an-ip", Credential::Token("fb6c9".to_string()), &mut calls).status, 400);
    assert_eq!(respond_to("/status", Credential::Token("fb6c9".to_string()), &mut calls).status, 404);
    assert_eq!(calls, 0);
}

#[test]
fn coordinates_keep_their_value() {
    let db = open(database(city_record())).expect("a database");
    let record = geolocalize(&db, IpAddress::V4(8, 8, 8, 8));
    let latitude = record.latitude.expect("a latitude");
    assert_eq!(latitude.bits, 37.386f64.to_bits());
    assert_eq!(f64::from_bits(latitude.bits).to_bits(), latitude.bits);
}

#[test]
fn serving_stops_at_the_record() {
    let db = open(database(city_record())).expect("a database");
    let config = Config { gate_enabled: false, strict_status: false, tokens: vec![] };
    let request = |path: &str| Request {
        method: Method::Get,
        path: path.as_bytes().to_vec(),
        credential: Credential::Absent,
    };
    assert_eq!(
        serve(&request("/api/locate/8.8.8.8"), &config, &db),
        Served::Record(geolocalize(&db, IpAddress::V4(8, 8, 8, 8)))
    );
    assert_eq!(
        serve(&request("/api/locate/200.1.1.1"), &config, &db),
        Served::Record(GeoRecord::absent())
    );
    assert_eq!(
        serve(&request("/api/locate/nowhere"), &config, &db),
        Served::Response(Response { status: 404, body: "{}".to_string() })
    );
    assert_eq!(
        serve(&request("/"), &config, &db),
        Served::Response(Response { status: 404, body: "{}".to_string() })
    );
}

#[test]
fn addresses_are_packed_in_order() {
    assert_eq!(pack(IpAddress::V4(8, 8, 4, 1)), PackedAddress::V4([8, 8, 4, 1]));
    assert_eq!(
        pack(IpAddress::V6(1, 2, 3, 4, 5, 6, 7, 8)),
        PackedAddress::V6([1, 2, 3, 4, 5, 6, 7, 8])
    );
}

#[test]
fn parts_become_a_complete_provider_record() {
    let parts = ProviderParts {
        country_code: Some("FR".to_string()),
        city_name: None,
        postal_code: Some("75001".to_string()),
        subdivision_names: vec![None, Some("Paris".to_string())],
        metro_code: None,
        latitude_bits: Some(48.8566f64.to_bits()),
        longitude_bits: None,
    };
    let raw = raw_record(parts);
    assert_eq!(raw.country.clone().and_then(|c| c.iso_code), Some("FR".to_string()));
    assert_eq!(raw.city.clone().and_then(|c| c.names), Some(vec![]));
    assert_eq!(raw.postal.clone().and_then(|p| p.code), Some("75001".to_string()));
    assert_eq!(raw.subdivisions.clone().map(|s| s.len()), Some(2));
    assert_eq!(
        raw.location,
        Some(RawLocation {
            metro_code: None,
            latitude: Some(Coordinate { bits: 48.8566f64.to_bits() }),
            longitude: None,
        })
    );
    let record = extract(&raw);
    assert_eq!(record.country_code, Some("FR".to_string()));
    assert_eq!(record.city_name, None);
    assert_eq!(record.region_name, None);
    assert_eq!(record.postal_code, Some("75001".to_string()));
    assert_eq!(record.latitude.map(|c| f64::from_bits(c.bits)), Some(48.8566));
}

#[test]
fn coordinates_are_made_from_bits() {
    assert_eq!(coordinate(Some(7)), Some(Coordinate { bits: 7 }));
    assert_eq!(coordinate(None), None);
}

#[test]
fn same_bytes_give_the_same_answer() {
    let first = open(database(city_record())).expect("a database");
    let second = open(database(city_record())).expect("a database");
    let ip = IpAddress::V4(8, 8, 8, 8);
    assert_eq!(lookup(&first, ip), lookup(&second, ip));
    assert_eq!(geolocalize(&first, ip), geolocalize(&second, ip));
    assert_eq!(lookup(&first, IpAddress::V4(129, 0, 0, 1)), None);
}
