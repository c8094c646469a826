//! The request pipeline: route, authorization gate, address, response.
use vstd::prelude::*;
use vstd::slice::slice_subrange;
use crate::ip::{ip_of_text, parse_ip, IpAddress};
use crate::syntax::{address_is_written_in_address_bytes, is_address_byte};
use crate::record::{absent_record, extract, extracted, GeoRecord, GeoRecordView, RawProviderRecord};

verus! {

#[derive(Clone, Copy, Debug, PartialEq, Eq, Structural)]
pub enum Method {
    Get,
    Other,
}

/// The `authorization` header of a request.
#[derive(Clone, Debug, PartialEq, Eq)]
pub enum Credential {
    /// No such header.
    Absent,
    /// A header whose value is not text.
    Unreadable,
    /// The header's value, verbatim.
    Token(String),
}

/// What the pipeline reads of a request.
#[derive(Clone, Debug, PartialEq, Eq)]
pub struct Request {
    pub method: Method,
    pub path: Vec<u8>,
    pub credential: Credential,
}

/// The service's configuration, made once and handed to the pipeline.
#[derive(Clone, Debug, PartialEq, Eq)]
pub struct Config {
    /// Whether requests must carry an accepted token.
    pub gate_enabled: bool,
    /// Whether a malformed address is told apart from an unknown route.
    pub strict_status: bool,
    /// The accepted tokens.
    pub tokens: Vec<String>,
}

/// Why a request does not reach the lookup.
#[derive(Clone, Copy, Debug, PartialEq, Eq, Structural)]
pub enum Rejection {
    RouteNotFound,
    Unauthorized,
    MalformedAddress,
}

#[derive(Clone, Debug, PartialEq, Eq)]
pub struct Response {
    pub status: u16,
    pub body: String,
}

/// What to do with a request: answer it, or look its address up.
#[derive(Clone, Debug, PartialEq, Eq)]
pub enum Step {
    Respond(Response),
    Lookup(IpAddress),
}

pub ghost enum StepView {
    Respond { status: u16, body: Seq<char> },
    Lookup { ip: IpAddress },
}

impl View for Step {
    type V = StepView;

    open spec fn view(&self) -> StepView {
        match *self {
            Step::Respond(r) => StepView::Respond { status: r.status, body: r.body@ },
            Step::Lookup(ip) => StepView::Lookup { ip },
        }
    }
}

pub const OK: u16 = 200;

pub const BAD_REQUEST: u16 = 400;

pub const UNAUTHORIZED: u16 = 401;

pub const NOT_FOUND: u16 = 404;

/// Length of the route prefix.
pub const PREFIX_LEN: usize = 12;

/// The bytes of `/api/locate/`.
pub open spec fn route_prefix() -> Seq<u8> {
    seq![47u8, 97u8, 112u8, 105u8, 47u8, 108u8, 111u8, 99u8, 97u8, 116u8, 101u8, 47u8]
}

/// The body of every response that carries no record.
pub open spec fn empty_object() -> Seq<char> {
    "{}"@
}

pub open spec fn has_route_prefix(path: Seq<u8>) -> bool {
    path.len() >= PREFIX_LEN && path.subrange(0, PREFIX_LEN as int) == route_prefix()
}

/// What follows the route prefix: the text that should be an address.
pub open spec fn candidate(path: Seq<u8>) -> Seq<u8> {
    path.subrange(PREFIX_LEN as int, path.len() as int)
}

pub open spec fn route_matches(req: Request) -> bool {
    req.method == Method::Get && has_route_prefix(req.path@)
}

pub open spec fn token_accepted(tokens: Seq<String>, value: Seq<char>) -> bool {
    exists|i: int| 0 <= i < tokens.len() && (#[trigger] tokens[i])@ == value
}

/// A credential passes when it is text and equals an accepted token.
pub open spec fn authorized(credential: Credential, tokens: Seq<String>) -> bool {
    match credential {
        Credential::Token(t) => token_accepted(tokens, t@),
        _ => false,
    }
}

/// The address that a request asks for, or why it is turned away: the route
/// is judged first, then the credential, then the address.
pub open spec fn routed(req: Request, config: Config) -> Result<IpAddress, Rejection> {
    if !route_matches(req) {
        Err(Rejection::RouteNotFound)
    } else if config.gate_enabled && !authorized(req.credential, config.tokens@) {
        Err(Rejection::Unauthorized)
    } else {
        match ip_of_text(candidate(req.path@)) {
            Some(ip) => Ok(ip),
            None => Err(Rejection::MalformedAddress),
        }
    }
}

pub open spec fn status_of(rejection: Rejection, strict: bool) -> u16 {
    match rejection {
        Rejection::RouteNotFound => NOT_FOUND,
        Rejection::Unauthorized => UNAUTHORIZED,
        Rejection::MalformedAddress => if strict {
            BAD_REQUEST
        } else {
            NOT_FOUND
        },
    }
}

pub open spec fn first_step(req: Request, config: Config) -> StepView {
    match routed(req, config) {
        Ok(ip) => StepView::Lookup { ip },
        Err(rejection) => StepView::Respond {
            status: status_of(rejection, config.strict_status),
            body: empty_object(),
        },
    }
}

/// The record for what the provider found: a miss gives the record with
/// every field absent.
pub open spec fn located(found: Option<RawProviderRecord>) -> GeoRecordView {
    match found {
        Some(raw) => extracted(raw),
        None => absent_record(),
    }
}

/// Whether the path begins with `/api/locate/`.
pub fn starts_with_route_prefix(path: &[u8]) -> (r: bool)
    ensures
        r == has_route_prefix(path@),
{
    if path.len() < PREFIX_LEN {
        return false;
    }
    let r = path[0] == 47 && path[1] == 97 && path[2] == 112 && path[3] == 105 && path[4] == 47
        && path[5] == 108 && path[6] == 111 && path[7] == 99 && path[8] == 97 && path[9] == 116
        && path[10] == 101 && path[11] == 47;
    proof {
        let head = path@.subrange(0, PREFIX_LEN as int);
        if r {
            assert(head =~= route_prefix());
        } else {
            assert(head[0] == path@[0] && head[1] == path@[1] && head[2] == path@[2] && head[3]
                == path@[3] && head[4] == path@[4] && head[5] == path@[5] && head[6] == path@[6]
                && head[7] == path@[7] && head[8] == path@[8] && head[9] == path@[9] && head[10]
                == path@[10] && head[11] == path@[11]);
        }
    }
    r
}

/// Whether `value` equals one of the accepted tokens.
pub fn is_accepted_token(tokens: &Vec<String>, value: &String) -> (r: bool)
    ensures
        r == token_accepted(tokens@, value@),
{
    let mut i: usize = 0;
    while i < tokens.len()
        invariant
            i <= tokens@.len(),
            forall|j: int| 0 <= j < i ==> (#[trigger] tokens@[j])@ != value@,
        decreases tokens@.len() - i,
    {
        if tokens[i] == *value {
            return true;
        }
        i = i + 1;
    }
    false
}

/// The authorization gate: the credential must be text and equal, verbatim,
/// one of the accepted tokens.
pub fn is_authorized(credential: &Credential, tokens: &Vec<String>) -> (r: bool)
    ensures
        r == authorized(*credential, tokens@),
{
    match credential {
        Credential::Token(value) => is_accepted_token(tokens, value),
        _ => false,
    }
}

/// Judges a request: route, then credential, then address.
pub fn route(req: &Request, config: &Config) -> (r: Result<IpAddress, Rejection>)
    ensures
        r == routed(*req, *config),
{
    let is_get = match req.method {
        Method::Get => true,
        Method::Other => false,
    };
    if !is_get || !starts_with_route_prefix(req.path.as_slice()) {
        return Err(Rejection::RouteNotFound);
    }
    if config.gate_enabled && !is_authorized(&req.credential, &config.tokens) {
        return Err(Rejection::Unauthorized);
    }
    let text = slice_subrange(req.path.as_slice(), PREFIX_LEN, req.path.len());
    match parse_ip(text) {
        Some(ip) => Ok(ip),
        None => Err(Rejection::MalformedAddress),
    }
}

/// The status that answers a rejected request.
pub fn status_code(rejection: Rejection, strict: bool) -> (r: u16)
    ensures
        r == status_of(rejection, strict),
{
    match rejection {
        Rejection::RouteNotFound => NOT_FOUND,
        Rejection::Unauthorized => UNAUTHORIZED,
        Rejection::MalformedAddress => if strict {
            BAD_REQUEST
        } else {
            NOT_FOUND
        },
    }
}

/// A response with the given status and an empty JSON object as its body.
pub fn response_with_code(status: u16) -> (r: Response)
    ensures
        r.status == status,
        r.body@ == empty_object(),
{
    Response { status, body: "{}".to_owned() }
}

/// The first half of the service: answers a request that cannot be served,
/// or names the address to look up.
pub fn geoip_service(req: &Request, config: &Config) -> (r: Step)
    ensures
        r@ == first_step(*req, *config),
{
    match route(req, config) {
        Ok(ip) => Step::Lookup(ip),
        Err(rejection) => Step::Respond(
            response_with_code(status_code(rejection, config.strict_status)),
        ),
    }
}

/// The record for what the provider found for an address.
pub fn record_for(found: &Option<RawProviderRecord>) -> (r: GeoRecord)
    ensures
        r@ == located(*found),
{
    match found {
        Some(raw) => extract(raw),
        None => GeoRecord::absent(),
    }
}

/// The response to a served request: the encoded record, or an empty JSON
/// object where the record could not be encoded. The status is 200 in both.
pub fn success_response(encoded: Option<String>) -> (r: Response)
    ensures
        r.status == OK,
        r.body@ == match encoded {
            Some(body) => body@,
            None => empty_object(),
        },
{
    match encoded {
        Some(body) => Response { status: OK, body },
        None => response_with_code(OK),
    }
}

/// Text after the route prefix that is no address is answered with the
/// status of its rejection and never looked up, whatever else the request
/// and the configuration hold.
pub proof fn malformed_address_is_never_looked_up(req: Request, config: Config)
    requires
        has_route_prefix(req.path@),
        ip_of_text(candidate(req.path@)).is_none(),
    ensures
        first_step(req, config) is Respond,
        routed(req, config) is Err,
        route_matches(req) && !(config.gate_enabled && !authorized(
            req.credential,
            config.tokens@,
        )) ==> first_step(req, config) == (StepView::Respond {
            status: if config.strict_status {
                BAD_REQUEST
            } else {
                NOT_FOUND
            },
            body: empty_object(),
        }),
{
}

/// A path that holds, after the route prefix, a byte that no address is
/// written in is never looked up.
pub proof fn foreign_byte_is_never_looked_up(req: Request, config: Config, k: int)
    requires
        has_route_prefix(req.path@),
        0 <= k < candidate(req.path@).len(),
        !is_address_byte(candidate(req.path@)[k]),
    ensures
        first_step(req, config) is Respond,
        routed(req, config) is Err,
{
    if ip_of_text(candidate(req.path@)).is_some() {
        address_is_written_in_address_bytes(candidate(req.path@));
    }
}

/// Where a token is required, a request without a credential is never
/// looked up: it is answered 401 on the route, 404 off it.
pub proof fn missing_credential_is_never_looked_up(req: Request, config: Config)
    requires
        config.gate_enabled,
        req.credential is Absent,
    ensures
        first_step(req, config) == (StepView::Respond {
            status: if route_matches(req) {
                UNAUTHORIZED
            } else {
                NOT_FOUND
            },
            body: empty_object(),
        }),
{
}

/// Where a token is required, a request on the route that carries an
/// accepted token and a well-formed address proceeds to the lookup of that
/// address.
pub proof fn accepted_token_proceeds(req: Request, config: Config, token: String, ip: IpAddress)
    requires
        config.gate_enabled,
        req.credential == Credential::Token(token),
        token_accepted(config.tokens@, token@),
        route_matches(req),
        ip_of_text(candidate(req.path@)) == Some(ip),
    ensures
        first_step(req, config) == (StepView::Lookup { ip }),
{
}

/// The address of an admitted request is read from the path alone: method,
/// credential and configuration decide whether it is admitted, never which
/// address it names.
pub proof fn address_depends_on_path_only(a: Request, ca: Config, b: Request, cb: Config)
    requires
        a.path@ == b.path@,
        routed(a, ca) is Ok,
        routed(b, cb) is Ok,
    ensures
        routed(a, ca) == routed(b, cb),
        routed(a, ca) == Ok::<IpAddress, Rejection>(ip_of_text(candidate(a.path@)).unwrap()),
{
}

/// An unknown route is answered 404 before the credential is looked at.
pub proof fn unknown_route_ignores_credential(req: Request, config: Config)
    requires
        !route_matches(req),
    ensures
        first_step(req, config) == (StepView::Respond { status: NOT_FOUND, body: empty_object() }),
{
}

} // verus!
