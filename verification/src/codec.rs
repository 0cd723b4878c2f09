//! The domain entities and the envelope codec: decoding a JSON document
//! text into a `Request` or `Event`, and encoding it back.

use vstd::prelude::*;

use vstd::string::StrSliceExecFns;
use vstd::string::StringExecFns;

use crate::json::jview;
use crate::json::jviews;
use crate::json::elems_wf;
use crate::json::jwf;
use crate::json::lemma_elems_wf_from;
use crate::json::lemma_members_wf_from;
use crate::json::members_wf;
use crate::json::lemma_arr_view;
use crate::json::lemma_obj_view;
use crate::json::mviews;
use crate::json::parse_doc;
use crate::json::parse_doc_x;
use crate::json::print_doc_x;
use crate::json::print_json;
use crate::json::Json;
use crate::json::JsonV;
use crate::scalar::check_rfc3339;
use crate::scalar::check_url;
use crate::scalar::check_uuid;
use crate::scalar::format_span;
use crate::scalar::format_span_x;
use crate::scalar::parse_span;
use crate::scalar::parse_span_x;
use crate::scalar::span_unit;
use crate::scalar::unit_chars;
use crate::json::dec_digits;
use crate::scalar::rfc3339_ok;
use crate::scalar::url_ok;
use crate::scalar::uuid_ok;
use crate::str_ok;
use crate::text::chars_to_string;
use crate::text::string_to_chars;
use crate::transform::replace_all;
use crate::transform::replace_all_x;

verus! {

broadcast use vstd::seq::group_seq_axioms, vstd::string::group_string_axioms;

// ---------------------------------------------------------------------------
// Entities and their models.
// ---------------------------------------------------------------------------
/// A person: free-form text fields, no validation.
#[derive(Debug, Clone, PartialEq)]
pub struct User {
    pub name: String,
    pub email: String,
    pub b_day: String,
}

pub struct UserV {
    pub name: Seq<char>,
    pub email: Seq<char>,
    pub b_day: Seq<char>,
}

impl View for User {
    type V = UserV;

    open spec fn view(&self) -> UserV {
        UserV { name: self.name@, email: self.email@, b_day: self.b_day@ }
    }
}

/// The public tariff: identifier, price, time span, description.
#[derive(Debug, Clone, PartialEq)]
pub struct PublicTariff {
    pub id: u32,
    pub price: u32,
    /// The span as a nanosecond count.
    pub duration: u64,
    pub description: String,
}

pub struct PublicTariffV {
    pub id: u32,
    pub price: u32,
    pub duration: u64,
    pub description: Seq<char>,
}

impl View for PublicTariff {
    type V = PublicTariffV;

    open spec fn view(&self) -> PublicTariffV {
        PublicTariffV {
            id: self.id,
            price: self.price,
            duration: self.duration,
            description: self.description@,
        }
    }
}

/// The private tariff: client price, time span, description.
#[derive(Debug, Clone, PartialEq)]
pub struct PrivateTariff {
    pub client_price: u32,
    /// The span as a nanosecond count.
    pub duration: u64,
    pub description: String,
}

pub struct PrivateTariffV {
    pub client_price: u32,
    pub duration: u64,
    pub description: Seq<char>,
}

impl View for PrivateTariff {
    type V = PrivateTariffV;

    open spec fn view(&self) -> PrivateTariffV {
        PrivateTariffV {
            client_price: self.client_price,
            duration: self.duration,
            description: self.description@,
        }
    }
}

/// A stream: validated identifier and URL, flags, and both tariffs.
#[derive(Debug, Clone, PartialEq)]
pub struct Stream {
    /// Canonical hyphenated UUID text.
    pub user_id: String,
    pub is_private: bool,
    pub settings: i32,
    /// Validated absolute URL text.
    pub shard_url: String,
    pub public_tariff: PublicTariff,
    pub private_tariff: PrivateTariff,
}

pub struct StreamV {
    pub user_id: Seq<char>,
    pub is_private: bool,
    pub settings: i32,
    pub shard_url: Seq<char>,
    pub public_tariff: PublicTariffV,
    pub private_tariff: PrivateTariffV,
}

impl View for Stream {
    type V = StreamV;

    open spec fn view(&self) -> StreamV {
        StreamV {
            user_id: self.user_id@,
            is_private: self.is_private,
            settings: self.settings,
            shard_url: self.shard_url@,
            public_tariff: self.public_tariff@,
            private_tariff: self.private_tariff@,
        }
    }
}

/// A gift: identifier, price, description.
#[derive(Debug, Clone, PartialEq)]
pub struct Gift {
    pub id: u32,
    pub price: u32,
    pub description: String,
}

pub struct GiftV {
    pub id: u32,
    pub price: u32,
    pub description: Seq<char>,
}

impl View for Gift {
    type V = GiftV;

    open spec fn view(&self) -> GiftV {
        GiftV { id: self.id, price: self.price, description: self.description@ }
    }
}

/// Debug information: a raw span text and a validated RFC 3339 instant.
#[derive(Debug, Clone, PartialEq)]
pub struct DebugInfo {
    pub duration: String,
    /// Validated RFC 3339 text.
    pub at: String,
}

pub struct DebugInfoV {
    pub duration: Seq<char>,
    pub at: Seq<char>,
}

impl View for DebugInfo {
    type V = DebugInfoV;

    open spec fn view(&self) -> DebugInfoV {
        DebugInfoV { duration: self.duration@, at: self.at@ }
    }
}

/// The request status: a closed token table on the wire.
#[derive(Debug, Clone, Copy, PartialEq, Eq, Structural)]
pub enum HttpStatus {
    Success,
    BadRequest,
    UnprocessableEntity,
}

/// The top-level request envelope.
#[derive(Debug, Clone, PartialEq)]
pub struct Request {
    pub req_type: HttpStatus,
    pub stream: Stream,
    pub gifts: Vec<Gift>,
    pub debug: DebugInfo,
}

pub struct RequestV {
    pub req_type: HttpStatus,
    pub stream: StreamV,
    pub gifts: Seq<GiftV>,
    pub debug: DebugInfoV,
}

/// The models of a gift vector.
pub open spec fn gift_views(gs: Seq<Gift>) -> Seq<GiftV> {
    Seq::new(
        gs.len(),
        |i: int|
            if 0 <= i < gs.len() {
                gs[i]@
            } else {
                GiftV { id: 0, price: 0, description: Seq::empty() }
            },
    )
}

impl View for Request {
    type V = RequestV;

    open spec fn view(&self) -> RequestV {
        RequestV {
            req_type: self.req_type,
            stream: self.stream@,
            gifts: gift_views(self.gifts@),
            debug: self.debug@,
        }
    }
}

/// An event: a name and a date, the date carried through the transform.
#[derive(Debug, Clone, PartialEq)]
pub struct Event {
    pub name: String,
    pub date: String,
}

pub struct EventV {
    pub name: Seq<char>,
    pub date: Seq<char>,
}

impl View for Event {
    type V = EventV;

    open spec fn view(&self) -> EventV {
        EventV { name: self.name@, date: self.date@ }
    }
}

// ---------------------------------------------------------------------------
// Errors.
// ---------------------------------------------------------------------------
/// Why a decode failed; every failure is terminal and propagates unchanged.
#[derive(Debug, Clone, PartialEq)]
pub enum DecodeError {
    MalformedDocument,
    MissingField(String),
    InvalidUuid,
    InvalidUrl,
    InvalidDuration,
    InvalidTimestamp,
    UnknownVariant(String),
}

pub enum ErrV {
    Malformed,
    Missing(Seq<char>),
    BadUuid,
    BadUrl,
    BadDuration,
    BadTimestamp,
    Unknown(Seq<char>),
}

impl View for DecodeError {
    type V = ErrV;

    open spec fn view(&self) -> ErrV {
        match self {
            DecodeError::MalformedDocument => ErrV::Malformed,
            DecodeError::MissingField(n) => ErrV::Missing(n@),
            DecodeError::InvalidUuid => ErrV::BadUuid,
            DecodeError::InvalidUrl => ErrV::BadUrl,
            DecodeError::InvalidDuration => ErrV::BadDuration,
            DecodeError::InvalidTimestamp => ErrV::BadTimestamp,
            DecodeError::UnknownVariant(t) => ErrV::Unknown(t@),
        }
    }
}

// ---------------------------------------------------------------------------
// Field access on a decoded object.
// ---------------------------------------------------------------------------
/// The first value bound to `k` among the members, if any.
pub open spec fn obj_get(ms: Seq<(Seq<char>, JsonV)>, k: Seq<char>) -> Option<JsonV>
    decreases ms.len(),
{
    if ms.len() == 0 {
        None
    } else if ms[0].0 == k {
        Some(ms[0].1)
    } else {
        obj_get(ms.drop_first(), k)
    }
}

fn chars_eq(v: &Vec<char>, name: &str) -> (r: bool)
    ensures
        r == (v@ == name@),
{
    let n = name.unicode_len();
    if v.len() != n {
        return false;
    }
    let mut k: usize = 0;
    while k < n
        invariant
            k <= n,
            n == name@.len() == v@.len(),
            forall|x: int| 0 <= x < k ==> v@[x] == name@[x],
        decreases n - k,
    {
        if v[k] != name.get_char(k) {
            return false;
        }
        k = k + 1;
    }
    assert(v@ =~= name@);
    true
}

fn get_field<'a>(ms: &'a Vec<(Vec<char>, Json)>, name: &str) -> (r: Option<&'a Json>)
    ensures
        match r {
            Some(j) => obj_get(mviews(ms@), name@) == Some(jview(*j)),
            None => obj_get(mviews(ms@), name@) is None,
        },
{
    let mut idx: usize = 0;
    proof {
        assert(mviews(ms@).skip(0) =~= mviews(ms@));
    }
    while idx < ms.len()
        invariant
            idx <= ms.len(),
            obj_get(mviews(ms@), name@) == obj_get(mviews(ms@).skip(idx as int), name@),
        decreases ms.len() - idx,
    {
        proof {
            assert(mviews(ms@).skip(idx as int)[0] == (ms@[idx as int].0@, jview(
                ms@[idx as int].1,
            )));
            assert(mviews(ms@).skip(idx as int).drop_first() =~= mviews(ms@).skip(idx + 1));
        }
        if chars_eq(&ms[idx].0, name) {
            return Some(&ms[idx].1);
        }
        idx = idx + 1;
    }
    proof {
        assert(mviews(ms@).skip(ms@.len() as int).len() == 0);
    }
    None
}

// ---------------------------------------------------------------------------
// Field decoders: what each field kind means, and when each error comes.
// ---------------------------------------------------------------------------
/// An unsigned 32-bit field: present, an integer, in range.
pub open spec fn dec_u32_field(ms: Seq<(Seq<char>, JsonV)>, name: Seq<char>) -> Result<u32, ErrV> {
    match obj_get(ms, name) {
        None => Err(ErrV::Missing(name)),
        Some(JsonV::Int(n)) => if 0 <= n <= u32::MAX {
            Ok(n as u32)
        } else {
            Err(ErrV::Malformed)
        },
        Some(_) => Err(ErrV::Malformed),
    }
}

/// A signed 32-bit field: present, an integer, in range.
pub open spec fn dec_i32_field(ms: Seq<(Seq<char>, JsonV)>, name: Seq<char>) -> Result<i32, ErrV> {
    match obj_get(ms, name) {
        None => Err(ErrV::Missing(name)),
        Some(JsonV::Int(n)) => if i32::MIN <= n <= i32::MAX {
            Ok(n as i32)
        } else {
            Err(ErrV::Malformed)
        },
        Some(_) => Err(ErrV::Malformed),
    }
}

/// A boolean field: present and a boolean.
pub open spec fn dec_bool_field(ms: Seq<(Seq<char>, JsonV)>, name: Seq<char>) -> Result<
    bool,
    ErrV,
> {
    match obj_get(ms, name) {
        None => Err(ErrV::Missing(name)),
        Some(JsonV::Bool(b)) => Ok(b),
        Some(_) => Err(ErrV::Malformed),
    }
}

/// A free-form text field: present and a string.
pub open spec fn dec_str_field(ms: Seq<(Seq<char>, JsonV)>, name: Seq<char>) -> Result<
    Seq<char>,
    ErrV,
> {
    match obj_get(ms, name) {
        None => Err(ErrV::Missing(name)),
        Some(JsonV::Str(s)) => Ok(s),
        Some(_) => Err(ErrV::Malformed),
    }
}

/// A time-span field: a string in the span grammar, kept as nanoseconds.
pub open spec fn dec_span_field(ms: Seq<(Seq<char>, JsonV)>, name: Seq<char>) -> Result<
    u64,
    ErrV,
> {
    match obj_get(ms, name) {
        None => Err(ErrV::Missing(name)),
        Some(JsonV::Str(s)) => match parse_span(s) {
            Some(n) => Ok(n as u64),
            None => Err(ErrV::BadDuration),
        },
        Some(_) => Err(ErrV::Malformed),
    }
}

fn get_u32(ms: &Vec<(Vec<char>, Json)>, name: &str) -> (r: Result<u32, DecodeError>)
    ensures
        match r {
            Ok(v) => dec_u32_field(mviews(ms@), name@) == Ok::<u32, ErrV>(v),
            Err(e) => dec_u32_field(mviews(ms@), name@) == Err::<u32, ErrV>(e@),
        },
{
    match get_field(ms, name) {
        None => Err(DecodeError::MissingField(String::from_str(name))),
        Some(j) => match j {
            Json::Int(n) => {
                if 0 <= *n && *n <= u32::MAX as i64 {
                    Ok(*n as u32)
                } else {
                    Err(DecodeError::MalformedDocument)
                }
            },
            _ => Err(DecodeError::MalformedDocument),
        },
    }
}

fn get_i32(ms: &Vec<(Vec<char>, Json)>, name: &str) -> (r: Result<i32, DecodeError>)
    ensures
        match r {
            Ok(v) => dec_i32_field(mviews(ms@), name@) == Ok::<i32, ErrV>(v),
            Err(e) => dec_i32_field(mviews(ms@), name@) == Err::<i32, ErrV>(e@),
        },
{
    match get_field(ms, name) {
        None => Err(DecodeError::MissingField(String::from_str(name))),
        Some(j) => match j {
            Json::Int(n) => {
                if i32::MIN as i64 <= *n && *n <= i32::MAX as i64 {
                    Ok(*n as i32)
                } else {
                    Err(DecodeError::MalformedDocument)
                }
            },
            _ => Err(DecodeError::MalformedDocument),
        },
    }
}

fn get_bool(ms: &Vec<(Vec<char>, Json)>, name: &str) -> (r: Result<bool, DecodeError>)
    ensures
        match r {
            Ok(v) => dec_bool_field(mviews(ms@), name@) == Ok::<bool, ErrV>(v),
            Err(e) => dec_bool_field(mviews(ms@), name@) == Err::<bool, ErrV>(e@),
        },
{
    match get_field(ms, name) {
        None => Err(DecodeError::MissingField(String::from_str(name))),
        Some(j) => match j {
            Json::Bool(b) => Ok(*b),
            _ => Err(DecodeError::MalformedDocument),
        },
    }
}

fn get_string(ms: &Vec<(Vec<char>, Json)>, name: &str) -> (r: Result<String, DecodeError>)
    ensures
        match r {
            Ok(v) => dec_str_field(mviews(ms@), name@) == Ok::<Seq<char>, ErrV>(v@),
            Err(e) => dec_str_field(mviews(ms@), name@) == Err::<Seq<char>, ErrV>(e@),
        },
{
    match get_field(ms, name) {
        None => Err(DecodeError::MissingField(String::from_str(name))),
        Some(j) => match j {
            Json::Str(s) => Ok(chars_to_string(s)),
            _ => Err(DecodeError::MalformedDocument),
        },
    }
}

fn get_span(ms: &Vec<(Vec<char>, Json)>, name: &str) -> (r: Result<u64, DecodeError>)
    ensures
        match r {
            Ok(v) => dec_span_field(mviews(ms@), name@) == Ok::<u64, ErrV>(v),
            Err(e) => dec_span_field(mviews(ms@), name@) == Err::<u64, ErrV>(e@),
        },
{
    match get_field(ms, name) {
        None => Err(DecodeError::MissingField(String::from_str(name))),
        Some(j) => match j {
            Json::Str(s) => match parse_span_x(s) {
                Some(n) => Ok(n),
                None => Err(DecodeError::InvalidDuration),
            },
            _ => Err(DecodeError::MalformedDocument),
        },
    }
}

// ---------------------------------------------------------------------------
// The status token table.
// ---------------------------------------------------------------------------
/// The wire token of each status variant.
pub open spec fn enc_status(st: HttpStatus) -> Seq<char> {
    match st {
        HttpStatus::Success => "success"@,
        HttpStatus::BadRequest => "bad_request"@,
        HttpStatus::UnprocessableEntity => "unprocessable_entity"@,
    }
}

/// The variant of a wire token; any other token is unknown.
pub open spec fn dec_status(s: Seq<char>) -> Result<HttpStatus, ErrV> {
    if s == "success"@ {
        Ok(HttpStatus::Success)
    } else if s == "bad_request"@ {
        Ok(HttpStatus::BadRequest)
    } else if s == "unprocessable_entity"@ {
        Ok(HttpStatus::UnprocessableEntity)
    } else {
        Err(ErrV::Unknown(s))
    }
}

/// Decodes a status token.
pub fn status_from_token(s: &Vec<char>) -> (r: Result<HttpStatus, DecodeError>)
    ensures
        match r {
            Ok(v) => dec_status(s@) == Ok::<HttpStatus, ErrV>(v),
            Err(e) => dec_status(s@) == Err::<HttpStatus, ErrV>(e@),
        },
{
    if chars_eq(s, "success") {
        Ok(HttpStatus::Success)
    } else if chars_eq(s, "bad_request") {
        Ok(HttpStatus::BadRequest)
    } else if chars_eq(s, "unprocessable_entity") {
        Ok(HttpStatus::UnprocessableEntity)
    } else {
        Err(DecodeError::UnknownVariant(chars_to_string(s)))
    }
}

/// Encodes a status as its wire token.
pub fn status_token(st: &HttpStatus) -> (r: Vec<char>)
    ensures
        r@ == enc_status(*st),
{
    match st {
        HttpStatus::Success => string_to_chars("success"),
        HttpStatus::BadRequest => string_to_chars("bad_request"),
        HttpStatus::UnprocessableEntity => string_to_chars("unprocessable_entity"),
    }
}

// ---------------------------------------------------------------------------
// Entity decoding: from a document tree to a value, or the first error.
// ---------------------------------------------------------------------------
/// Decodes a gift record.
pub open spec fn dec_gift(j: JsonV) -> Result<GiftV, ErrV> {
    match j {
        JsonV::Obj(ms) => match dec_u32_field(ms, "id"@) {
            Err(e) => Err(e),
            Ok(id) => match dec_u32_field(ms, "price"@) {
                Err(e) => Err(e),
                Ok(price) => match dec_str_field(ms, "description"@) {
                    Err(e) => Err(e),
                    Ok(description) => Ok(GiftV { id, price, description }),
                },
            },
        },
        _ => Err(ErrV::Malformed),
    }
}

/// Decodes the public tariff record.
pub open spec fn dec_public_tariff(j: JsonV) -> Result<PublicTariffV, ErrV> {
    match j {
        JsonV::Obj(ms) => match dec_u32_field(ms, "id"@) {
            Err(e) => Err(e),
            Ok(id) => match dec_u32_field(ms, "price"@) {
                Err(e) => Err(e),
                Ok(price) => match dec_span_field(ms, "duration"@) {
                    Err(e) => Err(e),
                    Ok(duration) => match dec_str_field(ms, "description"@) {
                        Err(e) => Err(e),
                        Ok(description) => Ok(PublicTariffV { id, price, duration, description }),
                    },
                },
            },
        },
        _ => Err(ErrV::Malformed),
    }
}

/// Decodes the private tariff record.
pub open spec fn dec_private_tariff(j: JsonV) -> Result<PrivateTariffV, ErrV> {
    match j {
        JsonV::Obj(ms) => match dec_u32_field(ms, "client_price"@) {
            Err(e) => Err(e),
            Ok(client_price) => match dec_span_field(ms, "duration"@) {
                Err(e) => Err(e),
                Ok(duration) => match dec_str_field(ms, "description"@) {
                    Err(e) => Err(e),
                    Ok(description) => Ok(PrivateTariffV { client_price, duration, description }),
                },
            },
        },
        _ => Err(ErrV::Malformed),
    }
}

/// Decodes the stream record: the user id must be a canonical UUID, the
/// shard URL an absolute URL.
pub open spec fn dec_stream(j: JsonV) -> Result<StreamV, ErrV> {
    match j {
        JsonV::Obj(ms) => match dec_str_field(ms, "user_id"@) {
            Err(e) => Err(e),
            Ok(user_id) => if !uuid_ok(user_id) {
                Err(ErrV::BadUuid)
            } else {
                match dec_bool_field(ms, "is_private"@) {
                    Err(e) => Err(e),
                    Ok(is_private) => match dec_i32_field(ms, "settings"@) {
                        Err(e) => Err(e),
                        Ok(settings) => match dec_str_field(ms, "shard_url"@) {
                            Err(e) => Err(e),
                            Ok(shard_url) => if !url_ok(shard_url) {
                                Err(ErrV::BadUrl)
                            } else {
                                match obj_get(ms, "public_tariff"@) {
                                    None => Err(ErrV::Missing("public_tariff"@)),
                                    Some(pj) => match dec_public_tariff(pj) {
                                        Err(e) => Err(e),
                                        Ok(public_tariff) => match obj_get(
                                            ms,
                                            "private_tariff"@,
                                        ) {
                                            None => Err(ErrV::Missing("private_tariff"@)),
                                            Some(qj) => match dec_private_tariff(qj) {
                                                Err(e) => Err(e),
                                                Ok(private_tariff) => Ok(
                                                    StreamV {
                                                        user_id,
                                                        is_private,
                                                        settings,
                                                        shard_url,
                                                        public_tariff,
                                                        private_tariff,
                                                    },
                                                ),
                                            },
                                        },
                                    },
                                }
                            },
                        },
                    },
                }
            },
        },
        _ => Err(ErrV::Malformed),
    }
}

/// Decodes the debug record: the instant must be RFC 3339 text.
pub open spec fn dec_debug(j: JsonV) -> Result<DebugInfoV, ErrV> {
    match j {
        JsonV::Obj(ms) => match dec_str_field(ms, "duration"@) {
            Err(e) => Err(e),
            Ok(duration) => match dec_str_field(ms, "at"@) {
                Err(e) => Err(e),
                Ok(at) => if !rfc3339_ok(at) {
                    Err(ErrV::BadTimestamp)
                } else {
                    Ok(DebugInfoV { duration, at })
                },
            },
        },
        _ => Err(ErrV::Malformed),
    }
}

/// Decodes a gift sequence in source order.
pub open spec fn dec_gifts(es: Seq<JsonV>) -> Result<Seq<GiftV>, ErrV>
    decreases es.len(),
{
    if es.len() == 0 {
        Ok(Seq::empty())
    } else {
        match dec_gift(es[0]) {
            Err(e) => Err(e),
            Ok(g) => match dec_gifts(es.drop_first()) {
                Err(e) => Err(e),
                Ok(r) => Ok(seq![g] + r),
            },
        }
    }
}

/// Decodes the request envelope.
pub open spec fn dec_request(j: JsonV) -> Result<RequestV, ErrV> {
    match j {
        JsonV::Obj(ms) => match obj_get(ms, "type"@) {
            None => Err(ErrV::Missing("type"@)),
            Some(JsonV::Str(tok)) => match dec_status(tok) {
                Err(e) => Err(e),
                Ok(req_type) => match obj_get(ms, "stream"@) {
                    None => Err(ErrV::Missing("stream"@)),
                    Some(sj) => match dec_stream(sj) {
                        Err(e) => Err(e),
                        Ok(stream) => match obj_get(ms, "gifts"@) {
                            None => Err(ErrV::Missing("gifts"@)),
                            Some(JsonV::Arr(es)) => match dec_gifts(es) {
                                Err(e) => Err(e),
                                Ok(gifts) => match obj_get(ms, "debug"@) {
                                    None => Err(ErrV::Missing("debug"@)),
                                    Some(dj) => match dec_debug(dj) {
                                        Err(e) => Err(e),
                                        Ok(debug) => Ok(
                                            RequestV { req_type, stream, gifts, debug },
                                        ),
                                    },
                                },
                            },
                            Some(_) => Err(ErrV::Malformed),
                        },
                    },
                },
            },
            Some(_) => Err(ErrV::Malformed),
        },
        _ => Err(ErrV::Malformed),
    }
}

/// Decodes a user record.
pub open spec fn dec_user(j: JsonV) -> Result<UserV, ErrV> {
    match j {
        JsonV::Obj(ms) => match dec_str_field(ms, "name"@) {
            Err(e) => Err(e),
            Ok(name) => match dec_str_field(ms, "email"@) {
                Err(e) => Err(e),
                Ok(email) => match dec_str_field(ms, "b_day"@) {
                    Err(e) => Err(e),
                    Ok(b_day) => Ok(UserV { name, email, b_day }),
                },
            },
        },
        _ => Err(ErrV::Malformed),
    }
}

/// Decodes an event record, the date through the field transform.
pub open spec fn dec_event(j: JsonV) -> Result<EventV, ErrV> {
    match j {
        JsonV::Obj(ms) => match dec_str_field(ms, "name"@) {
            Err(e) => Err(e),
            Ok(name) => match dec_str_field(ms, "date"@) {
                Err(e) => Err(e),
                Ok(wire) => Ok(EventV { name, date: replace_all(wire, "date"@, "event date"@) }),
            },
        },
        _ => Err(ErrV::Malformed),
    }
}

fn gift_from_json(j: &Json) -> (r: Result<Gift, DecodeError>)
    ensures
        match r {
            Ok(g) => dec_gift(j@) == Ok::<GiftV, ErrV>(g@),
            Err(e) => dec_gift(j@) == Err::<GiftV, ErrV>(e@),
        },
{
    match j {
        Json::Obj(ms) => {
            proof {
                lemma_obj_view(Json::Obj(*ms)->Obj_0);
            }
            let id = match get_u32(ms, "id") {
                Err(e) => return Err(e),
                Ok(v) => v,
            };
            let price = match get_u32(ms, "price") {
                Err(e) => return Err(e),
                Ok(v) => v,
            };
            let description = match get_string(ms, "description") {
                Err(e) => return Err(e),
                Ok(v) => v,
            };
            Ok(Gift { id, price, description })
        },
        _ => Err(DecodeError::MalformedDocument),
    }
}

fn public_tariff_from_json(j: &Json) -> (r: Result<PublicTariff, DecodeError>)
    ensures
        match r {
            Ok(g) => dec_public_tariff(j@) == Ok::<PublicTariffV, ErrV>(g@),
            Err(e) => dec_public_tariff(j@) == Err::<PublicTariffV, ErrV>(e@),
        },
{
    match j {
        Json::Obj(ms) => {
            proof {
                lemma_obj_view(Json::Obj(*ms)->Obj_0);
            }
            let id = match get_u32(ms, "id") {
                Err(e) => return Err(e),
                Ok(v) => v,
            };
            let price = match get_u32(ms, "price") {
                Err(e) => return Err(e),
                Ok(v) => v,
            };
            let duration = match get_span(ms, "duration") {
                Err(e) => return Err(e),
                Ok(v) => v,
            };
            let description = match get_string(ms, "description") {
                Err(e) => return Err(e),
                Ok(v) => v,
            };
            Ok(PublicTariff { id, price, duration, description })
        },
        _ => Err(DecodeError::MalformedDocument),
    }
}

fn private_tariff_from_json(j: &Json) -> (r: Result<PrivateTariff, DecodeError>)
    ensures
        match r {
            Ok(g) => dec_private_tariff(j@) == Ok::<PrivateTariffV, ErrV>(g@),
            Err(e) => dec_private_tariff(j@) == Err::<PrivateTariffV, ErrV>(e@),
        },
{
    match j {
        Json::Obj(ms) => {
            proof {
                lemma_obj_view(Json::Obj(*ms)->Obj_0);
            }
            let client_price = match get_u32(ms, "client_price") {
                Err(e) => return Err(e),
                Ok(v) => v,
            };
            let duration = match get_span(ms, "duration") {
                Err(e) => return Err(e),
                Ok(v) => v,
            };
            let description = match get_string(ms, "description") {
                Err(e) => return Err(e),
                Ok(v) => v,
            };
            Ok(PrivateTariff { client_price, duration, description })
        },
        _ => Err(DecodeError::MalformedDocument),
    }
}

fn stream_from_json(j: &Json) -> (r: Result<Stream, DecodeError>)
    ensures
        match r {
            Ok(g) => dec_stream(j@) == Ok::<StreamV, ErrV>(g@),
            Err(e) => dec_stream(j@) == Err::<StreamV, ErrV>(e@),
        },
{
    match j {
        Json::Obj(ms) => {
            proof {
                lemma_obj_view(Json::Obj(*ms)->Obj_0);
            }
            let user_id = match get_string(ms, "user_id") {
                Err(e) => return Err(e),
                Ok(v) => v,
            };
            let uid_chars = string_to_chars(user_id.as_str());
            if !check_uuid(&uid_chars) {
                return Err(DecodeError::InvalidUuid);
            }
            let is_private = match get_bool(ms, "is_private") {
                Err(e) => return Err(e),
                Ok(v) => v,
            };
            let settings = match get_i32(ms, "settings") {
                Err(e) => return Err(e),
                Ok(v) => v,
            };
            let shard_url = match get_string(ms, "shard_url") {
                Err(e) => return Err(e),
                Ok(v) => v,
            };
            if !check_url(shard_url.as_str()) {
                return Err(DecodeError::InvalidUrl);
            }
            let public_tariff = match get_field(ms, "public_tariff") {
                None => return Err(DecodeError::MissingField(String::from_str("public_tariff"))),
                Some(pj) => match public_tariff_from_json(pj) {
                    Err(e) => return Err(e),
                    Ok(v) => v,
                },
            };
            let private_tariff = match get_field(ms, "private_tariff") {
                None => return Err(DecodeError::MissingField(String::from_str("private_tariff"))),
                Some(qj) => match private_tariff_from_json(qj) {
                    Err(e) => return Err(e),
                    Ok(v) => v,
                },
            };
            Ok(Stream { user_id, is_private, settings, shard_url, public_tariff, private_tariff })
        },
        _ => Err(DecodeError::MalformedDocument),
    }
}

fn debug_from_json(j: &Json) -> (r: Result<DebugInfo, DecodeError>)
    ensures
        match r {
            Ok(g) => dec_debug(j@) == Ok::<DebugInfoV, ErrV>(g@),
            Err(e) => dec_debug(j@) == Err::<DebugInfoV, ErrV>(e@),
        },
{
    match j {
        Json::Obj(ms) => {
            proof {
                lemma_obj_view(Json::Obj(*ms)->Obj_0);
            }
            let duration = match get_string(ms, "duration") {
                Err(e) => return Err(e),
                Ok(v) => v,
            };
            let at = match get_string(ms, "at") {
                Err(e) => return Err(e),
                Ok(v) => v,
            };
            if !check_rfc3339(at.as_str()) {
                return Err(DecodeError::InvalidTimestamp);
            }
            Ok(DebugInfo { duration, at })
        },
        _ => Err(DecodeError::MalformedDocument),
    }
}

fn gifts_from_json(es: &Vec<Json>, ix: usize) -> (r: Result<Vec<Gift>, DecodeError>)
    requires
        ix <= es.len(),
    ensures
        match r {
            Ok(gs) => dec_gifts(jviews(es@).skip(ix as int)) == Ok::<Seq<GiftV>, ErrV>(
                gift_views(gs@),
            ),
            Err(e) => dec_gifts(jviews(es@).skip(ix as int)) == Err::<Seq<GiftV>, ErrV>(e@),
        },
    decreases es.len() - ix,
{
    if ix == es.len() {
        let empty: Vec<Gift> = Vec::new();
        proof {
            assert(jviews(es@).skip(ix as int).len() == 0);
            assert(gift_views(empty@) =~= Seq::<GiftV>::empty());
        }
        return Ok(empty);
    }
    proof {
        assert(jviews(es@).skip(ix as int)[0] == jview(es@[ix as int]));
        assert(jviews(es@).skip(ix as int).drop_first() =~= jviews(es@).skip(ix + 1));
    }
    match gift_from_json(&es[ix]) {
        Err(e) => Err(e),
        Ok(g) => match gifts_from_json(es, ix + 1) {
            Err(e) => Err(e),
            Ok(rest) => {
                let mut out = rest;
                out.insert(0, g);
                proof {
                    assert(gift_views(out@) =~= seq![g@] + gift_views(rest@));
                }
                Ok(out)
            },
        },
    }
}

fn request_from_json(j: &Json) -> (r: Result<Request, DecodeError>)
    ensures
        match r {
            Ok(g) => dec_request(j@) == Ok::<RequestV, ErrV>(g@),
            Err(e) => dec_request(j@) == Err::<RequestV, ErrV>(e@),
        },
{
    match j {
        Json::Obj(ms) => {
            proof {
                lemma_obj_view(Json::Obj(*ms)->Obj_0);
            }
            let req_type = match get_field(ms, "type") {
                None => return Err(DecodeError::MissingField(String::from_str("type"))),
                Some(tj) => match tj {
                    Json::Str(tok) => match status_from_token(tok) {
                        Err(e) => return Err(e),
                        Ok(v) => v,
                    },
                    _ => return Err(DecodeError::MalformedDocument),
                },
            };
            let stream = match get_field(ms, "stream") {
                None => return Err(DecodeError::MissingField(String::from_str("stream"))),
                Some(sj) => match stream_from_json(sj) {
                    Err(e) => return Err(e),
                    Ok(v) => v,
                },
            };
            let gifts = match get_field(ms, "gifts") {
                None => return Err(DecodeError::MissingField(String::from_str("gifts"))),
                Some(gj) => match gj {
                    Json::Arr(es) => {
                        proof {
                            lemma_arr_view(Json::Arr(*es)->Arr_0);
                            assert(jviews(es@).skip(0) =~= jviews(es@));
                        }
                        match gifts_from_json(es, 0) {
                            Err(e) => return Err(e),
                            Ok(v) => v,
                        }
                    },
                    _ => return Err(DecodeError::MalformedDocument),
                },
            };
            let debug = match get_field(ms, "debug") {
                None => return Err(DecodeError::MissingField(String::from_str("debug"))),
                Some(dj) => match debug_from_json(dj) {
                    Err(e) => return Err(e),
                    Ok(v) => v,
                },
            };
            Ok(Request { req_type, stream, gifts, debug })
        },
        _ => Err(DecodeError::MalformedDocument),
    }
}

fn user_from_json(j: &Json) -> (r: Result<User, DecodeError>)
    ensures
        match r {
            Ok(g) => dec_user(j@) == Ok::<UserV, ErrV>(g@),
            Err(e) => dec_user(j@) == Err::<UserV, ErrV>(e@),
        },
{
    match j {
        Json::Obj(ms) => {
            proof {
                lemma_obj_view(Json::Obj(*ms)->Obj_0);
            }
            let name = match get_string(ms, "name") {
                Err(e) => return Err(e),
                Ok(v) => v,
            };
            let email = match get_string(ms, "email") {
                Err(e) => return Err(e),
                Ok(v) => v,
            };
            let b_day = match get_string(ms, "b_day") {
                Err(e) => return Err(e),
                Ok(v) => v,
            };
            Ok(User { name, email, b_day })
        },
        _ => Err(DecodeError::MalformedDocument),
    }
}

// ---------------------------------------------------------------------------
// Entity encoding: from a value to a document tree; never fails.
// ---------------------------------------------------------------------------
/// Encodes a gift record.
pub open spec fn enc_gift(g: GiftV) -> JsonV {
    JsonV::Obj(
        seq![
            ("id"@, JsonV::Int(g.id as int)),
            ("price"@, JsonV::Int(g.price as int)),
            ("description"@, JsonV::Str(g.description)),
        ],
    )
}

/// Encodes the public tariff record.
pub open spec fn enc_public_tariff(t: PublicTariffV) -> JsonV {
    JsonV::Obj(
        seq![
            ("id"@, JsonV::Int(t.id as int)),
            ("price"@, JsonV::Int(t.price as int)),
            ("duration"@, JsonV::Str(format_span(t.duration as int))),
            ("description"@, JsonV::Str(t.description)),
        ],
    )
}

/// Encodes the private tariff record.
pub open spec fn enc_private_tariff(t: PrivateTariffV) -> JsonV {
    JsonV::Obj(
        seq![
            ("client_price"@, JsonV::Int(t.client_price as int)),
            ("duration"@, JsonV::Str(format_span(t.duration as int))),
            ("description"@, JsonV::Str(t.description)),
        ],
    )
}

/// Encodes the stream record.
pub open spec fn enc_stream(s: StreamV) -> JsonV {
    JsonV::Obj(
        seq![
            ("user_id"@, JsonV::Str(s.user_id)),
            ("is_private"@, JsonV::Bool(s.is_private)),
            ("settings"@, JsonV::Int(s.settings as int)),
            ("shard_url"@, JsonV::Str(s.shard_url)),
            ("public_tariff"@, enc_public_tariff(s.public_tariff)),
            ("private_tariff"@, enc_private_tariff(s.private_tariff)),
        ],
    )
}

/// Encodes the debug record.
pub open spec fn enc_debug(d: DebugInfoV) -> JsonV {
    JsonV::Obj(seq![("duration"@, JsonV::Str(d.duration)), ("at"@, JsonV::Str(d.at))])
}

/// Encodes the gifts in order.
pub open spec fn enc_gifts(gs: Seq<GiftV>) -> Seq<JsonV> {
    Seq::new(
        gs.len(),
        |i: int|
            if 0 <= i < gs.len() {
                enc_gift(gs[i])
            } else {
                JsonV::Null
            },
    )
}

/// Encodes the request envelope.
pub open spec fn enc_request(r: RequestV) -> JsonV {
    JsonV::Obj(
        seq![
            ("type"@, JsonV::Str(enc_status(r.req_type))),
            ("stream"@, enc_stream(r.stream)),
            ("gifts"@, JsonV::Arr(enc_gifts(r.gifts))),
            ("debug"@, enc_debug(r.debug)),
        ],
    )
}

/// Encodes a user record.
pub open spec fn enc_user(u: UserV) -> JsonV {
    JsonV::Obj(
        seq![
            ("name"@, JsonV::Str(u.name)),
            ("email"@, JsonV::Str(u.email)),
            ("b_day"@, JsonV::Str(u.b_day)),
        ],
    )
}

/// Encodes an event record, the date through the field transform: the
/// marker text, then the raw date.
pub open spec fn enc_event(e: EventV) -> JsonV {
    JsonV::Obj(
        seq![("name"@, JsonV::Str(e.name)), ("date"@, JsonV::Str("This is date: "@ + e.date))],
    )
}

fn key_of(name: &str) -> (v: Vec<char>)
    ensures
        v@ == name@,
{
    string_to_chars(name)
}

fn gift_to_json(g: &Gift) -> (j: Json)
    ensures
        j@ == enc_gift(g@),
{
    let mut ms: Vec<(Vec<char>, Json)> = Vec::new();
    ms.push((key_of("id"), Json::Int(g.id as i64)));
    ms.push((key_of("price"), Json::Int(g.price as i64)));
    ms.push((key_of("description"), Json::Str(string_to_chars(g.description.as_str()))));
    let j = Json::Obj(ms);
    proof {
        lemma_obj_view(j->Obj_0);
        assert(mviews(j->Obj_0@) =~= enc_gift(g@)->Obj_0);
    }
    j
}

fn public_tariff_to_json(t: &PublicTariff) -> (j: Json)
    ensures
        j@ == enc_public_tariff(t@),
{
    let mut ms: Vec<(Vec<char>, Json)> = Vec::new();
    ms.push((key_of("id"), Json::Int(t.id as i64)));
    ms.push((key_of("price"), Json::Int(t.price as i64)));
    ms.push((key_of("duration"), Json::Str(format_span_x(t.duration))));
    ms.push((key_of("description"), Json::Str(string_to_chars(t.description.as_str()))));
    let j = Json::Obj(ms);
    proof {
        lemma_obj_view(j->Obj_0);
        assert(mviews(j->Obj_0@) =~= enc_public_tariff(t@)->Obj_0);
    }
    j
}

fn private_tariff_to_json(t: &PrivateTariff) -> (j: Json)
    ensures
        j@ == enc_private_tariff(t@),
{
    let mut ms: Vec<(Vec<char>, Json)> = Vec::new();
    ms.push((key_of("client_price"), Json::Int(t.client_price as i64)));
    ms.push((key_of("duration"), Json::Str(format_span_x(t.duration))));
    ms.push((key_of("description"), Json::Str(string_to_chars(t.description.as_str()))));
    let j = Json::Obj(ms);
    proof {
        lemma_obj_view(j->Obj_0);
        assert(mviews(j->Obj_0@) =~= enc_private_tariff(t@)->Obj_0);
    }
    j
}

fn stream_to_json(s: &Stream) -> (j: Json)
    ensures
        j@ == enc_stream(s@),
{
    let mut ms: Vec<(Vec<char>, Json)> = Vec::new();
    ms.push((key_of("user_id"), Json::Str(string_to_chars(s.user_id.as_str()))));
    ms.push((key_of("is_private"), Json::Bool(s.is_private)));
    ms.push((key_of("settings"), Json::Int(s.settings as i64)));
    ms.push((key_of("shard_url"), Json::Str(string_to_chars(s.shard_url.as_str()))));
    ms.push((key_of("public_tariff"), public_tariff_to_json(&s.public_tariff)));
    ms.push((key_of("private_tariff"), private_tariff_to_json(&s.private_tariff)));
    let j = Json::Obj(ms);
    proof {
        lemma_obj_view(j->Obj_0);
        assert(mviews(j->Obj_0@) =~= enc_stream(s@)->Obj_0);
    }
    j
}

fn debug_to_json(d: &DebugInfo) -> (j: Json)
    ensures
        j@ == enc_debug(d@),
{
    let mut ms: Vec<(Vec<char>, Json)> = Vec::new();
    ms.push((key_of("duration"), Json::Str(string_to_chars(d.duration.as_str()))));
    ms.push((key_of("at"), Json::Str(string_to_chars(d.at.as_str()))));
    let j = Json::Obj(ms);
    proof {
        lemma_obj_view(j->Obj_0);
        assert(mviews(j->Obj_0@) =~= enc_debug(d@)->Obj_0);
    }
    j
}

fn request_to_json(r: &Request) -> (j: Json)
    ensures
        j@ == enc_request(r@),
{
    let mut es: Vec<Json> = Vec::new();
    let mut ix: usize = 0;
    while ix < r.gifts.len()
        invariant
            ix <= r.gifts.len(),
            jviews(es@) =~= enc_gifts(gift_views(r.gifts@).take(ix as int)),
        decreases r.gifts.len() - ix,
    {
        let jnew = gift_to_json(&r.gifts[ix]);
        let ghost jng = jnew;
        let ghost jv = jnew@;
        let ghost es0 = es@;
        es.push(jnew);
        proof {
            let gv = gift_views(r.gifts@);
            let k = ix as int;
            assert(es@ == es0.push(jng));
            assert(jviews(es0).len() == es0.len());
            assert(enc_gifts(gv.take(k)).len() == gv.take(k).len());
            assert(gv.take(k).len() == k);
            assert(es0.len() == k);
            assert forall|p: int| 0 <= p < k + 1 implies #[trigger] jviews(es@)[p] == enc_gifts(
                gv.take(k + 1),
            )[p] by {
                assert(es0.len() == k);
                assert(gv.take(k + 1)[p] == gv[p]);
                if p < k {
                    assert(es0.push(jng)[p] == es0[p]);
                    assert(es@[p] == es0[p]);
                    assert(jviews(es0)[p] == enc_gifts(gv.take(k))[p]);
                    assert(gv.take(k)[p] == gv[p]);
                } else {
                    assert(es0.push(jng)[k] == jng);
                    assert(jview(es@[k]) == jv);
                }
            }
            assert(jviews(es@) =~= enc_gifts(gv.take(k + 1)));
        }
        ix = ix + 1;
    }
    let garr = Json::Arr(es);
    proof {
        lemma_arr_view(garr->Arr_0);
        assert(gift_views(r.gifts@).take(r.gifts@.len() as int) =~= gift_views(r.gifts@));
        assert(garr@ == JsonV::Arr(enc_gifts(gift_views(r.gifts@))));
    }
    let mut ms: Vec<(Vec<char>, Json)> = Vec::new();
    ms.push((key_of("type"), Json::Str(status_token(&r.req_type))));
    ms.push((key_of("stream"), stream_to_json(&r.stream)));
    ms.push((key_of("gifts"), garr));
    ms.push((key_of("debug"), debug_to_json(&r.debug)));
    let j = Json::Obj(ms);
    proof {
        lemma_obj_view(j->Obj_0);
        assert(mviews(j->Obj_0@) =~= enc_request(r@)->Obj_0);
    }
    j
}

fn user_to_json(u: &User) -> (j: Json)
    ensures
        j@ == enc_user(u@),
{
    let mut ms: Vec<(Vec<char>, Json)> = Vec::new();
    ms.push((key_of("name"), Json::Str(string_to_chars(u.name.as_str()))));
    ms.push((key_of("email"), Json::Str(string_to_chars(u.email.as_str()))));
    ms.push((key_of("b_day"), Json::Str(string_to_chars(u.b_day.as_str()))));
    let j = Json::Obj(ms);
    proof {
        lemma_obj_view(j->Obj_0);
        assert(mviews(j->Obj_0@) =~= enc_user(u@)->Obj_0);
    }
    j
}

fn event_to_json(e: &Event) -> (j: Json)
    ensures
        j@ == enc_event(e@),
{
    let mut ms: Vec<(Vec<char>, Json)> = Vec::new();
    ms.push((key_of("name"), Json::Str(string_to_chars(e.name.as_str()))));
    let wire = crate::transform::encode_date(e.date.as_str());
    ms.push((key_of("date"), Json::Str(string_to_chars(wire.as_str()))));
    let j = Json::Obj(ms);
    proof {
        lemma_obj_view(j->Obj_0);
        assert(mviews(j->Obj_0@) =~= enc_event(e@)->Obj_0);
    }
    j
}

// ---------------------------------------------------------------------------
// The text-level envelope codec.
// ---------------------------------------------------------------------------
/// What decoding a request document text yields.
pub open spec fn dec_request_text(t: Seq<char>) -> Result<RequestV, ErrV> {
    match parse_doc(t) {
        None => Err(ErrV::Malformed),
        Some(j) => dec_request(j),
    }
}

/// The text that encodes a request.
pub open spec fn enc_request_text(r: RequestV) -> Seq<char> {
    print_json(enc_request(r))
}

/// What decoding an event document text yields.
pub open spec fn dec_event_text(t: Seq<char>) -> Result<EventV, ErrV> {
    match parse_doc(t) {
        None => Err(ErrV::Malformed),
        Some(j) => dec_event(j),
    }
}

/// The text that encodes an event.
pub open spec fn enc_event_text(e: EventV) -> Seq<char> {
    print_json(enc_event(e))
}

/// What decoding a user document text yields.
pub open spec fn dec_user_text(t: Seq<char>) -> Result<UserV, ErrV> {
    match parse_doc(t) {
        None => Err(ErrV::Malformed),
        Some(j) => dec_user(j),
    }
}

/// The text that encodes a user.
pub open spec fn enc_user_text(u: UserV) -> Seq<char> {
    print_json(enc_user(u))
}

/// Decodes a request document: parses the text and decodes every field,
/// or reports the first failure.
pub fn decode_request(s: &str) -> (r: Result<Request, DecodeError>)
    ensures
        match r {
            Ok(v) => dec_request_text(s@) == Ok::<RequestV, ErrV>(v@),
            Err(e) => dec_request_text(s@) == Err::<RequestV, ErrV>(e@),
        },
{
    let chars = string_to_chars(s);
    match parse_doc_x(&chars) {
        None => Err(DecodeError::MalformedDocument),
        Some(j) => request_from_json(&j),
    }
}

/// Encodes a request as document text.
pub fn encode_request(r: &Request) -> (out: String)
    ensures
        out@ == enc_request_text(r@),
{
    let j = request_to_json(r);
    let chars = print_doc_x(&j);
    chars_to_string(&chars)
}

/// Decodes an event document; the date field runs through the transform.
pub fn decode_event(s: &str) -> (r: Result<Event, DecodeError>)
    ensures
        match r {
            Ok(v) => dec_event_text(s@) == Ok::<EventV, ErrV>(v@),
            Err(e) => dec_event_text(s@) == Err::<EventV, ErrV>(e@),
        },
{
    let chars = string_to_chars(s);
    match parse_doc_x(&chars) {
        None => Err(DecodeError::MalformedDocument),
        Some(j) => event_from_json(&j),
    }
}

/// Encodes an event as document text; the date field gets the marker.
pub fn encode_event(e: &Event) -> (out: String)
    ensures
        out@ == enc_event_text(e@),
{
    let j = event_to_json(e);
    let chars = print_doc_x(&j);
    chars_to_string(&chars)
}

/// Decodes a user document.
pub fn decode_user(s: &str) -> (r: Result<User, DecodeError>)
    ensures
        match r {
            Ok(v) => dec_user_text(s@) == Ok::<UserV, ErrV>(v@),
            Err(e) => dec_user_text(s@) == Err::<UserV, ErrV>(e@),
        },
{
    let chars = string_to_chars(s);
    match parse_doc_x(&chars) {
        None => Err(DecodeError::MalformedDocument),
        Some(j) => user_from_json(&j),
    }
}

/// Encodes a user as document text.
pub fn encode_user(u: &User) -> (out: String)
    ensures
        out@ == enc_user_text(u@),
{
    let j = user_to_json(u);
    let chars = print_doc_x(&j);
    chars_to_string(&chars)
}

// ---------------------------------------------------------------------------
// Validity: what decoding establishes and encoding relies on.
// ---------------------------------------------------------------------------
/// A gift whose text can stand in a document.
pub open spec fn gift_wf(g: GiftV) -> bool {
    str_ok(g.description)
}

/// A public tariff whose text can stand in a document.
pub open spec fn public_tariff_wf(t: PublicTariffV) -> bool {
    str_ok(t.description)
}

/// A private tariff whose text can stand in a document.
pub open spec fn private_tariff_wf(t: PrivateTariffV) -> bool {
    str_ok(t.description)
}

/// A stream with a canonical UUID, an absolute URL, and printable text.
pub open spec fn stream_wf(s: StreamV) -> bool {
    uuid_ok(s.user_id) && str_ok(s.user_id) && url_ok(s.shard_url) && str_ok(s.shard_url)
        && public_tariff_wf(s.public_tariff) && private_tariff_wf(s.private_tariff)
}

/// Debug information with a valid instant and printable text.
pub open spec fn debug_wf(d: DebugInfoV) -> bool {
    str_ok(d.duration) && str_ok(d.at) && rfc3339_ok(d.at)
}

/// A request all of whose parts are valid.
pub open spec fn request_wf(r: RequestV) -> bool {
    stream_wf(r.stream) && debug_wf(r.debug) && forall|i: int|
        0 <= i < r.gifts.len() ==> gift_wf(#[trigger] r.gifts[i])
}

/// A value looked up in a well-formed object is well formed.
proof fn lemma_obj_get_wf(ms: Seq<(Seq<char>, JsonV)>, k: Seq<char>)
    requires
        jwf(JsonV::Obj(ms)),
        obj_get(ms, k) is Some,
    ensures
        jwf(obj_get(ms, k)->Some_0),
    decreases ms.len(),
{
    if ms.len() > 0 && ms[0].0 != k {
        assert(members_wf(ms.drop_first()));
        assert(jwf(JsonV::Obj(ms.drop_first())));
        lemma_obj_get_wf(ms.drop_first(), k);
    }
}

/// What a decode returns is valid: the texts came from a well-formed tree
/// and every constrained scalar was checked.
proof fn lemma_dec_gift_wf(j: JsonV)
    requires
        jwf(j),
        dec_gift(j) is Ok,
    ensures
        gift_wf(dec_gift(j)->Ok_0),
{
    let ms = j->Obj_0;
    lemma_obj_get_wf(ms, "description"@);
}

proof fn lemma_dec_public_tariff_wf(j: JsonV)
    requires
        jwf(j),
        dec_public_tariff(j) is Ok,
    ensures
        public_tariff_wf(dec_public_tariff(j)->Ok_0),
{
    let ms = j->Obj_0;
    lemma_obj_get_wf(ms, "description"@);
}

proof fn lemma_dec_private_tariff_wf(j: JsonV)
    requires
        jwf(j),
        dec_private_tariff(j) is Ok,
    ensures
        private_tariff_wf(dec_private_tariff(j)->Ok_0),
{
    let ms = j->Obj_0;
    lemma_obj_get_wf(ms, "description"@);
}

proof fn lemma_dec_stream_wf(j: JsonV)
    requires
        jwf(j),
        dec_stream(j) is Ok,
    ensures
        stream_wf(dec_stream(j)->Ok_0),
{
    let ms = j->Obj_0;
    lemma_obj_get_wf(ms, "user_id"@);
    lemma_obj_get_wf(ms, "shard_url"@);
    lemma_obj_get_wf(ms, "public_tariff"@);
    lemma_obj_get_wf(ms, "private_tariff"@);
    lemma_dec_public_tariff_wf(obj_get(ms, "public_tariff"@)->Some_0);
    lemma_dec_private_tariff_wf(obj_get(ms, "private_tariff"@)->Some_0);
}

proof fn lemma_dec_debug_wf(j: JsonV)
    requires
        jwf(j),
        dec_debug(j) is Ok,
    ensures
        debug_wf(dec_debug(j)->Ok_0),
{
    let ms = j->Obj_0;
    lemma_obj_get_wf(ms, "duration"@);
    lemma_obj_get_wf(ms, "at"@);
}

proof fn lemma_dec_gifts_wf(es: Seq<JsonV>)
    requires
        elems_wf(es),
        dec_gifts(es) is Ok,
    ensures
        forall|i: int|
            0 <= i < dec_gifts(es)->Ok_0.len() ==> gift_wf(#[trigger] dec_gifts(es)->Ok_0[i]),
    decreases es.len(),
{
    if es.len() > 0 {
        lemma_dec_gift_wf(es[0]);
        assert(elems_wf(es.drop_first()));
        lemma_dec_gifts_wf(es.drop_first());
        let g = dec_gift(es[0])->Ok_0;
        let rest = dec_gifts(es.drop_first())->Ok_0;
        assert forall|i: int| 0 <= i < dec_gifts(es)->Ok_0.len() implies gift_wf(
            #[trigger] dec_gifts(es)->Ok_0[i],
        ) by {
            if i == 0 {
                assert(dec_gifts(es)->Ok_0[0] == g);
            } else {
                assert(dec_gifts(es)->Ok_0[i] == rest[i - 1]);
            }
        }
    }
}

/// Whatever a request decode returns is a valid request.
pub proof fn lemma_dec_request_wf(j: JsonV)
    requires
        jwf(j),
        dec_request(j) is Ok,
    ensures
        request_wf(dec_request(j)->Ok_0),
{
    let ms = j->Obj_0;
    lemma_obj_get_wf(ms, "stream"@);
    lemma_obj_get_wf(ms, "gifts"@);
    lemma_obj_get_wf(ms, "debug"@);
    lemma_dec_stream_wf(obj_get(ms, "stream"@)->Some_0);
    lemma_dec_debug_wf(obj_get(ms, "debug"@)->Some_0);
    assert(elems_wf(obj_get(ms, "gifts"@)->Some_0->Arr_0));
    lemma_dec_gifts_wf(obj_get(ms, "gifts"@)->Some_0->Arr_0);
}

// ---------------------------------------------------------------------------
// Encoded trees are well formed.
// ---------------------------------------------------------------------------
/// Every character a span text can hold is printable.
proof fn lemma_format_span_str_ok(n: int)
    requires
        0 <= n,
    ensures
        str_ok(format_span(n)),
{
    let f = span_unit(n);
    let q = (n / f) as nat;
    crate::json::lemma_dec_digits_chars(q);
    let s = format_span(n);
    assert forall|i: int| 0 <= i < s.len() implies crate::char_ok(#[trigger] s[i]) by {
        if i < dec_digits(q).len() {
            assert(s[i] == dec_digits(q)[i]);
            assert(crate::json::is_digit(s[i]));
        } else {
            assert(s[i] == unit_chars(f)[i - dec_digits(q).len()]);
        }
    }
}

proof fn lemma_key_strs_ok()
    ensures
        str_ok("id"@),
        str_ok("price"@),
        str_ok("description"@),
        str_ok("client_price"@),
        str_ok("duration"@),
        str_ok("user_id"@),
        str_ok("is_private"@),
        str_ok("settings"@),
        str_ok("shard_url"@),
        str_ok("public_tariff"@),
        str_ok("private_tariff"@),
        str_ok("at"@),
        str_ok("type"@),
        str_ok("stream"@),
        str_ok("gifts"@),
        str_ok("debug"@),
        str_ok("success"@),
        str_ok("bad_request"@),
        str_ok("unprocessable_entity"@),
{
    reveal_strlit("id");
    reveal_strlit("price");
    reveal_strlit("description");
    reveal_strlit("client_price");
    reveal_strlit("duration");
    reveal_strlit("user_id");
    reveal_strlit("is_private");
    reveal_strlit("settings");
    reveal_strlit("shard_url");
    reveal_strlit("public_tariff");
    reveal_strlit("private_tariff");
    reveal_strlit("at");
    reveal_strlit("type");
    reveal_strlit("stream");
    reveal_strlit("gifts");
    reveal_strlit("debug");
    reveal_strlit("success");
    reveal_strlit("bad_request");
    reveal_strlit("unprocessable_entity");
    assert(("success"@).len() == 7);
    assert(("bad_request"@).len() == 11);
    assert(("unprocessable_entity"@).len() == 20);
}

proof fn lemma_enc_gift_wf(g: GiftV)
    requires
        gift_wf(g),
    ensures
        jwf(enc_gift(g)),
{
    lemma_key_strs_ok();
    let ms = enc_gift(g)->Obj_0;
    assert forall|i: int| 0 <= i < ms.len() implies str_ok((#[trigger] ms[i]).0) && jwf(
        ms[i].1,
    ) by {
        if i == 0 {
            assert(ms[0] == ("id"@, JsonV::Int(g.id as int)));
        } else if i == 1 {
            assert(ms[1] == ("price"@, JsonV::Int(g.price as int)));
        } else {
            assert(ms[2] == ("description"@, JsonV::Str(g.description)));
        }
    }
    lemma_members_wf_from(ms);
}

proof fn lemma_enc_public_tariff_wf(t: PublicTariffV)
    requires
        public_tariff_wf(t),
    ensures
        jwf(enc_public_tariff(t)),
{
    lemma_key_strs_ok();
    lemma_format_span_str_ok(t.duration as int);
    let ms = enc_public_tariff(t)->Obj_0;
    assert forall|i: int| 0 <= i < ms.len() implies str_ok((#[trigger] ms[i]).0) && jwf(
        ms[i].1,
    ) by {
        if i == 0 {
            assert(ms[0] == ("id"@, JsonV::Int(t.id as int)));
        } else if i == 1 {
            assert(ms[1] == ("price"@, JsonV::Int(t.price as int)));
        } else if i == 2 {
            assert(ms[2] == ("duration"@, JsonV::Str(format_span(t.duration as int))));
        } else {
            assert(ms[3] == ("description"@, JsonV::Str(t.description)));
        }
    }
    lemma_members_wf_from(ms);
}

proof fn lemma_enc_private_tariff_wf(t: PrivateTariffV)
    requires
        private_tariff_wf(t),
    ensures
        jwf(enc_private_tariff(t)),
{
    lemma_key_strs_ok();
    lemma_format_span_str_ok(t.duration as int);
    let ms = enc_private_tariff(t)->Obj_0;
    assert forall|i: int| 0 <= i < ms.len() implies str_ok((#[trigger] ms[i]).0) && jwf(
        ms[i].1,
    ) by {
        if i == 0 {
            assert(ms[0] == ("client_price"@, JsonV::Int(t.client_price as int)));
        } else if i == 1 {
            assert(ms[1] == ("duration"@, JsonV::Str(format_span(t.duration as int))));
        } else {
            assert(ms[2] == ("description"@, JsonV::Str(t.description)));
        }
    }
    lemma_members_wf_from(ms);
}

proof fn lemma_enc_stream_wf(s: StreamV)
    requires
        stream_wf(s),
    ensures
        jwf(enc_stream(s)),
{
    lemma_key_strs_ok();
    lemma_enc_public_tariff_wf(s.public_tariff);
    lemma_enc_private_tariff_wf(s.private_tariff);
    let ms = enc_stream(s)->Obj_0;
    assert forall|i: int| 0 <= i < ms.len() implies str_ok((#[trigger] ms[i]).0) && jwf(
        ms[i].1,
    ) by {
        if i == 0 {
            assert(ms[0] == ("user_id"@, JsonV::Str(s.user_id)));
        } else if i == 1 {
            assert(ms[1] == ("is_private"@, JsonV::Bool(s.is_private)));
        } else if i == 2 {
            assert(ms[2] == ("settings"@, JsonV::Int(s.settings as int)));
        } else if i == 3 {
            assert(ms[3] == ("shard_url"@, JsonV::Str(s.shard_url)));
        } else if i == 4 {
            assert(ms[4] == ("public_tariff"@, enc_public_tariff(s.public_tariff)));
        } else {
            assert(ms[5] == ("private_tariff"@, enc_private_tariff(s.private_tariff)));
        }
    }
    lemma_members_wf_from(ms);
}

proof fn lemma_enc_debug_wf(d: DebugInfoV)
    requires
        debug_wf(d),
    ensures
        jwf(enc_debug(d)),
{
    lemma_key_strs_ok();
    let ms = enc_debug(d)->Obj_0;
    assert forall|i: int| 0 <= i < ms.len() implies str_ok((#[trigger] ms[i]).0) && jwf(
        ms[i].1,
    ) by {
        if i == 0 {
            assert(ms[0] == ("duration"@, JsonV::Str(d.duration)));
        } else {
            assert(ms[1] == ("at"@, JsonV::Str(d.at)));
        }
    }
    lemma_members_wf_from(ms);
}

/// The tree an encoded request consists of is well formed.
pub proof fn lemma_enc_request_wf(r: RequestV)
    requires
        request_wf(r),
    ensures
        jwf(enc_request(r)),
{
    lemma_key_strs_ok();
    lemma_enc_stream_wf(r.stream);
    lemma_enc_debug_wf(r.debug);
    let es = enc_gifts(r.gifts);
    assert forall|i: int| 0 <= i < es.len() implies jwf(#[trigger] es[i]) by {
        assert(es[i] == enc_gift(r.gifts[i]));
        assert(gift_wf(r.gifts[i]));
        lemma_enc_gift_wf(r.gifts[i]);
    }
    lemma_elems_wf_from(es);
    let ms = enc_request(r)->Obj_0;
    assert forall|i: int| 0 <= i < ms.len() implies str_ok((#[trigger] ms[i]).0) && jwf(
        ms[i].1,
    ) by {
        if i == 0 {
            assert(ms[0] == ("type"@, JsonV::Str(enc_status(r.req_type))));
            assert(str_ok(enc_status(r.req_type)));
        } else if i == 1 {
            assert(ms[1] == ("stream"@, enc_stream(r.stream)));
        } else if i == 2 {
            assert(ms[2] == ("gifts"@, JsonV::Arr(es)));
        } else {
            assert(ms[3] == ("debug"@, enc_debug(r.debug)));
        }
    }
    lemma_members_wf_from(ms);
}

// ---------------------------------------------------------------------------
// Decoding inverts encoding on valid values.
// ---------------------------------------------------------------------------
/// The status token table is a bijection: the token of each variant
/// decodes back to that variant.
pub proof fn lemma_dec_enc_status(st: HttpStatus)
    ensures
        dec_status(enc_status(st)) == Ok::<HttpStatus, ErrV>(st),
{
    reveal_strlit("success");
    reveal_strlit("bad_request");
    reveal_strlit("unprocessable_entity");
    assert(("success"@).len() == 7);
    assert(("bad_request"@).len() == 11);
    assert(("unprocessable_entity"@).len() == 20);
}

proof fn lemma_dec_enc_gift(g: GiftV)
    requires
        gift_wf(g),
    ensures
        dec_gift(enc_gift(g)) == Ok::<GiftV, ErrV>(g),
{
    reveal_with_fuel(obj_get, 5);
    reveal_strlit("id");
    reveal_strlit("price");
    reveal_strlit("description");
    let ms = enc_gift(g)->Obj_0;
    assert(("id"@).len() == 2);
    assert(("price"@).len() == 5);
    assert("id"@ != "price"@);
    assert(ms[0] == ("id"@, JsonV::Int(g.id as int)));
    assert(ms.drop_first() =~= seq![
        ("price"@, JsonV::Int(g.price as int)),
        ("description"@, JsonV::Str(g.description)),
    ]);
    assert(ms.drop_first().drop_first() =~= seq![("description"@, JsonV::Str(g.description))]);
    assert(obj_get(ms, "id"@) == Some(JsonV::Int(g.id as int)));
    assert(obj_get(ms, "price"@) == Some(JsonV::Int(g.price as int)));
    assert(obj_get(ms, "description"@) == Some(JsonV::Str(g.description)));
}

proof fn lemma_dec_enc_public_tariff(t: PublicTariffV)
    requires
        public_tariff_wf(t),
    ensures
        dec_public_tariff(enc_public_tariff(t)) == Ok::<PublicTariffV, ErrV>(t),
{
    reveal_with_fuel(obj_get, 6);
    reveal_strlit("id");
    reveal_strlit("price");
    reveal_strlit("duration");
    reveal_strlit("description");
    assert(("id"@).len() == 2);
    assert(("price"@).len() == 5);
    assert(("duration"@).len() == 8);
    assert(("description"@).len() == 11);
    let ms = enc_public_tariff(t)->Obj_0;
    let dur = JsonV::Str(format_span(t.duration as int));
    assert(ms[0] == ("id"@, JsonV::Int(t.id as int)));
    assert(ms[1] == ("price"@, JsonV::Int(t.price as int)));
    assert(ms[2] == ("duration"@, dur));
    assert(ms[3] == ("description"@, JsonV::Str(t.description)));
    assert(ms.drop_first() =~= seq![
        ("price"@, JsonV::Int(t.price as int)),
        ("duration"@, dur),
        ("description"@, JsonV::Str(t.description)),
    ]);
    assert(ms.drop_first().drop_first() =~= seq![
        ("duration"@, dur),
        ("description"@, JsonV::Str(t.description)),
    ]);
    assert(ms.drop_first().drop_first().drop_first() =~= seq![
        ("description"@, JsonV::Str(t.description)),
    ]);
    assert(obj_get(ms, "id"@) == Some(JsonV::Int(t.id as int)));
    assert(obj_get(ms, "price"@) == Some(JsonV::Int(t.price as int)));
    assert(obj_get(ms, "duration"@) == Some(dur));
    assert(obj_get(ms, "description"@) == Some(JsonV::Str(t.description)));
    crate::scalar::lemma_parse_of_format_span(t.duration as int);
}

proof fn lemma_dec_enc_private_tariff(t: PrivateTariffV)
    requires
        private_tariff_wf(t),
    ensures
        dec_private_tariff(enc_private_tariff(t)) == Ok::<PrivateTariffV, ErrV>(t),
{
    reveal_with_fuel(obj_get, 5);
    reveal_strlit("client_price");
    reveal_strlit("duration");
    reveal_strlit("description");
    assert(("client_price"@).len() == 12);
    assert(("duration"@).len() == 8);
    assert(("description"@).len() == 11);
    let ms = enc_private_tariff(t)->Obj_0;
    let dur = JsonV::Str(format_span(t.duration as int));
    assert(ms[0] == ("client_price"@, JsonV::Int(t.client_price as int)));
    assert(ms[1] == ("duration"@, dur));
    assert(ms[2] == ("description"@, JsonV::Str(t.description)));
    assert(ms.drop_first() =~= seq![
        ("duration"@, dur),
        ("description"@, JsonV::Str(t.description)),
    ]);
    assert(ms.drop_first().drop_first() =~= seq![("description"@, JsonV::Str(t.description))]);
    assert(obj_get(ms, "client_price"@) == Some(JsonV::Int(t.client_price as int)));
    assert(obj_get(ms, "duration"@) == Some(dur));
    assert(obj_get(ms, "description"@) == Some(JsonV::Str(t.description)));
    crate::scalar::lemma_parse_of_format_span(t.duration as int);
}

proof fn lemma_dec_enc_stream(s: StreamV)
    requires
        stream_wf(s),
    ensures
        dec_stream(enc_stream(s)) == Ok::<StreamV, ErrV>(s),
{
    reveal_with_fuel(obj_get, 8);
    reveal_strlit("user_id");
    reveal_strlit("is_private");
    reveal_strlit("settings");
    reveal_strlit("shard_url");
    reveal_strlit("public_tariff");
    reveal_strlit("private_tariff");
    assert(("user_id"@).len() == 7);
    assert(("is_private"@).len() == 10);
    assert(("settings"@).len() == 8);
    assert(("shard_url"@).len() == 9);
    assert(("public_tariff"@).len() == 13);
    assert(("private_tariff"@).len() == 14);
    let ms = enc_stream(s)->Obj_0;
    assert(ms[0] == ("user_id"@, JsonV::Str(s.user_id)));
    assert(ms[1] == ("is_private"@, JsonV::Bool(s.is_private)));
    assert(ms[2] == ("settings"@, JsonV::Int(s.settings as int)));
    assert(ms[3] == ("shard_url"@, JsonV::Str(s.shard_url)));
    assert(ms[4] == ("public_tariff"@, enc_public_tariff(s.public_tariff)));
    assert(ms[5] == ("private_tariff"@, enc_private_tariff(s.private_tariff)));
    let m1 = seq![
        ("is_private"@, JsonV::Bool(s.is_private)),
        ("settings"@, JsonV::Int(s.settings as int)),
        ("shard_url"@, JsonV::Str(s.shard_url)),
        ("public_tariff"@, enc_public_tariff(s.public_tariff)),
        ("private_tariff"@, enc_private_tariff(s.private_tariff)),
    ];
    assert(ms.drop_first() =~= m1);
    assert(m1.drop_first() =~= m1.subrange(1, 5));
    assert(m1.subrange(1, 5).drop_first() =~= m1.subrange(2, 5));
    assert(m1.subrange(2, 5).drop_first() =~= m1.subrange(3, 5));
    assert(m1.subrange(3, 5).drop_first() =~= m1.subrange(4, 5));
    assert(obj_get(ms, "user_id"@) == Some(JsonV::Str(s.user_id)));
    assert(obj_get(ms, "is_private"@) == Some(JsonV::Bool(s.is_private)));
    assert(obj_get(ms, "settings"@) == Some(JsonV::Int(s.settings as int)));
    assert(obj_get(ms, "shard_url"@) == Some(JsonV::Str(s.shard_url)));
    assert(obj_get(ms, "public_tariff"@) == Some(enc_public_tariff(s.public_tariff)));
    assert(obj_get(ms, "private_tariff"@) == Some(enc_private_tariff(s.private_tariff)));
    lemma_dec_enc_public_tariff(s.public_tariff);
    lemma_dec_enc_private_tariff(s.private_tariff);
}

proof fn lemma_dec_enc_debug(d: DebugInfoV)
    requires
        debug_wf(d),
    ensures
        dec_debug(enc_debug(d)) == Ok::<DebugInfoV, ErrV>(d),
{
    reveal_with_fuel(obj_get, 4);
    reveal_strlit("duration");
    reveal_strlit("at");
    assert(("duration"@).len() == 8);
    assert(("at"@).len() == 2);
    let ms = enc_debug(d)->Obj_0;
    assert(ms[0] == ("duration"@, JsonV::Str(d.duration)));
    assert(ms[1] == ("at"@, JsonV::Str(d.at)));
    assert(ms.drop_first() =~= seq![("at"@, JsonV::Str(d.at))]);
    assert(obj_get(ms, "duration"@) == Some(JsonV::Str(d.duration)));
    assert(obj_get(ms, "at"@) == Some(JsonV::Str(d.at)));
}

proof fn lemma_dec_enc_gifts(gs: Seq<GiftV>)
    requires
        forall|i: int| 0 <= i < gs.len() ==> gift_wf(#[trigger] gs[i]),
    ensures
        dec_gifts(enc_gifts(gs)) == Ok::<Seq<GiftV>, ErrV>(gs),
    decreases gs.len(),
{
    let es = enc_gifts(gs);
    if gs.len() == 0 {
        assert(gs =~= Seq::<GiftV>::empty());
    } else {
        assert(es[0] == enc_gift(gs[0]));
        lemma_dec_enc_gift(gs[0]);
        assert forall|i: int| 0 <= i < gs.drop_first().len() implies gift_wf(
            #[trigger] gs.drop_first()[i],
        ) by {
            assert(gs.drop_first()[i] == gs[i + 1]);
        }
        lemma_dec_enc_gifts(gs.drop_first());
        assert(es.drop_first() =~= enc_gifts(gs.drop_first()));
        assert(seq![gs[0]] + gs.drop_first() =~= gs);
    }
}

/// Decoding an encoded request yields the request back, for every valid
/// request value.
pub proof fn lemma_dec_enc_request(r: RequestV)
    requires
        request_wf(r),
    ensures
        dec_request(enc_request(r)) == Ok::<RequestV, ErrV>(r),
{
    reveal_with_fuel(obj_get, 6);
    reveal_strlit("type");
    reveal_strlit("stream");
    reveal_strlit("gifts");
    reveal_strlit("debug");
    assert(("type"@).len() == 4);
    assert(("stream"@).len() == 6);
    assert(("gifts"@).len() == 5);
    assert(("debug"@).len() == 5);
    assert(("gifts"@)[0] == 'g');
    assert(("debug"@)[0] == 'd');
    let ms = enc_request(r)->Obj_0;
    assert(ms[0] == ("type"@, JsonV::Str(enc_status(r.req_type))));
    assert(ms[1] == ("stream"@, enc_stream(r.stream)));
    assert(ms[2] == ("gifts"@, JsonV::Arr(enc_gifts(r.gifts))));
    assert(ms[3] == ("debug"@, enc_debug(r.debug)));
    let m1 = seq![
        ("stream"@, enc_stream(r.stream)),
        ("gifts"@, JsonV::Arr(enc_gifts(r.gifts))),
        ("debug"@, enc_debug(r.debug)),
    ];
    assert(ms.drop_first() =~= m1);
    assert(m1.drop_first() =~= m1.subrange(1, 3));
    assert(m1.subrange(1, 3).drop_first() =~= m1.subrange(2, 3));
    assert(obj_get(ms, "type"@) == Some(JsonV::Str(enc_status(r.req_type))));
    assert(obj_get(ms, "stream"@) == Some(enc_stream(r.stream)));
    assert(obj_get(ms, "gifts"@) == Some(JsonV::Arr(enc_gifts(r.gifts))));
    assert(obj_get(ms, "debug"@) == Some(enc_debug(r.debug)));
    lemma_dec_enc_status(r.req_type);
    lemma_dec_enc_stream(r.stream);
    lemma_dec_enc_gifts(r.gifts);
    lemma_dec_enc_debug(r.debug);
}

/// The round-trip law: for every document text that decodes to a request,
/// encoding that request and decoding the result yields the same request
/// as the first decode.
pub proof fn lemma_decode_encode_decode(t: Seq<char>)
    requires
        dec_request_text(t) is Ok,
    ensures
        dec_request_text(enc_request_text(dec_request_text(t)->Ok_0)) == dec_request_text(t),
{
    let j = parse_doc(t)->Some_0;
    crate::json::lemma_parse_doc_wf(t);
    let r = dec_request(j)->Ok_0;
    lemma_dec_request_wf(j);
    lemma_enc_request_wf(r);
    crate::json::lemma_parse_of_print(enc_request(r));
    lemma_dec_enc_request(r);
}

fn event_from_json(j: &Json) -> (r: Result<Event, DecodeError>)
    ensures
        match r {
            Ok(g) => dec_event(j@) == Ok::<EventV, ErrV>(g@),
            Err(e) => dec_event(j@) == Err::<EventV, ErrV>(e@),
        },
{
    match j {
        Json::Obj(ms) => {
            proof {
                lemma_obj_view(Json::Obj(*ms)->Obj_0);
            }
            let name = match get_string(ms, "name") {
                Err(e) => return Err(e),
                Ok(v) => v,
            };
            let wire = match get_string(ms, "date") {
                Err(e) => return Err(e),
                Ok(v) => v,
            };
            let date = crate::transform::decode_date(wire.as_str());
            Ok(Event { name, date })
        },
        _ => Err(DecodeError::MalformedDocument),
    }
}

} // verus!
