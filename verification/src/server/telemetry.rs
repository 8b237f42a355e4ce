//! Opt-in telemetry sink for connection diagnostics.
//!
//! Privacy model:
//!   - Source IP is never logged.
//!   - Body is bounded (4 KiB) and must parse as a JSON object.
//!   - A receive timestamp is put in and the line is appended, nothing else.
use crate::text;
use serde_json::Value;
use vstd::prelude::*;
use vstd::string::*;

verus! {

/// The longest body, in bytes, that is taken in.
pub const MAX_BODY: usize = 4096;

/// What a text is as JSON.
#[derive(Clone, Copy, Debug, PartialEq, Eq, Structural)]
pub enum JsonShape {
    Invalid,
    Object,
    /// Any other value.
    Other,
}

// ── Outside: JSON ────────────────────────────────────────────────────────────

/// A value of `serde_json`.
#[verifier::external_type_specification]
#[verifier::external_body]
pub struct ExJsonValue(serde_json::Value);

/// The map type of `serde_json`, which holds the members of an object.
#[verifier::external_type_specification]
#[verifier::external_body]
#[verifier::reject_recursive_types(K)]
#[verifier::reject_recursive_types(V)]
pub struct ExJsonMap<K, V>(serde_json::Map<K, V>);

/// The members of an object by their names, each with the text that `serde_json`
/// writes for its value.
pub uninterp spec fn members(object: serde_json::Map<String, Value>) -> Map<Seq<char>, Seq<char>>;

/// What a text has been read as.
#[derive(Debug)]
pub enum Parsed {
    Invalid,
    Object(serde_json::Map<String, Value>),
    /// Any other value.
    Other,
}

/// What a text has been read as, with the members of an object.
pub enum ParsedView {
    Invalid,
    Object(Map<Seq<char>, Seq<char>>),
    Other,
}

impl View for Parsed {
    type V = ParsedView;

    open spec fn view(&self) -> ParsedView {
        match *self {
            Parsed::Invalid => ParsedView::Invalid,
            Parsed::Object(m) => ParsedView::Object(members(m)),
            Parsed::Other => ParsedView::Other,
        }
    }
}

impl ParsedView {
    /// What the text is as JSON.
    pub open spec fn shape(self) -> JsonShape {
        match self {
            ParsedView::Invalid => JsonShape::Invalid,
            ParsedView::Object(_) => JsonShape::Object,
            ParsedView::Other => JsonShape::Other,
        }
    }
}

/// What `serde_json` reads a text as.
pub uninterp spec fn parsed(body: Seq<char>) -> ParsedView;

/// The text that `serde_json` writes for an object with these members.
pub uninterp spec fn object_text(members: Map<Seq<char>, Seq<char>>) -> Seq<char>;

/// A name that JSON writes as it stands, in quotes: letters, digits and underscores.
pub open spec fn is_plain_name(name: Seq<char>) -> bool {
    forall|i: int| 0 <= i < name.len() ==> is_name_char(#[trigger] name[i])
}

/// A letter, a digit or an underscore.
pub open spec fn is_name_char(c: char) -> bool {
    'A' <= c <= 'Z' || 'a' <= c <= 'z' || '0' <= c <= '9' || c == '_'
}

/// A member as it is written in an object.
pub open spec fn member_text(name: Seq<char>, value: Seq<char>) -> Seq<char> {
    "\""@ + name + "\":"@ + value
}

/// `serde_json::from_str`, for a `Value`.
#[verifier::external_body]
fn read_json(body: &str) -> (r: Parsed)
    ensures
        r@ == parsed(body@),
{
    match serde_json::from_str::<Value>(body) {
        Ok(Value::Object(m)) => Parsed::Object(m),
        Ok(_) => Parsed::Other,
        Err(_) => Parsed::Invalid,
    }
}

/// `Map::insert` of a number, which is written in decimal: it takes the place of
/// what was under the name, and the other members stay.
#[verifier::external_body]
fn set_number(object: &mut serde_json::Map<String, Value>, name: &str, n: u64)
    ensures
        members(*final(object)) == members(*old(object)).insert(name@, text::decimal(n as nat)),
{
    object.insert(name.into(), Value::from(n));
}

/// `serde_json::to_string` of an object, which never fails: its members on one line,
/// in braces, and in it each member with a plain name as that name in quotes, a colon
/// and the text of its value.
#[verifier::external_body]
fn write_object(object: &serde_json::Map<String, Value>) -> (r: Option<String>)
    ensures
        r is Some,
        r->0@ == object_text(members(*object)),
        r->0@.len() >= 2 && r->0@[0] == '{' && r->0@.last() == '}',
        forall|i: int| 0 <= i < r->0@.len() ==> #[trigger] r->0@[i] != '\n',
        forall|name: Seq<char>| #[trigger]
            members(*object).contains_key(name) && is_plain_name(name) ==> text::contains_text(
                r->0@,
                member_text(name, members(*object)[name]),
            ),
{
    serde_json::to_string(object).ok()
}

/// Why a report is not taken in.
#[derive(Clone, Copy, Debug, PartialEq, Eq, Structural)]
pub enum IngestError {
    TooLarge,
    InvalidJson,
    NotAnObject,
    Serialize,
    Write,
}

impl IngestError {
    /// The status code of the response.
    pub open spec fn code(self) -> u16 {
        match self {
            IngestError::TooLarge => 413,
            IngestError::InvalidJson => 400,
            IngestError::NotAnObject => 400,
            IngestError::Serialize => 500,
            IngestError::Write => 500,
        }
    }

    /// The body of the response.
    pub open spec fn text(self) -> Seq<char> {
        match self {
            IngestError::TooLarge => "too large"@,
            IngestError::InvalidJson => "invalid json"@,
            IngestError::NotAnObject => "not an object"@,
            IngestError::Serialize => "serialize"@,
            IngestError::Write => "write"@,
        }
    }

    /// The status code and the body of the response.
    pub fn response(self) -> (r: (u16, &'static str))
        ensures
            r.0 == self.code(),
            r.1@ == self.text(),
    {
        match self {
            IngestError::TooLarge => (413, "too large"),
            IngestError::InvalidJson => (400, "invalid json"),
            IngestError::NotAnObject => (400, "not an object"),
            IngestError::Serialize => (500, "serialize"),
            IngestError::Write => (500, "write"),
        }
    }
}

/// The member under which the time of receipt is noted.
pub open spec fn stamp_key() -> Seq<char> {
    "server_recv_ts_ms"@
}

/// What becomes of a report of `len` bytes: the line to append, nothing where no
/// log is kept, or an error. `stamped` is the report with the time of receipt.
pub open spec fn ingested(
    len: nat,
    shape: JsonShape,
    stamped: Option<Seq<char>>,
    log_kept: bool,
) -> Result<Option<Seq<char>>, IngestError> {
    if len > MAX_BODY {
        Err(IngestError::TooLarge)
    } else if shape == JsonShape::Invalid {
        Err(IngestError::InvalidJson)
    } else if shape == JsonShape::Other {
        Err(IngestError::NotAnObject)
    } else if stamped is None {
        Err(IngestError::Serialize)
    } else if log_kept {
        Ok(stamped)
    } else {
        Ok(None)
    }
}

/// A result with the text of its line.
pub open spec fn viewed(r: Result<Option<String>, IngestError>) -> Result<
    Option<Seq<char>>,
    IngestError,
> {
    match r {
        Ok(Some(s)) => Ok(Some(s@)),
        Ok(None) => Ok(None),
        Err(e) => Err(e),
    }
}

/// An optional text.
pub open spec fn text_of(s: Option<String>) -> Option<Seq<char>> {
    match s {
        Some(s) => Some(s@),
        None => None,
    }
}

/// What becomes of a report of `len` bytes, once it has been read as JSON and
/// stamped.
pub fn settle(len: usize, shape: JsonShape, stamped: Option<String>, log_kept: bool) -> (r: Result<
    Option<String>,
    IngestError,
>)
    ensures
        viewed(r) == ingested(len as nat, shape, text_of(stamped), log_kept),
{
    if len > MAX_BODY {
        return Err(IngestError::TooLarge);
    }
    match shape {
        JsonShape::Invalid => Err(IngestError::InvalidJson),
        JsonShape::Other => Err(IngestError::NotAnObject),
        JsonShape::Object => match stamped {
            None => Err(IngestError::Serialize),
            Some(line) => if log_kept {
                Ok(Some(line))
            } else {
                Ok(None)
            },
        },
    }
}

/// An object's text with the time of receipt among its members.
pub open spec fn stamped_text(object: ParsedView, now_ms: u64) -> Seq<char> {
    object_text(object->Object_0.insert(stamp_key(), text::decimal(now_ms as nat)))
}

/// POST /api/v1/telemetry
///
/// Gives the line to append to the log, or nothing where no log is kept: the
/// report is then accepted and dropped. The line holds the report's members, with
/// the time of receipt among them, and nothing else.
pub fn ingest(body: &str, now_ms: u64, log_kept: bool) -> (r: Result<Option<String>, IngestError>)
    ensures
        viewed(r) == ingested(
            vstd::utf8::encode_utf8(body@).len(),
            parsed(body@).shape(),
            Some(stamped_text(parsed(body@), now_ms)),
            log_kept,
        ),
        r is Ok <==> vstd::utf8::encode_utf8(body@).len() <= MAX_BODY && parsed(body@) is Object,
        r matches Ok(Some(line)) ==> {
            &&& line@[0] == '{' && line@.last() == '}'
            &&& forall|i: int| 0 <= i < line@.len() ==> #[trigger] line@[i] != '\n'
            &&& text::contains_text(
                line@,
                member_text(stamp_key(), text::decimal(now_ms as nat)),
            )
        },
{
    let len: usize = body.as_bytes().len();
    if len > MAX_BODY {
        return settle(len, JsonShape::Invalid, None, log_kept);
    }
    match read_json(body) {
        Parsed::Invalid => settle(len, JsonShape::Invalid, None, log_kept),
        Parsed::Other => settle(len, JsonShape::Other, None, log_kept),
        Parsed::Object(m) => {
            let mut object = m;
            set_number(&mut object, "server_recv_ts_ms", now_ms);
            let stamped = write_object(&object);
            proof {
                reveal_strlit("server_recv_ts_ms");
                assert(is_plain_name(stamp_key()));
                assert(members(object).contains_key(stamp_key()));
            }
            settle(len, JsonShape::Object, stamped, log_kept)
        },
    }
}

/// What the reporter is told once a line has been written, or could not be.
pub fn written(ok: bool) -> (r: Result<(), IngestError>)
    ensures
        r == (if ok {
            Ok::<(), IngestError>(())
        } else {
            Err::<(), IngestError>(IngestError::Write)
        }),
{
    if ok {
        Ok(())
    } else {
        Err(IngestError::Write)
    }
}

/// Every report has its answer: one of more than 4096 bytes is too large, whatever it
/// holds; of the others one that is no JSON, and one that is no object, is refused, and
/// an object is taken in.
pub proof fn law_reports_have_their_answer(len: nat, shape: JsonShape, line: Seq<char>, kept: bool)
    ensures
        ({
            let r = ingested(len, shape, Some(line), kept);
            &&& r == Err::<Option<Seq<char>>, IngestError>(IngestError::TooLarge) <==> len > 4096
            &&& r == Err::<Option<Seq<char>>, IngestError>(IngestError::InvalidJson) <==> len
                <= 4096 && shape == JsonShape::Invalid
            &&& r == Err::<Option<Seq<char>>, IngestError>(IngestError::NotAnObject) <==> len
                <= 4096 && shape == JsonShape::Other
            &&& r is Ok <==> len <= 4096 && shape == JsonShape::Object
            &&& r matches Ok(l) ==> (kept ==> l == Some(line)) && (!kept ==> l is None)
        }),
{
}

/// The stamp is the only member that changes: a report's other members are written as
/// they were read.
pub proof fn law_stamping_changes_one_member(
    object: Map<Seq<char>, Seq<char>>,
    now_ms: u64,
    name: Seq<char>,
)
    ensures
        ({
            let stamped = object.insert("server_recv_ts_ms"@, text::decimal(now_ms as nat));
            &&& stamped_text(ParsedView::Object(object), now_ms) == object_text(stamped)
            &&& name != "server_recv_ts_ms"@ ==> (stamped.contains_key(name)
                <==> object.contains_key(name))
            &&& name != "server_recv_ts_ms"@ && object.contains_key(name) ==> stamped[name]
                == object[name]
        }),
{
}

/// A reporter is told by the code whose fault it is: its own where the report cannot be
/// taken in, and the server's where it cannot be kept.
pub proof fn law_codes_tell_whose_fault_it_is(e: IngestError)
    ensures
        e.code() / 100 == 5 <==> e == IngestError::Serialize || e == IngestError::Write,
        e.code() / 100 == 4 <==> e == IngestError::TooLarge || e == IngestError::InvalidJson || e
            == IngestError::NotAnObject,
        e.code() == 413 <==> e == IngestError::TooLarge,
        e.code() == 400 <==> e == IngestError::InvalidJson || e == IngestError::NotAnObject,
        e.code() == 500 <==> e == IngestError::Serialize || e == IngestError::Write,
{
}

/// Each failure is told in words of its own.
pub proof fn law_failures_are_told_in_words()
    ensures
        IngestError::TooLarge.text() == "too large"@,
        IngestError::InvalidJson.text() == "invalid json"@,
        IngestError::NotAnObject.text() == "not an object"@,
        IngestError::Serialize.text() == "serialize"@,
        IngestError::Write.text() == "write"@,
{
}

/// A plain name is made of letters, digits and underscores, and of nothing else; a member
/// is written as its name in quotes, a colon and its value.
pub proof fn law_members_are_written_by_their_name(name: Seq<char>, c: char, value: Seq<char>)
    ensures
        is_plain_name(Seq::<char>::empty()),
        is_plain_name(name.push(c)) <==> is_plain_name(name) && (65 <= c as int <= 90 || 97
            <= c as int <= 122 || 48 <= c as int <= 57 || c as int == 95),
        member_text(name, value) == seq!['"'] + name + seq!['"', ':'] + value,
{
    reveal_strlit("\"");
    reveal_strlit("\":");
    assert("\""@ =~= seq!['"']);
    assert("\":"@ =~= seq!['"', ':']);
    let t = name.push(c);
    if is_plain_name(t) {
        assert(is_name_char(t[name.len() as int]));
        assert forall|i: int| 0 <= i < name.len() implies is_name_char(#[trigger] name[i]) by {
            assert(t[i] == name[i]);
        }
    }
}

/// What a text is as JSON is told by what it is read as.
pub proof fn law_shapes_are_told_by_the_reading(p: ParsedView)
    ensures
        p.shape() == JsonShape::Object <==> p is Object,
        p.shape() == JsonShape::Invalid <==> p is Invalid,
        p.shape() == JsonShape::Other <==> p is Other,
{
}

} // verus!
