//! Credentials from an external helper.
//!
//! A credential helper is a program that is asked for the headers to send to an
//! endpoint. It is run as `<helper> get`, reads a JSON request such as
//! `{"uri":"https://host:port/"}`, and answers with headers and, if they expire, with
//! the time at which they do. Running it and reading its answer as JSON happens
//! elsewhere; here is what is asked, what the answer means, and how long it is kept.

use std::sync::Arc;

use vstd::hash_map::StringHashMap;
use vstd::prelude::*;

use crate::fmt_duration;
use crate::fmt_duration::fmt_duration_exact;
use crate::header_map::HeaderEntry;
use crate::header_map::HeaderMap;
use crate::text;
use crate::text::concat;
use crate::text::join;
use crate::time::Duration;
use crate::time::SystemTime;
use crate::time::MAX_TIME_NANOS;

verus! {

/// The time to wait for the helper by default, in seconds.
pub const DEFAULT_TIMEOUT_SECS: u64 = 10;

/// The time to keep credentials that do not say when they expire by default, in
/// seconds.
pub const DEFAULT_CACHE_SECS: u64 = 1_800;

/// The time to wait for the helper by default.
pub fn default_timeout() -> (d: Duration)
    ensures
        d@ == DEFAULT_TIMEOUT_SECS * 1_000_000_000,
{
    Duration::from_secs(DEFAULT_TIMEOUT_SECS)
}

/// The time to keep credentials that do not say when they expire by default.
pub fn default_cache_duration() -> (d: Duration)
    ensures
        d@ == DEFAULT_CACHE_SECS * 1_000_000_000,
{
    Duration::from_secs(DEFAULT_CACHE_SECS)
}

// Header names and values.

/// Whether a character can stand in the name of a header.
pub open spec fn in_header_name(c: char) -> bool {
    ||| 'a' <= c <= 'z'
    ||| 'A' <= c <= 'Z'
    ||| '0' <= c <= '9'
    ||| c == '!' || c == '#' || c == '$' || c == '%' || c == '&' || c == '\''
    ||| c == '*' || c == '+' || c == '-' || c == '.' || c == '^' || c == '_'
    ||| c == '`' || c == '|' || c == '~'
}

/// The character in lower case, if it is an ASCII letter.
pub open spec fn ascii_lower(c: char) -> char {
    if 'A' <= c <= 'Z' {
        (c as u32 + 32) as char
    } else {
        c
    }
}

/// The text with its ASCII letters in lower case.
pub open spec fn lower_text(s: Seq<char>) -> Seq<char> {
    s.map_values(|c: char| ascii_lower(c))
}

/// Whether the name is that of a header with a text value: a token that does not end
/// in `-bin`.
pub open spec fn valid_header_name(name: Seq<char>) -> bool {
    &&& 0 < name.len() <= 65_535
    &&& forall|i: int| 0 <= i < name.len() ==> in_header_name(#[trigger] name[i])
    &&& !(name.len() >= 4 && lower_text(name).skip(name.len() - 4) == "-bin"@)
}

/// Whether the text can be the value of a header: it has no control character but the
/// tab.
pub open spec fn valid_header_value(value: Seq<char>) -> bool {
    forall|i: int|
        0 <= i < value.len() ==> (#[trigger] value[i] == '\t' || (value[i] >= ' ' && value[i]
            != '\u{7f}'))
}

/// What is said of a name that is not that of a header.
pub open spec fn name_refusal() -> Seq<char> {
    "invalid gRPC metadata key name"@
}

/// What is said of a text that is not the value of a header.
pub open spec fn value_refusal() -> Seq<char> {
    "failed to parse metadata value"@
}

/// The name of a header in its canonical form, or why it is not one.
///
/// Trusted: `tonic::metadata::MetadataKey::<Ascii>::from_bytes` takes the names of
/// HTTP headers, at most 65535 bytes of token characters, that do not end in `-bin`,
/// and turns their letters to lower case. There is one error for all other names.
#[verifier::external_body]
fn header_name(name: &str) -> (r: Result<String, String>)
    ensures
        r is Ok <==> valid_header_name(name@),
        r matches Ok(key) ==> key@ == lower_text(name@),
        r matches Err(e) ==> e@ == name_refusal(),
{
    match tonic::metadata::MetadataKey::<tonic::metadata::Ascii>::from_bytes(name.as_bytes()) {
        Ok(key) => Ok(key.as_str().to_owned()),
        Err(e) => Err(e.to_string()),
    }
}

/// The bytes of a header's value, or why it is not one.
///
/// Trusted: `tonic::metadata::MetadataValue::<Ascii>::try_from` takes text without
/// control characters other than the tab, and keeps its UTF-8 bytes. There is one error
/// for all other texts.
#[verifier::external_body]
fn header_value(value: &str) -> (r: Result<Vec<u8>, String>)
    ensures
        r is Ok <==> valid_header_value(value@),
        r matches Ok(bytes) ==> bytes@ == vstd::utf8::encode_utf8(value@),
        r matches Err(e) ==> e@ == value_refusal(),
{
    match tonic::metadata::MetadataValue::<tonic::metadata::Ascii>::try_from(value) {
        Ok(v) => Ok(v.as_bytes().to_vec()),
        Err(e) => Err(e.to_string()),
    }
}

// The request.

/// A character inside a JSON string.
pub open spec fn json_char(c: char) -> Seq<char> {
    if c == '"' {
        seq!['\\', '"']
    } else if c == '\\' {
        seq!['\\', '\\']
    } else if c == '\u{8}' {
        seq!['\\', 'b']
    } else if c == '\t' {
        seq!['\\', 't']
    } else if c == '\n' {
        seq!['\\', 'n']
    } else if c == '\u{c}' {
        seq!['\\', 'f']
    } else if c == '\r' {
        seq!['\\', 'r']
    } else if (c as nat) < 32 {
        let high = text::hex_digit(c as nat / 16);
        let low = text::hex_digit(c as nat % 16);
        seq!['\\', 'u', '0', '0', high, low]
    } else {
        seq![c]
    }
}

/// The characters of a text inside a JSON string.
pub open spec fn json_chars(s: Seq<char>) -> Seq<char>
    decreases s.len(),
{
    if s.len() == 0 {
        seq![]
    } else {
        json_chars(s.drop_last()) + json_char(s.last())
    }
}

/// A text as a JSON string.
pub open spec fn json_text(s: Seq<char>) -> Seq<char> {
    seq!['"'] + json_chars(s) + seq!['"']
}

/// A text as a JSON string.
///
/// Trusted: `serde_json::to_string` of a string puts it in quotes and escapes quotes,
/// backslashes and control characters. It does not fail on a string.
#[verifier::external_body]
fn json_string(s: &str) -> (out: String)
    ensures
        out@ == json_text(s@),
{
    serde_json::to_string(s).unwrap_or_default()
}

/// What is asked of the helper.
pub open spec fn request_text(uri: Seq<char>) -> Seq<char> {
    "{\"uri\":"@ + json_text(uri) + "}"@
}

// The answer.

/// What the helper answers.
pub struct GetCredentialsResponse {
    pub headers: HeaderMap,
    pub expires: Option<String>,
}

impl Default for GetCredentialsResponse {
    /// No headers, and no word on when they expire.
    fn default() -> (r: GetCredentialsResponse)
        ensures
            r.headers@.len() == 0,
            r.expires is None,
    {
        GetCredentialsResponse { headers: HeaderMap::new(), expires: None }
    }
}

/// The whole seconds since the Unix epoch that an RFC 3339 timestamp stands for, or why
/// the text is not one.
pub uninterp spec fn rfc3339_seconds(s: Seq<char>) -> Result<i64, Seq<char>>;

/// What reading a timestamp came to.
pub open spec fn seconds_view(r: Result<i64, String>) -> Result<i64, Seq<char>> {
    match r {
        Ok(secs) => Ok(secs),
        Err(e) => Err(e@),
    }
}

/// The whole seconds since the Unix epoch that a timestamp stands for, or why it is not
/// one.
///
/// Trusted: parsing a `jiff::Timestamp` and taking its `as_second` depends on the text
/// alone, and so do the words of the error. Which texts are timestamps, and what the
/// words are, is not stated.
#[verifier::external_body]
fn timestamp_seconds(s: &str) -> (r: Result<i64, String>)
    ensures
        seconds_view(r) == rfc3339_seconds(s@),
{
    match s.parse::<jiff::Timestamp>() {
        Ok(t) => Ok(t.as_second()),
        Err(e) => Err(e.to_string()),
    }
}

/// The point in time that many seconds after the Unix epoch; the epoch for points
/// before it.
pub fn system_time_from_unix_secs(secs: i64) -> (t: SystemTime)
    ensures
        t@ == if secs < 0 {
            0
        } else {
            secs * 1_000_000_000
        },
{
    if secs < 0 {
        SystemTime::unix_epoch()
    } else {
        SystemTime::from_parts(secs, 0)
    }
}

/// The time at which credentials expire, given the seconds that were read.
pub open spec fn expiry(seconds: i64) -> int {
    if seconds < 0 {
        0
    } else {
        seconds * 1_000_000_000
    }
}

/// Why an answer is not usable.
#[derive(Clone, Debug, PartialEq, Eq)]
pub enum ResponseError {
    /// The expiry is not a timestamp.
    Expires { text: String, source: String },
    HeaderName { name: String, source: String },
    HeaderValue { name: String, source: String },
}

/// What a [`ResponseError`] says.
pub enum ResponseErrorModel {
    Expires { text: Seq<char>, source: Seq<char> },
    HeaderName { name: Seq<char>, source: Seq<char> },
    HeaderValue { name: Seq<char>, source: Seq<char> },
}

impl View for ResponseError {
    type V = ResponseErrorModel;

    open spec fn view(&self) -> ResponseErrorModel {
        match self {
            ResponseError::Expires { text, source } => ResponseErrorModel::Expires {
                text: text@,
                source: source@,
            },
            ResponseError::HeaderName { name, source } => ResponseErrorModel::HeaderName {
                name: name@,
                source: source@,
            },
            ResponseError::HeaderValue { name, source } => ResponseErrorModel::HeaderValue {
                name: name@,
                source: source@,
            },
        }
    }
}

impl ResponseErrorModel {
    pub open spec fn text(self) -> Seq<char> {
        match self {
            ResponseErrorModel::Expires { text, source } =>
                "Invalid RFC 3339 timestamp in `expires`: `"@ + text + "`: "@ + source,
            ResponseErrorModel::HeaderName { name, source } => "Invalid header name: `"@ + name
                + "`: "@ + source,
            ResponseErrorModel::HeaderValue { name, source } => "Invalid value for header `"@
                + name + "`: "@ + source,
        }
    }
}

/// The error for a name that is not that of a header.
pub open spec fn bad_name(name: Seq<char>) -> ResponseErrorModel {
    ResponseErrorModel::HeaderName { name, source: name_refusal() }
}

/// The error for a value that is not that of a header.
pub open spec fn bad_value(name: Seq<char>) -> ResponseErrorModel {
    ResponseErrorModel::HeaderValue { name, source: value_refusal() }
}

impl ResponseError {
    /// The error in words.
    pub fn message(&self) -> (out: String)
        ensures
            out@ == self@.text(),
    {
        match self {
            ResponseError::Expires { text, source } => about(
                "Invalid RFC 3339 timestamp in `expires`: `",
                text.as_str(),
                source.as_str(),
            ),
            ResponseError::HeaderName { name, source } => about(
                "Invalid header name: `",
                name.as_str(),
                source.as_str(),
            ),
            ResponseError::HeaderValue { name, source } => about(
                "Invalid value for header `",
                name.as_str(),
                source.as_str(),
            ),
        }
    }
}

/// `what`, the name, a backquote, and the source behind a colon.
fn about(what: &str, name: &str, source: &str) -> (out: String)
    ensures
        out@ == what@ + name@ + "`: "@ + source@,
{
    let mut out: String = what.to_owned();
    out.append(name);
    out.append("`: ");
    out.append(source);
    out
}

/// The time at which credentials expire.
pub fn parse_expires(expires: &str) -> (r: Result<SystemTime, ResponseError>)
    ensures
        match rfc3339_seconds(expires@) {
            Ok(secs) => r matches Ok(t) && t@ == expiry(secs),
            Err(source) => r matches Err(e) && e@ == (ResponseErrorModel::Expires {
                text: expires@,
                source,
            }),
        },
{
    match timestamp_seconds(expires) {
        Ok(secs) => Ok(system_time_from_unix_secs(secs)),
        Err(source) => Err(ResponseError::Expires { text: expires.to_owned(), source }),
    }
}

/// One header to attach to a request: its name and the bytes of its value.
pub struct Header {
    pub name: String,
    pub value: Vec<u8>,
}

impl View for Header {
    type V = (Seq<char>, Seq<u8>);

    open spec fn view(&self) -> (Seq<char>, Seq<u8>) {
        (self.name@, self.value@)
    }
}

/// What the headers say.
pub open spec fn header_views(headers: Seq<Header>) -> Seq<(Seq<char>, Seq<u8>)> {
    headers.map_values(|h: Header| h@)
}

/// A header for each of the values under one name, up to the first value that is not
/// one.
pub open spec fn named_headers(name: Seq<char>, values: Seq<Seq<char>>) -> (
    Seq<(Seq<char>, Seq<u8>)>,
    bool,
)
    decreases values.len(),
{
    if values.len() == 0 {
        (seq![], true)
    } else {
        let (headers, ok) = named_headers(name, values.drop_last());
        if ok && valid_header_value(values.last()) {
            (
                headers.push((lower_text(name), vstd::utf8::encode_utf8(values.last()))),
                true,
            )
        } else {
            (headers, false)
        }
    }
}

/// The headers to attach, in the order of the names, or what is wrong with the first
/// one that is not a header.
pub open spec fn parsed_headers(headers: Seq<(Seq<char>, Seq<Seq<char>>)>) -> Result<
    Seq<(Seq<char>, Seq<u8>)>,
    ResponseErrorModel,
>
    decreases headers.len(),
{
    if headers.len() == 0 {
        Ok(seq![])
    } else {
        let (name, values) = headers.last();
        match parsed_headers(headers.drop_last()) {
            Err(e) => Err(e),
            Ok(before) => if !valid_header_name(name) {
                Err(bad_name(name))
            } else if !named_headers(name, values).1 {
                Err(bad_value(name))
            } else {
                Ok(before + named_headers(name, values).0)
            },
        }
    }
}

proof fn lemma_named_headers_fail(name: Seq<char>, values: Seq<Seq<char>>, n: int)
    requires
        0 <= n <= values.len(),
        !named_headers(name, values.take(n)).1,
    ensures
        !named_headers(name, values).1,
    decreases values.len(),
{
    if n == values.len() {
        assert(values.take(n) =~= values);
    } else {
        assert(values.drop_last().take(n) =~= values.take(n));
        lemma_named_headers_fail(name, values.drop_last(), n);
    }
}

proof fn lemma_parsed_headers_fail(headers: Seq<(Seq<char>, Seq<Seq<char>>)>, n: int)
    requires
        0 <= n <= headers.len(),
        parsed_headers(headers.take(n)) is Err,
    ensures
        parsed_headers(headers) == parsed_headers(headers.take(n)),
    decreases headers.len(),
{
    if n == headers.len() {
        assert(headers.take(n) =~= headers);
    } else {
        assert(headers.drop_last().take(n) =~= headers.take(n));
        lemma_parsed_headers_fail(headers.drop_last(), n);
    }
}

/// Appends a header for each of the values of one entry.
fn parse_entry(entry: &HeaderEntry, out: &mut Vec<Header>) -> (r: Result<(), ResponseError>)
    ensures
        r is Ok <==> valid_header_name(entry@.0) && named_headers(entry@.0, entry@.1).1,
        r is Ok ==> header_views(final(out)@) == header_views(old(out)@) + named_headers(
            entry@.0,
            entry@.1,
        ).0,
        r matches Err(e) ==> e@ == if valid_header_name(entry@.0) {
            bad_value(entry@.0)
        } else {
            bad_name(entry@.0)
        },
{
    let ghost start = header_views(out@);
    let ghost name = entry@.0;
    let ghost values = entry@.1;
    let key: String = match header_name(entry.name.as_str()) {
        Ok(key) => key,
        Err(source) => {
            return Err(ResponseError::HeaderName { name: entry.name.clone(), source });
        },
    };
    let mut i: usize = 0;
    assert(values.take(0) =~= Seq::<Seq<char>>::empty());
    assert(start =~= start + named_headers(name, values.take(0)).0);
    while i < entry.values.len()
        invariant
            i <= entry.values.len(),
            name == entry@.0,
            values == entry@.1,
            values == text::views(entry.values@),
            valid_header_name(name),
            key@ == lower_text(name),
            named_headers(name, values.take(i as int)).1,
            header_views(out@) == start + named_headers(name, values.take(i as int)).0,
        decreases entry.values.len() - i,
    {
        let ghost before = out@;
        let ghost next = values.take(i + 1);
        proof {
            assert(next.drop_last() =~= values.take(i as int));
            assert(next.last() == entry.values@[i as int]@);
        }
        match header_value(entry.values[i].as_str()) {
            Ok(value) => {
                let header = Header { name: key.clone(), value };
                let ghost view = header@;
                out.push(header);
                assert(header_views(out@) =~= header_views(before).push(view));
                assert(header_views(out@) =~= start + named_headers(name, next).0);
            },
            Err(source) => {
                proof {
                    lemma_named_headers_fail(name, values, i + 1);
                }
                return Err(ResponseError::HeaderValue { name: entry.name.clone(), source });
            },
        }
        i = i + 1;
    }
    assert(values.take(i as int) =~= values);
    Ok(())
}

/// The headers to attach, in the order of the names.
pub fn parse_headers(headers: &HeaderMap) -> (r: Result<Vec<Header>, ResponseError>)
    ensures
        match parsed_headers(headers@) {
            Ok(views) => r matches Ok(out) && header_views(out@) == views,
            Err(error) => r matches Err(e) && e@ == error,
        },
{
    let entries = headers.entries();
    let ghost all = headers@;
    let mut out: Vec<Header> = Vec::new();
    let mut i: usize = 0;
    assert(all.take(0) =~= Seq::<(Seq<char>, Seq<Seq<char>>)>::empty());
    assert(header_views(out@) =~= Seq::<(Seq<char>, Seq<u8>)>::empty());
    while i < entries.len()
        invariant
            i <= entries.len(),
            all == headers@,
            all == entries@.map_values(|e: HeaderEntry| e@),
            parsed_headers(all.take(i as int)) == Ok::<
                Seq<(Seq<char>, Seq<u8>)>,
                ResponseErrorModel,
            >(header_views(out@)),
        decreases entries.len() - i,
    {
        let ghost next = all.take(i + 1);
        proof {
            assert(next.drop_last() =~= all.take(i as int));
            assert(next.last() == entries@[i as int]@);
        }
        match parse_entry(&entries[i], &mut out) {
            Ok(()) => {},
            Err(e) => {
                proof {
                    lemma_parsed_headers_fail(all, i + 1);
                }
                return Err(e);
            },
        }
        i = i + 1;
    }
    assert(all.take(i as int) =~= all);
    Ok(out)
}

/// The headers to attach to every request to one endpoint.
pub struct Credentials {
    headers: Vec<Header>,
}

impl View for Credentials {
    type V = Seq<(Seq<char>, Seq<u8>)>;

    closed spec fn view(&self) -> Seq<(Seq<char>, Seq<u8>)> {
        header_views(self.headers@)
    }
}

/// The names of headers, without their values.
pub open spec fn header_names(headers: Seq<(Seq<char>, Seq<u8>)>) -> Seq<Seq<char>> {
    headers.map_values(|h: (Seq<char>, Seq<u8>)| h.0)
}

/// What is shown of credentials with the given names of headers. A name has no character
/// that would have to be escaped.
pub open spec fn shown_names(names: Seq<Seq<char>>) -> Seq<char> {
    "Credentials { headers: ["@ + text::joined(
        names.map_values(|name: Seq<char>| "\""@ + name + "\""@),
        ", "@,
    ) + "] }"@
}

/// What is shown of credentials does not depend on the values of their headers.
pub proof fn law_values_are_not_shown(
    a: Seq<(Seq<char>, Seq<u8>)>,
    b: Seq<(Seq<char>, Seq<u8>)>,
)
    requires
        a.len() == b.len(),
        forall|i: int| 0 <= i < a.len() ==> (#[trigger] a[i]).0 == b[i].0,
    ensures
        shown_names(header_names(a)) == shown_names(header_names(b)),
{
    assert(header_names(a) =~= header_names(b));
}

impl Credentials {
    /// The headers to attach.
    pub fn headers(&self) -> (headers: &Vec<Header>)
        ensures
            header_views(headers@) == self@,
    {
        &self.headers
    }

    /// The credentials as they are shown to a developer: the names of the headers, and
    /// none of their values.
    pub fn debug_text(&self) -> (out: String)
        ensures
            out@ == shown_names(header_names(self@)),
    {
        let ghost names = header_names(self@);
        let ghost all = names.map_values(|name: Seq<char>| "\""@ + name + "\""@);
        let mut quoted: Vec<String> = Vec::new();
        let mut i: usize = 0;
        assert(text::views(quoted@) =~= all.take(0));
        while i < self.headers.len()
            invariant
                i <= self.headers.len(),
                names == header_names(self@),
                all == names.map_values(|name: Seq<char>| "\""@ + name + "\""@),
                self@ == header_views(self.headers@),
                text::views(quoted@) == all.take(i as int),
            decreases self.headers.len() - i,
        {
            let ghost before = quoted@;
            let mut name: String = "\"".to_owned();
            name.append(self.headers[i].name.as_str());
            name.append("\"");
            let ghost view = name@;
            quoted.push(name);
            assert(view == all[i as int]);
            assert(text::views(quoted@) =~= text::views(before).push(view));
            i = i + 1;
            assert(text::views(quoted@) =~= all.take(i as int));
        }
        assert(all.take(i as int) =~= all);
        let list: String = join(&quoted, ", ");
        let mut out: String = "Credentials { headers: [".to_owned();
        out.append(list.as_str());
        out.append("] }");
        out
    }
}

/// Another handle on the same credentials.
///
/// Trusted: `std::sync::Arc::clone` gives a pointer to the same value.
#[verifier::external_body]
fn share(credentials: &Arc<Credentials>) -> (shared: Arc<Credentials>)
    ensures
        shared == *credentials,
{
    credentials.clone()
}

/// Credentials that are kept.
pub struct CacheEntry {
    pub credentials: Arc<Credentials>,
    /// When they have to be fetched again.
    pub refresh_at: SystemTime,
}

/// What a [`CacheEntry`] says.
#[verifier::ext_equal]
pub struct CacheModel {
    pub headers: Seq<(Seq<char>, Seq<u8>)>,
    pub refresh_at: int,
}

impl View for CacheEntry {
    type V = CacheModel;

    open spec fn view(&self) -> CacheModel {
        CacheModel { headers: self.credentials@, refresh_at: self.refresh_at@ }
    }
}

/// What is kept of an answer that came at `now`, or why the answer is not usable. An
/// answer that does not say when it expires is kept for `keep` nanoseconds.
pub open spec fn kept(response: GetCredentialsResponse, now: int, keep: nat) -> Result<
    CacheModel,
    ResponseErrorModel,
> {
    match (response.expires, parsed_headers(response.headers@)) {
        (Some(expires), headers) => match (rfc3339_seconds(expires@), headers) {
            (Err(source), _) => Err(ResponseErrorModel::Expires { text: expires@, source }),
            (Ok(secs), Ok(headers)) => Ok(CacheModel { headers, refresh_at: expiry(secs) }),
            (Ok(_), Err(e)) => Err(e),
        },
        (None, Ok(headers)) => Ok(CacheModel { headers, refresh_at: now + keep }),
        (None, Err(e)) => Err(e),
    }
}

// The command line.

/// The words of a command line in the syntax of a shell, if it can be split into words.
pub uninterp spec fn shell_words(s: Seq<char>) -> Option<Seq<Seq<char>>>;

/// What the words of a command line say.
pub open spec fn optional_words(words: Option<Vec<String>>) -> Option<Seq<Seq<char>>> {
    match words {
        Some(words) => Some(text::views(words@)),
        None => None,
    }
}

/// The words of a command line.
///
/// Trusted: `shlex::split` depends on the text alone. How it treats quotes, backslashes
/// and comments, and which texts it refuses, are not stated.
#[verifier::external_body]
fn split_words(command_line: &str) -> (words: Option<Vec<String>>)
    ensures
        optional_words(words) == shell_words(command_line@),
{
    shlex::split(command_line)
}

/// Why there is no helper to run.
#[derive(Clone, Debug, PartialEq, Eq)]
pub enum CommandError {
    /// The command line cannot be split into words.
    InvalidCommandLine(String),
    /// There is no program to run.
    Empty,
}

/// What a [`CommandError`] says.
pub enum CommandErrorModel {
    InvalidCommandLine(Seq<char>),
    Empty,
}

impl View for CommandError {
    type V = CommandErrorModel;

    open spec fn view(&self) -> CommandErrorModel {
        match self {
            CommandError::InvalidCommandLine(s) => CommandErrorModel::InvalidCommandLine(s@),
            CommandError::Empty => CommandErrorModel::Empty,
        }
    }
}

impl CommandErrorModel {
    pub open spec fn text(self) -> Seq<char> {
        match self {
            CommandErrorModel::InvalidCommandLine(s) =>
                "Invalid credential helper command line: `"@ + s + "`"@,
            CommandErrorModel::Empty => "Credential helper command must not be empty"@,
        }
    }
}

impl CommandError {
    /// The error in words.
    pub fn message(&self) -> (out: String)
        ensures
            out@ == self@.text(),
    {
        match self {
            CommandError::InvalidCommandLine(s) => {
                let mut out: String = "Invalid credential helper command line: `".to_owned();
                out.append(s.as_str());
                out.append("`");
                out
            },
            CommandError::Empty => "Credential helper command must not be empty".to_owned(),
        }
    }
}

/// Whether the words name a program to run.
pub open spec fn has_program(words: Seq<Seq<char>>) -> bool {
    words.len() > 0 && words[0].len() > 0
}

// Running the helper.

/// Whether a character has the Unicode property `White_Space`.
pub open spec fn whitespace(c: char) -> bool {
    ||| '\t' <= c <= '\r'
    ||| c == ' ' || c == '\u{85}' || c == '\u{a0}' || c == '\u{1680}'
    ||| '\u{2000}' <= c <= '\u{200a}'
    ||| c == '\u{2028}' || c == '\u{2029}' || c == '\u{202f}' || c == '\u{205f}'
    ||| c == '\u{3000}'
}

/// `char::is_whitespace` picks the characters that have the Unicode property
/// `White_Space`.
pub assume_specification[ char::is_whitespace ](c: char) -> (b: bool)
    ensures
        b == whitespace(c),
;

/// The text without whitespace in front.
pub open spec fn trimmed_front(s: Seq<char>) -> Seq<char>
    decreases s.len(),
{
    if s.len() > 0 && whitespace(s[0]) {
        trimmed_front(s.drop_first())
    } else {
        s
    }
}

/// The text without whitespace at its end.
pub open spec fn trimmed_back(s: Seq<char>) -> Seq<char>
    decreases s.len(),
{
    if s.len() > 0 && whitespace(s.last()) {
        trimmed_back(s.drop_last())
    } else {
        s
    }
}

/// The text without whitespace around it.
pub open spec fn trimmed(s: Seq<char>) -> Seq<char> {
    trimmed_back(trimmed_front(s))
}

/// The text without whitespace around it.
pub fn trim(s: &str) -> (out: String)
    ensures
        out@ == trimmed(s@),
{
    let len: usize = s.unicode_len();
    let ghost whole = s@;
    let mut front: usize = 0;
    assert(whole.skip(0) =~= whole);
    while front < len && s.get_char(front).is_whitespace()
        invariant
            front <= len,
            len == whole.len(),
            whole == s@,
            trimmed_front(whole) == trimmed_front(whole.skip(front as int)),
        ensures
            front <= len,
            trimmed_front(whole) == whole.skip(front as int),
        decreases len - front,
    {
        assert(whole.skip(front as int).drop_first() =~= whole.skip(front + 1));
        front = front + 1;
    }
    let ghost rest = whole.skip(front as int);
    let mut back: usize = len;
    assert(whole.subrange(front as int, back as int) =~= rest);
    while back > front && s.get_char(back - 1).is_whitespace()
        invariant
            front <= back <= len,
            len == whole.len(),
            whole == s@,
            trimmed_back(rest) == trimmed_back(whole.subrange(front as int, back as int)),
        ensures
            front <= back <= len,
            trimmed_back(rest) == whole.subrange(front as int, back as int),
        decreases back,
    {
        assert(whole.subrange(front as int, back as int).drop_last() =~= whole.subrange(
            front as int,
            back - 1,
        ));
        back = back - 1;
    }
    let mut out = String::new();
    let mut i: usize = front;
    assert(out@ =~= whole.subrange(front as int, i as int));
    while i < back
        invariant
            front <= i <= back <= len,
            len == whole.len(),
            whole == s@,
            out@ == whole.subrange(front as int, i as int),
        decreases back - i,
    {
        out.push(s.get_char(i));
        i = i + 1;
        assert(out@ =~= whole.subrange(front as int, i as int));
    }
    out
}

/// The text that `String::from_utf8_lossy` reads from bytes.
pub uninterp spec fn lossy_text(bytes: Seq<u8>) -> Seq<char>;

/// The text of bytes, with a replacement character for what is not UTF-8.
///
/// Trusted: `String::from_utf8_lossy` depends on the bytes alone, and reads UTF-8 as it
/// is. How many replacement characters stand for other bytes is not stated.
#[verifier::external_body]
fn utf8_lossy(bytes: &[u8]) -> (s: String)
    ensures
        s@ == lossy_text(bytes@),
        vstd::utf8::valid_utf8(bytes@) ==> s@ == vstd::utf8::decode_utf8(bytes@),
{
    String::from_utf8_lossy(bytes).into_owned()
}

/// How a run of the helper ended.
pub enum Outcome {
    /// It could not be started.
    NotStarted(String),
    /// Its input could not be reached.
    NoInput,
    /// It did not end in time.
    TimedOut,
    /// Its end could not be observed.
    NotObserved(String),
    /// It ended without success, with the given status.
    Failed { status: String, stderr: Vec<u8> },
    /// It ended with success; its output, read as JSON, or why it could not be.
    Answered(Result<GetCredentialsResponse, String>),
}

/// Why the helper gave no answer.
#[derive(Clone, Debug, PartialEq, Eq)]
pub enum InvokeError {
    Spawn { program: String, source: String },
    NoInput,
    Timeout(Duration),
    Wait(String),
    Failed { status: String, stderr: String },
    Json(String),
}

/// What an [`InvokeError`] says.
pub enum InvokeErrorModel {
    Spawn { program: Seq<char>, source: Seq<char> },
    NoInput,
    Timeout(nat),
    Wait(Seq<char>),
    Failed { status: Seq<char>, stderr: Seq<char> },
    Json(Seq<char>),
}

impl View for InvokeError {
    type V = InvokeErrorModel;

    open spec fn view(&self) -> InvokeErrorModel {
        match self {
            InvokeError::Spawn { program, source } => InvokeErrorModel::Spawn {
                program: program@,
                source: source@,
            },
            InvokeError::NoInput => InvokeErrorModel::NoInput,
            InvokeError::Timeout(d) => InvokeErrorModel::Timeout(d@),
            InvokeError::Wait(e) => InvokeErrorModel::Wait(e@),
            InvokeError::Failed { status, stderr } => InvokeErrorModel::Failed {
                status: status@,
                stderr: stderr@,
            },
            InvokeError::Json(e) => InvokeErrorModel::Json(e@),
        }
    }
}

impl InvokeErrorModel {
    pub open spec fn text(self) -> Seq<char> {
        match self {
            InvokeErrorModel::Spawn { program, source } => "Error spawning `"@ + program + "`: "@
                + source,
            InvokeErrorModel::NoInput => "stdin was not captured"@,
            InvokeErrorModel::Timeout(ns) => "Credential helper did not respond within "@
                + fmt_duration::exact_text(ns),
            InvokeErrorModel::Wait(e) => "Error waiting for the credential helper: "@ + e,
            InvokeErrorModel::Failed { status, stderr } => "Credential helper failed with "@
                + status + ": "@ + stderr,
            InvokeErrorModel::Json(e) =>
                "Error parsing the credential helper's output as JSON: "@ + e,
        }
    }
}

impl InvokeError {
    /// The error in words.
    pub fn message(&self) -> (out: String)
        ensures
            out@ == self@.text(),
    {
        match self {
            InvokeError::Spawn { program, source } => about(
                "Error spawning `",
                program.as_str(),
                source.as_str(),
            ),
            InvokeError::NoInput => "stdin was not captured".to_owned(),
            InvokeError::Timeout(d) => {
                let time: String = fmt_duration_exact(*d);
                concat("Credential helper did not respond within ", time.as_str())
            },
            InvokeError::Wait(e) => concat(
                "Error waiting for the credential helper: ",
                e.as_str(),
            ),
            InvokeError::Failed { status, stderr } => {
                let mut out: String = concat(
                    "Credential helper failed with ",
                    status.as_str(),
                );
                out.append(": ");
                out.append(stderr.as_str());
                out
            },
            InvokeError::Json(e) => concat(
                "Error parsing the credential helper's output as JSON: ",
                e.as_str(),
            ),
        }
    }
}

/// Why there are no credentials.
pub enum GetError {
    Invoke { uri: String, program: String, error: InvokeError },
    Response { uri: String, program: String, invalid: ResponseError },
}

impl GetError {
    pub open spec fn line(self) -> Seq<char> {
        match self {
            GetError::Invoke { uri, program, error } => "Error getting credentials for `"@ + uri@
                + "` from credential helper `"@ + program@ + "`: "@ + error@.text(),
            GetError::Response { uri, program, invalid } =>
                "Invalid response from credential helper `"@ + program@ + "` for `"@ + uri@
                + "`: "@ + invalid@.text(),
        }
    }

    /// The error in words.
    pub fn message(&self) -> (out: String)
        ensures
            out@ == self.line(),
    {
        match self {
            GetError::Invoke { uri, program, error } => {
                let source: String = error.message();
                let mut out: String = concat(
                    "Error getting credentials for `",
                    uri.as_str(),
                );
                out.append("` from credential helper `");
                out.append(program.as_str());
                out.append("`: ");
                out.append(source.as_str());
                out
            },
            GetError::Response { uri, program, invalid } => {
                let source: String = invalid.message();
                let mut out: String = concat(
                    "Invalid response from credential helper `",
                    program.as_str(),
                );
                out.append("` for `");
                out.append(uri.as_str());
                out.append("`: ");
                out.append(source.as_str());
                out
            },
        }
    }
}

/// How the helper is to be run.
pub struct Invocation {
    pub program: String,
    pub args: Vec<String>,
    /// What it is to read.
    pub request: String,
    pub timeout: Duration,
}

/// A credential helper, and what is kept of its answers.
pub struct CredentialHelper {
    /// The program and its arguments.
    command: Vec<String>,
    timeout: Duration,
    default_cache_duration: Duration,
    /// The answers, by URI.
    cache: StringHashMap<CacheEntry>,
}

/// What a [`CredentialHelper`] holds.
#[verifier::ext_equal]
pub struct HelperModel {
    pub command: Seq<Seq<char>>,
    pub timeout: nat,
    pub default_cache_duration: nat,
    pub cache: Map<Seq<char>, CacheModel>,
}

impl View for CredentialHelper {
    type V = HelperModel;

    closed spec fn view(&self) -> HelperModel {
        HelperModel {
            command: text::views(self.command@),
            timeout: self.timeout@,
            default_cache_duration: self.default_cache_duration@,
            cache: self.cache@.map_values(|e: CacheEntry| e@),
        }
    }
}

/// A given time, or another one by default.
pub open spec fn or_default(d: Option<Duration>, secs: u64) -> nat {
    match d {
        Some(d) => d@,
        None => secs as nat * 1_000_000_000,
    }
}

impl HelperModel {
    /// A helper that has not been asked for anything.
    pub open spec fn initial(
        command: Seq<Seq<char>>,
        timeout: Option<Duration>,
        default_cache_duration: Option<Duration>,
    ) -> HelperModel {
        HelperModel {
            command,
            timeout: or_default(timeout, DEFAULT_TIMEOUT_SECS),
            default_cache_duration: or_default(default_cache_duration, DEFAULT_CACHE_SECS),
            cache: Map::empty(),
        }
    }

    /// The credentials that are kept for the URI and are still good at `now`.
    pub open spec fn cached(self, uri: Seq<char>, now: int) -> Option<
        Seq<(Seq<char>, Seq<u8>)>,
    > {
        if self.cache.contains_key(uri) && now < self.cache[uri].refresh_at {
            Some(self.cache[uri].headers)
        } else {
            None
        }
    }

    /// Whether the time until which an answer is kept is a point in time.
    pub open spec fn can_keep(self, now: int) -> bool {
        now + self.default_cache_duration <= MAX_TIME_NANOS
    }
}

/// Whether making a helper of the words went as it should.
pub open spec fn is_helper(
    r: Result<CredentialHelper, CommandError>,
    words: Seq<Seq<char>>,
    timeout: Option<Duration>,
    default_cache_duration: Option<Duration>,
) -> bool {
    if has_program(words) {
        r matches Ok(helper) && helper.well_formed() && helper@ == HelperModel::initial(
            words,
            timeout,
            default_cache_duration,
        )
    } else {
        r matches Err(e) && e@ is Empty
    }
}

impl CredentialHelper {
    /// There is a program to run.
    pub open spec fn well_formed(self) -> bool {
        has_program(self@.command)
    }

    /// A helper from a command line, which is split into words as a shell does it.
    pub fn from_command_line(
        command_line: &str,
        timeout: Option<Duration>,
        default_cache_duration: Option<Duration>,
    ) -> (r: Result<CredentialHelper, CommandError>)
        ensures
            match shell_words(command_line@) {
                Some(words) => is_helper(r, words, timeout, default_cache_duration),
                None => r matches Err(e) && e@ == CommandErrorModel::InvalidCommandLine(
                    command_line@,
                ),
            },
            r matches Ok(helper) ==> {
                &&& timeout matches Some(d) ==> helper@.timeout == d@
                &&& timeout is None ==> helper@.timeout == 10_000_000_000
                &&& default_cache_duration matches Some(d) ==> helper@.default_cache_duration == d@
                &&& default_cache_duration is None ==> helper@.default_cache_duration == 1_800_000_000_000
            },
    {
        CredentialHelper::from_words(
            command_line,
            split_words(command_line),
            timeout,
            default_cache_duration,
        )
    }

    /// A helper from the words of a command line, if it could be split into words.
    pub fn from_words(
        command_line: &str,
        words: Option<Vec<String>>,
        timeout: Option<Duration>,
        default_cache_duration: Option<Duration>,
    ) -> (r: Result<CredentialHelper, CommandError>)
        ensures
            match words {
                Some(words) => is_helper(
                    r,
                    text::views(words@),
                    timeout,
                    default_cache_duration,
                ),
                None => r matches Err(e) && e@ == CommandErrorModel::InvalidCommandLine(
                    command_line@,
                ),
            },
            r matches Ok(helper) ==> {
                &&& timeout matches Some(d) ==> helper@.timeout == d@
                &&& timeout is None ==> helper@.timeout == 10_000_000_000
                &&& default_cache_duration matches Some(d) ==> helper@.default_cache_duration == d@
                &&& default_cache_duration is None ==> helper@.default_cache_duration == 1_800_000_000_000
            },
    {
        match words {
            Some(command) => CredentialHelper::new(command, timeout, default_cache_duration),
            None => Err(CommandError::InvalidCommandLine(command_line.to_owned())),
        }
    }

    /// A helper from a program and its arguments.
    pub fn new(
        command: Vec<String>,
        timeout: Option<Duration>,
        default_cache_duration: Option<Duration>,
    ) -> (r: Result<CredentialHelper, CommandError>)
        ensures
            is_helper(r, text::views(command@), timeout, default_cache_duration),
            r matches Ok(helper) ==> {
                &&& timeout matches Some(d) ==> helper@.timeout == d@
                &&& timeout is None ==> helper@.timeout == 10_000_000_000
                &&& default_cache_duration matches Some(d) ==> helper@.default_cache_duration == d@
                &&& default_cache_duration is None ==> helper@.default_cache_duration == 1_800_000_000_000
            },
    {
        if command.len() == 0 || command[0].as_str().unicode_len() == 0 {
            return Err(CommandError::Empty);
        }
        let helper = CredentialHelper {
            command,
            timeout: match timeout {
                Some(d) => d,
                None => self::default_timeout(),
            },
            default_cache_duration: match default_cache_duration {
                Some(d) => d,
                None => self::default_cache_duration(),
            },
            cache: StringHashMap::new(),
        };
        assert(helper@ =~= HelperModel::initial(
            text::views(command@),
            timeout,
            default_cache_duration,
        ));
        Ok(helper)
    }

    /// The program and its arguments.
    pub fn command(&self) -> (command: &Vec<String>)
        ensures
            text::views(command@) == self@.command,
    {
        &self.command
    }

    /// The time to wait for an answer.
    pub fn timeout(&self) -> (d: Duration)
        ensures
            d@ == self@.timeout,
    {
        self.timeout
    }

    /// The time to keep answers that do not say when they expire.
    pub fn default_cache_duration(&self) -> (d: Duration)
        ensures
            d@ == self@.default_cache_duration,
    {
        self.default_cache_duration
    }

    /// The credentials that are kept for the URI, if they are still good.
    pub fn get(&self, uri: &str, now: SystemTime) -> (credentials: Option<Arc<Credentials>>)
        ensures
            match self@.cached(uri@, now@) {
                Some(headers) => credentials matches Some(c) && c@ == headers,
                None => credentials is None,
            },
    {
        match self.cache.get(uri) {
            Some(entry) => {
                if now.is_before(&entry.refresh_at) {
                    Some(share(&entry.credentials))
                } else {
                    None
                }
            },
            None => None,
        }
    }

    /// How the helper is to be run for the URI.
    pub fn invoke(&self, uri: &str) -> (run: Invocation)
        requires
            self.well_formed(),
        ensures
            run.program@ == self@.command[0],
            text::views(run.args@) == self@.command.drop_first().push("get"@),
            run.request@ == request_text(uri@),
            run.timeout@ == self@.timeout,
    {
        let mut args: Vec<String> = Vec::new();
        let mut i: usize = 1;
        assert(text::views(args@) =~= self@.command.subrange(1, 1));
        while i < self.command.len()
            invariant
                1 <= i <= self.command.len(),
                self@.command == text::views(self.command@),
                text::views(args@) == self@.command.subrange(1, i as int),
            decreases self.command.len() - i,
        {
            let ghost before = args@;
            args.push(self.command[i].clone());
            assert(text::views(args@) =~= text::views(before).push(self@.command[i as int]));
            i = i + 1;
            assert(text::views(args@) =~= self@.command.subrange(1, i as int));
        }
        let ghost before = args@;
        args.push("get".to_owned());
        assert(text::views(args@) =~= self@.command.drop_first().push("get"@));
        let json: String = json_string(uri);
        let mut request: String = "{\"uri\":".to_owned();
        request.append(json.as_str());
        request.append("}");
        Invocation { program: self.command[0].clone(), args, request, timeout: self.timeout }
    }

    /// What the helper answered, or why it gave no answer.
    pub fn outcome(&self, outcome: Outcome) -> (r: Result<GetCredentialsResponse, InvokeError>)
        requires
            self.well_formed(),
        ensures
            match outcome {
                Outcome::Answered(Ok(response)) => r == Ok::<
                    GetCredentialsResponse,
                    InvokeError,
                >(response),
                _ => r matches Err(e) && fails_with(outcome, self@, e@),
            },
    {
        match outcome {
            Outcome::NotStarted(source) => Err(
                InvokeError::Spawn { program: self.command[0].clone(), source },
            ),
            Outcome::NoInput => Err(InvokeError::NoInput),
            Outcome::TimedOut => Err(InvokeError::Timeout(self.timeout)),
            Outcome::NotObserved(source) => Err(InvokeError::Wait(source)),
            Outcome::Failed { status, stderr } => {
                let text: String = utf8_lossy(stderr.as_slice());
                Err(InvokeError::Failed { status, stderr: trim(text.as_str()) })
            },
            Outcome::Answered(Err(source)) => Err(InvokeError::Json(source)),
            Outcome::Answered(Ok(response)) => Ok(response),
        }
    }

    /// What is kept of an answer, or why it is not usable.
    pub fn parse_response(&self, response: &GetCredentialsResponse, now: SystemTime) -> (r: Result<
        CacheEntry,
        ResponseError,
    >)
        requires
            response.expires is None ==> self@.can_keep(now@),
        ensures
            match kept(*response, now@, self@.default_cache_duration) {
                Ok(model) => r matches Ok(entry) && entry@ == model,
                Err(error) => r matches Err(e) && e@ == error,
            },
    {
        let expires: Option<Result<SystemTime, ResponseError>> = match &response.expires {
            Some(expires) => Some(parse_expires(expires.as_str())),
            None => None,
        };
        self.parse_headers_until(expires, response, now)
    }

    /// What is kept of an answer whose expiry, if it has one, was read as given.
    pub fn parse_headers_until(
        &self,
        expires: Option<Result<SystemTime, ResponseError>>,
        response: &GetCredentialsResponse,
        now: SystemTime,
    ) -> (r: Result<CacheEntry, ResponseError>)
        requires
            expires is None ==> self@.can_keep(now@),
        ensures
            match (expires, parsed_headers(response.headers@)) {
                (Some(Err(error)), _) => r == Err::<CacheEntry, ResponseError>(error),
                (Some(Ok(t)), Ok(headers)) => r matches Ok(entry) && entry@ == (CacheModel {
                    headers,
                    refresh_at: t@,
                }),
                (None, Ok(headers)) => r matches Ok(entry) && entry@ == (CacheModel {
                    headers,
                    refresh_at: now@ + self@.default_cache_duration,
                }),
                (_, Err(error)) => r matches Err(e) && e@ == error,
            },
    {
        let refresh_at: SystemTime = match expires {
            Some(Ok(t)) => t,
            Some(Err(e)) => return Err(e),
            None => now.plus(self.default_cache_duration),
        };
        match parse_headers(&response.headers) {
            Ok(headers) => Ok(CacheEntry { credentials: Arc::new(Credentials { headers }), refresh_at }),
            Err(e) => Err(e),
        }
    }

    /// The credentials that a run for the URI, started at `now`, came to. They are kept,
    /// and handed out even where they are to be fetched again at once. If there are none,
    /// what was kept before stays.
    pub fn get_at(&mut self, uri: &str, now: SystemTime, outcome: Outcome) -> (r: Result<
        Arc<Credentials>,
        GetError,
    >)
        requires
            old(self).well_formed(),
            outcome matches Outcome::Answered(Ok(response)) ==> response.expires is None
                ==> old(self)@.can_keep(now@),
        ensures
            final(self).well_formed(),
            match outcome {
                Outcome::Answered(Ok(response)) => match kept(
                    response,
                    now@,
                    old(self)@.default_cache_duration,
                ) {
                    Ok(model) => {
                        &&& r matches Ok(credentials) && credentials@ == model.headers
                        &&& final(self)@ == (HelperModel {
                            cache: old(self)@.cache.insert(uri@, model),
                            ..old(self)@
                        })
                    },
                    Err(error) => {
                        &&& final(self)@ == old(self)@
                        &&& r matches Err(GetError::Response { uri: u, program, invalid: e })
                            && u@ == uri@ && program@ == old(self)@.command[0] && e@ == error
                    },
                },
                _ => {
                    &&& final(self)@ == old(self)@
                    &&& r matches Err(GetError::Invoke { uri: u, program, error }) && u@ == uri@
                        && program@ == old(self)@.command[0] && fails_with(
                        outcome,
                        old(self)@,
                        error@,
                    )
                },
            },
    {
        let response: GetCredentialsResponse = match self.outcome(outcome) {
            Ok(response) => response,
            Err(error) => {
                return Err(
                    GetError::Invoke {
                        uri: uri.to_owned(),
                        program: self.command[0].clone(),
                        error,
                    },
                );
            },
        };
        let entry: CacheEntry = match self.parse_response(&response, now) {
            Ok(entry) => entry,
            Err(invalid) => {
                return Err(
                    GetError::Response {
                        uri: uri.to_owned(),
                        program: self.command[0].clone(),
                        invalid,
                    },
                );
            },
        };
        let ghost view = entry@;
        let credentials: Arc<Credentials> = share(&entry.credentials);
        self.cache.insert(uri.to_owned(), entry);
        assert(self@.cache =~= old(self)@.cache.insert(uri@, view));
        Ok(credentials)
    }

    /// Drops all credentials that are kept.
    pub fn invalidate(&mut self)
        ensures
            final(self)@ == (HelperModel { cache: Map::empty(), ..old(self)@ }),
            final(self).well_formed() == old(self).well_formed(),
    {
        self.cache.clear();
        assert(self@.cache =~= Map::<Seq<char>, CacheModel>::empty());
    }
}

/// Whether `error` is what a run that gave no answer comes to.
pub open spec fn fails_with(outcome: Outcome, helper: HelperModel, error: InvokeErrorModel) -> bool {
    match outcome {
        Outcome::NotStarted(source) => error == (InvokeErrorModel::Spawn {
            program: helper.command[0],
            source: source@,
        }),
        Outcome::NoInput => error is NoInput,
        Outcome::TimedOut => error == InvokeErrorModel::Timeout(helper.timeout),
        Outcome::NotObserved(source) => error == InvokeErrorModel::Wait(source@),
        Outcome::Failed { status, stderr } => error == (InvokeErrorModel::Failed {
            status: status@,
            stderr: trimmed(lossy_text(stderr@)),
        }),
        Outcome::Answered(Err(source)) => error == InvokeErrorModel::Json(source@),
        Outcome::Answered(Ok(_)) => true,
    }
}

// Settings.

/// The settings of a helper that has not been built.
#[derive(Clone, Debug, PartialEq, Eq)]
pub struct CredentialHelperSettings {
    pub command_line: String,
    pub timeout: Option<Duration>,
    pub cache_duration: Option<Duration>,
}

/// Why a helper cannot be built from its settings.
pub enum BuildError {
    /// The variables in the command line cannot be replaced.
    Substitution(String),
    Command(CommandError),
}

impl BuildError {
    pub open spec fn line(self) -> Seq<char> {
        "Invalid `credential_helper`: "@ + match self {
            BuildError::Substitution(e) => e@,
            BuildError::Command(e) => e@.text(),
        }
    }

    /// The error in words.
    pub fn message(&self) -> (out: String)
        ensures
            out@ == self.line(),
    {
        match self {
            BuildError::Substitution(e) => concat(
                "Invalid `credential_helper`: ",
                e.as_str(),
            ),
            BuildError::Command(e) => {
                let source: String = e.message();
                concat("Invalid `credential_helper`: ", source.as_str())
            },
        }
    }
}

impl CredentialHelperSettings {
    /// The settings, if there is a command line.
    pub fn from_options(
        command_line: Option<&str>,
        timeout_secs: Option<u64>,
        cache_secs: Option<u64>,
    ) -> (r: Option<CredentialHelperSettings>)
        ensures
            r is Some <==> command_line is Some,
            r matches Some(s) ==> {
                &&& s.command_line@ == command_line->0@
                &&& seconds_as(s.timeout, timeout_secs)
                &&& seconds_as(s.cache_duration, cache_secs)
                &&& s.timeout is Some <==> timeout_secs is Some
                &&& s.timeout is Some ==> s.timeout->0@ == timeout_secs->0 * 1_000_000_000
                &&& s.cache_duration is Some <==> cache_secs is Some
                &&& s.cache_duration is Some ==> s.cache_duration->0@ == cache_secs->0
                    * 1_000_000_000
            },
    {
        match command_line {
            Some(line) => Some(
                CredentialHelperSettings {
                    command_line: line.to_owned(),
                    timeout: match timeout_secs {
                        Some(secs) => Some(Duration::from_secs(secs)),
                        None => None,
                    },
                    cache_duration: match cache_secs {
                        Some(secs) => Some(Duration::from_secs(secs)),
                        None => None,
                    },
                },
            ),
            None => None,
        }
    }

    /// The helper, given the command line with its variables replaced.
    pub fn build(&self, command_line: Result<String, String>) -> (r: Result<
        CredentialHelper,
        BuildError,
    >)
        ensures
            match command_line {
                Err(e) => r matches Err(BuildError::Substitution(source)) && source@ == e@,
                Ok(line) => match shell_words(line@) {
                    None => r matches Err(BuildError::Command(e)) && e@
                        == CommandErrorModel::InvalidCommandLine(line@),
                    Some(words) => if has_program(words) {
                        r matches Ok(helper) && helper.well_formed() && helper@
                            == HelperModel::initial(words, self.timeout, self.cache_duration)
                    } else {
                        r matches Err(BuildError::Command(e)) && e@ is Empty
                    },
                },
            },
            r matches Ok(helper) ==> {
                &&& self.timeout matches Some(d) ==> helper@.timeout == d@
                &&& self.timeout is None ==> helper@.timeout == 10_000_000_000
                &&& self.cache_duration matches Some(d) ==> helper@.default_cache_duration == d@
                &&& self.cache_duration is None ==> helper@.default_cache_duration == 1_800_000_000_000
            },
    {
        match command_line {
            Err(e) => Err(BuildError::Substitution(e)),
            Ok(line) => match CredentialHelper::from_command_line(
                line.as_str(),
                self.timeout,
                self.cache_duration,
            ) {
                Ok(helper) => Ok(helper),
                Err(e) => Err(BuildError::Command(e)),
            },
        }
    }
}

/// Whether `d` is a number of seconds, or both are missing.
pub open spec fn seconds_as(d: Option<Duration>, secs: Option<u64>) -> bool {
    match secs {
        Some(s) => d matches Some(d) && d@ == s * 1_000_000_000,
        None => d is None,
    }
}

// Laws.

/// Credentials that were kept are handed out until they are to be fetched again, and
/// not from then on.
pub proof fn law_credentials_are_kept_until_refresh(
    helper: HelperModel,
    uri: Seq<char>,
    model: CacheModel,
    now: int,
)
    ensures
        ({
            let after = HelperModel { cache: helper.cache.insert(uri, model), ..helper };
            after.cached(uri, now) == if now < model.refresh_at {
                Some(model.headers)
            } else {
                None
            }
        }),
{
}

/// Keeping credentials for one URI changes nothing for another.
pub proof fn law_uris_are_kept_apart(
    helper: HelperModel,
    uri: Seq<char>,
    other: Seq<char>,
    model: CacheModel,
    now: int,
)
    requires
        uri != other,
    ensures
        (HelperModel { cache: helper.cache.insert(uri, model), ..helper }).cached(other, now)
            == helper.cached(other, now),
{
}

/// After everything was dropped, nothing is handed out.
pub proof fn law_invalidation_forgets_all(helper: HelperModel, uri: Seq<char>, now: int)
    ensures
        (HelperModel { cache: Map::empty(), ..helper }).cached(uri, now) is None,
{
}

/// An answer without an expiry is kept for the default time, counted from when it was
/// asked for.
pub proof fn law_default_time_without_expiry(
    response: GetCredentialsResponse,
    now: int,
    keep: nat,
)
    requires
        response.expires is None,
        parsed_headers(response.headers@) is Ok,
    ensures
        kept(response, now, keep) matches Ok(model) && model.refresh_at == now + keep,
{
}

/// Credentials that expired before the epoch are not handed out at any time after it.
pub proof fn law_past_expiry_is_never_good(seconds: i64, now: int)
    requires
        seconds < 0,
        now >= 0,
    ensures
        !(now < expiry(seconds)),
{
}

/// A later expiry is never earlier in time.
pub proof fn law_expiry_is_monotone(a: i64, b: i64)
    requires
        a <= b,
    ensures
        expiry(a) <= expiry(b),
{
}

} // verus!
