//! The decisions of the HTTP client: reading and checking `Key: Value` header
//! arguments, when to follow a redirect, when to add a JSON content type, and how a
//! response is reported (status class, sections, body lines).
//!
//! The requests themselves, the URL arithmetic and the timing go through the HTTP
//! client outside the library.
use crate::text::{
    ascii_lower, ascii_lower_is, chars_of, find_from, find_str, lines_of, find_sub, push_str, string_of, to_owned_string,
    trim, trim_bounds,
};
use vstd::prelude::*;

verus! {

/// The name and the value of a `Key: Value` argument: the text before the first `:`
/// and the text after it, each trimmed; none when there is no `:`.
pub open spec fn header_pair(raw: Seq<char>) -> Option<(Seq<char>, Seq<char>)> {
    match find_sub(raw, seq![':']) {
        Some(i) => Some((trim(raw.take(i)), trim(raw.skip(i + 1)))),
        None => None,
    }
}

/// The error for an argument without a `:`.
pub open spec fn bad_header_message(raw: Seq<char>) -> Seq<char> {
    "Invalid header format: "@ + raw + ". Expected Key: Value"@
}

/// Splits one `Key: Value` argument (see [`header_pair`]).
pub fn split_header(raw: &str) -> (r: Result<(String, String), String>)
    ensures
        match r {
            Ok((k, v)) => header_pair(raw@) == Some((k@, v@)),
            Err(e) => header_pair(raw@) is None && e@ == bad_header_message(raw@),
        },
{
    let cs = chars_of(raw);
    proof {
        reveal_strlit(":");
        assert(":"@ =~= seq![':']);
    }
    match find_str(&cs, ":") {
        Some(i) => {
            let n = cs.len();
            assert(i < n) by {
                lemma_found_inside(cs@, seq![':'], 0);
            }
            let (a, b) = trim_bounds(&cs, 0, i);
            let (c, d) = trim_bounds(&cs, i + 1, n);
            assert(cs@.subrange(0, i as int) =~= raw@.take(i as int));
            assert(cs@.subrange(i + 1, n as int) =~= raw@.skip(i + 1));
            Ok((string_of(&cs, a, b), string_of(&cs, c, d)))
        },
        None => {
            let mut e = to_owned_string("Invalid header format: ");
            push_str(&mut e, raw);
            push_str(&mut e, ". Expected Key: Value");
            Err(e)
        },
    }
}

/// A match found by [`find_from`] lies inside the searched text.
proof fn lemma_found_inside(s: Seq<char>, pat: Seq<char>, from: int)
    ensures
        find_from(s, pat, from) matches Some(i) ==> from <= i && i + pat.len() <= s.len(),
    decreases s.len() + 1 - from,
{
    if from < 0 || from + pat.len() > s.len() {
    } else if s.subrange(from, from + pat.len()) == pat {
    } else {
        lemma_found_inside(s, pat, from + 1);
    }
}

/// A character the `http` crate allows in a header name (its `HEADER_CHARS` table):
/// ASCII letters, digits and ``!#$%&'*+-.^_`|~``.
pub open spec fn is_token_char(c: char) -> bool {
    ||| 'a' <= c <= 'z'
    ||| 'A' <= c <= 'Z'
    ||| '0' <= c <= '9'
    ||| c == '!' || c == '#' || c == '$' || c == '%' || c == '&' || c == '\''
    ||| c == '*' || c == '+' || c == '-' || c == '.' || c == '^' || c == '_'
    ||| c == '`' || c == '|' || c == '~'
}

/// `HeaderName::from_str` accepts a name: between 1 and 65535 characters, each a token
/// character.
pub open spec fn header_name_ok(name: Seq<char>) -> bool {
    &&& 0 < name.len() <= 65535
    &&& forall|i: int| 0 <= i < name.len() ==> is_token_char(#[trigger] name[i])
}

/// A character `HeaderValue::from_str` allows: a tab, or anything but the other ASCII
/// control characters and DEL (every byte of a non-ASCII character is at least 128).
pub open spec fn is_value_char(c: char) -> bool {
    c == '\t' || (c as u32 >= 32 && c as u32 != 127)
}

/// `HeaderValue::from_str` accepts a value: each of its characters is allowed.
pub open spec fn header_value_ok(value: Seq<char>) -> bool {
    forall|i: int| 0 <= i < value.len() ==> is_value_char(#[trigger] value[i])
}

/// Decides [`header_name_ok`].
pub fn is_header_name(name: &str) -> (b: bool)
    ensures
        b == header_name_ok(name@),
{
    let cs = chars_of(name);
    if cs.len() == 0 || cs.len() > 65535 {
        return false;
    }
    let mut i: usize = 0;
    while i < cs.len()
        invariant
            cs@ == name@,
            i <= cs@.len(),
            forall|j: int| 0 <= j < i ==> is_token_char(#[trigger] cs@[j]),
        decreases cs@.len() - i,
    {
        let c = cs[i];
        let ok = ('a' <= c && c <= 'z') || ('A' <= c && c <= 'Z') || ('0' <= c && c <= '9') || c
            == '!' || c == '#' || c == '$' || c == '%' || c == '&' || c == '\'' || c == '*' || c
            == '+' || c == '-' || c == '.' || c == '^' || c == '_' || c == '`' || c == '|' || c
            == '~';
        if !ok {
            return false;
        }
        i = i + 1;
    }
    true
}

/// Decides [`header_value_ok`].
pub fn is_header_value(value: &str) -> (b: bool)
    ensures
        b == header_value_ok(value@),
{
    let cs = chars_of(value);
    let mut i: usize = 0;
    while i < cs.len()
        invariant
            cs@ == value@,
            i <= cs@.len(),
            forall|j: int| 0 <= j < i ==> is_value_char(#[trigger] cs@[j]),
        decreases cs@.len() - i,
    {
        let c = cs[i];
        let u = c as u32;
        if !(c == '\t' || (u >= 32 && u != 127)) {
            return false;
        }
        i = i + 1;
    }
    true
}

/// The error text of an invalid header name (`InvalidHeaderName`'s).
pub open spec fn invalid_name_message() -> Seq<char> {
    "invalid HTTP header name"@
}

/// The error text of an invalid header value (`InvalidHeaderValue`'s).
pub open spec fn invalid_value_message() -> Seq<char> {
    "failed to parse header value"@
}

/// One `Key: Value` argument checked in turn: its form, then its name, then its value.
pub open spec fn header_check(raw: Seq<char>) -> Result<(Seq<char>, Seq<char>), Seq<char>> {
    match header_pair(raw) {
        None => Err(bad_header_message(raw)),
        Some((k, v)) => if !header_name_ok(k) {
            Err(invalid_name_message())
        } else if !header_value_ok(v) {
            Err(invalid_value_message())
        } else {
            Ok((k, v))
        },
    }
}

/// Checks one `Key: Value` argument (see [`header_check`]).
pub fn check_header(raw: &str) -> (r: Result<(String, String), String>)
    ensures
        match r {
            Ok((k, v)) => header_check(raw@) == Ok::<(Seq<char>, Seq<char>), Seq<char>>((k@, v@)),
            Err(e) => header_check(raw@) == Err::<(Seq<char>, Seq<char>), Seq<char>>(e@),
        },
{
    match split_header(raw) {
        Err(e) => Err(e),
        Ok((k, v)) => {
            if !is_header_name(k.as_str()) {
                Err(to_owned_string("invalid HTTP header name"))
            } else if !is_header_value(v.as_str()) {
                Err(to_owned_string("failed to parse header value"))
            } else {
                Ok((k, v))
            }
        },
    }
}

/// Checks every `Key: Value` argument, in order, stopping at the first one that is
/// malformed or names an invalid header name or value, and reporting it.
pub fn parse_custom_headers(input: &Vec<String>) -> (r: Result<Vec<(String, String)>, String>)
    ensures
        r is Ok <==> forall|i: int| 0 <= i < input@.len() ==> (#[trigger] header_check(
            input@[i]@,
        )) is Ok,
        match r {
            Ok(v) => v@.len() == input@.len() && forall|i: int|
                0 <= i < input@.len() ==> header_check(input@[i]@) == Ok::<
                    (Seq<char>, Seq<char>),
                    Seq<char>,
                >((#[trigger] v@[i].0@, v@[i].1@)),
            Err(e) => exists|k: int|
                0 <= k < input@.len() && (forall|j: int|
                    0 <= j < k ==> (#[trigger] header_check(input@[j]@)) is Ok) && header_check(
                    input@[k]@,
                ) == Err::<(Seq<char>, Seq<char>), Seq<char>>(e@),
        },
{
    let mut out: Vec<(String, String)> = Vec::new();
    let mut i: usize = 0;
    while i < input.len()
        invariant
            i <= input@.len(),
            out@.len() == i,
            forall|j: int|
                0 <= j < i ==> header_check(input@[j]@) == Ok::<(Seq<char>, Seq<char>), Seq<char>>(
                    (#[trigger] out@[j].0@, out@[j].1@),
                ),
        decreases input@.len() - i,
    {
        match check_header(input[i].as_str()) {
            Ok(pair) => {
                out.push(pair);
            },
            Err(e) => {
                assert forall|j: int| 0 <= j < i implies (#[trigger] header_check(
                    input@[j]@,
                )) is Ok by {
                    assert(header_check(input@[j]@) == Ok::<(Seq<char>, Seq<char>), Seq<char>>(
                        (out@[j].0@, out@[j].1@),
                    ));
                }
                return Err(e);
            },
        }
        i = i + 1;
    }
    assert forall|j: int| 0 <= j < input@.len() implies (#[trigger] header_check(
        input@[j]@,
    )) is Ok by {
        assert(header_check(input@[j]@) == Ok::<(Seq<char>, Seq<char>), Seq<char>>(
            (out@[j].0@, out@[j].1@),
        ));
    }
    Ok(out)
}

/// Whether `name`, with ASCII letters lower-cased, is `lower` (header names compare
/// without regard to case).
pub open spec fn same_name(name: Seq<char>, lower: Seq<char>) -> bool {
    name.len() == lower.len() && forall|i: int| 0 <= i < name.len() ==> ascii_lower(
        #[trigger] name[i],
    ) == lower[i]
}

/// Executable form of [`same_name`].
pub fn name_is(name: &str, lower: &str) -> (b: bool)
    ensures
        b == same_name(name@, lower@),
{
    let a = chars_of(name);
    let l = chars_of(lower);
    if a.len() != l.len() {
        return false;
    }
    let mut i: usize = 0;
    while i < a.len()
        invariant
            a@ == name@,
            l@ == lower@,
            a@.len() == l@.len(),
            i <= a@.len(),
            forall|j: int| 0 <= j < i ==> ascii_lower(#[trigger] a@[j]) == l@[j],
        decreases a@.len() - i,
    {
        if !ascii_lower_is(a[i], l[i]) {
            return false;
        }
        i = i + 1;
    }
    true
}

/// The header name of a JSON body's content type, lower-case.
pub open spec fn content_type_name() -> Seq<char> {
    "content-type"@
}

/// A request with a body gets `Content-Type: application/json` unless one of the given
/// headers already names a content type.
pub fn needs_json_content_type(has_body: bool, headers: &Vec<(String, String)>) -> (b: bool)
    ensures
        b == (has_body && forall|i: int|
            0 <= i < headers@.len() ==> !same_name(#[trigger] headers@[i].0@, content_type_name())),
{
    if !has_body {
        return false;
    }
    let mut i: usize = 0;
    while i < headers.len()
        invariant
            i <= headers@.len(),
            forall|j: int|
                0 <= j < i ==> !same_name(#[trigger] headers@[j].0@, content_type_name()),
        decreases headers@.len() - i,
    {
        if name_is(headers[i].0.as_str(), "content-type") {
            return false;
        }
        i = i + 1;
    }
    true
}

/// What a response does to the request loop.
#[derive(Debug, Clone, Copy, PartialEq, Eq, Structural)]
pub enum RedirectStep {
    /// The response is the final one.
    Finish,
    /// Follow the `Location` header.
    Follow,
    /// A redirect arrived after the last one allowed.
    TooMany,
}

/// A status in `300..=399`.
pub open spec fn is_redirection(status: u16) -> bool {
    300 <= status <= 399
}

/// The step for a response with `status` (`has_location`: it carries a `Location`
/// header), arriving as response number `redirect_count` (from 0) when at most
/// `max_redirects` redirects are followed.
pub open spec fn redirect_spec(
    follow: bool,
    status: u16,
    has_location: bool,
    redirect_count: nat,
    max_redirects: nat,
) -> RedirectStep {
    if follow && is_redirection(status) && has_location {
        if redirect_count == max_redirects {
            RedirectStep::TooMany
        } else {
            RedirectStep::Follow
        }
    } else {
        RedirectStep::Finish
    }
}

/// Executable form of [`redirect_spec`].
pub fn redirect_step(
    follow: bool,
    status: u16,
    has_location: bool,
    redirect_count: usize,
    max_redirects: usize,
) -> (s: RedirectStep)
    ensures
        s == redirect_spec(follow, status, has_location, redirect_count as nat, max_redirects as nat),
        follow && 300 <= status <= 399 && has_location && redirect_count < max_redirects ==> s
            == RedirectStep::Follow,
        follow && 300 <= status <= 399 && has_location && redirect_count == max_redirects ==> s
            == RedirectStep::TooMany,
        !(follow && 300 <= status <= 399 && has_location) ==> s == RedirectStep::Finish,
{
    if follow && 300 <= status && status <= 399 && has_location {
        if redirect_count == max_redirects {
            RedirectStep::TooMany
        } else {
            RedirectStep::Follow
        }
    } else {
        RedirectStep::Finish
    }
}

/// The error when the redirect limit is reached.
pub open spec fn too_many_redirects_message() -> Seq<char> {
    "Maximum redirects reached"@
}

/// The message for [`RedirectStep::TooMany`].
pub fn too_many_redirects() -> (e: String)
    ensures
        e@ == too_many_redirects_message(),
{
    to_owned_string("Maximum redirects reached")
}

/// How a status is coloured when shown.
#[derive(Debug, Clone, Copy, PartialEq, Eq, Structural)]
pub enum StatusClass {
    /// `200..=299`.
    Success,
    /// `400..=499`.
    ClientError,
    /// Anything else.
    Other,
}

/// The class of a status code.
pub open spec fn status_class_spec(status: u16) -> StatusClass {
    if 200 <= status <= 299 {
        StatusClass::Success
    } else if 400 <= status <= 499 {
        StatusClass::ClientError
    } else {
        StatusClass::Other
    }
}

/// Executable form of [`status_class_spec`].
pub fn status_class(status: u16) -> (c: StatusClass)
    ensures
        c == status_class_spec(status),
        (c == StatusClass::Success) <==> 200 <= status <= 299,
        (c == StatusClass::ClientError) <==> 400 <= status <= 499,
{
    if 200 <= status && status <= 299 {
        StatusClass::Success
    } else if 400 <= status && status <= 499 {
        StatusClass::ClientError
    } else {
        StatusClass::Other
    }
}

/// A body is pretty-printed as JSON when its content type mentions `application/json`.
pub fn is_json_content(content_type: &str) -> (b: bool)
    ensures
        b == (find_sub(content_type@, "application/json"@) is Some),
{
    let cs = chars_of(content_type);
    match find_str(&cs, "application/json") {
        Some(_) => true,
        None => false,
    }
}

/// The TLS handshake time shown for a URL scheme: an estimate of zero for `https`,
/// nothing otherwise.
pub fn tls_estimate(scheme: &str) -> (t: Option<u64>)
    ensures
        t == (if scheme@ == "https"@ {
            Some(0u64)
        } else {
            None
        }),
{
    if crate::text::str_eq(scheme, "https") {
        Some(0)
    } else {
        None
    }
}

/// What `serde_json` makes of a text when it reads it as a JSON value and writes it
/// back pretty-printed; none when the text is not JSON.
pub uninterp spec fn json_pretty(text: Seq<char>) -> Option<Seq<char>>;

/// `serde_json::from_str::<Value>` then `to_string_pretty`: the pretty-printed form of
/// a JSON text, or none when it does not parse. The formats are `serde_json`'s; the
/// contract names the result.
#[verifier::external_body]
fn pretty_json(text: &str) -> (r: Option<String>)
    ensures
        match r {
            Some(p) => json_pretty(text@) == Some(p@),
            None => json_pretty(text@) is None,
        },
{
    match serde_json::from_str::<serde_json::Value>(text) {
        Ok(v) => serde_json::to_string_pretty(&v).ok(),
        Err(_) => None,
    }
}

/// The lines shown for a response body: the lines of its pretty-printed form when it
/// is JSON and pretty-printed, else the lines of the body itself.
pub open spec fn body_lines_of(is_json: bool, body: Seq<char>, pretty: Option<Seq<char>>) -> Seq<
    Seq<char>,
> {
    match pretty {
        Some(p) if is_json => lines_of(p),
        _ => lines_of(body),
    }
}

/// The lines of `text` as new strings.
fn lines_vec(text: &str) -> (out: Vec<String>)
    ensures
        out@.map_values(|s: String| s@) == lines_of(text@),
{
    let cs = chars_of(text);
    let bounds = crate::text::line_bounds(&cs);
    let mut out: Vec<String> = Vec::new();
    let mut k: usize = 0;
    while k < bounds.len()
        invariant
            cs@ == text@,
            bounds@.len() == lines_of(cs@).len(),
            forall|j: int|
                0 <= j < bounds@.len() ==> {
                    &&& (#[trigger] bounds@[j]).0 <= bounds@[j].1 <= cs@.len()
                    &&& cs@.subrange(bounds@[j].0 as int, bounds@[j].1 as int) == lines_of(cs@)[j]
                },
            k <= bounds@.len(),
            out@.map_values(|s: String| s@) == lines_of(cs@).take(k as int),
        decreases bounds@.len() - k,
    {
        let (a, b) = bounds[k];
        let ghost before = out@;
        out.push(string_of(&cs, a, b));
        assert(out@.map_values(|s: String| s@) =~= before.map_values(|s: String| s@).push(
            lines_of(cs@)[k as int],
        ));
        assert(lines_of(cs@).take(k + 1) =~= lines_of(cs@).take(k as int).push(lines_of(cs@)[k as int]));
        k = k + 1;
    }
    assert(lines_of(cs@).take(k as int) =~= lines_of(cs@));
    out
}

/// Executable form of [`body_lines_of`].
pub fn body_lines(is_json: bool, body: &str, pretty: Option<String>) -> (out: Vec<String>)
    ensures
        out@.map_values(|s: String| s@) == body_lines_of(
            is_json,
            body@,
            match pretty {
                Some(p) => Some(p@),
                None => None,
            },
        ),
{
    match pretty {
        Some(p) => if is_json {
            lines_vec(p.as_str())
        } else {
            lines_vec(body)
        },
        None => lines_vec(body),
    }
}

/// How a response body is shown: JSON content that parses is pretty-printed (and drawn
/// in green, the second component), anything else is shown line by line.
pub fn response_body_lines(content_type: &str, body: &str) -> (r: (Vec<String>, bool))
    ensures
        ({
            let json = find_sub(content_type@, "application/json"@) is Some;
            let pretty = if json {
                json_pretty(body@)
            } else {
                None
            };
            &&& r.0@.map_values(|s: String| s@) == body_lines_of(json, body@, pretty)
            &&& r.1 == (json && pretty is Some)
        }),
{
    let json = is_json_content(content_type);
    let pretty = if json {
        pretty_json(body)
    } else {
        None
    };
    let green = json && pretty.is_some();
    (body_lines(json, body, pretty), green)
}

/// Which sections the report of a request shows.
#[derive(Debug, Clone, Copy, PartialEq, Eq, Structural)]
pub struct ReportSections {
    /// The average latency, when the request ran more than once.
    pub average: bool,
    /// The redirect chain, when there was a redirect.
    pub chain: bool,
    /// The response headers, when asked for or when there are any.
    pub headers: bool,
    /// The estimated TLS time, when there is one.
    pub tls: bool,
}

/// The sections of a report: the average for more than one run, the chain for more
/// than one response, the headers when asked for or present, the TLS line when known.
pub fn report_sections(repeats: usize, chain_len: usize, show_headers: bool, header_count: usize, has_tls: bool) -> (s: ReportSections)
    ensures
        s == (ReportSections {
            average: repeats > 1,
            chain: chain_len > 1,
            headers: show_headers || header_count > 0,
            tls: has_tls,
        }),
{
    ReportSections {
        average: repeats > 1,
        chain: chain_len > 1,
        headers: show_headers || header_count > 0,
        tls: has_tls,
    }
}

/// Every 3xx response with a `Location` is followed while following is on and the limit
/// is not reached, the response at the limit is refused, and any other response ends the
/// request.
pub proof fn lemma_redirect_steps(
    follow: bool,
    status: u16,
    has_location: bool,
    redirect_count: nat,
    max_redirects: nat,
)
    ensures
        follow && 300 <= status <= 399 && has_location && redirect_count < max_redirects
            ==> redirect_spec(follow, status, has_location, redirect_count, max_redirects)
            == RedirectStep::Follow,
        follow && 300 <= status <= 399 && has_location && redirect_count == max_redirects
            ==> redirect_spec(follow, status, has_location, redirect_count, max_redirects)
            == RedirectStep::TooMany,
        !(follow && 300 <= status <= 399 && has_location) ==> redirect_spec(
            follow,
            status,
            has_location,
            redirect_count,
            max_redirects,
        ) == RedirectStep::Finish,
{
}

/// Statuses 200 to 299 are successes, 400 to 499 client errors, and every other status
/// is shown as neither.
pub proof fn lemma_status_classes(status: u16)
    ensures
        (status_class_spec(status) == StatusClass::Success) <==> 200 <= status <= 299,
        (status_class_spec(status) == StatusClass::ClientError) <==> 400 <= status <= 499,
        (status_class_spec(status) == StatusClass::Other) <==> !(200 <= status <= 299) && !(400
            <= status <= 499),
{
}

/// A header name is refused when it is empty or holds a space, a colon or a non-ASCII
/// character; a header value is refused when it holds a line break or another control
/// character other than a tab.
pub proof fn lemma_header_rejections(s: Seq<char>, i: int)
    requires
        0 <= i < s.len(),
    ensures
        !header_name_ok(Seq::empty()),
        (s[i] == ' ' || s[i] == ':' || s[i] as u32 >= 128) ==> !header_name_ok(s),
        (s[i] == '\n' || s[i] == '\r' || (s[i] as u32) < 9 || s[i] as u32 == 127) ==> !header_value_ok(s),
        ('a' <= s[i] <= 'z' || 'A' <= s[i] <= 'Z' || s[i] == '-') ==> is_token_char(s[i]) && is_value_char(s[i]),
{
}

} // verus!
