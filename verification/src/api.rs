//! The rules of the HTTP surface that need no HTTP: who may call, what a request may ask for,
//! and which representation a client gets.

use crate::lexicon::{opt_chars, opt_str};
use crate::space::{is_only_space, only_space, trim, trimmed};
use crate::text::{
    cat, cat3, chars_of, first_index, first_index_bounds, index_of_char, natural_number,
    parse_natural, split_at_char, split_on, starts_with, str_eq, string_of, strings,
};
use crate::unicode::ascii_lower;
use vstd::prelude::*;
use vstd::string::*;
use vstd::utf8::*;

verus! {

/// An answer other than success: an HTTP status and its detail.
#[derive(Debug)]
pub struct ApiError {
    pub status: u16,
    pub detail: String,
}

/// Whether an error is the one of this status and detail.
pub open spec fn is_error(e: ApiError, status: u16, detail: Seq<char>) -> bool {
    e.status == status && e.detail@ == detail
}

/// An error of a status and a detail.
pub fn bad(status: u16, detail: &str) -> (r: ApiError)
    ensures
        is_error(r, status, detail@),
{
    ApiError { status, detail: detail.to_owned() }
}

/// The decimal digits of a number.
pub open spec fn decimal_text(n: nat) -> Seq<char>
    decreases n,
{
    let digit = (48 + n % 10) as u8 as char;
    if n < 10 {
        seq![digit]
    } else {
        decimal_text(n / 10).push(digit)
    }
}

/// The decimal digits of a number.
pub fn number_text(n: usize) -> (r: String)
    ensures
        r@ == decimal_text(n as nat),
    decreases n,
{
    let digit: char = (48 + n % 10) as u8 as char;
    if n < 10 {
        let mut r = String::new();
        r.push(digit);
        assert(r@ =~= seq![digit]);
        r
    } else {
        let mut r = number_text(n / 10);
        r.push(digit);
        r
    }
}

// ---------------------------------------------------------------- auth

proof fn no_difference(acc: u8, x: u8, y: u8)
    ensures
        (acc | (x ^ y)) == 0 <==> acc == 0 && x == y,
{
    assert((acc | (x ^ y)) == 0 <==> acc == 0 && x == y) by (bit_vector);
}

/// Whether two byte strings are equal. Every byte is looked at, wherever the first difference
/// is, so that the time taken tells nothing of it.
pub fn constant_time_eq(a: &[u8], b: &[u8]) -> (r: bool)
    ensures
        r == (a@ == b@),
{
    if a.len() != b.len() {
        return false;
    }
    let mut acc: u8 = 0;
    let mut i: usize = 0;
    assert(a@.take(0) =~= b@.take(0));
    while i < a.len()
        invariant
            i <= a@.len() == b@.len(),
            acc == 0 <==> a@.take(i as int) == b@.take(i as int),
        decreases a.len() - i,
    {
        proof {
            no_difference(acc, a@[i as int], b@[i as int]);
            let x = a@.take(i + 1);
            let y = b@.take(i + 1);
            assert(x =~= a@.take(i as int).push(a@[i as int]));
            assert(y =~= b@.take(i as int).push(b@[i as int]));
            assert(x == y ==> x.drop_last() == y.drop_last());
            assert(x.drop_last() =~= a@.take(i as int));
            assert(y.drop_last() =~= b@.take(i as int));
            assert(x == y ==> x.last() == y.last());
        }
        acc = acc | (a[i] ^ b[i]);
        i = i + 1;
    }
    assert(a@.take(i as int) =~= a@);
    assert(b@.take(i as int) =~= b@);
    acc == 0
}

/// Whether a header value begins with the bearer scheme, in any case.
pub open spec fn is_bearer(v: Seq<char>) -> bool {
    v.len() >= 7 && v.take(7).map_values(|c: char| ascii_lower(c)) == "bearer "@
}

/// The key that a caller sent: behind the bearer scheme, or else in its own header.
pub open spec fn sent_key(
    authorization: Option<Seq<char>>,
    api_key: Option<Seq<char>>,
) -> Option<Seq<char>> {
    if authorization is Some && is_bearer(authorization.unwrap()) {
        Some(trimmed(authorization.unwrap().skip(7)))
    } else {
        match api_key {
            Some(k) => Some(trimmed(k)),
            None => None,
        }
    }
}

fn begins_bearer(v: &Vec<char>) -> (r: bool)
    ensures
        r == is_bearer(v@),
{
    if v.len() < 7 {
        return false;
    }
    let scheme = chars_of("bearer ");
    proof {
        reveal_strlit("bearer ");
    }
    let ghost low = v@.take(7).map_values(|c: char| ascii_lower(c));
    let mut i: usize = 0;
    while i < 7
        invariant
            i <= 7 <= v@.len(),
            scheme@ == "bearer "@,
            scheme@.len() == 7,
            low == v@.take(7).map_values(|c: char| ascii_lower(c)),
            forall|k: int| 0 <= k < i ==> low[k] == scheme@[k],
        decreases 7 - i,
    {
        let c: char = v[i];
        let code: u32 = c as u32;
        let small: char = if 'A' as u32 <= code && code <= 'Z' as u32 {
            (code + 32) as u8 as char
        } else {
            c
        };
        assert(low[i as int] == small);
        if small != scheme[i] {
            assert(low != scheme@);
            return false;
        }
        i = i + 1;
    }
    assert(low =~= scheme@);
    true
}

fn key_of(authorization: Option<&str>, api_key: Option<&str>) -> (r: Option<String>)
    ensures
        opt_chars(r) == sent_key(opt_str(authorization), opt_str(api_key)),
{
    match authorization {
        Some(v) => {
            let c = chars_of(v);
            if begins_bearer(&c) {
                let n: usize = c.len();
                let rest = string_of(&c, 7, n);
                assert(rest@ =~= v@.skip(7));
                return Some(trim(rest.as_str()).to_owned());
            }
        },
        None => {},
    }
    match api_key {
        Some(k) => Some(trim(k).to_owned()),
        None => None,
    }
}

/// Whether a caller may use the server: `Authorization: Bearer <key>` or `X-API-Key: <key>`.
/// A server without a key refuses everybody: a missing key is a misconfiguration, and no
/// authentication would be the wrong guess.
pub fn require_key(
    configured: Option<&str>,
    authorization: Option<&str>,
    api_key: Option<&str>,
) -> (r: Result<(), ApiError>)
    ensures
        match r {
            Ok(_) => configured is Some && sent_key(opt_str(authorization), opt_str(api_key))
                == Some(configured.unwrap()@),
            Err(e) => if configured is None {
                is_error(e, 503, "server API key not configured — set DREAM_TTS_API_KEY"@)
            } else {
                sent_key(opt_str(authorization), opt_str(api_key)) != Some(configured.unwrap()@)
                    && is_error(e, 401, "invalid or missing API key"@)
            },
        },
{
    let expected = match configured {
        Some(k) => k,
        None => {
            return Err(bad(503, "server API key not configured — set DREAM_TTS_API_KEY"));
        },
    };
    match key_of(authorization, api_key) {
        Some(got) => {
            let same = constant_time_eq(got.as_str().as_bytes(), expected.as_bytes());
            proof {
                encode_utf8_decode_utf8(got@);
                encode_utf8_decode_utf8(expected@);
            }
            if same {
                return Ok(());
            }
        },
        None => {},
    }
    Err(bad(401, "invalid or missing API key"))
}

/// The key of a server: the first of its sources that is there, without the white space at
/// its ends, unless nothing is left.
pub open spec fn configured_key(
    first: Option<Seq<char>>,
    second: Option<Seq<char>>,
    file: Option<Seq<char>>,
) -> Option<Seq<char>> {
    let found = if first is Some {
        first
    } else if second is Some {
        second
    } else {
        file
    };
    match found {
        Some(k) => if trimmed(k).len() == 0 {
            None
        } else {
            Some(trimmed(k))
        },
        None => None,
    }
}

/// The key of a server, from two environment variables and a file.
pub fn choose_key(first: Option<String>, second: Option<String>, file: Option<String>) -> (r:
    Option<String>)
    ensures
        opt_chars(r) == configured_key(opt_chars(first), opt_chars(second), opt_chars(file)),
{
    let found = match first {
        Some(k) => Some(k),
        None => match second {
            Some(k) => Some(k),
            None => file,
        },
    };
    match found {
        Some(k) => {
            let t = trim(k.as_str());
            if t.is_empty() {
                None
            } else {
                Some(t.to_owned())
            }
        },
        None => None,
    }
}

// ---------------------------------------------------------------- requests

/// A request for speech.
pub struct TtsRequest {
    pub text: String,
    pub mode: String,
    pub instruct_text: Option<String>,
    /// The speed asked for, as text, where it is not the normal one.
    pub other_speed: Option<String>,
    /// A voice asset to use in place of the server's own.
    pub voice: Option<String>,
    pub seed: Option<u64>,
}

/// What a request body turned out to be.
pub enum Body {
    /// JSON, still to be read.
    Json(String),
    /// The text itself, with the rest from headers.
    Plain(TtsRequest),
}

/// Whether a request asks for nothing but its text, voice and seed.
pub open spec fn is_simple(
    r: TtsRequest,
    text: Seq<char>,
    voice: Option<Seq<char>>,
    seed: Option<u64>,
) -> bool {
    r.text@ == text && r.mode@ == "zero_shot"@ && r.instruct_text is None && r.other_speed is None
        && opt_chars(r.voice) == voice && r.seed == seed
}

/// A request that asks for nothing but its text, voice and seed.
pub fn simple_request(text: String, voice: Option<String>, seed: Option<u64>) -> (r: TtsRequest)
    ensures
        is_simple(r, text@, opt_chars(voice), seed),
{
    TtsRequest {
        text,
        mode: "zero_shot".to_owned(),
        instruct_text: None,
        other_speed: None,
        voice,
        seed,
    }
}

/// The seed that a header value writes, around which white space may stand.
pub open spec fn seed_of(raw: Option<Seq<char>>) -> Option<u64> {
    match raw {
        Some(s) => natural_number(trimmed(s)),
        None => None,
    }
}

/// Reads a request body: JSON unless the content type is plain text. A plain text is spoken as
/// it is, with the seed and the voice from headers, so that a shell script can post a file
/// without building JSON round it.
pub fn parse_request(
    content_type: &str,
    body: String,
    x_seed: Option<&str>,
    x_voice: Option<&str>,
) -> (r: Result<Body, ApiError>)
    ensures
        match r {
            Ok(Body::Json(b)) => !"text/plain"@.is_prefix_of(content_type@) && b@ == body@,
            Ok(Body::Plain(q)) => "text/plain"@.is_prefix_of(content_type@) && (x_seed is None
                || seed_of(opt_str(x_seed)) is Some) && is_simple(
                q,
                body@,
                opt_str(x_voice),
                seed_of(opt_str(x_seed)),
            ),
            Err(e) => "text/plain"@.is_prefix_of(content_type@) && x_seed is Some && seed_of(
                opt_str(x_seed),
            ) is None && is_error(e, 422, "X-Seed is not a number: "@ + x_seed.unwrap()@),
        },
{
    if !starts_with(content_type, "text/plain") {
        return Ok(Body::Json(body));
    }
    let seed: Option<u64> = match x_seed {
        Some(raw) => match parse_natural(&chars_of(trim(raw))) {
            Some(v) => Some(v),
            None => {
                let detail = cat("X-Seed is not a number: ", raw);
                return Err(ApiError { status: 422, detail });
            },
        },
        None => None,
    };
    let voice = match x_voice {
        Some(v) => Some(v.to_owned()),
        None => None,
    };
    Ok(Body::Plain(simple_request(body, voice, seed)))
}

/// The detail for a text that is too long.
pub open spec fn too_long(len: nat, max_chars: nat) -> Seq<char> {
    "text too long: "@ + decimal_text(len) + " chars > max_chars="@ + decimal_text(max_chars)
        + ". Split into multiple requests."@
}

/// What is wrong with a request, if anything: the first of these that holds.
pub open spec fn fault_of(r: TtsRequest, max_chars: nat) -> Option<(u16, Seq<char>)> {
    if only_space(r.text@) {
        Some((400u16, "text is empty"@))
    } else if r.text@.len() > max_chars {
        Some((413u16, too_long(r.text@.len(), max_chars)))
    } else if r.mode@ == "instruct"@ || r.mode@ == "cross_lingual"@ {
        Some((501u16, "mode='"@ + r.mode@ + "' is not implemented — only 'zero_shot'. There is no instruction-prompt path."@))
    } else if r.mode@ != "zero_shot"@ {
        Some((400u16, "unknown mode '"@ + r.mode@ + "'"@))
    } else if r.other_speed is Some {
        Some(
            (
                501u16,
                "speed="@ + r.other_speed.unwrap()@
                    + " is not implemented — the server synthesizes at 1.0 only, and returning unmodified audio would misreport the request as honoured."@,
            ),
        )
    } else if r.instruct_text is Some {
        Some(
            (501u16, "instruct_text is not implemented (mode='instruct' is unsupported)"@),
        )
    } else {
        None
    }
}

/// Whether a request can be honoured. What cannot be is refused rather than ignored: audio at
/// the normal speed for a client that asked for another is worse than an error, because
/// nothing in the answer says so.
pub fn validate(max_chars: usize, req: &TtsRequest) -> (r: Result<(), ApiError>)
    ensures
        match r {
            Ok(_) => fault_of(*req, max_chars as nat) is None,
            Err(e) => fault_of(*req, max_chars as nat) == Some((e.status, e.detail@)),
        },
{
    if is_only_space(req.text.as_str()) {
        return Err(bad(400, "text is empty"));
    }
    let n: usize = req.text.as_str().unicode_len();
    if n > max_chars {
        let mut detail = cat("text too long: ", number_text(n).as_str());
        detail.append(" chars > max_chars=");
        detail.append(number_text(max_chars).as_str());
        detail.append(". Split into multiple requests.");
        return Err(ApiError { status: 413, detail });
    }
    let mode = req.mode.as_str();
    if str_eq(mode, "instruct") || str_eq(mode, "cross_lingual") {
        let detail = cat3("mode='", mode, "' is not implemented — only 'zero_shot'. There is no instruction-prompt path.");
        return Err(ApiError { status: 501, detail });
    }
    if !str_eq(mode, "zero_shot") {
        let detail = cat3("unknown mode '", mode, "'");
        return Err(ApiError { status: 400, detail });
    }
    match &req.other_speed {
        Some(speed) => {
            let detail = cat3(
                "speed=",
                speed.as_str(),
                " is not implemented — the server synthesizes at 1.0 only, and returning unmodified audio would misreport the request as honoured.",
            );
            return Err(ApiError { status: 501, detail });
        },
        None => {},
    }
    if req.instruct_text.is_some() {
        return Err(
            bad(501, "instruct_text is not implemented (mode='instruct' is unsupported)"),
        );
    }
    Ok(())
}

/// Which voice a request runs with.
pub enum VoiceChoice {
    /// The one that the server was started with.
    Default,
    /// The asset of this name.
    Load(String),
}

/// The voice that a request runs with: the one it named, else the default of the server. An
/// engine that cannot clone refuses a named voice before any text is looked at.
pub fn request_voice(named: &Option<String>, can_clone: bool, engine: &str) -> (r: Result<
    VoiceChoice,
    ApiError,
>)
    ensures
        match r {
            Ok(VoiceChoice::Default) => named is None,
            Ok(VoiceChoice::Load(v)) => can_clone && opt_chars(*named) == Some(v@),
            Err(e) => named is Some && !can_clone && is_error(
                e,
                400,
                "engine `"@ + engine@ + "` cannot clone, so it takes no voice asset"@,
            ),
        },
{
    match named {
        None => Ok(VoiceChoice::Default),
        Some(v) => if can_clone {
            Ok(VoiceChoice::Load(v.clone()))
        } else {
            let detail = cat3("engine `", engine, "` cannot clone, so it takes no voice asset");
            Err(ApiError { status: 400, detail })
        },
    }
}

/// A setting of the form `key=value`, cut at the first equals sign. Nothing without one.
pub fn parse_override(s: &str) -> (r: Option<(String, String)>)
    ensures
        match r {
            Some(p) => first_index(s@, '=') < s@.len() && p.0@ == s@.take(first_index(s@, '='))
                && p.1@ == s@.skip(first_index(s@, '=') + 1),
            None => !s@.contains('='),
        },
{
    let c = chars_of(s);
    let n: usize = c.len();
    let i: usize = index_of_char(&c, '=');
    proof {
        first_index_bounds(s@, '=');
    }
    if i == n {
        return None;
    }
    let key = string_of(&c, 0, i);
    let value = string_of(&c, i + 1, n);
    assert(value@ =~= s@.skip(i + 1));
    Some((key, value))
}

// ---------------------------------------------------------------- pages

/// What a character is written as in element text and double-quoted attributes.
pub open spec fn html_char(c: char) -> Seq<char> {
    if c == '&' {
        "&amp;"@
    } else if c == '<' {
        "&lt;"@
    } else if c == '>' {
        "&gt;"@
    } else if c == '"' {
        "&quot;"@
    } else if c == '\'' {
        "&#39;"@
    } else {
        seq![c]
    }
}

/// A text as it is written in HTML.
pub open spec fn html_text(s: Seq<char>) -> Seq<char>
    decreases s.len(),
{
    if s.len() == 0 {
        Seq::empty()
    } else {
        html_text(s.drop_last()) + html_char(s.last())
    }
}

/// Escapes the five characters that matter in element text and double-quoted attributes.
pub fn escape_html(s: &str) -> (r: String)
    ensures
        r@ == html_text(s@),
{
    let c = chars_of(s);
    let mut out = String::new();
    let mut i: usize = 0;
    while i < c.len()
        invariant
            i <= c@.len(),
            out@ == html_text(c@.take(i as int)),
        decreases c.len() - i,
    {
        assert(c@.take(i + 1).drop_last() =~= c@.take(i as int));
        let ghost before = out@;
        if c[i] == '&' {
            out.append("&amp;");
        } else if c[i] == '<' {
            out.append("&lt;");
        } else if c[i] == '>' {
            out.append("&gt;");
        } else if c[i] == '"' {
            out.append("&quot;");
        } else if c[i] == '\'' {
            out.append("&#39;");
        } else {
            out.push(c[i]);
            assert(out@ =~= before + seq![c@[i as int]]);
        }
        i = i + 1;
    }
    assert(c@.take(i as int) =~= c@);
    out
}

/// What a pair of a query says of the format: HTML or not, where it speaks of it.
pub open spec fn format_of(pair: Seq<char>) -> Option<bool> {
    let i = first_index(pair, '=');
    if i < pair.len() && pair.take(i) == "format"@ {
        Some(pair.skip(i + 1) == "html"@)
    } else {
        None
    }
}

/// What the first pair from number `i` on that speaks of the format says.
pub open spec fn format_from(pairs: Seq<Seq<char>>, i: int) -> Option<bool>
    decreases pairs.len() - i,
{
    if i < 0 || i >= pairs.len() {
        None
    } else if format_of(pairs[i]) is Some {
        format_of(pairs[i])
    } else {
        format_from(pairs, i + 1)
    }
}

/// Whether `part` stands somewhere in `s`.
pub open spec fn stands_in(part: Seq<char>, s: Seq<char>) -> bool {
    exists|i: int| 0 <= i <= s.len() - part.len() && #[trigger] s.subrange(i, i + part.len()) == part
}

/// Whether a text holds another.
pub fn contains_text(s: &str, part: &str) -> (r: bool)
    ensures
        r == stands_in(part@, s@),
{
    let n: usize = s.unicode_len();
    let m: usize = part.unicode_len();
    if n < m {
        return false;
    }
    let mut i: usize = 0;
    loop
        invariant
            m <= n,
            i <= n - m,
            n == s@.len(),
            m == part@.len(),
            forall|k: int| 0 <= k < i ==> #[trigger] s@.subrange(k, k + part@.len()) != part@,
        decreases n - m - i,
    {
        if str_eq(s.substring_char(i, i + m), part) {
            assert(s@.subrange(i as int, i + part@.len()) == part@);
            return true;
        }
        if i == n - m {
            return false;
        }
        i = i + 1;
    }
}

/// Which representation of the root page a client gets. The query wins, because a browser
/// cannot easily send another `Accept` and a script should not have to. Otherwise HTML goes
/// only to a client that asked for it by name: a wildcard means anything, and for a machine
/// that is JSON.
pub fn wants_html(accept: Option<&str>, query: &str) -> (r: bool)
    ensures
        r == (match format_from(split_on(query@, '&'), 0) {
            Some(html) => html,
            None => accept is Some && stands_in("text/html"@, accept.unwrap()@),
        }),
{
    let pairs = split_at_char(&chars_of(query), '&');
    let ghost named = split_on(query@, '&');
    let mut i: usize = 0;
    while i < pairs.len()
        invariant
            i <= pairs@.len(),
            strings(pairs@) == named,
            named == split_on(query@, '&'),
            format_from(named, 0) == format_from(named, i as int),
        decreases pairs.len() - i,
    {
        let pair = chars_of(pairs[i].as_str());
        assert(named[i as int] == pair@);
        let n: usize = pair.len();
        let at: usize = index_of_char(&pair, '=');
        if at < n {
            let key = string_of(&pair, 0, at);
            assert(key@ =~= pair@.take(at as int));
            if str_eq(key.as_str(), "format") {
                let value = string_of(&pair, at + 1, n);
                assert(value@ =~= pair@.skip(at + 1));
                return str_eq(value.as_str(), "html");
            }
        }
        i = i + 1;
    }
    match accept {
        Some(a) => contains_text(a, "text/html"),
        None => false,
    }
}

/// Names with a comma and a space between each two.
pub open spec fn listed(v: Seq<Seq<char>>) -> Seq<char>
    decreases v.len(),
{
    if v.len() == 0 {
        Seq::empty()
    } else if v.len() == 1 {
        v[0]
    } else {
        listed(v.drop_last()) + ", "@ + v.last()
    }
}

/// Names with a comma and a space between each two.
pub fn list_names(v: &Vec<String>) -> (r: String)
    ensures
        r@ == listed(strings(v@)),
{
    let ghost all = strings(v@);
    let mut out = String::new();
    let mut i: usize = 0;
    while i < v.len()
        invariant
            i <= v@.len(),
            all == strings(v@),
            out@ == listed(all.take(i as int)),
        decreases v.len() - i,
    {
        assert(all.take(i + 1).drop_last() =~= all.take(i as int));
        assert(all.take(i + 1).last() == v@[i as int]@);
        if i > 0 {
            out.append(", ");
        }
        out.append(v[i].as_str());
        assert(out@ =~= listed(all.take(i + 1)));
        i = i + 1;
    }
    assert(all.take(i as int) =~= all);
    out
}

/// What the root page says of a server, as it is written in HTML.
pub struct PageTexts {
    pub languages: String,
    pub auth: String,
    pub config: String,
    pub voice: String,
    pub streaming: String,
    pub addr: String,
}

/// What the root page says of the languages of an engine: a closed list, or any.
pub open spec fn languages_text(languages: Option<Seq<Seq<char>>>) -> Seq<char> {
    match languages {
        Some(v) => listed(v) + " <em>(closed list)</em>"@,
        None => "unrestricted"@,
    }
}

/// What the root page says of authentication.
pub open spec fn auth_text(has_key: bool) -> Seq<char> {
    if has_key {
        "<span class=\"ok\">required</span> — send <code>X-API-Key</code>"@
    } else {
        "<span class=\"warn\">no key configured</span> — authenticated routes answer 503"@
    }
}

/// What the root page says of the settings file. A path may hold anything, so it is escaped.
pub open spec fn config_text(path: Option<Seq<char>>) -> Seq<char> {
    match path {
        Some(p) => "<code>"@ + html_text(p) + "</code>"@,
        None => "none — built-in defaults"@,
    }
}

/// The texts of the root page. Paths are the only values that a caller can influence, and they
/// are escaped.
pub fn page_texts(
    languages: Option<&Vec<String>>,
    has_key: bool,
    config: Option<&str>,
    voice: &str,
    streams: bool,
    port: u16,
) -> (r: PageTexts)
    ensures
        r.languages@ == languages_text(
            match languages {
                Some(v) => Some(strings(v@)),
                None => None,
            },
        ),
        r.auth@ == auth_text(has_key),
        r.config@ == config_text(opt_str(config)),
        r.voice@ == html_text(voice@),
        r.streaming@ == (if streams {
            "yes"@
        } else {
            "not implemented"@
        }),
        r.addr@ == "127.0.0.1:"@ + decimal_text(port as nat),
{
    let n = number_text(port as usize);
    PageTexts {
        languages: match languages {
            Some(v) => {
                let names = list_names(v);
                cat(names.as_str(), " <em>(closed list)</em>")
            },
            None => "unrestricted".to_owned(),
        },
        auth: if has_key {
            "<span class=\"ok\">required</span> — send <code>X-API-Key</code>".to_owned()
        } else {
            "<span class=\"warn\">no key configured</span> — authenticated routes answer 503".to_owned()
        },
        config: match config {
            Some(p) => {
                let path = escape_html(p);
                cat3("<code>", path.as_str(), "</code>")
            },
            None => "none — built-in defaults".to_owned(),
        },
        voice: escape_html(voice),
        streaming: if streams {
            "yes".to_owned()
        } else {
            "not implemented".to_owned()
        },
        addr: cat("127.0.0.1:", n.as_str()),
    }
}

/// The text that an escaped text stands for.
pub open spec fn html_read(s: Seq<char>) -> Seq<char>
    decreases s.len(),
{
    if s.len() == 0 {
        Seq::empty()
    } else if s.len() >= 5 && s.take(5) == "&amp;"@ {
        seq!['&'] + html_read(s.skip(5))
    } else if s.len() >= 4 && s.take(4) == "&lt;"@ {
        seq!['<'] + html_read(s.skip(4))
    } else if s.len() >= 4 && s.take(4) == "&gt;"@ {
        seq!['>'] + html_read(s.skip(4))
    } else if s.len() >= 6 && s.take(6) == "&quot;"@ {
        seq!['"'] + html_read(s.skip(6))
    } else if s.len() >= 5 && s.take(5) == "&#39;"@ {
        seq!['\''] + html_read(s.skip(5))
    } else {
        seq![s[0]] + html_read(s.skip(1))
    }
}

/// Escaping goes piece by piece: two texts escaped apart make up their sum escaped.
pub proof fn escaping_goes_by_pieces(a: Seq<char>, b: Seq<char>)
    ensures
        html_text(a + b) == html_text(a) + html_text(b),
    decreases b.len(),
{
    if b.len() == 0 {
        assert(a + b =~= a);
        assert(html_text(a) + html_text(b) =~= html_text(a));
    } else {
        escaping_goes_by_pieces(a, b.drop_last());
        assert((a + b).drop_last() =~= a + b.drop_last());
        assert(html_text(a + b) =~= html_text(a) + html_text(b));
    }
}

/// Escaping can be undone: an escaped text reads back as what it was.
pub proof fn escaping_is_undone(s: Seq<char>)
    ensures
        html_read(html_text(s)) == s,
    decreases s.len(),
{
    if s.len() > 0 {
        let c = s[0];
        let rest = s.skip(1);
        escaping_is_undone(rest);
        assert(s =~= seq![c] + rest);
        escaping_goes_by_pieces(seq![c], rest);
        assert(seq![c].drop_last() =~= Seq::<char>::empty());
        assert(html_text(Seq::<char>::empty()) =~= Seq::<char>::empty());
        assert(html_text(seq![c]) =~= html_char(c));
        one_escape_is_undone(c, html_text(rest));
    }
}

proof fn one_escape_is_undone(c: char, rest: Seq<char>)
    ensures
        html_read(html_char(c) + rest) == seq![c] + html_read(rest),
{
    reveal_strlit("&amp;");
    reveal_strlit("&lt;");
    reveal_strlit("&gt;");
    reveal_strlit("&quot;");
    reveal_strlit("&#39;");
    let h = html_char(c);
    let s = h + rest;
    let n = h.len() as int;
    assert(s.take(n) =~= h);
    assert(s.skip(n) =~= rest);
    assert(s[0] == h[0]);
    if s.len() >= 4 {
        assert(s.take(4)[0] == h[0]);
        if h[0] == '&' {
            assert(s.take(4)[1] == h[1]);
        }
    }
    if s.len() >= 5 {
        assert(s.take(5)[0] == h[0]);
        if h[0] == '&' {
            assert(s.take(5)[1] == h[1]);
        }
    }
    if s.len() >= 6 {
        assert(s.take(6)[0] == h[0]);
    }
}

/// A character that would end an element text or a quoted attribute.
pub open spec fn breaks_out(c: char) -> bool {
    c == '<' || c == '>' || c == '"' || c == '\''
}

/// Nothing that was escaped can end the text that it stands in.
pub proof fn escaped_text_stays_inside(s: Seq<char>, i: int)
    requires
        0 <= i < html_text(s).len(),
    ensures
        !breaks_out(html_text(s)[i]),
    decreases s.len(),
{
    let before = html_text(s.drop_last());
    if i < before.len() {
        escaped_text_stays_inside(s.drop_last(), i);
        assert(html_text(s)[i] == before[i]);
    } else {
        reveal_strlit("&amp;");
        reveal_strlit("&lt;");
        reveal_strlit("&gt;");
        reveal_strlit("&quot;");
        reveal_strlit("&#39;");
        let c = s.last();
        let k = i - before.len();
        assert(html_text(s)[i] == html_char(c)[k]);
        if c == '&' {
            assert(html_char(c).len() == 5);
        } else if c == '<' || c == '>' {
            assert(html_char(c).len() == 4);
        } else if c == '"' {
            assert(html_char(c).len() == 6);
        } else if c == '\'' {
            assert(html_char(c).len() == 5);
        } else {
            assert(k == 0);
        }
    }
}

} // verus!
