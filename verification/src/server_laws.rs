//! What the server refuses, whom it lets in and what it sends.

use crate::api::{
    configured_key, decimal_text, fault_of, format_from, format_of, html_char, html_text,
    is_bearer, seed_of, sent_key, TtsRequest,
};
use crate::batch::Gaps;
use crate::settings::{chosen_limit, chosen_port, port_of, setting_from};
use crate::space::{only_space, trimmed};
use crate::stream::{stream_parts, with_sentences, StreamView};
use crate::text::{all_digits, digits_value, is_digit};
use vstd::prelude::*;

verus! {

proof fn modes_are_apart()
    ensures
        "zero_shot"@.len() == 9,
        "instruct"@.len() == 8,
        "cross_lingual"@.len() == 13,
{
    reveal_strlit("zero_shot");
    reveal_strlit("instruct");
    reveal_strlit("cross_lingual");
}

/// A request is spoken exactly where its text is not blank and not too long, its mode is the one
/// that there is, and it asks for neither another speed nor an instruction.
pub proof fn what_is_spoken(r: TtsRequest, max_chars: nat)
    ensures
        fault_of(r, max_chars) is None <==> {
            &&& !only_space(r.text@)
            &&& r.text@.len() <= max_chars
            &&& r.mode@ == "zero_shot"@
            &&& r.other_speed is None
            &&& r.instruct_text is None
        },
{
    modes_are_apart();
}

/// The first fault decides the answer: a blank text 400 before anything else, then a long one 413,
/// then a mode that is known but not there 501 and one that is unknown 400, then another speed or an
/// instruction 501.
pub proof fn what_is_refused(r: TtsRequest, max_chars: nat)
    requires
        fault_of(r, max_chars) is Some,
    ensures
        ({
            let status = fault_of(r, max_chars).unwrap().0;
            let blank = only_space(r.text@);
            let long = r.text@.len() > max_chars;
            let missing = r.mode@ == "instruct"@ || r.mode@ == "cross_lingual"@;
            &&& blank ==> fault_of(r, max_chars) == Some((400u16, "text is empty"@))
            &&& !blank && long ==> status == 413
            &&& !blank && !long && missing ==> status == 501
            &&& !blank && !long && !missing && r.mode@ != "zero_shot"@ ==> status == 400
            &&& !blank && !long && r.mode@ == "zero_shot"@ ==> status == 501
        }),
{
    modes_are_apart();
}

/// The digits of a number write it, and without a zero in front.
pub proof fn digits_write_the_number(n: nat)
    ensures
        decimal_text(n).len() > 0,
        all_digits(decimal_text(n)),
        digits_value(decimal_text(n)) == n,
        n > 0 ==> decimal_text(n)[0] != '0',
    decreases n,
{
    let s = decimal_text(n);
    let c = (48 + n % 10) as u8 as char;
    assert(c as u32 == 48 + n % 10) by {
        let d = (48 + n % 10) as u8;
        assert(d == 48 + n % 10);
    }
    assert(is_digit(c));
    if n < 10 {
        assert(s.drop_last() =~= Seq::<char>::empty());
        assert(digits_value(Seq::<char>::empty()) == 0);
        assert(s.last() == c);
        assert(s[0] == c);
    } else {
        digits_write_the_number(n / 10);
        let t = decimal_text(n / 10);
        assert(s.drop_last() =~= t);
        assert(s.last() == c);
        assert(s[0] == t[0]);
        assert forall|i: int| 0 <= i < s.len() implies is_digit(#[trigger] s[i]) by {
            if i < t.len() {
                assert(s[i] == t[i]);
            }
        }
    }
}

/// The bearer scheme is known in small letters, in capitals and mixed, by its seven characters
/// alone.
pub proof fn the_scheme_has_no_case(v: Seq<char>)
    requires
        v.len() >= 7,
        v[0] == 'b' || v[0] == 'B',
        v[1] == 'e' || v[1] == 'E',
        v[2] == 'a' || v[2] == 'A',
        v[3] == 'r' || v[3] == 'R',
        v[4] == 'e' || v[4] == 'E',
        v[5] == 'r' || v[5] == 'R',
        v[6] == ' ',
    ensures
        is_bearer(v),
        sent_key(Some(v), None) == Some(trimmed(v.skip(7))),
        forall|k: Seq<char>| sent_key(Some(v), Some(k)) == Some(trimmed(v.skip(7))),
{
    reveal_strlit("bearer ");
    let t = v.take(7).map_values(|c: char| crate::unicode::ascii_lower(c));
    assert(('B' as u32 + 32) as u8 as char == 'b');
    assert(('E' as u32 + 32) as u8 as char == 'e');
    assert(('A' as u32 + 32) as u8 as char == 'a');
    assert(('R' as u32 + 32) as u8 as char == 'r');
    assert(t =~= "bearer "@);
}

/// Without the bearer scheme the key comes from its own header, or not at all.
pub proof fn keys_have_a_header(authorization: Option<Seq<char>>, key: Seq<char>)
    requires
        authorization is Some ==> !is_bearer(authorization.unwrap()),
    ensures
        sent_key(authorization, Some(key)) == Some(trimmed(key)),
        sent_key(authorization, None) is None,
{
}

/// The first source that is there gives the server its key, and no other is asked, even where
/// nothing but white space is found.
pub proof fn the_first_source_counts(
    a: Seq<char>,
    second: Option<Seq<char>>,
    file: Option<Seq<char>>,
)
    ensures
        only_space(a) ==> configured_key(Some(a), second, file) is None,
        !only_space(a) ==> configured_key(Some(a), second, file) == Some(trimmed(a)),
        configured_key(None, Some(a), file) == configured_key(Some(a), None, None),
        configured_key(None, None, Some(a)) == configured_key(Some(a), None, None),
        configured_key(None, None, None) is None,
{
    crate::space::blank_texts_trim_to_nothing(a);
}

/// A seed or a port is a run of digits, with white space around a seed and a plus in front at most.
pub proof fn numbers_from_outside(d: Seq<char>)
    requires
        d.len() > 0,
        all_digits(d),
    ensures
        digits_value(d) <= u64::MAX ==> seed_of(Some(d)) == Some(digits_value(d) as u64),
        digits_value(d) > u64::MAX ==> seed_of(Some(d)) is None,
        digits_value(d) <= 65535 ==> port_of(Some(d)) == Some(digits_value(d) as u16),
        digits_value(d) > 65535 ==> port_of(Some(d)) is None,
        port_of(None) is None,
        seed_of(None) is None,
{
    assert(is_digit(d[0]));
    assert(is_digit(d[d.len() - 1]));
    assert(crate::space::leading_space(d) == 0);
    assert(d.skip(0) =~= d);
    assert(crate::space::trimmed_end(d) == d.len());
    assert(trimmed(d) =~= d);
}

/// The first pair of a query that speaks of the format decides, and no other pair matters.
pub proof fn the_first_format_counts(pairs: Seq<Seq<char>>, k: int)
    requires
        0 <= k < pairs.len(),
        format_of(pairs[k]) is Some,
        forall|i: int| 0 <= i < k ==> format_of(#[trigger] pairs[i]) is None,
    ensures
        format_from(pairs, 0) == format_of(pairs[k]),
{
    format_at(pairs, 0, k);
}

proof fn format_at(pairs: Seq<Seq<char>>, i: int, k: int)
    requires
        0 <= i <= k < pairs.len(),
        format_of(pairs[k]) is Some,
        forall|j: int| i <= j < k ==> format_of(#[trigger] pairs[j]) is None,
    ensures
        format_from(pairs, i) == format_of(pairs[k]),
    decreases k - i,
{
    if i < k {
        assert(format_of(pairs[i]) is None);
        format_at(pairs, i + 1, k);
    }
}

/// A pair speaks of the format where its name is "format", and asks for HTML where its value is
/// exactly that.
pub proof fn formats_are_named(value: Seq<char>, name: Seq<char>)
    ensures
        format_of("format="@ + value) == Some(value == "html"@),
        !name.contains('=') && name != "format"@ ==> format_of(name + seq!['='] + value) is None,
        !name.contains('=') ==> format_of(name) is None,
{
    reveal_strlit("format=");
    reveal_strlit("format");
    let s = "format="@ + value;
    index_is(s, 6);
    assert(s.take(6) =~= "format"@);
    assert(s.skip(7) =~= value);
    if !name.contains('=') {
        let t = name + seq!['='] + value;
        let n = name.len() as int;
        assert forall|i: int| 0 <= i < n implies #[trigger] t[i] != '=' by {
            assert(t[i] == name[i]);
        }
        index_is(t, n);
        assert(t.take(n) =~= name);
        crate::text::first_index_bounds(name, '=');
        if crate::text::first_index(name, '=') < n {
            assert(name[crate::text::first_index(name, '=')] == '=');
        }
    }
}

proof fn index_is(s: Seq<char>, n: int)
    requires
        0 <= n < s.len(),
        s[n] == '=',
        forall|i: int| 0 <= i < n ==> #[trigger] s[i] != '=',
    ensures
        crate::text::first_index(s, '=') == n,
{
    crate::text::first_index_bounds(s, '=');
    let m = crate::text::first_index(s, '=');
    if m < n {
        assert(s[m] != '=');
    }
    if m > n {
        assert(s[n] == '=');
    }
}

/// The first setting of a key counts.
pub proof fn the_first_setting_counts(v: Seq<(String, String)>, key: Seq<char>, k: int, i: int)
    requires
        0 <= i <= k < v.len(),
        v[k].0@ == key,
        forall|j: int| i <= j < k ==> (#[trigger] v[j]).0@ != key,
    ensures
        setting_from(v, key, i) == Some(v[k].1@),
    decreases k - i,
{
    if i < k {
        assert(v[i].0@ != key);
        the_first_setting_counts(v, key, k, i + 1);
    }
}

proof fn sentences_follow(
    before: Seq<StreamView>,
    sentences: Seq<String>,
    j: int,
    gaps: Gaps,
)
    requires
        0 <= j <= sentences.len(),
    ensures
        ({
            let r = with_sentences(before, sentences, j, gaps);
            &&& r.len() == before.len() + j
            &&& forall|i: int| 0 <= i < before.len() ==> #[trigger] r[i] == before[i]
            &&& forall|i: int|
                before.len() <= i < r.len() ==> (#[trigger] r[i]).text == sentences[i
                    - before.len()]@ && r[i].gap_ms == (if i == 0 {
                    0
                } else if i == before.len() {
                    gaps.paragraph_ms
                } else {
                    gaps.segment_ms
                })
        }),
    decreases j,
{
    if j > 0 {
        sentences_follow(before, sentences, j - 1, gaps);
    }
}

/// A paragraph adds one part for each of its sentences, in order, and changes none before it. The
/// very first part follows no silence, the first of every other paragraph that of a paragraph, and
/// any other part that of a segment.
pub proof fn silences_of_a_stream(paragraphs: Seq<Vec<String>>, n: int, gaps: Gaps, i: int)
    requires
        0 <= n < paragraphs.len(),
        0 <= i < stream_parts(paragraphs, n + 1, gaps).len(),
    ensures
        ({
            let before = stream_parts(paragraphs, n, gaps);
            let all = stream_parts(paragraphs, n + 1, gaps);
            &&& all.len() == before.len() + paragraphs[n]@.len()
            &&& i < before.len() ==> all[i] == before[i]
            &&& i >= before.len() ==> all[i].text == paragraphs[n]@[i - before.len()]@
            &&& i == 0 && before.len() == 0 ==> all[i].gap_ms == 0
            &&& i > 0 && i == before.len() ==> all[i].gap_ms == gaps.paragraph_ms
            &&& i > before.len() ==> all[i].gap_ms == gaps.segment_ms
        }),
{
    let before = stream_parts(paragraphs, n, gaps);
    let s = paragraphs[n]@;
    sentences_follow(before, s, s.len() as int, gaps);
}

/// What a server is told outright comes before what its surroundings say, that before what its
/// file says, and that before port 3003 or the limit that it comes with.
pub proof fn the_nearer_setting_wins(
    p: u16,
    q: u16,
    n: usize,
    m: usize,
    default: usize,
    env: Option<Seq<char>>,
    config: Option<u16>,
    limit: Option<usize>,
)
    ensures
        chosen_port(Some(p), env, config) == p,
        port_of(env) == Some(q) ==> chosen_port(None, env, config) == q,
        port_of(env) is None ==> chosen_port(None, env, Some(p)) == p,
        port_of(env) is None ==> chosen_port(None, env, None) == 3003,
        chosen_limit(Some(n), limit, default) == n,
        chosen_limit(None, Some(m), default) == m,
        chosen_limit(None, None, default) == default,
{
}

/// The five characters that mean something in a page are written as their entities, and every
/// other character as itself.
pub proof fn pages_write_entities(c: char)
    ensures
        html_text(seq!['&']) == "&amp;"@,
        html_text(seq!['<']) == "&lt;"@,
        html_text(seq!['>']) == "&gt;"@,
        html_text(seq!['"']) == "&quot;"@,
        html_text(seq!['\'']) == "&#39;"@,
        c != '&' && c != '<' && c != '>' && c != '"' && c != '\'' ==> html_text(seq![c]) == seq![c],
{
    one_character('&');
    one_character('<');
    one_character('>');
    one_character('"');
    one_character('\'');
    one_character(c);
}

proof fn one_character(c: char)
    ensures
        html_text(seq![c]) == html_char(c),
{
    assert(seq![c].drop_last() =~= Seq::<char>::empty());
    assert(html_text(Seq::<char>::empty()) =~= Seq::<char>::empty());
    assert(html_text(seq![c]) =~= html_char(c));
}

} // verus!
