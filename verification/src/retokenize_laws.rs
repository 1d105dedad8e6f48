//! How tokens become words: what is settled on the way, and what is kept together.

use crate::mtoken::MTokenView;
use crate::retokenize::{
    is_open, marked, number_follows, parts_of, puncts_in, take_parts, take_tokens, two_between_letters, with_token,
    WordView,
};
use fancy_regex::Regex;
use vstd::prelude::*;

verus! {

/// A token whose sound is settled.
pub open spec fn is_settled(t: MTokenView) -> bool {
    t.alias is Some || t.phonemes is Some
}

/// A text that is more than ASCII letters.
pub open spec fn not_just_letters(s: Seq<char>) -> bool {
    exists|i: int|
        0 <= i < s.len() && {
            let c = #[trigger] s[i] as u32;
            !(97 <= c <= 122) && !(65 <= c <= 90)
        }
}

proof fn letters_are_told(s: Seq<char>)
    ensures
        not_just_letters(s) <==> !crate::retokenize::letters_only(s),
{
    if !crate::retokenize::letters_only(s) {
        let i = choose|i: int|
            0 <= i < s.len() && !(crate::text::is_small(#[trigger] s[i]) || crate::text::is_capital(
                s[i],
            ));
        assert(s[i] as u32 == s[i] as u32);
    }
}

proof fn tags_are_spelt()
    ensures
        "$"@ == seq!['$'],
        ":"@ == seq![':'],
        "."@ == seq!['.'],
        ","@ == seq![','],
        "#"@ == seq!['#'],
        "``"@ == seq!['`', '`'],
        "''"@ == seq!['\'', '\''],
        "\"\""@ == seq!['"', '"'],
        "-LRB-"@ == seq!['-', 'L', 'R', 'B', '-'],
        "-RRB-"@ == seq!['-', 'R', 'R', 'B', '-'],
        "NFP"@ == seq!['N', 'F', 'P'],
        "CD"@ == seq!['C', 'D'],
{
    reveal_strlit("$");
    reveal_strlit(":");
    reveal_strlit(".");
    reveal_strlit(",");
    reveal_strlit("#");
    reveal_strlit("``");
    reveal_strlit("''");
    reveal_strlit("\"\"");
    reveal_strlit("-LRB-");
    reveal_strlit("-RRB-");
    reveal_strlit("NFP");
    reveal_strlit("CD");
}

/// A part whose sound is settled passes unchanged, and leaves an open currency open.
pub proof fn settled_parts_pass(
    parts: Seq<MTokenView>,
    j: int,
    currency: Option<Seq<char>>,
    number_next: bool,
)
    requires
        is_settled(parts[j]),
    ensures
        marked(parts, j, currency, number_next) == (parts[j], currency),
{
}

/// A currency sign is silent where it stands and opens its currency; three signs are known.
pub proof fn currency_signs_open_a_currency(
    parts: Seq<MTokenView>,
    j: int,
    currency: Option<Seq<char>>,
    number_next: bool,
)
    requires
        !is_settled(parts[j]),
        parts[j].tag == "$"@,
        parts[j].text == "$"@ || parts[j].text == "£"@ || parts[j].text == "€"@,
    ensures
        ({
            let (t, open) = marked(parts, j, currency, number_next);
            &&& t.phonemes == Some(Seq::<char>::empty())
            &&& t.rating == Some(4u8)
            &&& t.text == parts[j].text
            &&& open == Some(parts[j].text)
        }),
{
}

/// A hyphen or dash between clauses is spoken as a dash.
pub proof fn dashes_are_spoken(
    parts: Seq<MTokenView>,
    j: int,
    currency: Option<Seq<char>>,
    number_next: bool,
)
    requires
        !is_settled(parts[j]),
        parts[j].tag == ":"@,
        parts[j].text == "-"@ || parts[j].text == "–"@,
    ensures
        ({
            let (t, open) = marked(parts, j, currency, number_next);
            &&& t.phonemes == Some("—"@)
            &&& t.rating == Some(3u8)
            &&& open == currency
        }),
{
    tags_are_spelt();
    assert(seq![':'][0] != seq!['$'][0]);
}

/// Brackets and quotation marks have the sound of their tag, whatever their text, as long as it is
/// more than letters.
pub proof fn brackets_and_quotes_go_by_the_tag(
    parts: Seq<MTokenView>,
    j: int,
    currency: Option<Seq<char>>,
    number_next: bool,
)
    requires
        !is_settled(parts[j]),
        not_just_letters(parts[j].text),
    ensures
        ({
            let (t, open) = marked(parts, j, currency, number_next);
            let tag = parts[j].tag;
            &&& tag == "-LRB-"@ ==> t.phonemes == Some("("@) && t.rating == Some(4u8)
            &&& tag == "-RRB-"@ ==> t.phonemes == Some(")"@) && t.rating == Some(4u8)
            &&& tag == "``"@ ==> t.phonemes == Some("“"@) && t.rating == Some(4u8)
            &&& tag == "''"@ ==> t.phonemes == Some("”"@) && t.rating == Some(4u8)
            &&& tag == "\"\""@ ==> t.phonemes == Some("”"@) && t.rating == Some(4u8)
            &&& (tag == "-LRB-"@ || tag == "-RRB-"@ || tag == "``"@ || tag == "''"@ || tag
                == "\"\""@) ==> open == currency
        }),
{
    tags_are_spelt();
    letters_are_told(parts[j].text);
    let tag = parts[j].tag;
    assert("-LRB-"@.len() == 5 && "-RRB-"@.len() == 5 && "-LRB-"@[1] == 'L' && "-RRB-"@[1] == 'R');
    assert("``"@.len() == 2 && "``"@[0] == '`');
    assert("''"@.len() == 2 && "''"@[0] == '\'');
    assert("\"\""@.len() == 2 && "\"\""@[0] == '"');
    assert("$"@.len() == 1 && ":"@.len() == 1);
}

/// One of the characters of which the voice makes a pause or a tone.
pub open spec fn pausing(c: char) -> bool {
    c == ';' || c == ':' || c == ',' || c == '.' || c == '!' || c == '?' || c == '—' || c == '…' || c
        == '"' || c == '“' || c == '”'
}

proof fn pauses_are_listed(c: char)
    ensures
        crate::stress::PUNCTS@.contains(c) <==> pausing(c),
{
    reveal_strlit(";:,.!?—…\"“”");
    let p = ";:,.!?—…\"“”"@;
    assert(p[0] == ';' && p[1] == ':' && p[2] == ',' && p[3] == '.' && p[4] == '!' && p[5] == '?'
        && p[6] == '—' && p[7] == '…' && p[8] == '"' && p[9] == '“' && p[10] == '”');
    assert(p.len() == 11);
}

proof fn pauses_are_filtered(s: Seq<char>)
    ensures
        puncts_in(s) == s.filter(|c: char| pausing(c)),
    decreases s.len(),
{
    reveal(Seq::filter);
    if s.len() > 0 {
        pauses_are_filtered(s.drop_last());
        pauses_are_listed(s.last());
    } else {
        assert(puncts_in(s) =~= s.filter(|c: char| pausing(c)));
    }
}

/// Any other punctuation sounds as those of its characters that the voice can use.
pub proof fn punctuation_keeps_what_can_be_heard(
    parts: Seq<MTokenView>,
    j: int,
    currency: Option<Seq<char>>,
    number_next: bool,
)
    requires
        !is_settled(parts[j]),
        not_just_letters(parts[j].text),
        parts[j].tag == "."@ || parts[j].tag == ","@ || parts[j].tag == "#"@ || parts[j].tag
            == "NFP"@ || (parts[j].tag == ":"@ && parts[j].text != "-"@ && parts[j].text != "–"@),
    ensures
        ({
            let (t, open) = marked(parts, j, currency, number_next);
            &&& t.phonemes == Some(parts[j].text.filter(|c: char| pausing(c)))
            &&& t.rating == Some(4u8)
            &&& open == currency
        }),
{
    tags_are_spelt();
    letters_are_told(parts[j].text);
    pauses_are_filtered(parts[j].text);
    assert("-LRB-"@.len() == 5 && "-RRB-"@.len() == 5 && "``"@.len() == 2 && "''"@.len() == 2
        && "\"\""@.len() == 2 && "NFP"@.len() == 3);
    assert("$"@[0] == '$' && ":"@[0] == ':' && "."@[0] == '.' && ","@[0] == ',' && "#"@[0] == '#');
    assert("$"@.len() == 1);
}

/// One of the tags of punctuation, or of a currency sign.
pub open spec fn speechless(tag: Seq<char>) -> bool {
    tag == "."@ || tag == ","@ || tag == "-LRB-"@ || tag == "-RRB-"@ || tag == "``"@ || tag
        == "\"\""@ || tag == "''"@ || tag == ":"@ || tag == "$"@ || tag == "#"@ || tag == "NFP"@
}

/// An open currency goes to the last part of a number that no other number follows. A number in
/// front of another passes it on, and anything but a number closes it.
pub proof fn currencies_go_to_the_last_number(
    parts: Seq<MTokenView>,
    j: int,
    sign: Seq<char>,
    number_next: bool,
)
    requires
        !is_settled(parts[j]),
        !speechless(parts[j].tag),
    ensures
        ({
            let (t, open) = marked(parts, j, Some(sign), number_next);
            let last = j == parts.len() - 1 && !number_next;
            &&& parts[j].tag == "CD"@ && last ==> t.currency == Some(sign) && open == Some(sign)
            &&& parts[j].tag == "CD"@ && !last ==> t == parts[j] && open == Some(sign)
            &&& parts[j].tag != "CD"@ ==> t == parts[j] && open is None
            &&& t.phonemes is None
            &&& t.text == parts[j].text
        }),
{
}

/// Where no currency is open, a "2" between two letters is read as "to" and any other part stays as
/// it is.
pub proof fn a_two_between_letters_is_to(parts: Seq<MTokenView>, j: int, number_next: bool)
    requires
        0 <= j < parts.len(),
        !is_settled(parts[j]),
        !speechless(parts[j].tag),
    ensures
        ({
            let (t, open) = marked(parts, j, None, number_next);
            let between = 0 < j < parts.len() - 1 && parts[j].text == "2"@ && parts[j
                - 1].text.len() > 0 && crate::unicode::alphabetic(parts[j - 1].text.last())
                && parts[j + 1].text.len() > 0 && crate::unicode::alphabetic(parts[j + 1].text[0]);
            &&& open is None
            &&& between ==> t.alias == Some("to"@) && t.text == "2"@
            &&& !between ==> t == parts[j]
        }),
{
    assert(two_between_letters(parts, j) || !two_between_letters(parts, j));
}

/// The tokens of words, one after the other.
pub open spec fn tokens_in(words: Seq<WordView>) -> Seq<MTokenView>
    decreases words.len(),
{
    if words.len() == 0 {
        Seq::empty()
    } else {
        tokens_in(words.drop_last()) + (match words.last() {
            WordView::One(t) => seq![t],
            WordView::Many(g) => g,
        })
    }
}

/// A token goes behind all that came before it and nothing is lost: it is the same token, but for
/// heading no word where it continues one.
pub proof fn tokens_stay_in_order(words: Seq<WordView>, t: MTokenView)
    ensures
        ({
            let now = tokens_in(with_token(words, t));
            let before = tokens_in(words);
            &&& now.len() == before.len() + 1
            &&& now.take(before.len() as int) == before
            &&& now.last() == t || now.last() == (MTokenView { is_head: false, ..t })
        }),
{
    let r = with_token(words, t);
    let before = tokens_in(words);
    if !is_settled(t) && words.len() > 0 && is_open(words.last()) {
        let g = words.last()->Many_0;
        assert(r.drop_last() =~= words.drop_last());
        let now = tokens_in(r);
        assert(now =~= before.push(MTokenView { is_head: false, ..t }));
        assert(now.take(before.len() as int) =~= before);
    } else {
        assert(r.drop_last() =~= words);
        let now = tokens_in(r);
        assert(now =~= before.push(t));
        assert(now.take(before.len() as int) =~= before);
    }
}

/// A token continues the last word exactly where that is a group with no white space behind it and
/// the token's own sound is not settled; a settled token stands on its own.
pub proof fn space_divides_words(words: Seq<WordView>, t: MTokenView)
    ensures
        ({
            let r = with_token(words, t);
            let joins = !is_settled(t) && words.len() > 0 && (words.last() matches WordView::Many(g)
                && g.len() > 0 && g.last().whitespace.len() == 0);
            &&& (joins <==> r.len() == words.len())
            &&& !joins ==> r.len() == words.len() + 1
            &&& is_settled(t) ==> r.last() == WordView::One(t)
            &&& !joins && !is_settled(t) && t.whitespace.len() > 0 ==> r.last() == WordView::One(t)
            &&& !joins && !is_settled(t) && t.whitespace.len() == 0 ==> r.last() == WordView::Many(
                seq![t],
            )
        }),
{
}

/// Every part of a token that is cut carries the token's tag, stress and number flags; the parts
/// touch one another and the last has the white space of the token. A settled token stays whole.
pub proof fn parts_take_after_their_token(re: Regex, token: MTokenView, i: int)
    requires
        parts_of(re, token) is Some,
        0 <= i < parts_of(re, token).unwrap().len(),
    ensures
        ({
            let v = parts_of(re, token).unwrap();
            &&& is_settled(token) ==> v == seq![token]
            &&& v[i].tag == token.tag
            &&& v[i].stress == token.stress
            &&& v[i].num_flags == token.num_flags
            &&& !is_settled(token) ==> v[i].phonemes is None && v[i].alias is None && v[i].currency
                is None && v[i].rating is None && v[i].is_head && !v[i].prespace
            &&& i == v.len() - 1 ==> v[i].whitespace == token.whitespace
            &&& i < v.len() - 1 ==> v[i].whitespace.len() == 0
        }),
{
}

/// A token that is its own only part.
#[verifier::opaque]
pub open spec fn uncut(re: Regex, t: MTokenView) -> bool {
    !is_settled(t) && parts_of(re, t) == Some(seq![t])
}

proof fn one_step(
    re: Regex,
    tokens: Seq<MTokenView>,
    n: int,
    words: Seq<WordView>,
    currency: Option<Seq<char>>,
)
    requires
        0 <= n < tokens.len(),
        uncut(re, tokens[n]),
        take_tokens(re, tokens, n) == Some((words, currency)),
    ensures
        ({
            let (t, c) = marked(seq![tokens[n]], 0, currency, number_follows(tokens, n));
            take_tokens(re, tokens, n + 1) == Some((with_token(words, t), c))
        }),
{
    reveal(uncut);
    reveal_with_fuel(take_parts, 2);
    let parts = seq![tokens[n]];
    assert(take_parts(words, currency, parts, 0, number_follows(tokens, n)) == (words, currency));
}

/// A number behind an open currency, with the tokens that come before it.
proof fn number_step(
    re: Regex,
    tokens: Seq<MTokenView>,
    n: int,
    words: Seq<WordView>,
    sign: Seq<char>,
) -> (r: Seq<WordView>)
    requires
        0 <= n < tokens.len(),
        uncut(re, tokens[n]),
        tokens[n].tag == "CD"@,
        take_tokens(re, tokens, n) == Some((words, Some(sign))),
    ensures
        take_tokens(re, tokens, n + 1) == Some((r, Some(sign))),
        tokens_in(r).len() == tokens_in(words).len() + 1,
        tokens_in(r).take(tokens_in(words).len() as int) == tokens_in(words),
        tokens_in(r).last().currency == (if number_follows(tokens, n) {
            tokens[n].currency
        } else {
            Some(sign)
        }),
{
    reveal(uncut);
    numbers_are_spoken();
    one_step(re, tokens, n, words, Some(sign));
    currencies_go_to_the_last_number(seq![tokens[n]], 0, sign, number_follows(tokens, n));
    let t = marked(seq![tokens[n]], 0, Some(sign), number_follows(tokens, n)).0;
    tokens_stay_in_order(words, t);
    with_token(words, t)
}

proof fn sign_step(re: Regex, tokens: Seq<MTokenView>) -> (r: Seq<WordView>)
    requires
        0 < tokens.len(),
        uncut(re, tokens[0]),
        tokens[0].tag == "$"@,
        tokens[0].text == "$"@ || tokens[0].text == "£"@ || tokens[0].text == "€"@,
    ensures
        take_tokens(re, tokens, 1) == Some((r, Some(tokens[0].text))),
        tokens_in(r).len() == 1,
        tokens_in(r)[0].phonemes == Some(Seq::<char>::empty()),
{
    reveal(uncut);
    let none = Seq::<WordView>::empty();
    assert(take_tokens(re, tokens, 0) == Some((none, None::<Seq<char>>)));
    one_step(re, tokens, 0, none, None);
    currency_signs_open_a_currency(seq![tokens[0]], 0, None, number_follows(tokens, 0));
    let t = marked(seq![tokens[0]], 0, None, number_follows(tokens, 0)).0;
    assert(tokens_in(none) =~= Seq::<MTokenView>::empty());
    tokens_stay_in_order(none, t);
    with_token(none, t)
}

/// Of a currency sign and the numbers behind it, the sign falls silent and the last number takes
/// its currency; a number in front of another takes none.
pub proof fn amounts_take_the_sign_before_them(re: Regex, tokens: Seq<MTokenView>, n: int)
    requires
        1 <= n < tokens.len(),
        forall|i: int| 0 <= i <= n ==> uncut(re, #[trigger] tokens[i]),
        tokens[0].tag == "$"@,
        tokens[0].text == "$"@ || tokens[0].text == "£"@ || tokens[0].text == "€"@,
        forall|i: int| 1 <= i <= n ==> (#[trigger] tokens[i]).tag == "CD"@,
    ensures
        ({
            let r = take_tokens(re, tokens, n + 1);
            let v = tokens_in(r.unwrap().0);
            &&& r is Some
            &&& r.unwrap().1 == Some(tokens[0].text)
            &&& v.len() == n + 1
            &&& v[0].phonemes == Some(Seq::<char>::empty())
            &&& forall|i: int| 1 <= i < n ==> (#[trigger] v[i]).currency == tokens[i].currency
            &&& v[n].currency == (if n + 1 < tokens.len() && tokens[n + 1].tag == "CD"@ {
                tokens[n].currency
            } else {
                Some(tokens[0].text)
            })
        }),
    decreases n,
{
    let sign = tokens[0].text;
    let before = if n == 1 {
        assert(uncut(re, tokens[0]));
        sign_step(re, tokens)
    } else {
        amounts_take_the_sign_before_them(re, tokens, n - 1);
        take_tokens(re, tokens, n).unwrap().0
    };
    let now = number_step(re, tokens, n, before, sign);
    let u = tokens_in(before);
    let v = tokens_in(now);
    assert(forall|i: int| 0 <= i < n ==> #[trigger] v[i] == v.take(n)[i]);
    assert(forall|i: int| 0 <= i < n ==> #[trigger] v[i] == u[i]);
    assert(v[n] == v.last());
    if n > 1 {
        assert(tokens[n].tag == "CD"@);
    }
}

proof fn numbers_are_spoken()
    ensures
        !speechless("CD"@),
{
    tags_are_spelt();
    assert("CD"@.len() == 2 && "CD"@[0] == 'C');
    assert("$"@.len() == 1 && "``"@[0] == '`' && "''"@[0] == '\'' && "\"\""@[0] == '"');
    assert("."@.len() == 1 && ","@.len() == 1 && ":"@.len() == 1 && "#"@.len() == 1 && "NFP"@.len()
        == 3 && "-LRB-"@.len() == 5 && "-RRB-"@.len() == 5);
}

/// The parts of a text are what its matches cover, each as it stands, in their order.
pub proof fn parts_are_what_matches_cover(s: Seq<char>, ms: Seq<(nat, nat)>, i: int)
    requires
        crate::retokenize::cut_texts(s, ms) is Some,
        0 <= i < ms.len(),
    ensures
        ({
            let v = crate::retokenize::cut_texts(s, ms).unwrap();
            &&& v.len() == ms.len()
            &&& ms[i].0 <= ms[i].1 <= s.len()
            &&& v[i] == s.subrange(ms[i].0 as int, ms[i].1 as int)
        }),
    decreases ms.len(),
{
    let t = ms.drop_last();
    if i < t.len() {
        assert(t[i] == ms[i]);
        parts_are_what_matches_cover(s, t, i);
    } else if t.len() > 0 {
        parts_are_what_matches_cover(s, t, 0);
    } else {
        assert(crate::retokenize::cut_texts(s, t).unwrap().len() == 0);
    }
}

/// A text whose matches all lie inside it can be cut.
pub proof fn matches_inside_can_be_cut(s: Seq<char>, ms: Seq<(nat, nat)>)
    requires
        forall|i: int| 0 <= i < ms.len() ==> (#[trigger] ms[i]).0 <= ms[i].1 <= s.len(),
    ensures
        crate::retokenize::cut_texts(s, ms) is Some,
    decreases ms.len(),
{
    if ms.len() > 0 {
        let t = ms.drop_last();
        assert forall|i: int| 0 <= i < t.len() implies (#[trigger] t[i]).0 <= t[i].1 <= s.len() by {
            assert(t[i] == ms[i]);
        }
        matches_inside_can_be_cut(s, t);
        assert(ms[ms.len() - 1].0 <= ms[ms.len() - 1].1 <= s.len());
    }
}

/// A group of one part is a token on its own, and a longer one stays a group with all its parts.
pub proof fn groups_of_one_are_tokens(g: Seq<MTokenView>, t: MTokenView)
    ensures
        crate::retokenize::ungrouped(WordView::Many(seq![t])) == WordView::One(t),
        g.len() != 1 ==> crate::retokenize::ungrouped(WordView::Many(g)) == WordView::Many(g),
        crate::retokenize::ungrouped(WordView::One(t)) == WordView::One(t),
{
}

} // verus!
