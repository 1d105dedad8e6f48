use dream_tts::affix::doubled_before_ing;
use dream_tts::lexicon::{currency_symbol, symbol, Entry, Lexicon, TokenContext};
use dream_tts::numbers::is_ordinal_suffix;
use dream_tts::stress::{
    apply_stress, is_vowel, non_quote_punct, stress_weight, DEMOTE, LEVEL, LIFT, RAISE, SOFTEN, STRIP,
};

fn word(w: &str, ps: &str) -> (String, Entry) {
    (w.to_string(), Entry::Word(ps.to_string()))
}

fn tagged(w: &str, v: &[(&str, Option<&str>)]) -> (String, Entry) {
    (
        w.to_string(),
        Entry::Tagged(
            v.iter()
                .map(|(t, p)| (t.to_string(), p.map(|p| p.to_string())))
                .collect(),
        ),
    )
}

fn gold() -> Vec<(String, Entry)> {
    let mut v = vec![
        word("cat", "kˈæt"),
        word("bus", "bˈʌs"),
        word("walk", "wˈɔk"),
        word("need", "nˈid"),
        word("wait", "wˈAt"),
        word("make", "mˈAk"),
        word("run", "ɹˈʌn"),
        word("copy", "kˈɑpi"),
        word("name", "nˈAm"),
        word("space", "spˈAs"),
        word("names", "nˈAmz"),
        word("pace", "pˈAs"),
        word("happy", "hˈæpi"),
        word("kind", "kˈInd"),
        word("do", "dˈu"),
        word("view", "vjˈu"),
        word("to", "tˈu"),
        word("am", "ˈæm"),
        word("and", "ænd"),
        word("percent", "pəɹsˈɛnt"),
        word("minus", "mˈInəs"),
        word("point", "pˈYnt"),
        word("dollar", "dˈɑləɹ"),
        word("cent", "sˈɛnt"),
        word("pound", "pˈWnd"),
        word("pence", "pˈɛns"),
        word("zero", "zˈɪɹO"),
        word("one", "wˈʌn"),
        word("two", "tˈu"),
        word("three", "θɹˈi"),
        word("four", "fˈɔɹ"),
        word("five", "fˈIv"),
        word("nine", "nˈIn"),
        word("ten", "tˈɛn"),
        word("hundred", "hˈʌndɹəd"),
        word("nineteen", "nIntˈin"),
        word("eighty", "ˈAɾi"),
        word("fourth", "fˈɔɹθ"),
        word("versus", "vˈɜɹsəs"),
        word("dot", "dˈɑt"),
        tagged("read", &[("DEFAULT", Some("ɹˈid")), ("VBD", Some("ɹˈɛd"))]),
        tagged("used", &[("DEFAULT", Some("jˈuzd")), ("VBD", Some("jˈust"))]),
        tagged("that", &[("DEFAULT", Some("ðæt")), ("None", Some("ðˈæt"))]),
        tagged("lead", &[("DEFAULT", Some("lˈid")), ("NOUN", Some("lˈɛd"))]),
    ];
    for (l, ps) in [
        ("A", "ˈA"), ("B", "bˈi"), ("C", "sˈi"), ("D", "dˈi"), ("I", "ˈI"), ("N", "ˈɛn"),
        ("O", "ˈO"), ("S", "ˈɛs"), ("U", "jˈu"),
    ] {
        v.push(word(l, ps));
    }
    v
}

fn us() -> Lexicon {
    Lexicon::new(false, gold(), vec![word("zonk", "zˈɑŋk")])
}

fn gb() -> Lexicon {
    Lexicon::new(true, gold(), Vec::new())
}

fn hit(h: Option<(String, u8)>) -> Option<(String, u8)> {
    h
}

fn some(ps: &str, rating: u8) -> Option<(String, u8)> {
    Some((ps.to_string(), rating))
}

fn end() -> TokenContext {
    TokenContext::default()
}

fn before(vowel: bool) -> TokenContext {
    TokenContext { future_vowel: Some(vowel), future_to: false }
}

#[test]
fn a_homograph_is_read_by_its_tags() {
    // Without a fallback the tags that are listed still are.
    let l = Lexicon::new(
        false,
        vec![tagged("lead", &[("NOUN", Some("lˈɛd")), ("VB", None)]), word("the", "ðə")],
        Vec::new(),
    );
    assert_eq!(hit(l.lookup("lead", "NN", None, None)), some("lˈɛd", 4));
    assert_eq!(hit(l.lookup("lead", "NOUN", None, None)), some("lˈɛd", 4));
    assert_eq!(hit(l.lookup("lead", "VB", None, None)), None);
    assert_eq!(hit(l.lookup("the", "DT", None, None)), some("ðə", 4));
    let l = Lexicon::new(false, vec![tagged("x", &[("DEFAULT", None)])], Vec::new());
    assert_eq!(hit(l.lookup("x", "NN", None, None)), None);
}

#[test]
fn growing_adds_other_spellings_and_keeps_listed_ones() {
    let l = Lexicon::new(
        false,
        vec![word("may", "mA"), word("May", "mˈA"), word("Paris", "pˈæɹɪs"), word("cat", "kæt"), word("x", "ɛks")],
        Vec::new(),
    );
    assert!(l.has_gold("Cat"));
    assert!(l.has_gold("paris"));
    assert!(!l.has_gold("X"));
    assert!(!l.has_gold("CAT"));
    assert_eq!(l.lookup("May", "", None, None).unwrap().0, "mˈA");
    assert_eq!(l.lookup("may", "", None, None).unwrap().0, "mA");
    let accented = Lexicon::new(false, vec![word("été", "ete")], Vec::new());
    assert!(accented.has_gold("Été"));
}

#[test]
fn vowels_and_punctuation() {
    assert!(is_vowel('A') && is_vowel('ᵻ') && !is_vowel('b') && !is_vowel('ˈ'));
    assert!(non_quote_punct('.') && non_quote_punct('—') && !non_quote_punct('"') && !non_quote_punct('a'));
}

#[test]
fn signs_have_words() {
    assert_eq!(symbol("%"), Some("percent"));
    assert_eq!(symbol("&"), Some("and"));
    assert_eq!(symbol("+"), Some("plus"));
    assert_eq!(symbol("@"), Some("at"));
    assert_eq!(symbol("#"), None);
    assert!(currency_symbol("$") && currency_symbol("£") && currency_symbol("€"));
    assert!(!currency_symbol("¥"));
    assert!(is_ordinal_suffix("st") && is_ordinal_suffix("nd") && is_ordinal_suffix("rd"));
    assert!(is_ordinal_suffix("th") && !is_ordinal_suffix("s"));
}

#[test]
fn stress_moves_only_marks() {
    assert_eq!(apply_stress("kˈæt", None), "kˈæt");
    assert_eq!(apply_stress("kˈætˌɪn", Some(STRIP)), "kætɪn");
    assert_eq!(apply_stress("kˈætˌɪn", Some(DEMOTE)), "kˌætɪn");
    assert_eq!(apply_stress("kˈæt", Some(SOFTEN)), "kˌæt");
    assert_eq!(apply_stress("kˌæt", Some(SOFTEN)), "kˌæt");
    assert_eq!(apply_stress("kæt", Some(LEVEL)), "kˌæt");
    assert_eq!(apply_stress("kˈæt", Some(LEVEL)), "kˌæt");
    assert_eq!(apply_stress("skæt", Some(LIFT)), "skˌæt");
    assert_eq!(apply_stress("pst", Some(LIFT)), "pst");
    assert_eq!(apply_stress("kˌæt", Some(RAISE)), "kˈæt");
    assert_eq!(apply_stress("skæt", Some(RAISE)), "skˈæt");
    assert_eq!(apply_stress("pst", Some(RAISE)), "pst");
    assert_eq!(apply_stress("kˈæt", Some(RAISE)), "kˈæt");
}

#[test]
fn diphthongs_weigh_two() {
    assert_eq!(stress_weight("kæt"), 3);
    assert_eq!(stress_weight("mAk"), 4);
    assert_eq!(stress_weight("ʤʧ"), 4);
    assert_eq!(stress_weight(""), 0);
}

#[test]
fn lookup_follows_tag_and_context() {
    let l = us();
    assert_eq!(hit(l.lookup("cat", "NN", None, None)), some("kˈæt", 4));
    assert_eq!(hit(l.lookup("CAT", "NN", None, None)), some("kˈæt", 4));
    assert_eq!(hit(l.lookup("zonk", "NN", None, None)), some("zˈɑŋk", 3));
    assert_eq!(hit(l.lookup("read", "VBD", None, None)), some("ɹˈɛd", 4));
    assert_eq!(hit(l.lookup("read", "VB", None, None)), some("ɹˈid", 4));
    assert_eq!(hit(l.lookup("lead", "NNS", None, None)), some("lˈɛd", 4));
    assert_eq!(hit(l.lookup("that", "IN", None, Some(end()))), some("ðˈæt", 4));
    assert_eq!(hit(l.lookup("that", "IN", None, Some(before(true)))), some("ðæt", 4));
    assert_eq!(hit(l.lookup("cat", "NN", Some(SOFTEN), None)), some("kˌæt", 4));
    // A name in capitals without stress of its own is spelt out.
    assert_eq!(hit(l.lookup("BUSX", "NNP", None, None)), None);
    assert_eq!(hit(l.lookup("ABC", "NNP", None, None)), some("ˌAbˌisˈi", 3));
    assert_eq!(hit(l.lookup("AND", "NNP", None, None)), some("ˌAˌɛndˈi", 3));
    assert_eq!(hit(l.lookup("qqq", "NN", None, None)), None);
}

#[test]
fn endings_follow_the_last_sound() {
    let (u, g) = (us(), gb());
    let get = |l: &Lexicon, w: &str| l.get_word(w, "NN", None, before(false)).map(|h| h.0);
    assert_eq!(get(&u, "cats").as_deref(), Some("kˈæts"));
    assert_eq!(get(&u, "buses").as_deref(), Some("bˈʌsᵻz"));
    assert_eq!(get(&g, "buses").as_deref(), Some("bˈʌsɪz"));
    assert_eq!(get(&u, "copies").as_deref(), Some("kˈɑpiz"));
    assert_eq!(get(&u, "walked").as_deref(), Some("wˈɔkt"));
    assert_eq!(get(&u, "needed").as_deref(), Some("nˈidᵻd"));
    assert_eq!(get(&u, "waited").as_deref(), Some("wˈAɾᵻd"));
    assert_eq!(get(&g, "waited").as_deref(), Some("wˈAtɪd"));
    assert_eq!(get(&u, "making").as_deref(), Some("mˈAkɪŋ"));
    assert_eq!(get(&u, "running").as_deref(), Some("ɹˈʌnɪŋ"));
    assert_eq!(get(&u, "waiting").as_deref(), Some("wˈAɾɪŋ"));
    assert_eq!(get(&g, "waiting").as_deref(), Some("wˈAtɪŋ"));
    assert_eq!(get(&u, "cat's").as_deref(), Some("kˈæts"));
    assert_eq!(get(&u, "cats'").as_deref(), None);
    assert_eq!(get(&u, "cat'").as_deref(), Some("kˈæt"));
}

#[test]
fn consonants_double_before_ing() {
    for w in ["running", "planning", "picking", "bumpcking"] {
        assert!(doubled_before_ing(w), "{w}");
    }
    for w in ["ttabc", "rolled", "sing", "waiting", "seeing", "ing", "ning", ""] {
        assert!(!doubled_before_ing(w), "{w}");
    }
}

#[test]
fn exceptions_come_first() {
    let l = us();
    assert_eq!(hit(l.get_word("a", "DT", None, end())), some("ɐ", 4));
    assert_eq!(hit(l.get_word("A", "NN", None, end())), some("ˈA", 4));
    assert_eq!(hit(l.get_word("am", "VBP", None, before(true))), some("ɐm", 4));
    assert_eq!(hit(l.get_word("am", "VBP", None, end())), some("ˈæm", 4));
    assert_eq!(hit(l.get_word("an", "DT", None, end())), some("ɐn", 4));
    assert_eq!(hit(l.get_word("I", "PRP", None, end())), some("ˌI", 4));
    assert_eq!(hit(l.get_word("by", "RB", None, end())), some("bˈI", 4));
    assert_eq!(hit(l.get_word("to", "TO", None, end())), some("tˈu", 4));
    assert_eq!(hit(l.get_word("to", "TO", None, before(true))), some("tʊ", 4));
    assert_eq!(hit(l.get_word("to", "TO", None, before(false))), some("tə", 4));
    assert_eq!(hit(l.get_word("in", "IN", None, before(true))), some("ɪn", 4));
    assert_eq!(hit(l.get_word("in", "IN", None, end())), some("ˈɪn", 4));
    assert_eq!(hit(l.get_word("the", "DT", None, before(true))), some("ði", 4));
    assert_eq!(hit(l.get_word("the", "DT", None, before(false))), some("ðə", 4));
    let to = TokenContext { future_vowel: Some(false), future_to: true };
    assert_eq!(hit(l.get_word("used", "VBD", None, to)), some("jˈust", 4));
    assert_eq!(hit(l.get_word("used", "VBD", None, end())), some("jˈuzd", 4));
    assert_eq!(hit(l.get_word("vs.", "IN", None, end())), some("vˈɜɹsəs", 4));
    assert_eq!(hit(l.get_word("%", "NN", None, end())), some("pəɹsˈɛnt", 4));
    assert_eq!(hit(l.get_word(".", "ADD", None, end())), some("dˌɑt", 4));
    assert_eq!(hit(l.get_word("U.S.", "NNP", None, end())), some("jˌuˈɛs", 3));
    // In capitals or capitalised, an unlisted word is read in small letters.
    assert_eq!(hit(l.get_word("Cats", "NNS", None, before(false))), some("kˈæts", 4));
}

#[test]
fn numbers_are_read_as_what_they_are() {
    let l = us();
    let get = |w: &str, c: Option<&str>, head: bool, flags: &str| l.get_number(w, c, head, flags).map(|h| h.0);
    assert_eq!(get("1984", None, true, "").as_deref(), Some("nIntˈin ˈAɾi fˈɔɹ"));
    assert_eq!(get("4th", None, true, "").as_deref(), Some("fˈɔɹθ"));
    assert_eq!(get("-2", None, true, "").as_deref(), Some("mˈInəs tˈu"));
    assert_eq!(get("2.5", None, true, "").as_deref(), Some("tˈu pYnt fˈIv"));
    assert_eq!(get(".5", None, true, "").as_deref(), Some("pYnt fˈIv"));
    assert_eq!(get("100", None, true, "a").as_deref(), Some("ə hˈʌndɹəd"));
    assert_eq!(get("102", None, true, "").as_deref(), Some("wˈʌn hˈʌndɹəd tˈu"));
    assert_eq!(get("102", None, true, "&").as_deref(), Some("wˈʌn hˈʌndɹəd ænd tˈu"));
    assert_eq!(get("102", None, true, "n").as_deref(), Some("wˈʌn hˈʌndɹədən tˈu"));
    // Inside a sentence: digit by digit, or as "one oh five".
    assert_eq!(get("12345", None, false, "").as_deref(), Some("wˈʌn tˈu θɹˈi fˈɔɹ fˈIv"));
    assert_eq!(get("105", None, false, "").as_deref(), Some("wˈʌn O fˈIv"));
    assert_eq!(get("1.2.3", None, true, "").as_deref(), Some("wˈʌn tˈu θɹˈi"));
    // Money.
    assert_eq!(get("2.05", Some("$"), true, "").as_deref(), Some("tˈu dˈɑləɹz ænd fˈIv sˈɛnts"));
    assert_eq!(get("1", Some("$"), true, "").as_deref(), Some("wˈʌn dˈɑləɹ"));
    assert_eq!(get("0.05", Some("£"), true, "").as_deref(), Some("fˈIv pˈɛns"));
    assert_eq!(get("1,000", Some("$"), true, "").map(|s| s.ends_with("dˈɑləɹz")), Some(true));
    for (w, want) in [("5", "fˈIv"), ("5s", "fˈIvz"), ("5's", "fˈIvz"), ("5ed", "fˈIvd"), ("5ing", "fˈIvɪŋ")] {
        assert_eq!(get(w, None, true, "").as_deref(), Some(want));
    }
    assert_eq!(l.get_number("5s", None, true, "").map(|h| h.1), l.get_number("5", None, true, "").map(|h| h.1));
    assert_eq!(get("x", None, true, ""), None);
    assert_eq!(l.with_currency("tˈu", Some("$")), "tˈu dˈɑləɹz");
    assert_eq!(l.with_currency("tˈu", Some("¥")), "tˈu");
    assert_eq!(l.with_currency("tˈu", None), "tˈu");
}

#[test]
fn what_looks_like_a_number() {
    assert!(Lexicon::is_number("1980s", true));
    assert!(Lexicon::is_number("42nd", true));
    assert!(Lexicon::is_number("1,234.5", false));
    assert!(Lexicon::is_number("-5", true));
    assert!(!Lexicon::is_number("-5", false));
    assert!(!Lexicon::is_number("abc", true));
    assert!(!Lexicon::is_number("4x", true));
}

#[test]
fn unlisted_words_are_derived() {
    let l = us();
    let get = |w: &str| l.derive(w);
    assert_eq!(hit(get("copied")), some("kˈɑpid", 2));
    assert_eq!(hit(get("happier")), some("hˈæpiəɹ", 2));
    assert_eq!(hit(get("happiest")), some("hˈæpiᵻst", 2));
    assert_eq!(hit(get("kinder")), some("kˈIndəɹ", 2));
    assert_eq!(hit(get("review")), some("ɹˌivjˈu", 2));
    assert_eq!(hit(get("non")), some("nˈɑn", 2));
    // The balanced split wins, and inflection sits outside the compound.
    assert_eq!(hit(get("namespace")), some("nˈAmspˌAs", 2));
    assert_eq!(hit(get("namespaces")), some("nˈAmspˌAsᵻz", 2));
    assert_eq!(hit(get("Namespace")), some("nˈAmspˌAs", 2));
    assert_eq!(hit(get("zzzz")), None);
}
