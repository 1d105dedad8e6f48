use dream_tts::digits::numeric_if_needed;
use dream_tts::g2p::{reading, G2P, UNK};
use dream_tts::gate::{compare_line, Counts, Expected};
use dream_tts::lexicon::{Entry, Lexicon};
use dream_tts::mtoken::{merge_tokens, span_text, MToken};
use dream_tts::pattern::translate;
use dream_tts::resolve::resolve_tokens;
use dream_tts::stress::LIFT;
use dream_tts::tagger::{embedding_rows, keys, window, word_shape, Tagged};
use dream_tts::tokenize::{Rules, RulesError, Special, Token, Tokenizer};
use dream_tts::unicode::{lower, upper};
use dream_tts::vocab::Vocab;

fn special(v: &[(&str, Option<&str>)]) -> Vec<Special> {
    v.iter()
        .map(|(o, n)| Special { orth: o.to_string(), norm: n.map(|n| n.to_string()) })
        .collect()
}

fn rules() -> Rules {
    Rules {
        prefix_search: "^[(\\u201c$]".to_string(),
        suffix_search: "[.,!?)\\u201d]$".to_string(),
        infix_finditer: "(?<=[a-z])(?:—|\\.\\.\\.)(?=[a-z])".to_string(),
        url_match: Some("^https?://".to_string()),
        exceptions: vec![
            ("can't".to_string(), special(&[("ca", Some("can")), ("n't", Some("not"))])),
            ("Dr.".to_string(), special(&[("Dr.", None)])),
            ("(x)".to_string(), special(&[("(x)", Some("ex"))])),
        ],
        lexeme_norm: vec![("12646065887601541794".to_string(), "full stop".to_string())],
        symbols: vec![("".to_string(), 0), ("X".to_string(), 55)],
        base_norms: vec![("’".to_string(), "'".to_string())],
    }
}

fn tokenizer() -> Tokenizer {
    match Tokenizer::new(rules()) {
        Ok(t) => t,
        Err(e) => panic!("{e:?}"),
    }
}

fn split(text: &str) -> Vec<(String, &'static str)> {
    tokenizer()
        .tokenize(text)
        .unwrap()
        .into_iter()
        .map(|t| (t.text, t.whitespace))
        .collect()
}

fn pairs(v: &[(&str, &'static str)]) -> Vec<(String, &'static str)> {
    v.iter().map(|(t, w)| (t.to_string(), *w)).collect()
}

#[test]
fn affixes_come_off_one_at_a_time() {
    assert_eq!(
        split("(Hello, world.)"),
        pairs(&[("(", ""), ("Hello", ""), (",", " "), ("world", ""), (".", ""), (")", "")])
    );
    assert_eq!(split(""), pairs(&[]));
    assert_eq!(split("a b "), pairs(&[("a", " "), ("b", " ")]));
    assert_eq!(split("a  b"), pairs(&[("a", " "), (" ", ""), ("b", "")]));
    assert_eq!(split("“hi”"), pairs(&[("“", ""), ("hi", ""), ("”", "")]));
}

#[test]
fn infixes_split_and_addresses_do_not() {
    assert_eq!(split("this—that"), pairs(&[("this", ""), ("—", ""), ("that", "")]));
    assert_eq!(split("wait...what"), pairs(&[("wait", ""), ("...", ""), ("what", "")]));
    assert_eq!(split("http://a—b"), pairs(&[("http://a—b", "")]));
}

#[test]
fn exceptions_keep_their_tokens() {
    let t = tokenizer().tokenize("I can't.").unwrap();
    let texts: Vec<&str> = t.iter().map(|t| t.text.as_str()).collect();
    assert_eq!(texts, ["I", "ca", "n't", "."]);
    assert_eq!(t[1].norm.as_deref(), Some("can"));
    assert_eq!(t[2].norm.as_deref(), Some("not"));
    assert_eq!(t[0].norm, None);
    assert_eq!(split("Dr. No"), pairs(&[("Dr.", " "), ("No", "")]));
}

#[test]
fn the_second_pass_puts_exceptions_back() {
    // "(x)" would come apart, and is put back wherever its pieces stand.
    let t = tokenizer().tokenize("see (x), no").unwrap();
    let texts: Vec<(&str, &str)> = t.iter().map(|t| (t.text.as_str(), t.whitespace)).collect();
    assert_eq!(texts, [("see", " "), ("(x)", ""), (",", " "), ("no", "")]);
    assert_eq!(t[1].norm.as_deref(), Some("ex"));
}

#[test]
fn bad_rules_are_named() {
    let err = |r: Rules| Tokenizer::new(r).err();
    assert_eq!(err(Rules { prefix_search: "(".to_string(), ..rules() }), Some(RulesError::Prefix));
    assert_eq!(err(Rules { suffix_search: "(".to_string(), ..rules() }), Some(RulesError::Suffix));
    assert_eq!(err(Rules { infix_finditer: "(".to_string(), ..rules() }), Some(RulesError::Infix));
    assert_eq!(err(Rules { url_match: Some("(".to_string()), ..rules() }), Some(RulesError::Url));
    let bad_key = vec![("x".to_string(), "y".to_string())];
    assert_eq!(err(Rules { lexeme_norm: bad_key, ..rules() }), Some(RulesError::NormKey));
    assert_eq!(err(rules()), None);
}

#[test]
fn matches_without_an_end_are_refused() {
    // The match is the letter behind the place that is looked at, which is found again and again.
    let endless = || Rules { infix_finditer: "(?<=\\Ka)".to_string(), ..rules() };
    let plain = Rules { exceptions: Vec::new(), ..endless() };
    let t = Tokenizer::new(plain).ok().unwrap();
    assert!(t.tokenize("xab").is_none());
    assert_eq!(t.tokenize("xyz").unwrap().len(), 1);
    let told = Rules { exceptions: vec![("xab".to_string(), special(&[("xab", None)]))], ..endless() };
    assert_eq!(Tokenizer::new(told).err(), Some(RulesError::Disorder));
    // One match per place, and one at the end, are all there.
    let every = Rules { infix_finditer: "(?=[a-z])".to_string(), exceptions: Vec::new(), ..rules() };
    let t = Tokenizer::new(every).ok().unwrap();
    assert_eq!(t.tokenize("abcd").unwrap().len(), 4);
}

#[test]
fn code_points_are_translated() {
    assert_eq!(translate("[\\u201c-\\u201D]"), "[\\x{201c}-\\x{201D}]");
    assert_eq!(translate("\\u12"), "\\u12");
    assert_eq!(translate("é\\u00e9"), "é\\x{00e9}");
    assert_eq!(translate("\\d+"), "\\d+");
}

#[test]
fn strings_have_ids_and_norms() {
    let v = Vocab::new(
        &vec![("X".to_string(), 55)],
        &vec![("’".to_string(), "'".to_string())],
        &vec![(7425985699627899538, "THE-NORM".to_string())],
    );
    assert_eq!(v.string_id("X"), 55);
    assert_eq!(v.string_id("the"), 7425985699627899538);
    assert_eq!(v.norm("’"), "'");
    assert_eq!(v.norm("the"), "THE-NORM");
    assert_eq!(v.norm("Hello"), "hello");
    assert_eq!(v.norm("ÉTÉ"), "été");
}

#[test]
fn shapes_are_classed_and_capped() {
    assert_eq!(word_shape("Apple"), "Xxxxx");
    assert_eq!(word_shape("Pineapples"), "Xxxxx");
    assert_eq!(word_shape("C3PO"), "XdXX");
    assert_eq!(word_shape("123456"), "dddd");
    assert_eq!(word_shape("----- "), "---- ");
    assert_eq!(word_shape("Éa"), "Xx");
    assert_eq!(word_shape(&"a".repeat(100)), "LONG");
    assert_eq!(word_shape(&"a".repeat(99)), "xxxx");
}

#[test]
fn six_keys_per_token() {
    let v = Vocab::new(&vec![("Xxxxx".to_string(), 9), ("w".to_string(), 2)], &Vec::new(), &Vec::new());
    let k = keys(&Tagged { text: "World", has_space: true, norm: Some("the") }, &v);
    assert_eq!(k[0], 7425985699627899538);
    assert_eq!(k[1], v.string_id("W"));
    assert_eq!(k[2], v.string_id("rld"));
    assert_eq!(k[3], 9);
    assert_eq!(k[4], 1);
    assert_eq!(k[5], 0);
    let k = keys(&Tagged { text: " \n", has_space: false, norm: None }, &v);
    assert_eq!((k[4], k[5]), (0, 1));
    assert_eq!(
        embedding_rows(7425985699627899538, 8, 1000),
        [498, 909, 599, 364]
    );
}

#[test]
fn windows_have_zeros_beyond_the_ends() {
    let x = vec![1, 2, 3, 4, 5, 6];
    assert_eq!(window(&x, 0, 3, 2, 0), [0, 0, 1, 2, 3, 4]);
    assert_eq!(window(&x, 1, 3, 2, 0), [1, 2, 3, 4, 5, 6]);
    assert_eq!(window(&x, 2, 3, 2, 0), [3, 4, 5, 6, 0, 0]);
    assert_eq!(window(&x, 0, 1, 6, 9)[..6], [9; 6]);
}

#[test]
fn unicode_tables_are_used() {
    assert_eq!(lower("ÀB"), "àb");
    assert_eq!(upper("straße"), "STRASSE");
    assert_eq!(reading("ﬁne"), "fine");
    assert_eq!(reading("don’t"), "don't");
    assert_eq!(reading("٣"), "3");
    assert_eq!(reading("plain 7"), "plain 7");
    assert_eq!(numeric_if_needed('९'), '9');
    assert_eq!(numeric_if_needed('9'), '9');
    assert_eq!(numeric_if_needed('x'), 'x');
    assert_eq!(numeric_if_needed('²'), '²');
}

fn word(w: &str, ps: &str) -> (String, Entry) {
    (w.to_string(), Entry::Word(ps.to_string()))
}

fn g2p() -> G2P {
    let gold = vec![
        word("cat", "kˈæt"),
        word("apple", "ˈæpᵊl"),
        word("hello", "həlˈO"),
        word("worker", "wˈɜɹkəɹ"),
        word("book", "bˈʊk"),
        word("run", "ɹˈʌn"),
        word("butter", "bˈʌɾəɹ"),
        word("two", "tˈu"),
        word("five", "fˈIv"),
        word("dollar", "dˈɑləɹ"),
        word("to", "tˈu"),
    ];
    let lexicon = Lexicon::new(false, gold, Vec::new());
    match G2P::new(tokenizer(), lexicon) {
        Some(g) => g,
        None => panic!("the sub-token pattern compiles"),
    }
}

fn tags(v: &[&str]) -> Vec<String> {
    v.iter().map(|t| t.to_string()).collect()
}

fn speak(text: &str, t: &[&str]) -> String {
    let g = g2p();
    let tokens = g.tokenize(text).unwrap();
    assert_eq!(tokens.len(), t.len(), "{text}");
    g.phonemize(&tokens, &tags(t)).unwrap()
}

#[test]
fn the_next_sound_decides() {
    assert_eq!(speak("the cat", &["DT", "NN"]), "ðə kˈæt");
    assert_eq!(speak("the apple", &["DT", "NN"]), "ði ˈæpᵊl");
    assert_eq!(speak("  hello, cat!", &["UH", ",", "NN", "."]), "həlˈO, kˈæt!");
    assert_eq!(speak("butter", &["NN"]), "bˈʌTəɹ");
}

#[test]
fn money_and_numbers() {
    assert_eq!(speak("$5", &["$", "CD"]), "fˈIv dˈɑləɹz");
    assert_eq!(speak("two 5", &["CD", "CD"]), "tˈu fˈIv");
}

#[test]
fn unknown_words_are_reported_once_or_derived() {
    let g = g2p();
    let tokens = g.tokenize("runbook blorg blorg").unwrap();
    let t = tags(&["NN", "NN", "NN"]);
    let (ps, unknown) = g.phonemize_report(&tokens, &t).unwrap();
    assert_eq!(ps, format!("ɹˈʌnbˌʊk {UNK} {UNK}"));
    assert_eq!(unknown, ["blorg"]);
    let strict = g.phonemize_strict(&tokens, &t).unwrap();
    assert_eq!(strict, format!("{UNK} {UNK} {UNK}"));
}

#[test]
fn spans_cut_the_phonemes_by_word() {
    let g = g2p();
    let tokens = g.tokenize("hello cat.").unwrap();
    let (ps, spans) = g.phonemize_spans(&tokens, &tags(&["UH", "NN", "."])).unwrap();
    assert_eq!(ps, "həlˈO kˈæt.");
    let cut: Vec<(&str, &str)> = spans.iter().map(|s| (s.text.as_str(), &ps[s.phonemes.clone()])).collect();
    assert_eq!(cut, [("hello", "həlˈO"), ("cat", "kˈæt"), (".", ".")]);
    // A token without a sound joins the word before it; the first one stands alone.
    let tokens = g.tokenize("$5").unwrap();
    let (_, spans) = g.phonemize_spans(&tokens, &tags(&["$", "CD"])).unwrap();
    assert_eq!(spans[0].text, "$");
    assert_eq!(spans[0].phonemes, 0..0);
}

#[test]
fn hyphenated_words_travel_as_groups() {
    // The two halves weigh the same, so the first gives way.
    assert_eq!(speak("run-cat", &["NN"]), "ɹˌʌnkˈæt");
    let g = g2p();
    let tokens: Vec<Token> = g.tokenize("").unwrap();
    assert!(tokens.is_empty());
    assert_eq!(g.phonemize(&tokens, &Vec::new()).unwrap(), "");
}

fn mtoken(text: &str, tag: &str, ws: &str) -> MToken {
    MToken::new(text.to_string(), tag.to_string(), ws.to_string())
}

#[test]
fn merging_keeps_what_is_shared() {
    let mut a = mtoken("Co", "JJ", "");
    let mut b = mtoken("worker", "NN", " ");
    a.stress = Some(LIFT);
    a.num_flags = "na".to_string();
    b.num_flags = "a&".to_string();
    a.currency = Some("$".to_string());
    b.currency = Some("£".to_string());
    a.rating = Some(4);
    b.rating = Some(3);
    a.phonemes = Some("kˌO".to_string());
    b.prespace = true;
    b.phonemes = Some("wˈɜɹkəɹ".to_string());
    let v = vec![a, b];
    assert_eq!(span_text(&v, 0, 2), "Coworker");
    let m = merge_tokens(&v, 0, 2, None);
    assert_eq!((m.text.as_str(), m.tag.as_str(), m.whitespace.as_str()), ("Coworker", "JJ", " "));
    assert_eq!(m.phonemes, None);
    assert_eq!(m.stress, Some(LIFT));
    assert_eq!(m.num_flags, "&an");
    assert_eq!(m.currency.as_deref(), Some("£"));
    assert_eq!(m.rating, Some(3));
    let m = merge_tokens(&v, 0, 2, Some("?"));
    assert_eq!(m.phonemes.as_deref(), Some("kˌO wˈɜɹkəɹ"));
}

/// The tag of a merge is that of the part with the most capital letters, however short it is,
/// and of the first such part.
#[test]
fn merging_takes_the_tag_with_most_capitals() {
    let tag = |parts: &[(&str, &str)]| {
        let v: Vec<MToken> = parts.iter().map(|(text, tag)| mtoken(text, tag, "")).collect();
        merge_tokens(&v, 0, v.len(), None).tag
    };
    assert_eq!(tag(&[("A", "X"), ("hello", "Y")]), "X");
    assert_eq!(tag(&[("hello", "Y"), ("A", "X")]), "X");
    assert_eq!(tag(&[("hello", "Y"), ("a", "X")]), "Y");
    assert_eq!(tag(&[("Ab", "X"), ("cDE", "Y"), ("FG", "Z")]), "Y");
    assert_eq!(tag(&[("12-34", "CD"), ("B", "NN")]), "NN");
}

#[test]
fn the_lighter_half_gives_way() {
    let mut v = Vec::new();
    for (text, ps) in [("one", "wˈʌn"), ("two", "tˈu"), ("eight", "ˈAt")] {
        let mut t = mtoken(text, "CD", "");
        t.phonemes = Some(ps.to_string());
        v.push(t);
    }
    resolve_tokens(&mut v);
    let ps: Vec<&str> = v.iter().map(|t| t.phonemes.as_deref().unwrap()).collect();
    assert_eq!(ps, ["wˈʌn", "tˌu", "ˈAt"]);
    // With a space or a slash in between, the parts are spoken apart instead.
    let mut v = vec![mtoken("and", "CC", ""), mtoken("/", "SYM", ""), mtoken("or", "CC", "")];
    v[0].phonemes = Some("ˈænd".to_string());
    v[2].phonemes = Some("ˈɔɹ".to_string());
    resolve_tokens(&mut v);
    assert_eq!(v[1].phonemes.as_deref(), Some(""));
    assert!(v[2].prespace);
}

#[test]
fn a_comparison_is_staged() {
    let tokens = tokenizer().tokenize("a b").unwrap();
    let exp = |t: &str, tag: &str, ws: &str| Expected {
        text: t.to_string(),
        tag: tag.to_string(),
        whitespace: ws.to_string(),
    };
    let t = tags(&["DT", "NN"]);
    let mut c = Counts::default();
    let line = compare_line(&tokens, &t, &vec![exp("a", "DT", " "), exp("b", "VB", "")], "x", "x");
    assert_eq!((line.tokens, line.token_ok, line.tag_ok, line.split_ok, line.phoneme_ok), (2, 2, 1, true, true));
    c.add_line(&line);
    assert!(!c.passed());
    let line = compare_line(&tokens, &t, &vec![exp("a", "DT", "")], "x", "y");
    assert_eq!((line.tokens, line.token_ok, line.tag_ok, line.split_ok, line.phoneme_ok), (1, 0, 0, false, false));
    assert!(Counts::default().passed());
}
