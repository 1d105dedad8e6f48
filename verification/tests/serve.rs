use dream_tts::api::{
    choose_key, constant_time_eq, escape_html, page_texts, parse_override, parse_request,
    request_voice, require_key, simple_request, validate, wants_html, Body, VoiceChoice,
};
use dream_tts::base64::base64;
use dream_tts::batch::{can_split, miscounted, plan_batch, split, BatchRequest, Gaps, TimedText};
use dream_tts::jobs::{
    count_active, next_runnable, outcome_of, Chapter, ChapterProgress, ChapterState, Job, JobRequest,
    JobState, Outcome, ProgressEvent, Step, Submit, Update,
};
use dream_tts::jobs::JobRequest::{Cancel, Nothing, Pause};
use dream_tts::jobs::JobState::{Cancelled, Done, Failed, Paused, Queued, Running};
use dream_tts::settings::{
    choose_limit, choose_port, start_voice, voice_name, weight_names, StartVoice, WeightNames,
};
use dream_tts::space::{collapse, trim};
use dream_tts::stream::plan_stream;

#[test]
fn base64_matches_the_standard_alphabet() {
    assert_eq!(base64(b""), "");
    assert_eq!(base64(b"f"), "Zg==");
    assert_eq!(base64(b"fo"), "Zm8=");
    assert_eq!(base64(b"foo"), "Zm9v");
    assert_eq!(base64(b"foobar"), "Zm9vYmFy");
}

#[test]
fn base64_uses_every_letter() {
    assert_eq!(base64(&[0xfb, 0xff, 0xbf]), "+/+/");
    assert_eq!(base64(&[0, 16, 131, 16, 81, 135]), "ABCDEFGH");
}

fn seg(text: &str, start: f64, end: f64) -> TimedText {
    let us = |t: f64| (t * 1e6).round() as u64;
    TimedText { text: text.into(), start: us(start), end: us(end) }
}

#[test]
fn paragraphs_are_found_by_their_gap() {
    // Segment gap 90 ms inside a paragraph, 320 ms between them.
    let segments = vec![seg("a", 0.0, 1.0), seg("b", 1.09, 2.0), seg("c", 2.32, 3.0)];
    let words = vec![seg("a", 0.1, 0.5), seg("c", 2.4, 2.9)];
    let parts = split(1000, 100, Gaps::default(), &segments, Some(&words), 2).expect("two paragraphs");
    let seconds = |i: usize| (parts[i].to - parts[i].from) as f64 / 100.0;
    assert_eq!(parts[0].segments.len(), 2);
    assert!((seconds(0) - 2.0).abs() < 1e-9);
    assert!((seconds(1) - 0.68).abs() < 1e-9);
    let w = parts[1].words.as_ref().unwrap();
    assert_eq!(w.len(), 1);
    assert!((w[0].start as f64 / 1e6 - 0.08).abs() < 1e-9, "{:?}", w[0].start);
    assert!(split(1000, 100, Gaps::default(), &segments, None, 3).is_none());
}

#[test]
fn parts_are_counted_from_their_start() {
    let segments = vec![seg("a", 0.5, 1.0), seg("b", 2.0, 3.0)];
    let words = vec![seg("late", 2.5, 9.0), seg("early", 0.0, 0.1)];
    let parts = split(250, 100, Gaps::default(), &segments, Some(&words), 2).unwrap();
    assert_eq!((parts[0].from, parts[0].to), (50, 100));
    // Cut at the end of the recording.
    assert_eq!((parts[1].from, parts[1].to), (200, 250));
    assert_eq!(parts[0].words.as_ref().unwrap().len(), 0);
    let w = &parts[1].words.as_ref().unwrap()[0];
    assert_eq!((w.text.as_str(), w.start, w.end), ("late", 500_000, 1_000_000));
    let s = &parts[1].segments[0];
    assert_eq!((s.start, s.end), (0, 1_000_000));
    assert!(split(0, 100, Gaps::default(), &Vec::new(), None, 0).is_some());
    // Segments that overlap are cut all the same.
    let overlapping = vec![seg("a", 0.0, 1.0), seg("b", 0.5, 2.0)];
    assert!(can_split(250, 100, Gaps::default(), &overlapping, 1));
    let parts = split(250, 100, Gaps::default(), &overlapping, None, 1).unwrap();
    assert_eq!((parts[0].from, parts[0].to, parts[0].segments[1].start), (0, 200, 500_000));
    let backward = vec![seg("a", 2.0, 1.0)];
    assert!(!can_split(250, 100, Gaps::default(), &backward, 1));
    assert!(can_split(250, 100, Gaps::default(), &backward, 2));
}

fn batch(texts: &[&str]) -> BatchRequest {
    BatchRequest {
        texts: texts.iter().map(|t| t.to_string()).collect(),
        voice: Some("v".to_string()),
        seed: Some(7),
    }
}

#[test]
fn a_batch_is_one_request_of_lines() {
    let q = plan_batch(100, &batch(&["one\n two ", "three"])).unwrap();
    assert_eq!(q.text, "one two\nthree");
    assert_eq!((q.mode.as_str(), q.voice.as_deref(), q.seed), ("zero_shot", Some("v"), Some(7)));
    let e = plan_batch(100, &batch(&[])).err().unwrap();
    assert_eq!((e.status, e.detail.as_str()), (400, "between 1 and 16 texts, got 0"));
    let many: Vec<&str> = vec!["x"; 17];
    assert_eq!(plan_batch(100, &batch(&many)).err().unwrap().detail, "between 1 and 16 texts, got 17");
    let e = plan_batch(100, &batch(&["ok", " \n"])).err().unwrap();
    assert_eq!((e.status, e.detail.as_str()), (400, "text is empty"));
    let e = plan_batch(3, &batch(&["long"])).err().unwrap();
    assert_eq!(e.status, 413);
    assert_eq!(miscounted(3).status, 500);
    assert!(miscounted(3).detail.starts_with("3 texts came back"));
}

#[test]
fn keys_are_required() {
    assert!(require_key(Some("k"), Some("Bearer k"), None).is_ok());
    assert!(require_key(Some("k"), Some("bEaReR   k "), None).is_ok());
    assert!(require_key(Some("k"), None, Some(" k ")).is_ok());
    assert!(require_key(Some("k"), Some("Basic x"), Some("k")).is_ok());
    let e = require_key(Some("k"), Some("Bearer x"), Some("k")).err().unwrap();
    assert_eq!((e.status, e.detail.as_str()), (401, "invalid or missing API key"));
    assert_eq!(require_key(Some("k"), None, None).err().unwrap().status, 401);
    let e = require_key(None, Some("Bearer k"), None).err().unwrap();
    assert_eq!(e.status, 503);
    assert!(constant_time_eq(b"abc", b"abc"));
    assert!(!constant_time_eq(b"abc", b"abd"));
    assert!(!constant_time_eq(b"abc", b"ab"));
    let s = |t: &str| Some(t.to_string());
    assert_eq!(choose_key(s(" a "), s("b"), s("c")).as_deref(), Some("a"));
    assert_eq!(choose_key(None, s("b"), s("c")).as_deref(), Some("b"));
    assert_eq!(choose_key(None, None, s("c\n")).as_deref(), Some("c"));
    assert_eq!(choose_key(s("  "), s("b"), None), None);
}

#[test]
fn bodies_are_json_or_text() {
    let body = || "hello".to_string();
    match parse_request("application/json", body(), Some("x"), None) {
        Ok(Body::Json(b)) => assert_eq!(b, "hello"),
        _ => panic!("JSON"),
    }
    match parse_request("text/plain; charset=utf-8", body(), Some(" 42 "), Some("v")) {
        Ok(Body::Plain(q)) => {
            assert_eq!((q.text.as_str(), q.seed, q.voice.as_deref()), ("hello", Some(42), Some("v")));
            assert_eq!(q.mode, "zero_shot");
        }
        _ => panic!("text"),
    }
    let e = match parse_request("text/plain", body(), Some("4x"), None) {
        Err(e) => e,
        Ok(_) => panic!("a seed is a number"),
    };
    assert_eq!((e.status, e.detail.as_str()), (422, "X-Seed is not a number: 4x"));
}

#[test]
fn requests_that_cannot_be_honoured_are_refused() {
    let ok = || simple_request("hi".to_string(), None, None);
    let status = |q| validate(5, &q).err().map(|e| e.status);
    assert_eq!(status(ok()), None);
    assert_eq!(status(simple_request(" \t".to_string(), None, None)), Some(400));
    // Spaces beyond ASCII are spaces; one without a width is none.
    let wide = "\u{85}\u{a0}\u{2003}\u{2029}\u{3000}";
    assert_eq!(status(simple_request(wide.to_string(), None, None)), Some(400));
    assert_eq!(status(simple_request("\u{200b}".to_string(), None, None)), None);
    let e = validate(5, &simple_request("abcdef".to_string(), None, None)).err().unwrap();
    assert_eq!(e.status, 413);
    assert_eq!(e.detail, "text too long: 6 chars > max_chars=5. Split into multiple requests.");
    let mut q = ok();
    q.mode = "instruct".to_string();
    let e = validate(5, &q).err().unwrap();
    assert_eq!(e.status, 501);
    assert_eq!(
        e.detail,
        "mode='instruct' is not implemented — only 'zero_shot'. There is no instruction-prompt path."
    );
    let mut q = ok();
    q.mode = "cross_lingual".to_string();
    assert_eq!(status(q), Some(501));
    let mut q = ok();
    q.mode = "sing".to_string();
    let e = validate(5, &q).err().unwrap();
    assert_eq!((e.status, e.detail.as_str()), (400, "unknown mode 'sing'"));
    let mut q = ok();
    q.other_speed = Some("1.5".to_string());
    let e = validate(5, &q).err().unwrap();
    assert_eq!(e.status, 501);
    assert_eq!(
        e.detail,
        "speed=1.5 is not implemented — the server synthesizes at 1.0 only, and returning \
         unmodified audio would misreport the request as honoured."
    );
    let mut q = ok();
    q.instruct_text = Some("x".to_string());
    assert_eq!(status(q), Some(501));
}

#[test]
fn voices_need_an_engine_that_clones() {
    assert!(matches!(request_voice(&None, false, "k"), Ok(VoiceChoice::Default)));
    assert!(matches!(request_voice(&Some("v".to_string()), true, "k"), Ok(VoiceChoice::Load(_))));
    let e = request_voice(&Some("v".to_string()), false, "kokoro").err().unwrap();
    assert_eq!(e.status, 400);
    assert_eq!(e.detail, "engine `kokoro` cannot clone, so it takes no voice asset");
    assert!(matches!(start_voice(None, true, "k"), Ok(StartVoice::Shipped)));
    assert!(matches!(start_voice(None, false, "k"), Ok(StartVoice::BuiltIn)));
    assert!(matches!(start_voice(Some("v".to_string()), true, "k"), Ok(StartVoice::Named(_))));
    assert!(start_voice(Some("v".to_string()), false, "k").is_err());
    let o = vec![("x".to_string(), "1".to_string()), ("voice".to_string(), "am".to_string())];
    assert_eq!(voice_name(&None, &o), "am (built-in)");
    assert_eq!(voice_name(&None, &Vec::new()), "engine default (built-in)");
    assert_eq!(voice_name(&Some("p".to_string()), &o), "p");
}

#[test]
fn settings_have_an_order() {
    assert_eq!(choose_port(Some(1), Some("2"), Some(3)), 1);
    assert_eq!(choose_port(None, Some("2"), Some(3)), 2);
    assert_eq!(choose_port(None, Some("x"), Some(3)), 3);
    assert_eq!(choose_port(None, Some("70000"), None), 3003);
    assert_eq!(choose_limit(None, Some(2), 3), 2);
    assert_eq!(choose_limit(None, None, 3), 3);
    assert_eq!(choose_limit(Some(1), Some(2), 3), 1);
    assert_eq!(parse_override("a=b=c"), Some(("a".to_string(), "b=c".to_string())));
    assert_eq!(parse_override("abc"), None);
    assert!(matches!(weight_names("p", true), WeightNames::Plain(n) if n == "p.weight"));
    assert!(matches!(weight_names("p", false), WeightNames::Normed(g, _) if g.ends_with("original0")));
}

#[test]
fn pages_are_escaped_and_chosen() {
    assert_eq!(escape_html("<a href=\"x\">'&'</a>"), "&lt;a href=&quot;x&quot;&gt;&#39;&amp;&#39;&lt;/a&gt;");
    assert_eq!(escape_html("<&") + &escape_html("amp;>"), escape_html("<&amp;>"));
    assert!(wants_html(Some("text/html,*/*"), ""));
    assert!(!wants_html(Some("*/*"), ""));
    assert!(!wants_html(None, ""));
    assert!(wants_html(None, "a=b&format=html"));
    assert!(!wants_html(Some("text/html"), "format=json&format=html"));
    assert!(wants_html(Some("text/html"), "format"));
    let p = page_texts(Some(&vec!["en".to_string(), "fr".to_string()]), true, Some("<c>"), "v&", false, 80);
    assert_eq!(p.languages, "en, fr <em>(closed list)</em>");
    assert!(p.auth.contains("required"));
    assert_eq!(p.config, "<code>&lt;c&gt;</code>");
    assert_eq!(p.voice, "v&amp;");
    assert_eq!(p.streaming, "not implemented");
    assert_eq!(p.addr, "127.0.0.1:80");
    let p = page_texts(None, false, None, "v", true, 80);
    assert_eq!((p.languages.as_str(), p.streaming.as_str()), ("unrestricted", "yes"));
    assert_eq!(p.config, "none — built-in defaults");
    assert!(p.auth.contains("503"));
}

#[test]
fn white_space_is_trimmed_and_collapsed() {
    assert_eq!(trim("\u{a0} a b \n"), "a b");
    assert_eq!(trim(" \t"), "");
    assert_eq!(collapse("  a \n\u{2003} b\t"), "a b");
    assert_eq!(collapse(" "), "");
}

#[test]
fn streams_have_the_gaps_of_a_recording() {
    let p = |v: &[&[&str]]| -> Vec<Vec<String>> {
        v.iter().map(|s| s.iter().map(|t| t.to_string()).collect()).collect()
    };
    let v = plan_stream(&p(&[&[], &["a", "b"], &[], &["c"]]), Gaps::default()).ok().unwrap();
    let got: Vec<(u32, &str)> = v.iter().map(|s| (s.gap_ms, s.text.as_str())).collect();
    assert_eq!(got, [(0, "a"), (90, "b"), (320, "c")]);
    let e = plan_stream(&p(&[&[]]), Gaps::default()).err().unwrap();
    assert_eq!((e.status, e.detail.as_str()), (400, "no text to speak"));
}

fn chapter(name: &str, state: ChapterState) -> Chapter {
    Chapter {
        name: name.to_string(),
        text_path: format!("{name}.txt"),
        wav_path: format!("{name}.wav"),
        words: 10,
        state,
        audio_us: None,
        wall_us: None,
        error: None,
    }
}

fn job(state: JobState, chapters: Vec<Chapter>) -> Job {
    Job {
        id: "j".to_string(),
        source: "book".to_string(),
        engine: "e".to_string(),
        voice: "v".to_string(),
        quant: None,
        seed: None,
        out_dir: "out".to_string(),
        created: 5,
        updated: 5,
        state,
        request: JobRequest::Nothing,
        pid: None,
        chapters,
        error: None,
    }
}

fn two(state: JobState) -> Job {
    job(state, vec![chapter("one", ChapterState::Done), chapter("two", ChapterState::Pending)])
}

#[test]
fn a_job_begins_its_next_chapter() {
    let (j, step) = two(JobState::Queued).begin(42, 9);
    assert_eq!(step, Step::Narrate(1));
    assert_eq!((j.state, j.pid, j.updated), (JobState::Running, Some(42), 9));
    assert_eq!(j.chapters[1].state, ChapterState::Running);
    let (j, step) = job(JobState::Queued, vec![chapter("one", ChapterState::Done)]).begin(42, 9);
    assert_eq!((step, j.state, j.pid), (Step::Rest, JobState::Done, None));
    let mut j = two(JobState::Running);
    j.request = JobRequest::Pause;
    let (j, step) = j.begin(42, 9);
    assert_eq!((step, j.state, j.request), (Step::Rest, JobState::Paused, JobRequest::Nothing));
    let mut j = two(JobState::Running);
    j.request = JobRequest::Cancel;
    assert_eq!(j.begin(42, 9).0.state, JobState::Cancelled);
}

#[test]
fn an_outcome_settles_a_chapter() {
    let begun = || two(JobState::Queued).begin(42, 9).0;
    let j = begun().settle(1, JobRequest::Nothing, Outcome::Narrated(3, 4), 10);
    assert_eq!((j.state, j.pid), (JobState::Done, None));
    assert_eq!((j.chapters[1].audio_us, j.chapters[1].wall_us), (Some(3), Some(4)));
    let j = begun().settle(1, JobRequest::Cancel, Outcome::Stopped, 10);
    assert_eq!((j.state, j.request, j.pid), (JobState::Cancelled, JobRequest::Nothing, None));
    assert_eq!(j.chapters[1].state, ChapterState::Pending);
    let j = begun().settle(1, JobRequest::Pause, Outcome::Stopped, 10);
    assert_eq!(j.state, JobState::Paused);
    assert_eq!(j.next_chapter(), Some(1));
    let j = begun().settle(1, JobRequest::Nothing, Outcome::Broken("no GPU".to_string()), 10);
    assert_eq!(j.state, JobState::Failed);
    assert_eq!(j.error.as_deref(), Some("two failed: no GPU"));
    assert_eq!(j.chapters[1].error.as_deref(), Some("no GPU"));
    assert!(matches!(outcome_of(Ok(1), 2, true, false), Outcome::Narrated(1, 2)));
    assert!(matches!(outcome_of(Err("x".to_string()), 2, true, false), Outcome::Stopped));
    assert!(matches!(outcome_of(Err("x".to_string()), 2, false, true), Outcome::Stopped));
    assert!(matches!(outcome_of(Err("x".to_string()), 2, false, false), Outcome::Broken(_)));
}

#[test]
fn controls_say_what_they_do() {
    let act = |s: JobState, a: &str| match two(s).control(a, 9) {
        Ok(c) => Ok((c.job.state, c.job.request, c.note, c.interrupt)),
        Err(e) => Err((e.status, e.detail)),
    };
    let ok = |s, r, n: &str, i| Ok((s, r, n.to_string(), i));
    let no = |c, d: &str| Err((c, d.to_string()));
    assert_eq!(act(Running, "pause"), ok(Running, Pause, "pausing after the chapter in flight, so its work is kept", false));
    assert_eq!(
        act(Running, "pause-now"),
        ok(Running, Pause, "stopping two now; it will be narrated again from the start on resume", true)
    );
    assert_eq!(act(Queued, "pause"), ok(Paused, Nothing, "paused before starting", false));
    assert_eq!(act(Done, "pause"), no(409, "cannot pause a done job"));
    assert_eq!(act(Paused, "resume"), ok(Queued, Nothing, "resuming at two", false));
    assert_eq!(act(Failed, "resume"), ok(Queued, Nothing, "resuming at two", false));
    assert_eq!(act(Running, "resume"), ok(Running, Nothing, "already running", false));
    assert_eq!(act(Queued, "resume"), no(409, "cannot resume a queued job"));
    assert_eq!(act(Running, "cancel"), ok(Running, Cancel, "cancelling after the chapter in flight", false));
    assert_eq!(
        act(Running, "cancel-now"),
        ok(Running, Cancel, "cancelling now; the chapter in flight is discarded", true)
    );
    assert_eq!(act(Paused, "cancel"), ok(Cancelled, Nothing, "cancelled", false));
    assert_eq!(act(Cancelled, "cancel"), no(409, "cannot cancel a cancelled job"));
    assert_eq!(
        act(Queued, "stop"),
        no(404, "no such action `stop`; use pause, pause-now, resume, cancel or cancel-now")
    );
    let done = job(Paused, vec![chapter("one", ChapterState::Done)]);
    assert_eq!(done.control("resume", 9).ok().unwrap().note, "nothing left to narrate");
}

#[test]
fn the_oldest_runnable_job_is_next() {
    let mut a = two(JobState::Queued);
    a.created = 7;
    let mut b = two(JobState::Queued);
    b.created = 3;
    let mut c = two(JobState::Paused);
    c.created = 1;
    let d = job(JobState::Running, vec![chapter("one", ChapterState::Done)]);
    let jobs = vec![a, b, c, d];
    assert_eq!(next_runnable(&jobs), Some(1));
    assert_eq!(next_runnable(&Vec::new()), None);
    assert_eq!(count_active(&jobs, &vec![false, true, false, false]), 2);
    let r = two(JobState::Failed).resubmit();
    assert_eq!(r.state, JobState::Queued);
    let r = job(JobState::Failed, vec![chapter("one", ChapterState::Done)]).resubmit();
    assert_eq!(r.state, JobState::Done);
    assert!(JobState::Failed.is_terminal() && !JobState::Paused.is_terminal());
}

#[test]
fn progress_names_its_stage() {
    let j = two(JobState::Running);
    let p = ChapterProgress::new(&j, 1, 10, 20, Some(5));
    let s = p.on(ProgressEvent::Planned(8), 1);
    assert_eq!((s.stage.stage.as_str(), s.stage.done, s.stage.total), ("planned", 0, 8));
    assert_eq!((s.chapter.as_str(), s.chapter_index, s.chapters_total), ("two", 1, 2));
    let s = p.on(ProgressEvent::Advanced("codec".to_string(), 3, 8), 2);
    assert_eq!((s.stage.stage.as_str(), s.stage.done), ("codec", 3));
    assert!(Update::Progress(s).is_about("j"));
    assert!(!Update::Job(Box::new(j)).is_about("k"));
    let sub = Submit {
        source: "s".to_string(),
        texts: Vec::new(),
        out_dir: "o".to_string(),
        voice: None,
        quant: None,
        seed: None,
    };
    assert_eq!(sub.voice_or("mine"), "mine");
}
