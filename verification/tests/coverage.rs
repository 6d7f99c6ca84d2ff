use hwatud_core::base64::{decode, encode};
use hwatud_core::content::{auth_context, get_content, ContentFormat, AUTH_CONTEXT_JS, TEXT_BODY};
use hwatud_core::drop::{
    drop_file, drop_file_name, drop_file_payload, pick_drop_name, DropFileError, DROP_BODY, INLINE_MAX_BYTES,
    MAX_ENCODED_LEN,
};
use hwatud_core::fork::{
    fork, fork_count, list_forks, next_fork_seq, ForkCounter, ForkError, ForkOrigin, WindowEntry,
    FORK_MAX_COUNT,
};
use hwatud_core::form::{fill_form, FillFormError, FormField, NavPolicy, FILL_FORM_MAX_FIELDS};
use hwatud_core::login::{fill_login, login_poll, lookup_deadline, LoginStep, LookupPoll};
use hwatud_core::mime::guess_mime;
use hwatud_core::scout::{
    harvest_script, link_matches_filter, remaining_ms, scout, scout_limits, Harvest, ScoutAction, ScoutLink, ScoutPage,
};
use hwatud_core::text::{decimal_string, json_quote_or_null, to_ascii_lowercase};
use hwatud_core::try_until::{try_until, AltKind, Alternative, TryOutcome, TryStep};
use hwatud_core::url::host_of;

// ---- host_of --------------------------------------------------------

#[test]
fn host_of_strips_scheme_path_and_www() {
    assert_eq!(host_of("https://www.Example.com/path?q=1"), Some("example.com".to_string()));
    assert_eq!(host_of("http://example.org"), Some("example.org".to_string()));
    assert_eq!(host_of("https://a.b#frag"), Some("a.b".to_string()));
}

#[test]
fn host_of_drops_userinfo_and_port() {
    assert_eq!(host_of("http://user:pw@Host.io:8080/x"), Some("host.io".to_string()));
    assert_eq!(host_of("https://a@b@c.com?q"), Some("c.com".to_string()));
}

#[test]
fn host_of_rejects_other_urls() {
    assert_eq!(host_of("ftp://example.com"), None);
    assert_eq!(host_of("example.com"), None);
    assert_eq!(host_of("https://"), None);
    assert_eq!(host_of("https:///path"), None);
    assert_eq!(host_of("https://user@:80/"), None);
    assert_eq!(host_of("HTTPS://example.com"), None);
}

#[test]
fn host_of_www_rules() {
    assert_eq!(host_of("https://www.www.a.b"), Some("a.b".to_string()));
    // The prefix is matched before case folding.
    assert_eq!(host_of("https://WWW.X.com"), Some("www.x.com".to_string()));
    assert_eq!(host_of("https://www./"), Some(String::new()));
}

#[test]
fn host_of_round_trip() {
    for url in ["http://user:pw@www.Shop.example:8443/a?b#c", "https://a@b@C.io", "http://x.y/"] {
        let h = host_of(url).unwrap();
        assert_eq!(host_of(&format!("https://{h}")), Some(h.clone()));
    }
    // A host that keeps a `www.` prefix loses it when fed back.
    let h = host_of("https://WWW.X.com").unwrap();
    assert_eq!(host_of(&format!("https://{h}")), Some("x.com".to_string()));
}

// ---- guess_mime -----------------------------------------------------

#[test]
fn guess_mime_by_extension() {
    assert_eq!(guess_mime("photo.png"), "image/png");
    assert_eq!(guess_mime("photo.JPEG"), "image/jpeg");
    assert_eq!(guess_mime("a.jpg"), "image/jpeg");
    assert_eq!(guess_mime("notes.md"), "text/plain");
    assert_eq!(guess_mime("data.csv"), "text/csv");
    assert_eq!(guess_mime("x.json"), "application/json");
    assert_eq!(guess_mime("x.zip"), "application/zip");
    assert_eq!(guess_mime("index.HTM"), "text/html");
    assert_eq!(guess_mime("doc.pdf"), "application/pdf");
    assert_eq!(guess_mime("icon.svg"), "image/svg+xml");
    assert_eq!(guess_mime("a.gif"), "image/gif");
    assert_eq!(guess_mime("a.webp"), "image/webp");
}

#[test]
fn guess_mime_fallback() {
    assert_eq!(guess_mime("README"), "application/octet-stream");
    assert_eq!(guess_mime("x.tar.gz"), "application/octet-stream");
    assert_eq!(guess_mime("file."), "application/octet-stream");
    assert_eq!(guess_mime(".txt"), "text/plain");
}

// ---- text -----------------------------------------------------------

#[test]
fn decimal_rendering() {
    assert_eq!(decimal_string(0), "0");
    assert_eq!(decimal_string(7), "7");
    assert_eq!(decimal_string(65536), "65536");
    assert_eq!(decimal_string(u64::MAX), u64::MAX.to_string());
}

#[test]
fn json_quote_escapes() {
    assert_eq!(json_quote_or_null(Some("plain")), "\"plain\"");
    assert_eq!(json_quote_or_null(Some("a\"b\\c")), "\"a\\\"b\\\\c\"");
    assert_eq!(json_quote_or_null(Some("l1\nl2\t\r\u{8}\u{c}")), "\"l1\\nl2\\t\\r\\b\\f\"");
    assert_eq!(json_quote_or_null(Some("\u{1}\u{1f}")), "\"\\u0001\\u001f\"");
    assert_eq!(json_quote_or_null(Some("é/ü")), "\"é/ü\"");
    assert_eq!(json_quote_or_null(None), "null");
}

#[test]
fn ascii_lowercase() {
    assert_eq!(to_ascii_lowercase("MiXeD Ä"), "mixed Ä");
}

// ---- base64 ---------------------------------------------------------

#[test]
fn base64_encodes_with_padding() {
    assert_eq!(encode(b""), "");
    assert_eq!(encode(b"h"), "aA==");
    assert_eq!(encode(b"hell"), "aGVsbA==");
    assert_eq!(encode(b"hello"), "aGVsbG8=");
    assert_eq!(encode(b"hel"), "aGVs");
    assert_eq!(encode(&[0xfb, 0xff]), "+/8=");
}

#[test]
fn base64_decodes_canonical_text() {
    assert_eq!(decode("aGVsbG8="), Some(b"hello".to_vec()));
    assert_eq!(decode("aGVsbA=="), Some(b"hell".to_vec()));
    assert_eq!(decode("aGVs"), Some(b"hel".to_vec()));
    assert_eq!(decode(""), Some(Vec::new()));
    assert_eq!(decode("+/8="), Some(vec![0xfb, 0xff]));
}

#[test]
fn base64_rejects_malformed_text() {
    assert_eq!(decode("aGVsbG8"), None);
    assert_eq!(decode("aGVsbA="), None);
    assert_eq!(decode("aGVsbR=="), None);
    assert_eq!(decode("aGVsbG9="), None);
    assert_eq!(decode("aG=s"), None);
    assert_eq!(decode("aGVs\n"), None);
    assert_eq!(decode("a==="), None);
    assert_eq!(decode("aA==aGVs"), None);
}

#[test]
fn base64_roundtrip() {
    let data: Vec<u8> = (0..=255u8).chain([0, 1, 2]).collect();
    for n in 0..data.len() {
        let text = encode(&data[..n]);
        assert_eq!(decode(&text), Some(data[..n].to_vec()));
    }
}

// ---- get_content ----------------------------------------------------

#[test]
fn content_script_defaults() {
    let js = get_content(ContentFormat::Text, None, None);
    let expected = format!("const MAX = 65536;\nconst root = document.documentElement;{TEXT_BODY}");
    assert_eq!(js, expected);
}

#[test]
fn content_script_clamps_and_scopes() {
    let js = get_content(ContentFormat::Title, Some("const el = x;"), Some(0));
    assert!(js.starts_with("const MAX = 1;\nconst el = x;\nconst root = el;\nreturn { format: 'title'"));
    let js = get_content(ContentFormat::Links, None, Some(usize::MAX));
    assert!(js.starts_with("const MAX = 4194304;\n"));
    assert!(js.contains("links.length >= 200"));
    let js = get_content(ContentFormat::Html, None, Some(500));
    assert!(js.starts_with("const MAX = 500;\n"));
    assert!(js.contains("root.outerHTML"));
}

#[test]
fn auth_context_reads_names_only() {
    assert_eq!(auth_context(), AUTH_CONTEXT_JS);
    assert!(auth_context().contains("likely_authenticated"));
}

// ---- fill_form ------------------------------------------------------

fn selector_field(sel: &str, value: &str) -> FormField {
    FormField {
        selector: Some(sel.to_string()),
        nth: None,
        contains: None,
        element_ref: None,
        value: Some(value.to_string()),
        checked: None,
    }
}

#[test]
fn fill_form_refusals() {
    assert_eq!(fill_form(&vec![], false).err(), Some(FillFormError::NoFields));
    let many = vec![selector_field("#a", "x"); FILL_FORM_MAX_FIELDS + 1];
    let e = fill_form(&many, false).err().unwrap();
    assert_eq!(e, FillFormError::TooManyFields { count: FILL_FORM_MAX_FIELDS + 1 });
    assert_eq!(e.message(), format!("fill_form has {} fields; the cap is {}", FILL_FORM_MAX_FIELDS + 1, FILL_FORM_MAX_FIELDS));

    let mut both = selector_field("#a", "x");
    both.element_ref = Some(4);
    let e = fill_form(&vec![selector_field("#b", "y"), both], false).err().unwrap();
    assert_eq!(e, FillFormError::TargetNotExclusive { index: 1 });
    assert_eq!(e.message(), "fill_form field 1: pass exactly one of selector or ref");

    let mut neither = selector_field("#a", "x");
    neither.value = None;
    let e = fill_form(&vec![neither], true).err().unwrap();
    assert_eq!(e, FillFormError::ContentNotExclusive { index: 0 });
    assert_eq!(e.message(), "fill_form field 0: pass exactly one of value or checked");
    assert_eq!(FillFormError::NoFields.message(), "fill_form needs at least one field");
}

#[test]
fn fill_form_script_lists_fields() {
    let checkbox = FormField {
        selector: None,
        nth: Some(2),
        contains: Some("Agree \"now\"".to_string()),
        element_ref: Some(17),
        value: None,
        checked: Some(true),
    };
    let plan = fill_form(&vec![selector_field("#user", "ann"), checkbox], true).ok().unwrap();
    assert_eq!(plan.nav, NavPolicy::Success);
    let expected_head = "\nconst FIELDS = [{ selector: \"#user\", nth: 0, contains: null, ref: null, value: \"ann\", checked: null }, { selector: null, nth: 2, contains: \"Agree \\\"now\\\"\", ref: 17, value: null, checked: true }];\nconst SUBMIT = true;\nconst findTarget";
    assert!(plan.script.starts_with(expected_head), "{}", plan.script);
    assert!(plan.script.ends_with("submitted, url: location.href };"));
    let plan = fill_form(&vec![selector_field("#q", "v")], false).ok().unwrap();
    assert_eq!(plan.nav, NavPolicy::Error);
    assert!(plan.script.contains("const SUBMIT = false;"));
}

// ---- drop_file ------------------------------------------------------

#[test]
fn drop_payload_sources() {
    assert_eq!(drop_file_payload(Some("aGVsbG8="), None).ok(), Some(b"hello".to_vec()));
    // Inline data wins over a file.
    assert_eq!(
        drop_file_payload(Some("aGk="), Some(("/x", Ok(vec![1, 2])))).ok(),
        Some(b"hi".to_vec())
    );
    assert_eq!(drop_file_payload(None, Some(("/x", Ok(vec![1, 2])))).ok(), Some(vec![1, 2]));
}

#[test]
fn drop_payload_refusals() {
    let e = drop_file_payload(Some("aGVsbG8"), None).err().unwrap();
    assert!(matches!(e, DropFileError::InvalidBase64));
    assert_eq!(e.message(), "drop_file data is not valid base64");
    let long = "A".repeat(MAX_ENCODED_LEN + 4);
    let e = drop_file_payload(Some(&long), None).err().unwrap();
    assert!(matches!(e, DropFileError::DataTooLarge));
    assert_eq!(e.message(), format!("drop_file data exceeds the {INLINE_MAX_BYTES}-byte decoded limit"));
    let e = drop_file_payload(None, None).err().unwrap();
    assert_eq!(e.message(), "drop_file needs path or data");
    let e = drop_file_payload(None, Some(("/nope", Err("No such file".to_string())))).err().unwrap();
    assert_eq!(e.message(), "cannot read /nope: No such file");
    let big = vec![0u8; INLINE_MAX_BYTES + 1];
    let e = drop_file_payload(None, Some(("/big", Ok(big)))).err().unwrap();
    assert_eq!(e.message(), format!("/big is {} bytes; drop_file caps at {INLINE_MAX_BYTES}", INLINE_MAX_BYTES + 1));
}

#[test]
fn drop_limits_agree() {
    assert_eq!(MAX_ENCODED_LEN, INLINE_MAX_BYTES.div_ceil(3) * 4);
}

#[test]
fn drop_names() {
    assert_eq!(drop_file_name(Some("given.txt".to_string()), Some("/a/b.pdf")), "given.txt");
    assert_eq!(drop_file_name(None, Some("/a/b.pdf")), "b.pdf");
    assert_eq!(drop_file_name(None, Some("/a/dir/")), "dir");
    assert_eq!(drop_file_name(None, Some("/a/..")), "file");
    assert_eq!(drop_file_name(None, None), "file");
    assert_eq!(drop_file_name(None, Some("a//b//")), "b");
    assert_eq!(drop_file_name(None, Some("a/.")), "a");
    assert_eq!(drop_file_name(None, Some(".")), "file");
    assert_eq!(drop_file_name(None, Some("/")), "file");
    assert_eq!(drop_file_name(None, Some("./..")), "file");
    assert_eq!(drop_file_name(None, Some("c.txt")), "c.txt");
    assert_eq!(pick_drop_name(None, Some("b.pdf".to_string())), "b.pdf");
    assert_eq!(pick_drop_name(Some("a".to_string()), Some("b.pdf".to_string())), "a");
    assert_eq!(pick_drop_name(None, None), "file");
}

#[test]
fn drop_script_contents() {
    let js = drop_file("const el = q;", b"hi", "a.png", None);
    let expected = format!(
        "const el = q;\nconst B64 = \"aGk=\";\nconst NAME = \"a.png\";\nconst MIME = \"image/png\";{DROP_BODY}"
    );
    assert_eq!(js, expected);
    let js = drop_file("", b"", "x", Some("text/x-custom"));
    assert!(js.contains("const MIME = \"text/x-custom\";"));
    assert!(js.contains("const B64 = \"\";"));
}

// ---- fork / list_forks ----------------------------------------------

#[test]
fn fork_sequence_counts_up() {
    let mut c = ForkCounter::new();
    assert_eq!(next_fork_seq(&mut c), 1);
    assert_eq!(next_fork_seq(&mut c), 2);
    assert_eq!(c.last, 2);
}

#[test]
fn fork_count_validation() {
    assert_eq!(fork_count(None), Ok(1));
    assert_eq!(fork_count(Some(FORK_MAX_COUNT)), Ok(FORK_MAX_COUNT));
    assert_eq!(fork_count(Some(0)), Err(ForkError::BadCount));
    assert_eq!(fork_count(Some(FORK_MAX_COUNT + 1)), Err(ForkError::BadCount));
    assert_eq!(ForkError::BadCount.message(), format!("fork count must be 1..={FORK_MAX_COUNT}"));
}

#[test]
fn fork_names() {
    let mut c = ForkCounter::new();
    assert_eq!(fork(Some("probe"), None, "https://a", 4, &mut c), Ok(vec!["probe".to_string()]));
    assert_eq!(
        fork(Some("probe"), Some(3), "https://a", 4, &mut c),
        Ok(vec!["probe-1".to_string(), "probe-2".to_string(), "probe-3".to_string()])
    );
    assert_eq!(c.last, 0);
    assert_eq!(
        fork(None, Some(2), "https://a", 4, &mut c),
        Ok(vec!["fork-4-1".to_string(), "fork-4-2".to_string()])
    );
    assert_eq!(fork(None, None, "https://a", 9, &mut c), Ok(vec!["fork-9-3".to_string()]));
    assert_eq!(c.last, 3);
}

#[test]
fn fork_refusals() {
    let mut c = ForkCounter::new();
    assert_eq!(fork(None, None, "", 1, &mut c), Err(ForkError::NoPage));
    assert_eq!(fork(None, None, "about:blank", 1, &mut c), Err(ForkError::NoPage));
    assert_eq!(fork(None, Some(0), "https://a", 1, &mut c), Err(ForkError::BadCount));
    assert_eq!(c.last, 0);
    assert_eq!(ForkError::NoPage.message(), "fork source has no page loaded; navigate it first");
}

fn window(id: u64, fork_of: Option<(u64, &str, u64)>) -> WindowEntry {
    WindowEntry {
        id,
        url: format!("https://site/{id}"),
        fork_of: fork_of.map(|(parent, name, created_at)| ForkOrigin {
            parent,
            name: name.to_string(),
            created_at,
        }),
    }
}

#[test]
fn list_forks_sorted_with_lineage() {
    let windows = vec![
        window(9, Some((1, "b", 20))),
        window(1, None),
        window(5, Some((3, "a", 10))),
        window(7, Some((1, "c", 30))),
    ];
    let forks = list_forks(&windows);
    let ids: Vec<u64> = forks.iter().map(|f| f.id).collect();
    assert_eq!(ids, vec![5, 7, 9]);
    assert_eq!(forks[0].name, "a");
    assert!(!forks[0].parent_open);
    assert!(forks[1].parent_open);
    assert_eq!(forks[2].url, "https://site/9");
    assert_eq!(forks[2].created_at, 20);
}

#[test]
fn list_forks_ignores_walk_order() {
    let a = vec![window(3, Some((1, "x", 1))), window(2, Some((1, "y", 2))), window(1, None)];
    let b = vec![window(1, None), window(2, Some((1, "y", 2))), window(3, Some((1, "x", 1)))];
    let la: Vec<(u64, String)> = list_forks(&a).into_iter().map(|f| (f.id, f.name)).collect();
    let lb: Vec<(u64, String)> = list_forks(&b).into_iter().map(|f| (f.id, f.name)).collect();
    assert_eq!(la, lb);
    assert!(list_forks(&vec![]).is_empty());
}

// ---- try_until ------------------------------------------------------

fn alt(kind: AltKind, window: Option<u64>) -> Alternative {
    Alternative { kind, window }
}

#[test]
fn try_until_first_success_wins() {
    let mut t = try_until(
        vec![alt(AltKind::Click, None), alt(AltKind::Type, Some(8)), alt(AltKind::Expect, None)],
        Some(2),
        None,
        1_000,
    );
    assert_eq!(t.deadline_ms, 6_000);
    match t.step(1_000) {
        TryStep::Dispatch { index, window, timeout_ms } => {
            assert_eq!((index, window, timeout_ms), (0, Some(2), 2000));
        }
        other => panic!("unexpected {other:?}"),
    }
    assert!(t.finish_attempt(Err("no match".to_string())).is_none());
    match t.step(5_500) {
        TryStep::Dispatch { index, window, timeout_ms } => {
            assert_eq!((index, window, timeout_ms), (1, Some(8), 500));
        }
        other => panic!("unexpected {other:?}"),
    }
    match t.finish_attempt(Ok(())) {
        Some(TryOutcome::Succeeded { alternative, action }) => {
            assert_eq!(alternative, 1);
            assert_eq!(action, "type");
        }
        other => panic!("unexpected {other:?}"),
    }
    assert_eq!(t.failures.len(), 1);
    assert_eq!(t.failures[0].error, "no match");
    assert_eq!(t.failures[0].action, "click");
}

#[test]
fn try_until_all_failed() {
    let mut t = try_until(
        vec![alt(AltKind::Other("navigate".to_string()), None), alt(AltKind::Expect, None)],
        None,
        Some(0),
        10,
    );
    assert_eq!(t.deadline_ms, 11);
    match t.step(10) {
        TryStep::Dispatch { index, timeout_ms, .. } => assert_eq!((index, timeout_ms), (1, 1)),
        other => panic!("unexpected {other:?}"),
    }
    assert_eq!(t.failures[0].alternative, 0);
    assert_eq!(t.failures[0].error, "try_until cannot run navigate");
    assert!(t.finish_attempt(Err("timeout".to_string())).is_none());
    match t.step(10) {
        TryStep::Finished(o) => {
            assert!(matches!(o, TryOutcome::AllFailed));
            assert_eq!(o.message().as_deref(), Some("all alternatives failed"));
        }
        other => panic!("unexpected {other:?}"),
    }
    let ids: Vec<usize> = t.failures.iter().map(|f| f.alternative).collect();
    assert_eq!(ids, vec![0, 1]);
}

#[test]
fn try_until_deadline() {
    let mut t = try_until(vec![alt(AltKind::Click, None), alt(AltKind::Click, None)], None, Some(100), 0);
    match t.step(0) {
        TryStep::Dispatch { index, timeout_ms, .. } => assert_eq!((index, timeout_ms), (0, 100)),
        other => panic!("unexpected {other:?}"),
    }
    t.finish_attempt(Err("slow".to_string()));
    match t.step(100) {
        TryStep::Finished(o) => {
            assert_eq!(o.message().as_deref(), Some("try_until deadline reached"));
        }
        other => panic!("unexpected {other:?}"),
    }
    let empty = try_until(vec![], None, None, 0).step(0);
    assert!(matches!(empty, TryStep::Finished(TryOutcome::AllFailed)));
}

#[test]
fn deadlines_saturate() {
    assert_eq!(try_until(vec![], None, Some(u64::MAX), 10).deadline_ms, u64::MAX);
    assert_eq!(lookup_deadline(5, Some(u64::MAX)), u64::MAX);
    let s = scout("https://a.b/", None, None, None, None, Some(u64::MAX - 1), 7).ok().unwrap();
    assert_eq!(s.deadline_ms, u64::MAX);
}

// ---- scout ----------------------------------------------------------

fn link(url: &str, text: &str) -> ScoutLink {
    ScoutLink { url: Some(url.to_string()), text: Some(text.to_string()) }
}

#[test]
fn scout_limits_clamp() {
    let l = scout_limits(None, None, None);
    assert_eq!((l.depth, l.max_pages, l.budget), (1, 5, 2000));
    let l = scout_limits(Some(9), Some(0), Some(5));
    assert_eq!((l.depth, l.max_pages, l.budget), (2, 1, 200));
    let l = scout_limits(Some(0), Some(99), Some(1_000_000));
    assert_eq!((l.depth, l.max_pages, l.budget), (0, 10, 20000));
    assert_eq!(remaining_ms(100, 40, 15), 15);
    assert_eq!(remaining_ms(100, 95, 15), 5);
    assert_eq!(remaining_ms(100, 200, 15), 1);
}

#[test]
fn scout_rejects_non_http() {
    let e = scout("file:///etc", None, None, None, None, None, 0).err().unwrap();
    assert_eq!(e.message(), "scout needs an absolute http(s) URL, got file:///etc");
}

#[test]
fn scout_crawls_same_host_breadth_first() {
    let mut s = scout("https://www.site.com/", Some(1), Some(3), None, None, None, 0).ok().unwrap();
    assert_eq!(s.host, "site.com");
    match s.step(0) {
        ScoutAction::AwaitFirstLoad { timeout_ms } => assert_eq!(timeout_ms, 15000),
        other => panic!("unexpected {other:?}"),
    }
    assert_eq!(s.page_loaded(true, 59_000), Some(1000));
    s.harvested(Harvest::Page {
        links: Some(vec![
            link("https://site.com/a", "A"),
            link("https://other.com/b", "B"),
            link("https://www.site.com/", "home"),
            ScoutLink { url: None, text: Some("x".to_string()) },
            link("https://SITE.com/c", "C"),
        ]),
    });
    let queued: Vec<(String, u32)> = s.queue.iter().map(|q| (q.url.clone(), q.level)).collect();
    assert_eq!(
        queued,
        vec![
            ("https://www.site.com/".to_string(), 0),
            ("https://site.com/a".to_string(), 1),
            ("https://SITE.com/c".to_string(), 1)
        ]
    );
    match s.step(10) {
        ScoutAction::Navigate { url, .. } => assert_eq!(url, "https://site.com/a"),
        other => panic!("unexpected {other:?}"),
    }
    assert_eq!(s.page_loaded(false, 10), None);
    match s.step(10) {
        ScoutAction::Navigate { url, .. } => assert_eq!(url, "https://SITE.com/c"),
        other => panic!("unexpected {other:?}"),
    }
    s.page_loaded(true, 10);
    // Level 1 is the depth limit: nothing more is queued.
    s.harvested(Harvest::Page { links: Some(vec![link("https://site.com/d", "D")]) });
    assert_eq!(s.queue.len(), 3);
    match s.step(10) {
        ScoutAction::Finish { visited } => assert_eq!(visited, 3),
        other => panic!("unexpected {other:?}"),
    }
    assert_eq!(s.pages.len(), 3);
    assert!(matches!(s.pages[0], ScoutPage::Harvested { depth: 0 }));
    match &s.pages[1] {
        ScoutPage::Failed { url, error } => {
            assert_eq!(url, "https://site.com/a");
            assert_eq!(error, "load failed or timed out");
        }
        other => panic!("unexpected {other:?}"),
    }
    assert!(matches!(s.pages[2], ScoutPage::Harvested { depth: 1 }));
}

#[test]
fn scout_filter_and_limits() {
    let mut s = scout("http://news.io/", Some(2), Some(2), Some("SPORT".to_string()), None, Some(1000), 0)
        .ok()
        .unwrap();
    s.step(0);
    s.page_loaded(true, 0);
    s.harvested(Harvest::Page {
        links: Some(vec![
            link("http://news.io/politics", "Politics"),
            link("http://news.io/s1", "Sports today"),
            link("http://news.io/Sport/2", "x"),
            link("http://news.io/s1", "again"),
            link("http://news.io/s1", "Sport"),
        ]),
    });
    let urls: Vec<String> = s.queue.iter().map(|q| q.url.clone()).collect();
    // A link that repeats an unvisited URL is queued again; visiting skips it later.
    assert_eq!(urls, vec!["http://news.io/", "http://news.io/s1", "http://news.io/Sport/2", "http://news.io/s1"]);
    match s.step(0) {
        ScoutAction::Navigate { url, timeout_ms } => {
            assert_eq!(url, "http://news.io/s1");
            assert_eq!(timeout_ms, 1000);
        }
        other => panic!("unexpected {other:?}"),
    }
    s.page_loaded(true, 0);
    s.harvested(Harvest::Empty);
    // Page limit reached.
    assert!(matches!(s.step(0), ScoutAction::Finish { visited: 2 }));
    match &s.pages[1] {
        ScoutPage::Failed { error, .. } => assert_eq!(error, "empty harvest"),
        other => panic!("unexpected {other:?}"),
    }
}

#[test]
fn scout_filter_matching() {
    let chars = |s: &str| s.chars().collect::<Vec<char>>();
    assert!(link_matches_filter(&chars("http://a/sport/1"), &chars("x"), &chars("sport")));
    assert!(link_matches_filter(&chars("http://a/1"), &chars("sports today"), &chars("sport")));
    assert!(!link_matches_filter(&chars("http://a/1"), &chars("politics"), &chars("sport")));
    assert!(link_matches_filter(&chars("http://a/1"), &chars(""), &chars("")));
}

#[test]
fn scout_skips_visited_and_stops_at_deadline() {
    let mut s = scout("https://a.b/", Some(2), Some(10), None, None, Some(50), 0).ok().unwrap();
    s.step(0);
    s.page_loaded(true, 0);
    s.harvested(Harvest::Failed("script error".to_string()));
    assert!(matches!(s.step(10), ScoutAction::Finish { visited: 1 }));
    let mut s = scout("https://a.b/", None, None, None, None, Some(50), 0).ok().unwrap();
    assert!(matches!(s.step(50), ScoutAction::Finish { visited: 0 }));
    assert!(harvest_script(300).starts_with("\nconst BUDGET = 300;\nconst text"));
}

// ---- fill_login -----------------------------------------------------

#[test]
fn login_site_choice() {
    assert_eq!(fill_login(None, "https://www.bank.com/login"), Ok("bank.com".to_string()));
    assert_eq!(fill_login(Some("override.org".to_string()), "about:blank"), Ok("override.org".to_string()));
    let e = fill_login(None, "about:blank").err().unwrap();
    assert_eq!(e.message(), "no site to fill (window has no http(s) page)");
    assert!(fill_login(Some("hwatu-internal".to_string()), "https://x.y").is_err());
    assert!(fill_login(Some(String::new()), "https://x.y").is_err());
}

#[test]
fn login_polling() {
    assert_eq!(lookup_deadline(100, None), 30_100);
    assert_eq!(lookup_deadline(100, Some(0)), 101);
    assert!(matches!(login_poll(LookupPoll::Done(Ok("fill()".to_string())), 0, 10), LoginStep::Fill(js) if js == "fill()"));
    assert!(matches!(login_poll(LookupPoll::Done(Err("locked".to_string())), 0, 10), LoginStep::Fail(m) if m == "locked"));
    assert!(matches!(login_poll(LookupPoll::Pending, 9, 10), LoginStep::Wait));
    assert!(matches!(login_poll(LookupPoll::Pending, 10, 10), LoginStep::Fail(m) if m == "credential lookup timed out"));
    assert!(matches!(login_poll(LookupPoll::Lost, 0, 10), LoginStep::Fail(m) if m == "credential lookup crashed"));
}
