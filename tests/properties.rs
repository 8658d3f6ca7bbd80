use apertium_stats::classify::{get_file_kind, kind_from_matches};
use apertium_stats::kinds::{FileKind, StatKind};
use apertium_stats::lexc::{clean, get_stats};
use apertium_stats::listing::{files_from_events, list_files, ListingError};
use apertium_stats::names::{convert_language_code, reading_from_groups};
use apertium_stats::registry::{File, Registry, Task};
use apertium_stats::stats::{get_file_stats, StatsError};
use apertium_stats::text::chars_of;
use apertium_stats::rlx;
use apertium_stats::tree::Block;
use apertium_stats::xml::{get_bidix_stats, get_monodix_stats, get_transfer_stats, XmlEvent};

fn task(kind: FileKind, path: &str) -> Task {
    Task {
        created: 0,
        file: File {
            path: path.to_string(),
            size: 1,
            revision: 1,
            sha: "abc".to_string(),
            last_author: "me".to_string(),
            last_changed: 0,
        },
        kind,
    }
}

#[test]
fn classify_names() {
    assert_eq!(get_file_kind("apertium-kaz.kaz.lexc"), Some(FileKind::Lexc));
    assert_eq!(get_file_kind("apertium-en-es.en-es.dix"), Some(FileKind::Bidix));
    assert_eq!(get_file_kind("readme.md"), None);
    assert_eq!(get_file_kind("apertium-kaz.kaz.dix"), Some(FileKind::Monodix));
    assert_eq!(get_file_kind("apertium-kaz.kaz.dix.xml"), Some(FileKind::Monodix));
    assert_eq!(get_file_kind("apertium-en-es.en-es.t1x"), Some(FileKind::Transfer));
    assert_eq!(get_file_kind("apertium-kaz.kaz.lexd"), Some(FileKind::Lexd));
    assert_eq!(get_file_kind("apertium-en-es.post-en.dix"), Some(FileKind::Postdix));
    assert_eq!(get_file_kind("apertium-kaz.kaz.metadix"), Some(FileKind::MetaMonodix));
}

#[test]
fn classify_last_pattern_wins() {
    assert_eq!(get_file_kind("apertium-en-es.en-es.metadix"), Some(FileKind::MetaBidix));
    assert_eq!(get_file_kind("apertium-kaz.err.twol"), Some(FileKind::Twol));
    let mut m = vec![false; 14];
    m[2] = true;
    m[4] = true;
    assert_eq!(kind_from_matches(&m), Some(FileKind::MetaBidix));
    m[4] = false;
    assert_eq!(kind_from_matches(&m), Some(FileKind::MetaMonodix));
    assert_eq!(kind_from_matches(&vec![false; 14]), None);
}

#[test]
fn kind_names_ignore_case_and_underscores() {
    assert_eq!(FileKind::from_string("Meta_Monodix"), Ok(FileKind::MetaMonodix));
    assert_eq!(FileKind::from_string("LEXD"), Ok(FileKind::Lexd));
    assert_eq!(FileKind::from_lowercase("meta_bidix"), Some(FileKind::MetaBidix));
    assert_eq!(FileKind::from_lowercase("Lexd"), None);
}

#[test]
fn monodix_scenario() {
    let body = "<dictionary><section><e lm=\"x\"><p>...</p></e></section><pardefs><pardef n=\"a\"/></pardefs></dictionary>";
    assert_eq!(
        get_monodix_stats(body, "apertium-xx.xx.dix").unwrap(),
        vec![(StatKind::Stems, 1), (StatKind::Paradigms, 1)]
    );
}

#[test]
fn xml_counts_only_in_scope() {
    let body = "<dictionary><e lm=\"a\"/><pardef n=\"p\"/><pardefs><pardef n=\"q\"/></pardefs><section><e lm=\"b\"/><e/></section><e lm=\"c\"/></dictionary>";
    assert_eq!(get_monodix_stats(body, "m.dix").unwrap(), vec![(StatKind::Stems, 1), (StatKind::Paradigms, 1)]);
    assert_eq!(get_bidix_stats(body, "b.dix").unwrap(), vec![(StatKind::Entries, 2)]);
}

#[test]
fn transfer_counts_anywhere() {
    let body = "<transfer><rule/><section-rules><rule/></section-rules><def-macro n=\"m\"/></transfer>";
    assert_eq!(get_transfer_stats(body, "t.t1x").unwrap(), vec![(StatKind::Rules, 2), (StatKind::Macros, 1)]);
}

#[test]
fn malformed_xml_is_an_error() {
    match get_bidix_stats("<dictionary><section></dictionary>", "x.dix") {
        Err(StatsError::Xml { path, .. }) => assert_eq!(path, "x.dix"),
        other => panic!("{:?}", other),
    }
}

#[test]
fn twol_scenario() {
    let body = "\"a\" rule\nnot a rule\n\"b\" rule\n  \"indented\"\n\"c\"";
    assert_eq!(get_file_stats(FileKind::Twol, body, "t.twol", &None).unwrap(), vec![(StatKind::Rules, 3)]);
}

#[test]
fn lexc_escape_before_comment() {
    let line = chars_of("foo%!bar ! real comment");
    assert_eq!(clean(&line), chars_of("foo!bar"));
    assert_eq!(clean(&chars_of("  a%%b!c  ")), chars_of("a%b"));
    assert_eq!(clean(&chars_of("end%")), chars_of("end%"));
}

#[test]
fn lexc_counts_reachable_stems() {
    let body = "Multichar_Symbols\n%<n%>\nLEXICON Root\nNouns ;\nLEXICON Nouns\nkitap:kitap N ; ! book\nalma:alma N ;\nUse/MT:x N ; ! Use/MT\nLEXICON N\n%<n%>:0 # ;\nLEXICON Unused\nzzz:zzz # ;\n";
    assert_eq!(get_stats(body).unwrap(), vec![(StatKind::VanillaStems, 3), (StatKind::Stems, 4)]);
}

#[test]
fn lexc_cycle_counts_each_entry_once() {
    let body = "LEXICON Root\nA ;\nLEXICON A\nB ;\na:a B ;\nLEXICON B\nA ;\nb:b A ;\na:a B ;\n";
    assert_eq!(get_stats(body).unwrap(), vec![(StatKind::VanillaStems, 2), (StatKind::Stems, 2)]);
}

#[test]
fn lexc_without_root_fails() {
    let body = "LEXICON Nouns\nkitap:kitap # ;\n";
    assert!(matches!(get_stats(body), Err(StatsError::MissingRoot)));
    assert!(matches!(get_stats("LEXICON\n"), Err(StatsError::LexiconNameMissing { line: 0 })));
}

#[test]
fn rlx_counts_rules() {
    let blocks = vec![
        Block { kind: "rule".to_string(), parts: vec![] },
        Block { kind: "set".to_string(), parts: vec![] },
        Block { kind: "rule".to_string(), parts: vec![] },
    ];
    assert_eq!(rlx::get_stats(&blocks), vec![(StatKind::Rules, 2)]);
    assert!(matches!(get_file_stats(FileKind::Rlx, "", "x.rlx", &None), Err(StatsError::Unparsed)));
}

#[test]
fn listing_reads_files_only() {
    let out = "<lists><list><entry kind=\"dir\"><name>dev</name><commit revision=\"1\"><author>a</author><date>2019-01-01T00:00:00.000000Z</date></commit></entry><entry kind=\"file\"><name>apertium-kaz.kaz.lexc</name><size>1234</size><commit revision=\"77\"><author>bob</author><date>2019-01-01T00:00:01.000000Z</date></commit></entry></list></lists>";
    let files = list_files(true, out, String::new()).unwrap();
    assert_eq!(files.len(), 1);
    assert_eq!(files[0].path, "apertium-kaz.kaz.lexc");
    assert_eq!(files[0].size, 1234);
    assert_eq!(files[0].revision, 77);
    assert_eq!(files[0].last_author, "bob");
    assert_eq!(files[0].last_changed, 1_546_300_801_000);
}

#[test]
fn listing_field_errors_are_fatal() {
    let bad_size = "<lists><entry kind=\"file\"><name>a</name><size>big</size></entry></lists>";
    assert!(matches!(list_files(true, bad_size, String::new()), Err(ListingError::BadSize)));
    let bad_rev = "<lists><entry kind=\"file\"><commit revision=\"x1\"></commit></entry></lists>";
    assert!(matches!(list_files(true, bad_rev, String::new()), Err(ListingError::BadRevision)));
    let bad_date = "<lists><entry kind=\"file\"><date>yesterday</date></entry></lists>";
    assert!(matches!(list_files(true, bad_date, String::new()), Err(ListingError::BadDate)));
    assert!(matches!(list_files(true, "<lists><entry></lists>", String::new()), Err(ListingError::MalformedXml(_))));
    let e = ListingError::SearchFailed("no svn".to_string());
    assert_eq!(e.message(), "Package search failed: no svn");
}

#[test]
fn no_duplicate_in_flight_tasks() {
    let mut reg = Registry::new();
    let batch = vec![task(FileKind::Twol, "a.twol"), task(FileKind::Lexc, "a.lexc"), task(FileKind::Twol, "a.twol")];
    let (new1, all1) = reg.record_new_tasks("apertium-kaz", batch);
    assert_eq!(new1.len(), 2);
    assert_eq!(all1.len(), 2);
    let (new2, all2) = reg.record_new_tasks("apertium-kaz", vec![task(FileKind::Lexc, "a.lexc"), task(FileKind::Lexc, "b.lexc")]);
    assert_eq!(new2.len(), 1);
    assert_eq!(new2[0].file.path, "b.lexc");
    assert_eq!(all2.len(), 3);
    let (new3, _) = reg.record_new_tasks("apertium-tat", vec![task(FileKind::Lexc, "a.lexc")]);
    assert_eq!(new3.len(), 1);
}

#[test]
fn completion_clears_task_and_empty_package() {
    let mut reg = Registry::new();
    reg.record_new_tasks("apertium-kaz", vec![task(FileKind::Twol, "a.twol"), task(FileKind::Lexc, "a.lexc")]);
    let done = task(FileKind::Twol, "a.twol");
    let entries = reg.complete_task("apertium-kaz", &done, &Err(StatsError::MissingRoot), 5);
    assert!(entries.is_empty());
    let left = reg.get_tasks_in_progress("apertium-kaz").unwrap();
    assert_eq!(left.len(), 1);
    assert_eq!(left[0].kind, FileKind::Lexc);
    reg.record_task_completion("apertium-kaz", FileKind::Lexc, &"a.lexc".to_string());
    assert!(reg.get_tasks_in_progress("apertium-kaz").is_none());
    assert!(reg.get_tasks_in_progress("apertium-none").is_none());
    let (new, _) = reg.record_new_tasks("apertium-kaz", vec![task(FileKind::Twol, "a.twol")]);
    assert_eq!(new.len(), 1);
}

#[test]
fn five_files_then_none_new() {
    let out = format!(
        "<lists>{}</lists>",
        ["apertium-kaz.kaz.lexc", "apertium-kaz.kaz.twol", "apertium-kaz.err.twol", "apertium-kaz.kaz.rlx", "apertium-kaz.kaz.lexd"]
            .iter()
            .map(|p| format!("<entry kind=\"file\"><name>{}</name><size>1</size><commit revision=\"9\"><author>a</author><date>2019-01-01T00:00:00.000000Z</date></commit></entry>", p))
            .collect::<String>()
    );
    let files = list_files(true, &out, String::new()).unwrap();
    let mut reg = Registry::new();
    let shas = vec![(9, Some("deadbeef".to_string()))];
    let reqs = reg.requested_files("apertium-kaz", &files, None);
    let (new, in_progress) = reg.launch_tasks("apertium-kaz", &reqs, &shas, 1);
    assert_eq!((new.len(), in_progress.len()), (5, 5));
    let reqs = reg.requested_files("apertium-kaz", &files, None);
    let (new, in_progress) = reg.launch_tasks("apertium-kaz", &reqs, &shas, 2);
    assert_eq!((new.len(), in_progress.len()), (0, 5));
}

#[test]
fn files_without_hash_get_no_task() {
    let out = "<lists><entry kind=\"file\"><name>apertium-kaz.kaz.lexc</name><size>1</size><commit revision=\"9\"><author>a</author><date>2019-01-01T00:00:00.000000Z</date></commit></entry></lists>";
    let files = list_files(true, out, String::new()).unwrap();
    let mut reg = Registry::new();
    let reqs = reg.requested_files("apertium-kaz", &files, None);
    let (new, in_progress) = reg.launch_tasks("apertium-kaz", &reqs, &vec![(9, None)], 1);
    assert!(new.is_empty() && in_progress.is_empty());
}

#[test]
fn reading_from_captured_groups() {
    let codes = vec![("en".to_string(), "eng".to_string()), ("es".to_string(), "spa".to_string())];
    let module = Some(vec![Some("apertium-en".to_string()), Some("en".to_string()), None]);
    assert_eq!(reading_from_groups(&codes, &module, &None), (true, Some("apertium-eng".to_string())));
    let pair = Some(vec![
        Some("apertium-eng-spa_x".to_string()),
        Some("eng".to_string()),
        None,
        Some("spa".to_string()),
        Some("x".to_string()),
    ]);
    assert_eq!(reading_from_groups(&codes, &None, &pair), (true, Some("apertium-en-es_x".to_string())));
    assert_eq!(reading_from_groups(&codes, &None, &None), (false, None));
    assert_eq!(convert_language_code(&codes, "fra", None), None);
    assert_eq!(convert_language_code(&codes, "es", Some("VAL")), Some("spa_VAL".to_string()));
}

#[test]
fn listing_from_events() {
    let s = |x: &str| x.to_string();
    let evs = vec![
        XmlEvent::Start(s("entry"), s(" kind=\"file\"")),
        XmlEvent::Start(s("name"), s("")),
        XmlEvent::Text(Some(s("a.lexc"))),
        XmlEvent::End(s("name")),
        XmlEvent::Start(s("size"), s("")),
        XmlEvent::Text(Some(s("-7"))),
        XmlEvent::End(s("size")),
        XmlEvent::Start(s("commit"), s(" revision=\"+12\"")),
        XmlEvent::Start(s("author"), s("")),
        XmlEvent::Text(Some(s("ann"))),
        XmlEvent::End(s("author")),
        XmlEvent::Start(s("date"), s("")),
        XmlEvent::Text(Some(s("1970-01-01T00:00:02.000000Z"))),
        XmlEvent::End(s("date")),
        XmlEvent::End(s("commit")),
        XmlEvent::End(s("entry")),
        XmlEvent::Start(s("entry"), s(" kind=\"file\"")),
        XmlEvent::End(s("entry")),
    ];
    let files = files_from_events(&evs).unwrap();
    assert_eq!(files.len(), 1);
    assert_eq!((files[0].size, files[0].revision, files[0].last_changed), (-7, 12, 2000));
    assert_eq!(files[0].last_author, "ann");
    let bad = vec![XmlEvent::Start(s("entry"), s(" kind=\"file\"")), XmlEvent::Start(s("name"), s("")), XmlEvent::Text(None)];
    assert!(matches!(files_from_events(&bad), Err(ListingError::BadText)));
}
