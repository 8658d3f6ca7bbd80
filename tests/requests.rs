use apertium_stats::classify::get_file_kind;
use apertium_stats::kinds::{FileKind, Params, StatKind};
use apertium_stats::listing::{list_files, ListingError};
use apertium_stats::names::normalize_name;
use apertium_stats::registry::{make_tasks, unique_revisions, FileWithoutSha, Registry, Task};
use apertium_stats::stats::{get_file_stats, get_twol_stats};
use apertium_stats::lexd;
use apertium_stats::tree::Block;

const TEST_HFST_MODULE: &str = "kaz";
const TEST_LT_MODULE: &str = "cat";
const TEST_HFST_PAIR: &str = "kaz-tat";
const TEST_LT_PAIR: &str = "spa-cat";

fn entry(path: &str, revision: i32) -> String {
    format!(
        "<entry kind=\"file\"><name>{}</name><size>40</size><commit revision=\"{}\"><author>sushain</author><date>2018-03-11T02:04:22.145306Z</date></commit></entry>",
        path, revision
    )
}

fn listing(entries: &[String]) -> String {
    format!(
        "<?xml version=\"1.0\" encoding=\"UTF-8\"?><lists><list path=\"trunk\"><entry kind=\"dir\"><name>dev</name><commit revision=\"3\"><author>a</author><date>2018-03-11T02:04:22.145306Z</date></commit></entry>{}</list></lists>",
        entries.concat()
    )
}

fn module_files(code: &str) -> Vec<FileWithoutSha> {
    let out = listing(&[
        entry(&format!("apertium-{0}.{0}.lexc", code), 500),
        entry(&format!("apertium-{0}.{0}.twol", code), 501),
        entry(&format!("apertium-{0}.err.twol", code), 502),
        entry(&format!("apertium-{0}.{0}.rlx", code), 500),
        entry(&format!("apertium-{0}.post-{0}.dix", code), 503),
        entry("README", 504),
    ]);
    list_files(true, &out, String::new()).expect("valid listing")
}

fn pair_files(pair: &str) -> Vec<FileWithoutSha> {
    let (a, b) = pair.split_once('-').unwrap();
    let out = listing(&[
        entry(&format!("apertium-{0}-{1}.{0}-{1}.dix", a, b), 12),
        entry(&format!("apertium-{0}-{1}.{0}-{1}.t1x", a, b), 13),
        entry(&format!("apertium-{0}-{1}.{1}-{0}.t2x", a, b), 14),
        entry(&format!("apertium-{0}-{1}.{0}-{1}.rlx", a, b), 15),
    ]);
    list_files(true, &out, String::new()).expect("valid listing")
}

fn shas_for(reqs: &Vec<(FileKind, FileWithoutSha)>) -> Vec<(i32, Option<String>)> {
    unique_revisions(reqs).into_iter().map(|r| (r, Some(format!("sha{}", r)))).collect()
}

fn launch(reg: &mut Registry, name: &str, files: &Vec<FileWithoutSha>, kind: Option<FileKind>) -> (Vec<Task>, Vec<Task>) {
    let reqs = reg.requested_files(name, files, kind);
    let shas = shas_for(&reqs);
    reg.launch_tasks(name, &reqs, &shas, 1_520_733_862_000)
}

fn names() -> Vec<String> {
    vec!["apertium-kaz".to_string(), "apertium-eng".to_string(), "apertium-eng-spa".to_string()]
}

fn codes() -> Vec<(String, String)> {
    vec![
        ("en".to_string(), "eng".to_string()),
        ("es".to_string(), "spa".to_string()),
        ("gl".to_string(), "glg".to_string()),
        ("zh".to_string(), "zho".to_string()),
        ("kk".to_string(), "kaz".to_string()),
    ]
}

fn not_found(name: &str) {
    assert_eq!(normalize_name(name, &names(), &codes()), Ok("apertium-xxx".to_string()));
    let stderr = "svn: E170000: URL 'https://github.com/apertium/apertium-xxx/trunk' doesn't exist".to_string();
    let error = list_files(false, "", stderr).expect_err("error is string");
    assert!(matches!(error, ListingError::PackageNotFound(_)));
    assert!(error.message().starts_with("Package not found"), "{}", error.message());
}

#[test]
fn test_get_nonexistent_package_stats() {
    not_found("/apertium-xxx".trim_start_matches('/'));
}

#[test]
fn nonexistent_package_stats() {
    not_found("apertium-xxx");
}

#[test]
fn test_get_invalid_package_stats() {
    assert_eq!(normalize_name("abcd", &names(), &codes()), Err("Invalid package name: abcd".to_string()));
}

#[test]
fn invalid_package_stats() {
    let name = "/abcd".trim_start_matches('/');
    let error = normalize_name(name, &names(), &codes()).unwrap_err();
    assert_eq!(error, "Invalid package name: abcd");
}

fn no_recognized_monodix() {
    let name = normalize_name(TEST_HFST_MODULE, &names(), &codes()).unwrap();
    assert_eq!(name, "apertium-kaz");
    let kind = FileKind::from_string("monodix").unwrap();
    let mut reg = Registry::new();
    let (new, in_progress) = launch(&mut reg, &name, &module_files(TEST_HFST_MODULE), Some(kind));
    // "No recognized files": the listing worked, and nothing matches.
    assert!(new.is_empty() && in_progress.is_empty());
    assert!(reg.get_tasks_in_progress(&name).is_none());
}

#[test]
fn test_get_nonexistent_kind_package_stats() {
    no_recognized_monodix();
}

#[test]
fn nonexistent_kind_package_stats() {
    no_recognized_monodix();
}

#[test]
fn test_get_invalid_kind_package_stats() {
    assert_eq!(FileKind::from_string("dix"), Err("Invalid file kind: dix".to_string()));
}

#[test]
fn invalid_kind_package_stats() {
    let error = FileKind::from_string("dix").unwrap_err();
    assert_eq!(error, "Invalid file kind: dix");
    assert_eq!(normalize_name(TEST_HFST_MODULE, &names(), &codes()).unwrap(), "apertium-kaz");
}

fn module_twol(revision_seen: i32) {
    let name = format!("apertium-{}", TEST_HFST_MODULE);
    let mut reg = Registry::new();
    let files = module_files(TEST_HFST_MODULE);
    let (new, in_progress) = launch(&mut reg, &name, &files, None);
    assert_eq!(new.len(), 5);
    assert_eq!(in_progress.len(), 5);
    let err_twol = in_progress
        .iter()
        .find(|t| t.file.path == format!("apertium-{0}.err.twol", TEST_HFST_MODULE))
        .expect("valid in_progress");
    assert_eq!(err_twol.kind, FileKind::Twol);
    assert_eq!(err_twol.file.size, 40);
    assert_eq!(err_twol.file.revision, revision_seen);
    assert_eq!(err_twol.file.sha, format!("sha{}", revision_seen));
    let body = "\"Rule one\"\nx:y <=> _ ;\n\"Rule two\"\n\"Rule three\"\n! comment\n";
    let stats = get_file_stats(FileKind::Twol, body, &err_twol.file.path, &None).expect("valid stats");
    assert_eq!(stats, vec![(StatKind::Rules, 3)]);
    let task = err_twol.clone();
    let entries = reg.complete_task(&name, &task, &Ok(stats), 1_520_733_900_000);
    assert_eq!(entries.len(), 1);
    assert_eq!(entries[0].file_kind, FileKind::Twol);
    assert_eq!(entries[0].stat_kind, StatKind::Rules);
    assert_eq!(entries[0].value, 3);
    assert_eq!(reg.get_tasks_in_progress(&name).unwrap().len(), 4);
}

#[test]
fn test_get_module_stats() {
    module_twol(502);
}

#[test]
fn module_stats() {
    module_twol(502);
}

fn transfer_macros(pair: &str) {
    let name = format!("apertium-{}", pair);
    let mut reg = Registry::new();
    let files = pair_files(pair);
    let (_new, in_progress) = launch(&mut reg, &name, &files, None);
    assert_eq!(in_progress.len(), 4);
    let t1x = in_progress.iter().find(|t| t.kind == FileKind::Transfer).expect("valid in_progress");
    let body = "<transfer><section-def-macros><def-macro n=\"a\"/><def-macro n=\"b\"></def-macro></section-def-macros><section-rules><rule><pattern/></rule></section-rules></transfer>";
    let stats = get_file_stats(FileKind::Transfer, body, &t1x.file.path, &None).expect("valid stats");
    assert_eq!(stats, vec![(StatKind::Rules, 1), (StatKind::Macros, 2)]);
}

#[test]
fn test_get_pair_stats() {
    transfer_macros(TEST_HFST_PAIR);
}

#[test]
fn hfst_pair_stats() {
    transfer_macros(TEST_HFST_PAIR);
}

#[test]
fn lt_pair_stats() {
    let options = Params { recursive: None, run_async: Some(false) };
    assert!(!options.is_async());
    transfer_macros(TEST_LT_PAIR);
}

#[test]
fn pair_specific_stats() {
    let name = format!("apertium-{}", TEST_LT_PAIR);
    for (kind_name, expected) in [("transfer", 2), ("bidix", 1)] {
        let kind = FileKind::from_string(kind_name).unwrap();
        let mut reg = Registry::new();
        let (new, in_progress) = launch(&mut reg, &name, &pair_files(TEST_LT_PAIR), Some(kind));
        assert_eq!(new.len(), expected);
        assert_eq!(in_progress.len(), expected);
        assert!(in_progress.iter().all(|t| t.kind == kind), "valid in_progress");
    }
}

#[test]
fn lexd_module_stats() {
    let name = "apertium-swa";
    let lexd = format!("{}.swa.lexd", name);
    assert_eq!(get_file_kind(&lexd), Some(FileKind::Lexd));
    let part = |k: &str, t: &str| (k.to_string(), t.to_string());
    let blocks = vec![
        Block { kind: "pattern_block".to_string(), parts: vec![part("pattern_start", "PATTERNS"), part("pattern_line", "Nouns"), part("pattern_line", "Verbs")] },
        Block { kind: "pattern_block".to_string(), parts: vec![part("pattern_start", "PATTERN"), part("identifier", "Nouns"), part("pattern_line", "N")] },
        Block { kind: "lexicon_block".to_string(), parts: vec![part("lexicon_start", "LEXICON"), part("identifier", "N"), part("lexicon_line", "a"), part("lexicon_line", "b")] },
        Block { kind: "lexicon_block".to_string(), parts: vec![part("lexicon_start", "LEXICON"), part("identifier", "N"), part("lexicon_line", "c")] },
    ];
    let stats = lexd::get_stats(&blocks);
    assert_eq!(
        stats,
        vec![(StatKind::Lexicons, 1), (StatKind::LexiconEntries, 3), (StatKind::Patterns, 2), (StatKind::PatternEntries, 3)]
    );
}

#[test]
fn module_specific_stats() {
    let name = format!("apertium-{}", TEST_LT_MODULE);
    for (kind_name, expected) in [("monodix", 0), ("rlx", 1), ("postdix", 1)] {
        let kind = FileKind::from_string(kind_name).unwrap();
        let mut reg = Registry::new();
        let (_new, in_progress) = launch(&mut reg, &name, &module_files(TEST_LT_MODULE), Some(kind));
        assert_eq!(in_progress.len(), expected, "valid in_progress");
    }
}

fn recursive_twol() {
    let options = Params { recursive: Some(true), run_async: None };
    assert!(options.is_recursive());
    assert!(!Params::default().is_recursive());
    let out = listing(&[
        entry("apertium-kaz.kaz.twol", 7),
        entry("dev/apertium-kaz.err.twol", 8),
    ]);
    let files = list_files(true, &out, String::new()).unwrap();
    let mut reg = Registry::new();
    let kind = FileKind::from_string("twol").unwrap();
    let (new, _in_progress) = launch(&mut reg, "apertium-kaz", &files, Some(kind));
    assert_eq!(new.len(), 2);
    assert!(new.iter().any(|t| t.file.path.contains('/')), "path is string");
}

#[test]
fn test_get_recursive_package_stats() {
    recursive_twol();
}

#[test]
fn recursive_package_stats() {
    recursive_twol();
}

#[test]
fn sync_package_stats() {
    let options = Params { recursive: None, run_async: Some(false) };
    assert!(!options.is_async());
    assert!(Params::default().is_async());
    let body = "<dictionary><pardefs><pardef n=\"a\"/><pardef n=\"b\"/></pardefs><section id=\"main\"><e lm=\"x\"><p/></e><e><p/></e></section></dictionary>";
    let stats = get_file_stats(FileKind::Monodix, body, "apertium-cat.cat.dix", &None).expect("valid stats");
    assert_eq!(stats, vec![(StatKind::Stems, 1), (StatKind::Paradigms, 2)]);
}

#[test]
fn module_code_conversion() {
    let name = normalize_name("/apertium-en/bidix".split('/').nth(1).unwrap(), &names(), &codes());
    assert_eq!(name, Ok("apertium-eng".to_string()), "valid name");
}

#[test]
fn pair_code_conversion() {
    let packages = vec![
        "apertium-eng-spa".to_string(),
        "apertium-en-gl".to_string(),
        "apertium-zh_CN-zh_TW".to_string(),
    ];
    assert_eq!(normalize_name("apertium-en-es", &packages, &codes()).unwrap(), "apertium-eng-spa");
    assert_eq!(normalize_name("apertium-eng-glg", &packages, &codes()).unwrap(), "apertium-en-gl");
    assert_eq!(normalize_name("apertium-zho_CN-zho_TW", &packages, &codes()).unwrap(), "apertium-zh_CN-zh_TW");
}

fn recompute(kind: Option<&str>) {
    let name = format!("apertium-{}", TEST_LT_MODULE);
    let kind = kind.map(|k| FileKind::from_string(k).unwrap());
    let mut reg = Registry::new();
    let files = module_files(TEST_LT_MODULE);
    let (new, in_progress) = launch(&mut reg, &name, &files, kind);
    assert_eq!(new.len(), in_progress.len(), "valid in_progress");
    let mut created = Vec::new();
    for task in &new {
        let body = "\"r\"\n";
        let outcome = get_file_stats(task.kind, body, &task.file.path, &None);
        created.extend(reg.complete_task(&name, task, &outcome, 1_520_733_999_000));
    }
    assert!(reg.get_tasks_in_progress(&name).is_none());
    assert!(created.iter().all(|e| e.created == 1_520_733_999_000 && e.name == name), "valid stats");
}

#[test]
fn test_post_package_stats() {
    recompute(None);
}

#[test]
fn package_stats() {
    recompute(None);
}

#[test]
fn test_post_package_specific_stats() {
    recompute(Some("postdix"));
}

#[test]
fn package_specific_stats() {
    recompute(Some("postdix"));
    let reqs = vec![];
    assert!(make_tasks(&reqs, &vec![], 0).is_empty());
    assert_eq!(get_twol_stats(""), vec![(StatKind::Rules, 0)]);
}

#[test]
fn test_get_module_specific_stats() {
    let module = format!("apertium-{}", TEST_LT_MODULE);
    let out = listing(&[
        entry(&format!("apertium-{0}.{0}.dix", TEST_LT_MODULE), 600),
        entry(&format!("apertium-{0}.{0}.lexc", TEST_LT_MODULE), 601),
    ]);
    let files = list_files(true, &out, String::new()).unwrap();
    let mut reg = Registry::new();
    let kind = FileKind::from_string("monodix").unwrap();
    let (new, in_progress) = launch(&mut reg, &module, &files, Some(kind));
    assert_eq!(in_progress.len(), 1, "valid in_progress");
    let task = new[0].clone();
    assert_eq!(task.file.path, format!("apertium-{0}.{0}.dix", TEST_LT_MODULE));
    let mut body = String::from("<dictionary><pardefs>");
    for i in 0..501 {
        body.push_str(&format!("<pardef n=\"p{}\"/>", i));
    }
    body.push_str("</pardefs><section>");
    for i in 0..501 {
        body.push_str(&format!("<e lm=\"w{}\"><i>w</i></e>", i));
    }
    body.push_str("</section></dictionary>");
    let outcome = get_file_stats(task.kind, &body, &task.file.path, &None);
    let stats = reg.complete_task(&module, &task, &outcome, 1_520_734_000_000);
    assert_eq!(stats.len(), 2, "valid stats");
    assert_eq!(stats[0].path, format!("apertium-{0}.{0}.dix", TEST_LT_MODULE));
    assert_eq!(stats[0].revision, stats[1].revision);
    assert!(stats[0].value > 500, "{}", stats[0].value);
    assert!(stats[1].value > 500, "{}", stats[1].value);
    assert!(reg.get_tasks_in_progress(&module).is_none(), "valid in_progress");
}
