use droiddock::action::{
    summarize, ActionDirection, ActionKind, SyncAction, SyncPlanSummary, SyncReason,
};
use droiddock::diff::{diff, DiffOptions, IdentityMode, SyncDirection, SyncPlan};
use droiddock::execute::{SyncRun, TransportRequest};
use droiddock::glob::{glob_match, parse_glob, GlobToken, PatternError};
use droiddock::inventory::{is_housekeeping_name, is_listable, FileRecord, Inventory};
use droiddock::order::{place, Place};
use droiddock::pattern::{compile_pattern, compile_patterns, PatternSet};
use droiddock::plan::{plan_sync, sync_patterns, SyncError, SyncOptions};
use droiddock::scan::{implied_dir_of, lies_beneath, plan_scan_roots};

fn chars(s: &str) -> Vec<char> {
    s.chars().collect()
}

fn strings(v: &[&str]) -> Vec<String> {
    v.iter().map(|s| s.to_string()).collect()
}

fn matches(pattern: &str, path: &str) -> bool {
    let tokens = parse_glob(pattern).unwrap();
    glob_match(&tokens, &chars(path))
}

fn file(path: &str, size: u64, mtime: i64) -> FileRecord {
    FileRecord {
        relative_path: path.to_string(),
        size,
        modified_time: mtime,
        is_directory: false,
        content_hash: None,
    }
}

fn hashed(path: &str, size: u64, mtime: i64, hash: u128) -> FileRecord {
    FileRecord { content_hash: Some(hash), ..file(path, size, mtime) }
}

fn dir(path: &str) -> FileRecord {
    FileRecord {
        relative_path: path.to_string(),
        size: 0,
        modified_time: 0,
        is_directory: true,
        content_hash: None,
    }
}

fn inventory(records: Vec<FileRecord>) -> Inventory {
    Inventory::build(&records, &PatternSet::all())
}

fn options(direction: SyncDirection, identity_mode: IdentityMode, delete_missing: bool) -> DiffOptions {
    DiffOptions { direction, identity_mode, delete_missing }
}

fn brief(plan: &SyncPlan) -> Vec<(String, ActionKind, Option<ActionDirection>, u64, Option<String>)> {
    plan.actions
        .iter()
        .map(|a| (a.file_path.clone(), a.kind, a.direction, a.size, a.rename_from.clone()))
        .collect()
}

fn copy_of(path: &str, size: u64) -> SyncAction {
    SyncAction {
        file_path: path.to_string(),
        kind: ActionKind::Copy,
        direction: Some(ActionDirection::ToRemote),
        size,
        reason: SyncReason::MissingOnDestination.describe(),
        rename_from: None,
    }
}

const TO_LOCAL: Option<ActionDirection> = Some(ActionDirection::ToLocal);
const TO_REMOTE: Option<ActionDirection> = Some(ActionDirection::ToRemote);

#[test]
fn order_of_texts_is_that_of_strings() {
    let samples = ["", "a", "ab", "b", "B", "a/b", "a.b", "a b", "\u{e9}", "z", "\u{10348}", "ab/", "a\u{0}"];
    for x in samples {
        for y in samples {
            let expected = if x < y {
                Place::Before
            } else if x > y {
                Place::After
            } else {
                Place::Same
            };
            assert_eq!(place(&chars(x), &chars(y)), expected, "{:?} {:?}", x, y);
        }
    }
}

#[test]
fn pattern_normalization() {
    assert_eq!(compile_pattern("Photos", "/sdcard"), "Photos/**/*");
    assert_eq!(compile_pattern("/sdcard/Photos/*.jpg", "/sdcard"), "Photos/*.jpg");
    assert_eq!(compile_pattern("/sdcard/Photos/", "/sdcard"), "Photos/**/*");
    assert_eq!(compile_pattern("//DCIM//Camera//", "/sdcard"), "DCIM//Camera/**/*");
    assert_eq!(compile_pattern("Music/?.mp3", "/sdcard"), "Music/?.mp3");
    assert_eq!(compile_pattern("Docs/[ab]", ""), "Docs/[ab]");
    assert_eq!(compile_pattern("/other/Photos", "/sdcard"), "other/Photos/**/*");
    // The root is taken off as it is written, wherever it ends.
    assert_eq!(compile_pattern("/sdcardX/a", "/sdcard"), "X/a/**/*");
    assert_eq!(compile_pattern("/sdcard", "/sdcard"), "/**/*");
    assert_eq!(
        compile_patterns(&strings(&["Photos", "/sdcard/Photos/*.jpg"]), "/sdcard"),
        strings(&["Photos/**/*", "Photos/*.jpg"])
    );
    assert_eq!(compile_patterns(&vec![], "/sdcard"), Vec::<String>::new());
}

#[test]
fn scan_planning() {
    assert_eq!(plan_scan_roots(&strings(&["Photos/*.jpg", "Photos/Sub/*.png"])), strings(&["Photos"]));
    assert_eq!(plan_scan_roots(&strings(&["Photos/Sub/*.png", "Photos/*.jpg"])), strings(&["Photos"]));
    assert_eq!(plan_scan_roots(&vec![]), strings(&[""]));
    assert_eq!(
        plan_scan_roots(&strings(&["A/**/*", "B/x/*.txt", "A/**/*", "Bx/y/*"])),
        strings(&["A", "B/x", "Bx/y"])
    );
    // A pattern that begins with a glob character asks for the root, which covers all.
    assert_eq!(plan_scan_roots(&strings(&["Photos/*.jpg", "*.txt"])), strings(&[""]));
    // `Photos2` does not lie beneath `Photos`.
    assert_eq!(
        plan_scan_roots(&strings(&["Photos/*", "Photos2/*"])),
        strings(&["Photos", "Photos2"])
    );
}

#[test]
fn implied_directories() {
    let of = |p: &str| implied_dir_of(&chars(p)).into_iter().collect::<String>();
    assert_eq!(of("Photos/*.jpg"), "Photos");
    assert_eq!(of("Photos/Sub/a?.png"), "Photos/Sub");
    assert_eq!(of("Photos/**/*"), "Photos");
    assert_eq!(of("*.jpg"), "");
    assert_eq!(of("Pho*/x"), "");
    assert_eq!(of("a/b/c"), "a/b");
    assert!(lies_beneath(&chars("a/b"), &chars("a")));
    assert!(lies_beneath(&chars("a"), &chars("")));
    assert!(!lies_beneath(&chars(""), &chars("")));
    assert!(!lies_beneath(&chars("ab"), &chars("a")));
    assert!(!lies_beneath(&chars("a"), &chars("a")));
}

#[test]
fn glob_tokens() {
    let tokens = parse_glob("a?*/**/[!x-z0]**").unwrap();
    assert_eq!(tokens.len(), 7);
    assert!(matches!(tokens[0], GlobToken::Literal('a')));
    assert!(matches!(tokens[1], GlobToken::AnyChar));
    assert!(matches!(tokens[2], GlobToken::AnySegment));
    assert!(matches!(tokens[3], GlobToken::Literal('/')));
    assert!(matches!(tokens[4], GlobToken::AnyDirs));
    match &tokens[5] {
        GlobToken::Class { negated, ranges } => {
            assert!(*negated);
            assert_eq!(ranges, &vec![('x', 'z'), ('0', '0')]);
        }
        other => panic!("{:?}", other),
    }
    assert!(matches!(tokens[6], GlobToken::AnyPath));
    assert_eq!(parse_glob("abc[de").err(), Some(PatternError::UnclosedClass { at: 3 }));
    assert_eq!(parse_glob("[").err(), Some(PatternError::UnclosedClass { at: 0 }));
    assert_eq!(parse_glob("").unwrap().len(), 0);
}

#[test]
fn glob_matching() {
    assert!(matches("Photos/*.jpg", "Photos/a.jpg"));
    assert!(matches("Photos/*.jpg", "Photos/.jpg"));
    assert!(!matches("Photos/*.jpg", "Photos/Sub/a.jpg"));
    assert!(!matches("Photos/*.jpg", "Photos/a.JPG"));
    assert!(!matches("Photos/*.jpg", "photos/a.jpg"));
    assert!(matches("Photos/**/*", "Photos/a.jpg"));
    assert!(matches("Photos/**/*", "Photos/x/y/a.jpg"));
    assert!(!matches("Photos/**/*", "Photos"));
    // A star stands for an empty name as well.
    assert!(matches("Photos/**/*", "Photos/"));
    assert!(!matches("Photos/**/*", "Photos2/a"));
    assert!(matches("**/*.txt", "a.txt"));
    assert!(matches("**/*.txt", "a/b/c.txt"));
    assert!(!matches("**/*.txt", "a/b/c.txt2"));
    assert!(matches("a/**", "a/b/c"));
    assert!(matches("a/**", "a/"));
    assert!(matches("**", ""));
    assert!(matches("**", "x/y"));
    assert!(matches("?", "x"));
    assert!(!matches("?", "/"));
    assert!(!matches("?", ""));
    assert!(!matches("?", "xy"));
    assert!(matches("*", ""));
    assert!(!matches("*", "a/b"));
    assert!(matches("*a*a*b", "aaaaaaaaaaaaaaaaaaaaaaaaaaaaaab"));
    assert!(!matches("*a*a*a*a*a*a*a*a*a*b", "aaaaaaaaaaaaaaaaaaaaaaaaaaaaaaaaaaaaaaaaaaaaaaaaaaaaaaaaaaaaaaaaaaaaa"));
    assert!(matches("[a-c]x", "bx"));
    assert!(!matches("[a-c]x", "dx"));
    assert!(matches("[!a-c]x", "dx"));
    assert!(!matches("[!a-c]x", "/x"));
    assert!(matches("[a-]", "-"));
    assert!(matches("[a-]", "a"));
    assert!(!matches("[]", "a"));
    assert!(matches("", ""));
    assert!(!matches("", "a"));
}

#[test]
fn pattern_sets() {
    let all = PatternSet::all();
    assert_eq!(all.len(), 0);
    assert!(all.matches(&chars("anything/at/all")));
    let set = PatternSet::compile(&strings(&["Photos/*.jpg", "Docs/**/*"])).ok().unwrap();
    assert_eq!(set.len(), 2);
    assert!(set.matches(&chars("Photos/a.jpg")));
    assert!(set.matches(&chars("Docs/a/b")));
    assert!(!set.matches(&chars("Music/a.mp3")));
    match PatternSet::compile(&strings(&["ok", "bad[", "worse["])) {
        Err((at, e)) => {
            assert_eq!(at, 1);
            assert_eq!(e, PatternError::UnclosedClass { at: 3 });
        }
        Ok(_) => panic!("a pattern with an open class was read"),
    }
}

#[test]
fn exclusions() {
    for n in [".DS_Store", ".Spotlight-V100", ".Trashes", ".fseventsd", "Thumbs.db", "desktop.ini", ".thumbnails", ".thumbdata"] {
        assert!(is_housekeeping_name(&chars(n)));
        assert!(!is_listable(&chars(n)));
        assert!(!is_listable(&chars(&format!("a/{}/b.jpg", n))));
        assert!(!is_listable(&chars(&format!("deep/er/{}", n))));
    }
    assert!(!is_housekeeping_name(&chars("thumbs.db")));
    assert!(is_listable(&chars("a/thumbs.db")));
    assert!(is_listable(&chars("a/.DS_Store2")));
    assert!(!is_listable(&chars("")));
    assert!(!is_listable(&chars(".")));
    assert!(!is_listable(&chars("..")));
    assert!(!is_listable(&chars("a/../b")));
    assert!(!is_listable(&chars("a/.")));
    assert!(is_listable(&chars("a/...")));
    assert!(is_listable(&chars(".a")));
}

#[test]
fn inventory_is_filtered_sorted_and_without_repeats() {
    let raw = vec![
        file("Photos/b.jpg", 2, 20),
        file("Photos/a.jpg", 1, 10),
        dir("Photos"),
        dir("Music"),
        file("Music/x.mp3", 9, 5),
        file("Photos/.thumbnails/a.jpg", 3, 1),
        file("Photos/a.jpg", 100, 99),
        file("", 1, 1),
        file("Photos/..", 1, 1),
        file("Photos/Sub/c.jpg", 3, 30),
    ];
    let set = PatternSet::compile(&strings(&["Photos/*.jpg"])).ok().unwrap();
    let inv = Inventory::build(&raw, &set);
    let got: Vec<(String, u64, bool)> =
        inv.records().into_iter().map(|r| (r.relative_path, r.size, r.is_directory)).collect();
    assert_eq!(
        got,
        vec![
            ("Music".to_string(), 0, true),
            ("Photos".to_string(), 0, true),
            ("Photos/a.jpg".to_string(), 1, false),
            ("Photos/b.jpg".to_string(), 2, false),
        ]
    );
    assert_eq!(inv.len(), 4);
    assert_eq!(inv.find("Photos/a.jpg"), Some(2));
    assert_eq!(inv.find("Photos/c.jpg"), None);
    assert_eq!(inv.record(3).modified_time, 20);

    let everything = Inventory::build(&raw, &PatternSet::all());
    assert_eq!(everything.len(), 6);
}

#[test]
fn inventory_insert_keeps_the_first_of_a_path() {
    let mut inv = Inventory::new();
    inv.insert(&file("m", 1, 1));
    inv.insert(&file("z", 2, 2));
    inv.insert(&file("a", 3, 3));
    inv.insert(&file("m", 4, 4));
    inv.insert(&file("n", 5, 5));
    let got: Vec<(String, u64)> = inv.records().into_iter().map(|r| (r.relative_path, r.size)).collect();
    assert_eq!(
        got,
        vec![("a".to_string(), 3), ("m".to_string(), 1), ("n".to_string(), 5), ("z".to_string(), 2)]
    );
}

#[test]
fn attribute_diff_one_way() {
    let local = inventory(vec![
        file("same", 5, 10),
        file("bigger", 6, 10),
        file("newer", 5, 11),
        file("older", 5, 9),
        file("only-local", 7, 1),
        dir("folder"),
    ]);
    let remote = inventory(vec![
        file("same", 5, 10),
        file("bigger", 5, 10),
        file("newer", 5, 10),
        file("older", 5, 10),
        file("only-remote", 8, 1),
        file("folder", 1, 1),
    ]);
    let plan = diff(&local, &remote, options(SyncDirection::LocalToRemote, IdentityMode::PathAttributes, false));
    assert_eq!(
        brief(&plan),
        vec![
            ("bigger".to_string(), ActionKind::Update, TO_REMOTE, 6, None),
            ("newer".to_string(), ActionKind::Update, TO_REMOTE, 5, None),
            ("only-local".to_string(), ActionKind::Copy, TO_REMOTE, 7, None),
        ]
    );
    assert_eq!(plan.actions[0].reason, SyncReason::SizeDiffers.describe());
    assert_eq!(plan.actions[1].reason, SyncReason::SourceNewer.describe());
    assert_eq!(plan.actions[2].reason, SyncReason::MissingOnDestination.describe());
    assert_eq!(plan.summary.total_transfer_bytes, 18);

    let plan = diff(&local, &remote, options(SyncDirection::LocalToRemote, IdentityMode::PathAttributes, true));
    assert_eq!(
        brief(&plan),
        vec![
            ("bigger".to_string(), ActionKind::Update, TO_REMOTE, 6, None),
            ("folder".to_string(), ActionKind::Delete, TO_REMOTE, 0, None),
            ("newer".to_string(), ActionKind::Update, TO_REMOTE, 5, None),
            ("only-local".to_string(), ActionKind::Copy, TO_REMOTE, 7, None),
            ("only-remote".to_string(), ActionKind::Delete, TO_REMOTE, 0, None),
        ]
    );
    assert_eq!(plan.actions[1].reason, SyncReason::MissingOnSource.describe());

    let plan = diff(&local, &remote, options(SyncDirection::RemoteToLocal, IdentityMode::PathAttributes, false));
    assert_eq!(
        brief(&plan),
        vec![
            ("bigger".to_string(), ActionKind::Update, TO_LOCAL, 5, None),
            ("folder".to_string(), ActionKind::Copy, TO_LOCAL, 1, None),
            ("older".to_string(), ActionKind::Update, TO_LOCAL, 5, None),
            ("only-remote".to_string(), ActionKind::Copy, TO_LOCAL, 8, None),
        ]
    );
}

#[test]
fn attribute_diff_both_ways() {
    let local = inventory(vec![
        file("same", 5, 10),
        file("tie", 6, 10),
        file("local-newer", 5, 11),
        file("remote-newer", 5, 9),
        file("only-local", 7, 1),
    ]);
    let remote = inventory(vec![
        file("same", 5, 10),
        file("tie", 9, 10),
        file("local-newer", 5, 10),
        file("remote-newer", 4, 10),
        file("only-remote", 8, 1),
    ]);
    for delete_missing in [false, true] {
        let plan = diff(
            &local,
            &remote,
            options(SyncDirection::Bidirectional, IdentityMode::PathAttributes, delete_missing),
        );
        assert_eq!(
            brief(&plan),
            vec![
                ("local-newer".to_string(), ActionKind::Update, TO_REMOTE, 5, None),
                ("only-local".to_string(), ActionKind::Copy, TO_REMOTE, 7, None),
                ("only-remote".to_string(), ActionKind::Copy, TO_LOCAL, 8, None),
                ("remote-newer".to_string(), ActionKind::Update, TO_LOCAL, 4, None),
                ("tie".to_string(), ActionKind::Update, TO_REMOTE, 6, None),
            ]
        );
        assert_eq!(
            plan.summary,
            SyncPlanSummary {
                total_transfer_bytes: 30,
                copy_count: 2,
                update_count: 3,
                delete_count: 0,
                rename_count: 0,
                skip_count: 0,
            }
        );
    }
}

#[test]
fn delete_missing_one_way() {
    let local = inventory(vec![file("a", 1, 1), file("b", 2, 2)]);
    let remote = inventory(vec![file("a", 1, 1)]);
    let plan = diff(&local, &remote, options(SyncDirection::LocalToRemote, IdentityMode::PathAttributes, true));
    assert!(plan.actions.iter().all(|a| a.file_path != "a"));
    assert!(plan.actions.iter().all(|a| a.kind != ActionKind::Delete));
    assert_eq!(brief(&plan), vec![("b".to_string(), ActionKind::Copy, TO_REMOTE, 2, None)]);

    let plan = diff(&local, &remote, options(SyncDirection::RemoteToLocal, IdentityMode::PathAttributes, true));
    assert_eq!(brief(&plan), vec![("b".to_string(), ActionKind::Delete, TO_LOCAL, 0, None)]);
    assert_eq!(plan.summary.delete_count, 1);
    assert_eq!(plan.summary.total_transfer_bytes, 0);

    let plan = diff(&local, &remote, options(SyncDirection::RemoteToLocal, IdentityMode::PathAttributes, false));
    assert_eq!(plan.actions.len(), 0);
}

#[test]
fn rename_detection() {
    let local = inventory(vec![hashed("a.txt", 4, 10, 0xABCD)]);
    let remote = inventory(vec![hashed("b.txt", 4, 5, 0xABCD)]);
    let plan = diff(&local, &remote, options(SyncDirection::Bidirectional, IdentityMode::ContentHash, false));
    assert_eq!(
        brief(&plan),
        vec![("a.txt".to_string(), ActionKind::Rename, TO_REMOTE, 4, Some("b.txt".to_string()))]
    );
    assert_eq!(plan.actions[0].reason, SyncReason::Moved.describe());
    assert_eq!(plan.summary.rename_count, 1);
    assert_eq!(plan.summary.total_transfer_bytes, 0);

    // The remote file is newer: the local one is moved.
    let remote = inventory(vec![hashed("b.txt", 4, 11, 0xABCD)]);
    let plan = diff(&local, &remote, options(SyncDirection::Bidirectional, IdentityMode::ContentHash, false));
    assert_eq!(
        brief(&plan),
        vec![("b.txt".to_string(), ActionKind::Rename, TO_LOCAL, 4, Some("a.txt".to_string()))]
    );
    // A tie moves the remote file.
    let remote = inventory(vec![hashed("b.txt", 4, 10, 0xABCD)]);
    let plan = diff(&local, &remote, options(SyncDirection::Bidirectional, IdentityMode::ContentHash, false));
    assert_eq!(
        brief(&plan),
        vec![("a.txt".to_string(), ActionKind::Rename, TO_REMOTE, 4, Some("b.txt".to_string()))]
    );
    // One way, the source gives the name, whatever the times.
    let remote = inventory(vec![hashed("b.txt", 4, 99, 0xABCD)]);
    let plan = diff(&local, &remote, options(SyncDirection::LocalToRemote, IdentityMode::ContentHash, true));
    assert_eq!(
        brief(&plan),
        vec![("a.txt".to_string(), ActionKind::Rename, TO_REMOTE, 4, Some("b.txt".to_string()))]
    );
    let plan = diff(&local, &remote, options(SyncDirection::RemoteToLocal, IdentityMode::ContentHash, true));
    assert_eq!(
        brief(&plan),
        vec![("b.txt".to_string(), ActionKind::Rename, TO_LOCAL, 4, Some("a.txt".to_string()))]
    );
    // By path and attributes the same files are a copy each way.
    let plan = diff(&local, &remote, options(SyncDirection::Bidirectional, IdentityMode::PathAttributes, false));
    assert_eq!(
        brief(&plan),
        vec![
            ("a.txt".to_string(), ActionKind::Copy, TO_REMOTE, 4, None),
            ("b.txt".to_string(), ActionKind::Copy, TO_LOCAL, 4, None),
        ]
    );
}

#[test]
fn content_diff() {
    let local = inventory(vec![
        hashed("changed", 5, 10, 1),
        hashed("dup-1", 3, 1, 7),
        hashed("dup-2", 3, 1, 7),
        hashed("new", 2, 1, 2),
        file("plain", 5, 10),
        hashed("same", 5, 10, 3),
        hashed("unknown-there", 5, 10, 4),
    ]);
    let remote = inventory(vec![
        hashed("changed", 5, 10, 11),
        hashed("dup-1", 3, 1, 7),
        hashed("gone", 6, 1, 12),
        file("plain", 5, 9),
        hashed("same", 9, 99, 3),
        file("unknown-there", 5, 10),
    ]);
    let plan = diff(&local, &remote, options(SyncDirection::LocalToRemote, IdentityMode::ContentHash, true));
    assert_eq!(
        brief(&plan),
        vec![
            ("changed".to_string(), ActionKind::Update, TO_REMOTE, 5, None),
            ("gone".to_string(), ActionKind::Delete, TO_REMOTE, 0, None),
            ("new".to_string(), ActionKind::Copy, TO_REMOTE, 2, None),
            ("plain".to_string(), ActionKind::Update, TO_REMOTE, 5, None),
        ]
    );
    assert_eq!(plan.actions[0].reason, SyncReason::ContentDiffers.describe());
    assert_eq!(plan.actions[3].reason, SyncReason::SourceNewer.describe());

    let plan = diff(&local, &remote, options(SyncDirection::LocalToRemote, IdentityMode::ContentHash, false));
    assert_eq!(plan.actions.len(), 3);
    assert!(plan.actions.iter().all(|a| a.kind != ActionKind::Delete));

    let plan = diff(&local, &remote, options(SyncDirection::Bidirectional, IdentityMode::ContentHash, true));
    assert_eq!(
        brief(&plan),
        vec![
            ("changed".to_string(), ActionKind::Update, TO_REMOTE, 5, None),
            ("gone".to_string(), ActionKind::Copy, TO_LOCAL, 6, None),
            ("new".to_string(), ActionKind::Copy, TO_REMOTE, 2, None),
            ("plain".to_string(), ActionKind::Update, TO_REMOTE, 5, None),
        ]
    );
}

fn flip(d: Option<ActionDirection>) -> Option<ActionDirection> {
    match d {
        Some(ActionDirection::ToLocal) => Some(ActionDirection::ToRemote),
        Some(ActionDirection::ToRemote) => Some(ActionDirection::ToLocal),
        None => None,
    }
}

#[test]
fn one_way_directions_mirror_each_other() {
    let l = vec![
        hashed("a", 1, 5, 1),
        hashed("b", 2, 6, 2),
        file("c", 3, 7),
        hashed("moved-here", 4, 8, 9),
        hashed("x", 5, 1, 3),
    ];
    let r = vec![
        hashed("a", 1, 9, 1),
        hashed("b", 7, 6, 22),
        file("c", 3, 6),
        hashed("was-there", 4, 8, 9),
        hashed("y", 5, 1, 4),
    ];
    for identity_mode in [IdentityMode::PathAttributes, IdentityMode::ContentHash] {
        for delete_missing in [false, true] {
            let there = diff(
                &inventory(l.iter().map(|x| FileRecord { relative_path: x.relative_path.clone(), ..*x }).collect()),
                &inventory(r.iter().map(|x| FileRecord { relative_path: x.relative_path.clone(), ..*x }).collect()),
                options(SyncDirection::LocalToRemote, identity_mode, delete_missing),
            );
            let back = diff(
                &inventory(r.iter().map(|x| FileRecord { relative_path: x.relative_path.clone(), ..*x }).collect()),
                &inventory(l.iter().map(|x| FileRecord { relative_path: x.relative_path.clone(), ..*x }).collect()),
                options(SyncDirection::RemoteToLocal, identity_mode, delete_missing),
            );
            assert!(there.actions.len() >= 3);
            let mirrored: Vec<_> =
                brief(&there).into_iter().map(|(p, k, d, s, f)| (p, k, flip(d), s, f)).collect();
            assert_eq!(brief(&back), mirrored);
            assert_eq!(there.summary, back.summary);
        }
    }
}

#[test]
fn byte_totals() {
    let actions = vec![
        copy_of("a", 10),
        SyncAction { kind: ActionKind::Update, ..copy_of("b", 20) },
        SyncAction { kind: ActionKind::Delete, ..copy_of("c", 40) },
        SyncAction { kind: ActionKind::Rename, rename_from: Some("x".to_string()), ..copy_of("d", 80) },
        SyncAction { kind: ActionKind::Skip, direction: None, ..copy_of("e", 160) },
        copy_of("f", u64::MAX),
        copy_of("g", u64::MAX),
    ];
    let s = summarize(&actions);
    assert_eq!(s.total_transfer_bytes, 30 + 2 * (u64::MAX as u128));
    assert_eq!((s.copy_count, s.update_count, s.delete_count, s.rename_count, s.skip_count), (3, 1, 1, 1, 1));
    assert_eq!(summarize(&vec![]).total_transfer_bytes, 0);
}

#[test]
fn reasons_have_words() {
    assert_eq!(SyncReason::MissingOnDestination.describe(), "missing on destination");
    assert_eq!(SyncReason::SizeDiffers.describe(), "size differs");
    assert_eq!(SyncReason::SourceNewer.describe(), "source is newer");
    assert_eq!(SyncReason::ContentDiffers.describe(), "content differs");
    assert_eq!(SyncReason::MissingOnSource.describe(), "missing on source");
    assert_eq!(SyncReason::Moved.describe(), "same content under another path");
    assert_eq!(SyncReason::SetAside.describe(), "set aside");
    let local = inventory(vec![file("a", 1, 1)]);
    let plan = diff(&local, &inventory(vec![]), options(SyncDirection::Bidirectional, IdentityMode::PathAttributes, false));
    assert_eq!(plan.actions[0].reason, "missing on destination");
}

#[test]
fn partial_failure() {
    let mut run = SyncRun::new(vec![copy_of("a", 1), copy_of("b", 2), copy_of("c", 4)]);
    let local = inventory(vec![file("a", 1, 100), file("b", 2, 200), file("c", 4, 300)]);
    let remote = inventory(vec![]);
    assert!(!run.is_finished());
    match run.next_request(&local, &remote) {
        Some(TransportRequest::Transfer { path, toward, modified_time }) => {
            assert_eq!(path, "a");
            assert_eq!(toward, ActionDirection::ToRemote);
            assert_eq!(modified_time, Some(100));
        }
        other => panic!("{:?}", other),
    }
    let p = run.complete(Ok(()));
    assert_eq!((p.current_path.as_str(), p.completed_count, p.total_count), ("a", 1, 3));
    assert_eq!((p.bytes_completed, p.bytes_total), (1, 7));
    let p = run.complete(Err("connection lost".to_string()));
    assert_eq!((p.current_path.as_str(), p.completed_count, p.bytes_completed), ("b", 2, 1));
    let p = run.complete(Ok(()));
    assert_eq!((p.completed_count, p.total_count, p.bytes_completed, p.bytes_total), (3, 3, 5, 7));
    assert!(run.is_finished());
    assert!(run.next_request(&local, &remote).is_none());
    let last = run.progress();
    assert_eq!(last.completed_count, last.total_count);
    let result = run.finish();
    assert_eq!(result.success_count, 2);
    assert_eq!(result.error_count, 1);
    assert_eq!(result.skipped_count, 0);
    assert_eq!(result.errors, vec!["b: connection lost".to_string()]);
}

#[test]
fn run_requests_and_skips() {
    let actions = vec![
        SyncAction {
            kind: ActionKind::Skip,
            direction: None,
            reason: SyncReason::SetAside.describe(),
            ..copy_of("a", 1)
        },
        SyncAction { kind: ActionKind::Delete, size: 0, ..copy_of("b", 0) },
        SyncAction {
            kind: ActionKind::Rename,
            direction: TO_LOCAL,
            rename_from: Some("old".to_string()),
            ..copy_of("c", 3)
        },
        SyncAction { kind: ActionKind::Update, direction: TO_LOCAL, ..copy_of("d", 5) },
        SyncAction { kind: ActionKind::Rename, ..copy_of("e", 3) },
    ];
    let local = inventory(vec![]);
    let remote = inventory(vec![dir("d"), file("e", 1, 1)]);
    let mut run = SyncRun::new(actions);
    assert!(run.next_request(&local, &remote).is_none());
    assert!(!run.is_finished());
    // An action that is only counted is skipped whatever is reported.
    run.complete(Err("ignored".to_string()));
    match run.next_request(&local, &remote) {
        Some(TransportRequest::Delete { path, on }) => {
            assert_eq!((path.as_str(), on), ("b", ActionDirection::ToRemote));
        }
        other => panic!("{:?}", other),
    }
    run.complete(Ok(()));
    match run.next_request(&local, &remote) {
        Some(TransportRequest::Rename { from, to, on }) => {
            assert_eq!((from.as_str(), to.as_str(), on), ("old", "c", ActionDirection::ToLocal));
        }
        other => panic!("{:?}", other),
    }
    run.complete(Ok(()));
    match run.next_request(&local, &remote) {
        Some(TransportRequest::Transfer { path, toward, modified_time }) => {
            // The source holds a directory of that name, which has no time to give.
            assert_eq!((path.as_str(), toward, modified_time), ("d", ActionDirection::ToLocal, None));
        }
        other => panic!("{:?}", other),
    }
    let p = run.complete(Ok(()));
    assert_eq!((p.bytes_completed, p.bytes_total), (5, 5));
    assert!(run.next_request(&local, &remote).is_none());
    run.complete(Ok(()));
    // A run that is over stays as it is.
    let p = run.complete(Err("late".to_string()));
    assert_eq!((p.completed_count, p.total_count), (5, 5));
    let result = run.finish();
    assert_eq!((result.success_count, result.skipped_count, result.error_count), (3, 2, 0));
    assert!(result.errors.is_empty());
}

#[test]
fn a_run_can_end_early() {
    let mut run = SyncRun::new(vec![copy_of("a", 1), copy_of("b", 2)]);
    let p = run.progress();
    assert_eq!((p.current_path.as_str(), p.completed_count, p.total_count), ("", 0, 2));
    run.complete(Ok(()));
    let result = run.finish();
    assert_eq!((result.success_count, result.skipped_count, result.error_count), (1, 0, 0));
}

fn sync_options(patterns: &[&str], direction: SyncDirection, identity_mode: IdentityMode) -> SyncOptions {
    SyncOptions {
        local_root: "/home/me/Phone".to_string(),
        remote_root: "/sdcard".to_string(),
        patterns: strings(patterns),
        direction,
        identity_mode,
        delete_missing: true,
    }
}

#[test]
fn planning_filters_and_compares() {
    let o = sync_options(&["/sdcard/Photos", "Docs/*.txt"], SyncDirection::LocalToRemote, IdentityMode::PathAttributes);
    assert_eq!(sync_patterns(&o), strings(&["Photos/**/*", "Docs/*.txt"]));
    let local = vec![
        file("Photos/b.jpg", 2, 2),
        file("Photos/a.jpg", 1, 1),
        file("Docs/n.txt", 3, 3),
        file("Docs/n.pdf", 4, 4),
        file("Photos/.DS_Store", 5, 5),
        dir("Photos"),
    ];
    let remote = vec![file("Photos/a.jpg", 1, 1), file("Music/old.mp3", 6, 6), file("Docs/gone.txt", 7, 7)];
    let plan = plan_sync(&o, &local, &remote).ok().unwrap();
    assert_eq!(
        brief(&plan),
        vec![
            ("Docs/gone.txt".to_string(), ActionKind::Delete, TO_REMOTE, 0, None),
            ("Docs/n.txt".to_string(), ActionKind::Copy, TO_REMOTE, 3, None),
            ("Photos/b.jpg".to_string(), ActionKind::Copy, TO_REMOTE, 2, None),
        ]
    );
    assert_eq!(plan.summary.total_transfer_bytes, 5);
}

#[test]
fn planning_takes_the_root_of_the_side_that_takes() {
    let mut o = sync_options(&["/home/me/Phone/Photos"], SyncDirection::RemoteToLocal, IdentityMode::PathAttributes);
    assert_eq!(sync_patterns(&o), strings(&["Photos/**/*"]));
    o.direction = SyncDirection::Bidirectional;
    assert_eq!(sync_patterns(&o), strings(&["home/me/Phone/Photos/**/*"]));
}

#[test]
fn planning_rejects_a_malformed_pattern() {
    let o = sync_options(&["Photos", "/sdcard/Docs/[a-", "x["], SyncDirection::Bidirectional, IdentityMode::ContentHash);
    match plan_sync(&o, &vec![file("Photos/a", 1, 1)], &vec![]) {
        Err(SyncError::ConfigInvalid { detail }) => assert_eq!(detail, "malformed pattern: Docs/[a-"),
        other => panic!("{:?}", other),
    }
}

/// Does to the two listings what a transport that works does for the plan.
fn carry_out(plan: &SyncPlan, local: &mut Vec<FileRecord>, remote: &mut Vec<FileRecord>) {
    let mut run = SyncRun::new(
        plan.actions
            .iter()
            .map(|a| SyncAction {
                file_path: a.file_path.clone(),
                kind: a.kind,
                direction: a.direction,
                size: a.size,
                reason: a.reason.clone(),
                rename_from: a.rename_from.clone(),
            })
            .collect(),
    );
    while !run.is_finished() {
        let l = inventory(local.iter().map(|x| FileRecord { relative_path: x.relative_path.clone(), ..*x }).collect());
        let r = inventory(remote.iter().map(|x| FileRecord { relative_path: x.relative_path.clone(), ..*x }).collect());
        match run.next_request(&l, &r) {
            Some(TransportRequest::Transfer { path, toward, modified_time }) => {
                let (from, to) = match toward {
                    ActionDirection::ToRemote => (&*local, &mut *remote),
                    ActionDirection::ToLocal => (&*remote, &mut *local),
                };
                let source = from.iter().find(|x| x.relative_path == path).unwrap();
                let arrived = FileRecord {
                    relative_path: path.clone(),
                    modified_time: modified_time.unwrap(),
                    ..*source
                };
                to.retain(|x| x.relative_path != path);
                to.push(arrived);
            }
            Some(TransportRequest::Delete { path, on }) => {
                let side = match on {
                    ActionDirection::ToRemote => &mut *remote,
                    ActionDirection::ToLocal => &mut *local,
                };
                side.retain(|x| x.relative_path != path);
            }
            Some(TransportRequest::Rename { from, to, on }) => {
                let side = match on {
                    ActionDirection::ToRemote => &mut *remote,
                    ActionDirection::ToLocal => &mut *local,
                };
                side.retain(|x| x.relative_path != to);
                for x in side.iter_mut() {
                    if x.relative_path == from {
                        x.relative_path = to.clone();
                    }
                }
            }
            None => {}
        }
        run.complete(Ok(()));
    }
    let result = run.finish();
    assert_eq!(result.error_count, 0);
}

#[test]
fn a_second_plan_is_empty() {
    for direction in [SyncDirection::LocalToRemote, SyncDirection::RemoteToLocal, SyncDirection::Bidirectional] {
        for identity_mode in [IdentityMode::PathAttributes, IdentityMode::ContentHash] {
            let mut local = vec![
                hashed("Photos/a.jpg", 1, 10, 1),
                hashed("Photos/b.jpg", 2, 20, 2),
                hashed("Photos/moved.jpg", 3, 30, 3),
                hashed("Photos/changed.jpg", 4, 40, 4),
                file("Photos/plain.jpg", 5, 50),
            ];
            let mut remote = vec![
                hashed("Photos/a.jpg", 1, 10, 1),
                hashed("Photos/old-name.jpg", 3, 25, 3),
                hashed("Photos/changed.jpg", 4, 45, 44),
                hashed("Photos/extra.jpg", 6, 60, 6),
                file("Photos/plain.jpg", 7, 50),
            ];
            let o = sync_options(&["Photos"], direction, identity_mode);
            let plan = plan_sync(&o, &local, &remote).ok().unwrap();
            assert!(plan.actions.len() >= 4);
            carry_out(&plan, &mut local, &mut remote);
            let again = plan_sync(&o, &local, &remote).ok().unwrap();
            assert_eq!(brief(&again), vec![]);
        }
    }
}

#[test]
fn a_move_and_a_copy_to_the_old_path_are_planned_at_once() {
    // The old content of `b.txt` was moved to `a.txt`, and `b.txt` has new
    // content: the remote file is moved, and the new file is copied.
    for direction in [SyncDirection::LocalToRemote, SyncDirection::Bidirectional] {
        let mut local = vec![hashed("a.txt", 1, 10, 0x1), hashed("b.txt", 2, 20, 0x2)];
        let mut remote = vec![hashed("b.txt", 1, 10, 0x1)];
        let o = sync_options(&[], direction, IdentityMode::ContentHash);
        let plan = plan_sync(&o, &local, &remote).ok().unwrap();
        assert_eq!(
            brief(&plan),
            vec![
                ("a.txt".to_string(), ActionKind::Rename, TO_REMOTE, 1, Some("b.txt".to_string())),
                ("b.txt".to_string(), ActionKind::Copy, TO_REMOTE, 2, None),
            ]
        );
        carry_out(&plan, &mut local, &mut remote);
        assert_eq!(brief(&plan_sync(&o, &local, &remote).ok().unwrap()), vec![]);
        let mut names: Vec<(String, Option<u128>)> =
            remote.iter().map(|x| (x.relative_path.clone(), x.content_hash)).collect();
        names.sort();
        assert_eq!(names, vec![("a.txt".to_string(), Some(0x1)), ("b.txt".to_string(), Some(0x2))]);
    }
}

#[test]
fn a_file_is_copied_over_one_whose_content_stands_elsewhere() {
    // The remote `b` holds what `a` holds as well; the local `b` is new.
    let local = inventory(vec![hashed("a", 1, 10, 0x1), hashed("b", 2, 20, 0x2)]);
    let remote = inventory(vec![hashed("a", 1, 10, 0x1), hashed("b", 1, 10, 0x1)]);
    let plan = diff(&local, &remote, options(SyncDirection::LocalToRemote, IdentityMode::ContentHash, false));
    assert_eq!(brief(&plan), vec![("b".to_string(), ActionKind::Copy, TO_REMOTE, 2, None)]);
    // The side that takes gives nothing.
    let plan = diff(&local, &remote, options(SyncDirection::RemoteToLocal, IdentityMode::ContentHash, true));
    assert_eq!(brief(&plan), vec![]);
}

#[test]
fn a_move_to_a_later_name_leaves_nothing_to_do() {
    for direction in [SyncDirection::LocalToRemote, SyncDirection::Bidirectional] {
        let mut local = vec![hashed("keep", 3, 30, 0x3), hashed("z.txt", 1, 10, 0x1)];
        let mut remote = vec![hashed("a.txt", 1, 10, 0x1), hashed("keep", 3, 30, 0x3)];
        let o = sync_options(&[], direction, IdentityMode::ContentHash);
        let plan = plan_sync(&o, &local, &remote).ok().unwrap();
        assert_eq!(
            brief(&plan),
            vec![("z.txt".to_string(), ActionKind::Rename, TO_REMOTE, 1, Some("a.txt".to_string()))]
        );
        carry_out(&plan, &mut local, &mut remote);
        assert_eq!(brief(&plan_sync(&o, &local, &remote).ok().unwrap()), vec![]);
    }
}

#[test]
fn a_move_over_a_file_of_the_side_that_takes() {
    // The remote side has something else under the name that the file
    // is moved to: one way, it gives way.
    let mut local = vec![hashed("a.txt", 1, 10, 0x1)];
    let mut remote = vec![hashed("a.txt", 9, 90, 0x9), hashed("b.txt", 1, 10, 0x1)];
    let o = sync_options(&[], SyncDirection::LocalToRemote, IdentityMode::ContentHash);
    let plan = plan_sync(&o, &local, &remote).ok().unwrap();
    assert_eq!(
        brief(&plan),
        vec![("a.txt".to_string(), ActionKind::Rename, TO_REMOTE, 1, Some("b.txt".to_string()))]
    );
    carry_out(&plan, &mut local, &mut remote);
    assert_eq!(brief(&plan_sync(&o, &local, &remote).ok().unwrap()), vec![]);
    assert_eq!(remote.len(), 1);
    assert_eq!(remote[0].content_hash, Some(0x1));
}

#[test]
fn a_move_from_a_path_that_is_written_before_it_settles_in_two_runs() {
    // The old content was copied to `q` and `p` was changed. The path
    // that the remote file is moved to stands after the path that is
    // written as well, and a plan is carried out in the order of its
    // paths: the sides agree after a second run.
    let mut local = vec![hashed("p", 2, 20, 0x2), hashed("q", 1, 10, 0x1)];
    let mut remote = vec![hashed("p", 1, 10, 0x1)];
    let o = sync_options(&[], SyncDirection::LocalToRemote, IdentityMode::ContentHash);
    for _ in 0..2 {
        let plan = plan_sync(&o, &local, &remote).ok().unwrap();
        carry_out(&plan, &mut local, &mut remote);
    }
    assert_eq!(brief(&plan_sync(&o, &local, &remote).ok().unwrap()), vec![]);
    let mut names: Vec<(String, Option<u128>)> =
        remote.iter().map(|x| (x.relative_path.clone(), x.content_hash)).collect();
    names.sort();
    assert_eq!(names, vec![("p".to_string(), Some(0x2)), ("q".to_string(), Some(0x1))]);
}

