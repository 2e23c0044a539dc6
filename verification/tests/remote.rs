use droiddock::commands::{frame_args, pull_args, push_args, shell_args};
use droiddock::remote::{
    digest_command, join_path, listing_command, make_dir_command, move_command, parent_dir,
    parse_digest, parse_stat_line, parse_stat_output, touch_command,
};

#[test]
fn paths_beneath_a_root() {
    assert_eq!(join_path("/sdcard", "Photos/a.jpg"), "/sdcard/Photos/a.jpg");
    assert_eq!(join_path("/sdcard/", "Photos"), "/sdcard/Photos");
    assert_eq!(join_path("/sdcard//", "Photos"), "/sdcard/Photos");
    assert_eq!(join_path("/", "Photos"), "/Photos");
    assert_eq!(join_path("/sdcard", ""), "/sdcard");
    assert_eq!(parent_dir("/sdcard/Photos/a.jpg"), "/sdcard/Photos");
    assert_eq!(parent_dir("a.jpg"), "");
    assert_eq!(parent_dir("/a.jpg"), "");
    assert_eq!(parent_dir("Photos/"), "Photos");
}

#[test]
fn remote_commands() {
    assert_eq!(
        listing_command("/sdcard/My Photos"),
        "find '/sdcard/My Photos' -exec stat -c '%s %Y %f %n' {} + 2>/dev/null"
    );
    assert_eq!(digest_command("/sdcard/it's"), "md5sum '/sdcard/it'\\''s'");
    assert_eq!(make_dir_command("/sdcard/a b"), "mkdir -p '/sdcard/a b'");
    assert_eq!(move_command("/sdcard/a", "/sdcard/b c"), "mv '/sdcard/a' '/sdcard/b c'");
    assert_eq!(touch_command("/sdcard/a", 1700000000), "touch -d @1700000000 '/sdcard/a'");
    assert_eq!(touch_command("/sdcard/a", 0), "touch -d @0 '/sdcard/a'");
    assert_eq!(touch_command("/sdcard/a", -5), "touch -d @-5 '/sdcard/a'");
    assert_eq!(
        touch_command("a", i64::MIN),
        "touch -d @-9223372036854775808 'a'"
    );
}

#[test]
fn argument_lists() {
    let s = |v: &[&str]| v.iter().map(|x| x.to_string()).collect::<Vec<String>>();
    assert_eq!(shell_args("dev1", "ls -la '/'"), s(&["-s", "dev1", "shell", "ls -la '/'"]));
    assert_eq!(pull_args("dev1", "/sdcard/a", "/tmp/a"), s(&["-s", "dev1", "pull", "/sdcard/a", "/tmp/a"]));
    assert_eq!(push_args("dev1", "/tmp/a", "/sdcard/a"), s(&["-s", "dev1", "push", "/tmp/a", "/sdcard/a"]));
    assert_eq!(
        frame_args("in.mp4", "out.png"),
        s(&[
            "-i",
            "in.mp4",
            "-ss",
            "00:00:01",
            "-vframes",
            "1",
            "-vf",
            "scale=100:100:force_original_aspect_ratio=decrease",
            "-y",
            "out.png"
        ])
    );
}

#[test]
fn stat_lines() {
    let r = parse_stat_line("2048 1700000000 81a4 /sdcard/Photos/My pic.jpg", "/sdcard").unwrap();
    assert_eq!(r.relative_path, "Photos/My pic.jpg");
    assert_eq!(r.size, 2048);
    assert_eq!(r.modified_time, 1700000000);
    assert!(!r.is_directory);
    assert_eq!(r.content_hash, None);

    let d = parse_stat_line("4096 -1 41ED /sdcard/Photos", "/sdcard/").unwrap();
    assert_eq!(d.relative_path, "Photos");
    assert_eq!(d.size, 0);
    assert_eq!(d.modified_time, -1);
    assert!(d.is_directory);

    // Two blanks in a name stay two blanks.
    let r = parse_stat_line("1 2 8000 /r/a  b", "/r").unwrap();
    assert_eq!(r.relative_path, "a  b");

    // The root itself, what lies elsewhere, links, and what is no such line.
    assert!(parse_stat_line("4096 1 41ed /sdcard", "/sdcard").is_none());
    assert!(parse_stat_line("4096 1 41ed /sdcard/", "/sdcard").is_none());
    assert!(parse_stat_line("1 1 81a4 /sdcard2/a", "/sdcard").is_none());
    assert!(parse_stat_line("1 1 a1ff /sdcard/link", "/sdcard").is_none());
    assert!(parse_stat_line("x 1 81a4 /sdcard/a", "/sdcard").is_none());
    assert!(parse_stat_line("1 y 81a4 /sdcard/a", "/sdcard").is_none());
    assert!(parse_stat_line("1 1 zz /sdcard/a", "/sdcard").is_none());
    assert!(parse_stat_line("1 1 8000000a4 /sdcard/a", "/sdcard").is_none());
    assert!(parse_stat_line("1 1 81a4", "/sdcard").is_none());
    assert!(parse_stat_line("", "/sdcard").is_none());
    assert!(parse_stat_line("1  1 81a4 /sdcard/a", "/sdcard").is_none());
    assert!(parse_stat_line("18446744073709551616 1 81a4 /sdcard/a", "/sdcard").is_none());
    assert!(parse_stat_line("1 9223372036854775808 81a4 /sdcard/a", "/sdcard").is_none());
    assert_eq!(
        parse_stat_line("1 -9223372036854775808 81a4 /sdcard/a", "/sdcard").unwrap().modified_time,
        i64::MIN
    );
    assert_eq!(
        parse_stat_line("1 +9223372036854775807 81a4 /sdcard/a", "/sdcard").unwrap().modified_time,
        i64::MAX
    );
}

#[test]
fn stat_output() {
    let out = "4096 10 41ed /sdcard/Photos\r\n\
               find: /sdcard/secret: Permission denied\n\
               12 20 81a4 /sdcard/Photos/a.jpg\n\
               \n\
               34 30 81a4 /sdcard/Photos/b c.jpg\n";
    let records = parse_stat_output(out, "/sdcard");
    let got: Vec<(String, u64, i64, bool)> = records
        .into_iter()
        .map(|r| (r.relative_path, r.size, r.modified_time, r.is_directory))
        .collect();
    assert_eq!(
        got,
        vec![
            ("Photos".to_string(), 0, 10, true),
            ("Photos/a.jpg".to_string(), 12, 20, false),
            ("Photos/b c.jpg".to_string(), 34, 30, false),
        ]
    );
    assert_eq!(parse_stat_output("", "/sdcard").len(), 0);
}

#[test]
fn digests() {
    assert_eq!(
        parse_digest("d41d8cd98f00b204e9800998ecf8427e  /sdcard/empty\n"),
        Some(0xd41d8cd98f00b204e9800998ecf8427e)
    );
    assert_eq!(
        parse_digest("  D41D8CD98F00B204E9800998ECF8427E"),
        Some(0xd41d8cd98f00b204e9800998ecf8427e)
    );
    assert_eq!(parse_digest("ffffffffffffffffffffffffffffffff x"), Some(u128::MAX));
    assert_eq!(parse_digest("d41d8cd98f00b204e9800998ecf8427 x"), None);
    assert_eq!(parse_digest("d41d8cd98f00b204e9800998ecf8427eg x"), None);
    assert_eq!(parse_digest("g41d8cd98f00b204e9800998ecf8427e x"), None);
    assert_eq!(parse_digest("md5sum: /x: No such file or directory"), None);
    assert_eq!(parse_digest(""), None);
}
