use droiddock::commands::{
    check_adb_result, delete_command, delete_failure, delete_result, devices_args,
    devices_result, is_critical_path, list_files_result, ls_command, search_command,
    search_result, version_args, CommandOutcome,
};
use droiddock::device::{
    adb_candidates, find_adb_path, get_adb_command, parse_devices, set_adb_path,
};
use droiddock::listing::{
    lower_extension, parse_ls_line, parse_ls_output, parse_search_output, read_ls_line,
};
use droiddock::media::{is_image_extension, is_video_extension, media_kind, MediaKind};

#[test]
fn parses_a_regular_file_line() {
    let e = parse_ls_line("-rw-rw---- 1 root sdcard_rw 2048 2025-02-01 06:31 Holiday Photo.JPG")
        .unwrap();
    assert_eq!(e.name, "Holiday Photo.JPG");
    assert_eq!(e.permissions, "-rw-rw----");
    assert_eq!(e.size, "2048");
    assert_eq!(e.date, "2025-02-01 06:31");
    assert!(!e.is_directory);
    assert_eq!(e.extension, Some("jpg".to_string()));
}

#[test]
fn parses_a_directory_line() {
    let e = parse_ls_line("drwxrwx--- 2 root sdcard_rw 4096 2025-02-01 06:31 .NightPearl").unwrap();
    assert_eq!(e.name, ".NightPearl");
    assert!(e.is_directory);
    assert_eq!(e.extension, None);
    assert_eq!(e.size, "4096");
}

#[test]
fn rejects_short_lines_and_dot_entries() {
    assert!(parse_ls_line("").is_none());
    assert!(parse_ls_line("total 48").is_none());
    assert!(parse_ls_line("drwxrwx--- root sdcard_rw 2025-02-01 06:31 name").is_none());
    assert!(parse_ls_line("drwxrwx--- 2 root sdcard_rw 4096 2025-02-01 06:31 .").is_none());
    assert!(parse_ls_line("drwxrwx--- 2 root sdcard_rw 4096 2025-02-01 06:31 ..").is_none());
    // Seven words, but none with a colon, or none after the time.
    assert!(parse_ls_line("a b c d e f g").is_none());
    assert!(parse_ls_line("a b c d e f 12:00").is_none());
}

#[test]
fn extension_rules() {
    let line = |name: &str| format!("-rw-rw---- 1 root root 10 2025-02-01 06:31 {}", name);
    assert_eq!(parse_ls_line(&line("README")).unwrap().extension, None);
    assert_eq!(parse_ls_line(&line("trailing.")).unwrap().extension, None);
    assert_eq!(parse_ls_line(&line("a.tar.GZ")).unwrap().extension, Some("gz".to_string()));
    assert_eq!(parse_ls_line(&line("x.abcdefghij")).unwrap().extension, Some("abcdefghij".to_string()));
    assert_eq!(parse_ls_line(&line("x.abcdefghijk")).unwrap().extension, None);
    assert_eq!(parse_ls_line(&line(".hidden")).unwrap().extension, Some("hidden".to_string()));
    // The limit counts bytes: four characters of three bytes each are too long.
    assert_eq!(parse_ls_line(&line("x.\u{20AC}\u{20AC}\u{20AC}\u{20AC}")).unwrap().extension, None);
    assert_eq!(
        parse_ls_line(&line("x.\u{00C9}T\u{00C9}")).unwrap().extension,
        Some("\u{00E9}t\u{00E9}".to_string())
    );
}

#[test]
fn read_ls_line_keeps_the_case_of_the_extension() {
    let e = read_ls_line("-rw-rw---- 1 root root 10 2025-02-01 06:31 Clip.MP4").unwrap();
    assert_eq!(e.extension, Some("MP4".to_string()));
    let lowered = lower_extension(e);
    assert_eq!(lowered.extension, Some("mp4".to_string()));
    assert_eq!(lowered.name, "Clip.MP4");
}

#[test]
fn early_time_word_gives_default_size_and_empty_date() {
    // The time is the first word with a colon, wherever it stands.
    let e = parse_ls_line("12:00 b c d e f g").unwrap();
    assert_eq!(e.name, "b c d e f g");
    assert_eq!(e.size, "0");
    assert_eq!(e.date, " 12:00");
    assert_eq!(e.permissions, "12:00");
    let e = parse_ls_line("perm 12:00 c d e f g").unwrap();
    assert_eq!(e.size, "0");
    assert_eq!(e.date, "perm 12:00");
}

#[test]
fn parses_a_whole_listing() {
    let out = "total 12\r\n\
               drwxrwx--- 2 root sdcard_rw 4096 2025-02-01 06:31 .\n\
               drwxrwx--- 2 root sdcard_rw 4096 2025-02-01 06:31 DCIM\n\
               \n\
               -rw-rw---- 1 root sdcard_rw 77 2025-02-01 06:32 notes.TXT\n";
    let entries = parse_ls_output(out);
    assert_eq!(entries.len(), 2);
    assert_eq!(entries[0].name, "DCIM");
    assert_eq!(entries[1].name, "notes.TXT");
    assert_eq!(entries[1].extension, Some("txt".to_string()));
}

#[test]
fn listing_skips_lines_that_begin_with_total_and_search_does_not() {
    let out = "total 1 root sdcard_rw 77 2025-02-01 06:32 file\n";
    assert_eq!(parse_ls_output(out).len(), 0);
    let found = parse_search_output(out);
    assert_eq!(found.len(), 1);
    assert_eq!(found[0].name, "file");
}

#[test]
fn parses_devices() {
    let out = "List of devices attached\nemulator-5554\tdevice\n0123456789ABCDEF  unauthorized usb:1\n\nlonely\n";
    let devices = parse_devices(out);
    assert_eq!(devices.len(), 2);
    assert_eq!(devices[0].id, "emulator-5554");
    assert_eq!(devices[0].status, "device");
    assert_eq!(devices[1].id, "0123456789ABCDEF");
    assert_eq!(devices[1].status, "unauthorized");
}

#[test]
fn parse_devices_skips_the_heading_even_if_it_looks_like_a_device() {
    assert_eq!(parse_devices("").len(), 0);
    assert_eq!(parse_devices("serial device\n").len(), 0);
    assert_eq!(parse_devices("serial device\r\nabc offline\r\n").len(), 1);
    assert_eq!(parse_devices("h\nabc offline\r\n")[0].status, "offline");
}

#[test]
fn adb_candidates_with_and_without_home() {
    let with = adb_candidates(Some("/Users/me"));
    assert_eq!(
        with,
        vec![
            "/opt/homebrew/bin/adb".to_string(),
            "/usr/local/bin/adb".to_string(),
            "/opt/local/bin/adb".to_string(),
            "/Users/me/Library/Android/sdk/platform-tools/adb".to_string(),
            "/Users/me/Android/Sdk/platform-tools/adb".to_string(),
        ]
    );
    assert_eq!(adb_candidates(None).len(), 3);
}

#[test]
fn find_adb_path_takes_the_first_that_exists() {
    let c = adb_candidates(Some("/h"));
    assert_eq!(find_adb_path(&c, &vec![false, true, true, false, false]), Some("/usr/local/bin/adb".to_string()));
    assert_eq!(find_adb_path(&c, &vec![false, false, false, false, true]), Some("/h/Android/Sdk/platform-tools/adb".to_string()));
    assert_eq!(find_adb_path(&c, &vec![false; 5]), None);
    assert_eq!(find_adb_path(&c, &vec![]), None);
}

#[test]
fn get_adb_command_prefers_stored_then_found_then_plain() {
    let mut stored = Some("/custom/adb".to_string());
    assert_eq!(get_adb_command(&mut stored, Some("/found/adb".to_string())), "/custom/adb");
    assert_eq!(stored, Some("/custom/adb".to_string()));

    let mut stored = None;
    assert_eq!(get_adb_command(&mut stored, Some("/found/adb".to_string())), "/found/adb");
    assert_eq!(stored, Some("/found/adb".to_string()));

    let mut stored = None;
    assert_eq!(get_adb_command(&mut stored, None), "adb");
    assert_eq!(stored, None);
}

#[test]
fn set_adb_path_needs_an_existing_file() {
    let mut stored = Some("/old".to_string());
    assert_eq!(
        set_adb_path(&mut stored, "/nowhere".to_string(), false),
        Err("ADB executable not found at specified path".to_string())
    );
    assert_eq!(stored, Some("/old".to_string()));
    assert_eq!(set_adb_path(&mut stored, "/new".to_string(), true), Ok(()));
    assert_eq!(stored, Some("/new".to_string()));
}

#[test]
fn image_and_video_extensions() {
    for e in ["jpg", "jpeg", "png", "gif", "webp", "bmp"] {
        assert!(is_image_extension(e));
        assert!(!is_video_extension(e));
        assert_eq!(media_kind(e), MediaKind::Image);
    }
    for e in ["mp4", "avi", "mov", "mkv", "webm", "3gp", "m4v"] {
        assert!(is_video_extension(e));
        assert!(!is_image_extension(e));
        assert_eq!(media_kind(e), MediaKind::Video);
    }
    for e in ["", "JPG", "jpg ", "txt", "mp3", "jp"] {
        assert!(!is_image_extension(e));
        assert!(!is_video_extension(e));
        assert_eq!(media_kind(e), MediaKind::Unsupported);
    }
}

#[test]
fn ls_command_quotes_the_path() {
    assert_eq!(ls_command("/sdcard/My Files"), "ls -la '/sdcard/My Files'");
    assert_eq!(ls_command("/sdcard/it's"), "ls -la '/sdcard/it'\\''s'");
    assert_eq!(ls_command(""), "ls -la ''");
}

#[test]
fn delete_command_refuses_critical_paths() {
    for p in ["/", "/system", "/data", "/vendor", "/boot", "/proc", "/sys", "/dev"] {
        assert!(is_critical_path(p));
        assert_eq!(
            delete_command(p, true),
            Err(format!("Cannot delete critical system path: {}", p))
        );
    }
    assert!(!is_critical_path("/system/"));
    assert_eq!(delete_command("/sdcard/a'b", false), Ok("rm '/sdcard/a'\\''b'".to_string()));
    assert_eq!(delete_command("/sdcard/dir", true), Ok("rm -r '/sdcard/dir'".to_string()));
}

#[test]
fn delete_failure_messages() {
    assert_eq!(delete_failure("rm: x: Permission denied", "/a"), "Permission denied: Cannot delete /a");
    assert_eq!(delete_failure("rm: x: Directory not empty", "/a"), "Directory not empty: /a");
    assert_eq!(delete_failure("rm: x: No such file or directory", "/a"), "File not found: /a");
    assert_eq!(delete_failure("boom", "/a"), "Delete failed: boom");
    // The first that applies wins.
    assert_eq!(
        delete_failure("No such file; Permission denied", "/a"),
        "Permission denied: Cannot delete /a"
    );
}

#[test]
fn search_commands() {
    assert_eq!(
        search_command("/sdcard", "pic", false),
        "find '/sdcard' -maxdepth 1  -iname '*pic*' -exec ls -ld {} \\; 2>/dev/null"
    );
    assert_eq!(
        search_command("/sd card", "it's", true),
        "find '/sd card'  \\( -path '*/Android/data' -o -path '*/Android/obb' \\) -prune -o -iname '*it'\\''s*' -exec ls -ld {} \\; 2>/dev/null"
    );
}

fn ran(success: bool, stdout: &str, stderr: &str) -> CommandOutcome {
    CommandOutcome::Ran { success, stdout: stdout.to_string(), stderr: stderr.to_string() }
}

fn not_run(error: &str) -> CommandOutcome {
    CommandOutcome::NotRun { error: error.to_string() }
}

#[test]
fn what_the_devices_command_means() {
    assert_eq!(devices_args(), vec!["devices".to_string()]);
    let devices = devices_result(&ran(true, "List of devices attached\nabc\tdevice\n", "noise")).unwrap();
    assert_eq!(devices.len(), 1);
    assert_eq!(devices[0].id, "abc");
    assert_eq!(
        devices_result(&ran(false, "List of devices attached\nabc\tdevice\n", "no server")).err(),
        Some("ADB command failed: no server".to_string())
    );
    assert_eq!(
        devices_result(&not_run("not found")).err(),
        Some("Failed to execute adb command: not found".to_string())
    );
}

#[test]
fn what_the_listing_command_means() {
    let out = "total 4\n-rw-rw---- 1 root sdcard_rw 77 2025-02-01 06:32 notes.txt\n";
    let entries = list_files_result(&ran(true, out, "")).unwrap();
    assert_eq!(entries.len(), 1);
    assert_eq!(entries[0].name, "notes.txt");
    assert_eq!(
        list_files_result(&ran(false, out, "ls: /x: No such file or directory")).err(),
        Some("ADB ls command failed: ls: /x: No such file or directory".to_string())
    );
    assert_eq!(
        list_files_result(&not_run("gone")).err(),
        Some("Failed to execute adb command: gone".to_string())
    );
}

#[test]
fn what_the_version_command_means() {
    assert_eq!(version_args(), vec!["version".to_string()]);
    assert_eq!(check_adb_result(&ran(true, "Android Debug Bridge", "")), Ok(true));
    assert_eq!(check_adb_result(&ran(false, "", "boom")), Ok(false));
    assert_eq!(
        check_adb_result(&not_run("whatever")),
        Err("ADB is not installed or not in PATH".to_string())
    );
}

#[test]
fn what_the_delete_command_means() {
    assert_eq!(delete_result(&ran(true, "", "rm: warning"), "/sdcard/a"), Ok(()));
    assert_eq!(
        delete_result(&ran(false, "", "rm: /sdcard/a: Permission denied"), "/sdcard/a"),
        Err("Permission denied: Cannot delete /sdcard/a".to_string())
    );
    assert_eq!(
        delete_result(&ran(false, "", "odd"), "/sdcard/a"),
        Err("Delete failed: odd".to_string())
    );
    assert_eq!(
        delete_result(&not_run("gone"), "/sdcard/a"),
        Err("Failed to execute delete command: gone".to_string())
    );
}

#[test]
fn what_the_search_command_means() {
    let out = "-rw-rw---- 1 root sdcard_rw 77 2025-02-01 06:32 /sdcard/Pic.JPG\n";
    for success in [true, false] {
        let found = search_result(&ran(success, out, "find: denied")).unwrap();
        assert_eq!(found.len(), 1);
        assert_eq!(found[0].name, "/sdcard/Pic.JPG");
        assert_eq!(found[0].extension, Some("jpg".to_string()));
    }
    assert_eq!(
        search_result(&not_run("gone")).err(),
        Some("Failed to execute search command: gone".to_string())
    );
}

