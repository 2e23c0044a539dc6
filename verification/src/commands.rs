//! The shell commands that are sent to a device, and what their failures
//! mean.

use crate::device::{device_views, parse_devices, parsed_devices, AdbDevice};
use crate::listing::{
    entry_views, listed, parse_ls_output, parse_search_output, FileEntry,
};
use crate::text::lines;
use crate::text::{
    append_chars, append_str, contains_str, contains_text, from_chars, is_text, replace_char,
    replaced, texts, to_chars,
};
use vstd::prelude::*;

verus! {

/// `path` between single quotes, safe for the device's shell: each single
/// quote inside it closes the quotation, stands escaped, and opens it again.
pub open spec fn quoted(path: Seq<char>) -> Seq<char> {
    seq!['\''] + replaced(path, '\'', seq!['\'', '\\', '\'', '\'']) + seq!['\'']
}

/// Appends `path`, quoted for the shell, to `out`.
pub fn append_quoted(out: &mut Vec<char>, path: &str)
    ensures
        final(out)@ == old(out)@ + quoted(path@),
{
    let p = to_chars(path);
    let with: Vec<char> = vec!['\'', '\\', '\'', '\''];
    let escaped = replace_char(p.as_slice(), '\'', with.as_slice());
    out.push('\'');
    append_chars(out, escaped.as_slice());
    out.push('\'');
}

/// The command that lists the directory `path` with hidden entries.
pub open spec fn ls_command_text(path: Seq<char>) -> Seq<char> {
    "ls -la "@ + quoted(path)
}

/// The command that lists the directory `path` with hidden entries.
pub fn ls_command(path: &str) -> (r: String)
    ensures
        r@ == ls_command_text(path@),
{
    let mut out: Vec<char> = Vec::new();
    append_str(&mut out, "ls -la ");
    append_quoted(&mut out, path);
    from_chars(out.as_slice())
}

/// `path` is one of the system directories that are never deleted.
pub open spec fn critical_path(path: Seq<char>) -> bool {
    ||| path == "/"@
    ||| path == "/system"@
    ||| path == "/data"@
    ||| path == "/vendor"@
    ||| path == "/boot"@
    ||| path == "/proc"@
    ||| path == "/sys"@
    ||| path == "/dev"@
}

/// Tells whether `path` is one of the system directories that are never
/// deleted.
pub fn is_critical_path(path: &str) -> (r: bool)
    ensures
        r == critical_path(path@),
{
    let p = to_chars(path);
    let p = p.as_slice();
    is_text(p, "/") || is_text(p, "/system") || is_text(p, "/data") || is_text(p, "/vendor")
        || is_text(p, "/boot") || is_text(p, "/proc") || is_text(p, "/sys") || is_text(p, "/dev")
}

/// The command that removes `path`: recursively for a directory.
pub open spec fn rm_command_text(path: Seq<char>, is_directory: bool) -> Seq<char> {
    (if is_directory {
        "rm -r "@
    } else {
        "rm "@
    }) + quoted(path)
}

/// The command that removes `path`, or the refusal to remove a critical
/// system directory.
pub fn delete_command(path: &str, is_directory: bool) -> (r: Result<String, String>)
    ensures
        match r {
            Ok(c) => !critical_path(path@) && c@ == rm_command_text(path@, is_directory),
            Err(m) => critical_path(path@) && m@ == "Cannot delete critical system path: "@
                + path@,
        },
{
    let mut out: Vec<char> = Vec::new();
    if is_critical_path(path) {
        append_str(&mut out, "Cannot delete critical system path: ");
        append_str(&mut out, path);
        return Err(from_chars(out.as_slice()));
    }
    if is_directory {
        append_str(&mut out, "rm -r ");
    } else {
        append_str(&mut out, "rm ");
    }
    append_quoted(&mut out, path);
    Ok(from_chars(out.as_slice()))
}

/// What is reported when removing `path` failed with `stderr`.
pub open spec fn delete_failure_text(stderr: Seq<char>, path: Seq<char>) -> Seq<char> {
    if contains_text(stderr, "Permission denied"@) {
        "Permission denied: Cannot delete "@ + path
    } else if contains_text(stderr, "Directory not empty"@) {
        "Directory not empty: "@ + path
    } else if contains_text(stderr, "No such file"@) {
        "File not found: "@ + path
    } else {
        "Delete failed: "@ + stderr
    }
}

/// What is reported when removing `path` failed with `stderr`.
pub fn delete_failure(stderr: &str, path: &str) -> (r: String)
    ensures
        r@ == delete_failure_text(stderr@, path@),
{
    let e = to_chars(stderr);
    let e = e.as_slice();
    let mut out: Vec<char> = Vec::new();
    if contains_str(e, "Permission denied") {
        append_str(&mut out, "Permission denied: Cannot delete ");
        append_str(&mut out, path);
    } else if contains_str(e, "Directory not empty") {
        append_str(&mut out, "Directory not empty: ");
        append_str(&mut out, path);
    } else if contains_str(e, "No such file") {
        append_str(&mut out, "File not found: ");
        append_str(&mut out, path);
    } else {
        append_str(&mut out, "Delete failed: ");
        append_chars(&mut out, e);
    }
    from_chars(out.as_slice())
}

/// The command that finds, under `search_path`, the entries whose name
/// holds `pattern` in any case, and lists each. A search that is not
/// recursive stays in the directory itself; a recursive one leaves out the
/// private data of applications.
pub open spec fn search_command_text(
    search_path: Seq<char>,
    pattern: Seq<char>,
    recursive: bool,
) -> Seq<char> {
    "find "@ + quoted(search_path) + " "@ + (if recursive {
        Seq::empty()
    } else {
        "-maxdepth 1"@
    }) + " "@ + (if recursive {
        "\\( -path '*/Android/data' -o -path '*/Android/obb' \\) -prune -o"@
    } else {
        Seq::empty()
    }) + " -iname '*"@ + replaced(pattern, '\'', seq!['\'', '\\', '\'', '\''])
        + "*' -exec ls -ld {} \\; 2>/dev/null"@
}

/// The command that searches `search_path` for names that hold `pattern`.
pub fn search_command(search_path: &str, pattern: &str, recursive: bool) -> (r: String)
    ensures
        r@ == search_command_text(search_path@, pattern@, recursive),
{
    let mut out: Vec<char> = Vec::new();
    append_str(&mut out, "find ");
    append_quoted(&mut out, search_path);
    append_str(&mut out, " ");
    if !recursive {
        append_str(&mut out, "-maxdepth 1");
    }
    append_str(&mut out, " ");
    if recursive {
        append_str(&mut out, "\\( -path '*/Android/data' -o -path '*/Android/obb' \\) -prune -o");
    }
    append_str(&mut out, " -iname '*");
    let p = to_chars(pattern);
    let with: Vec<char> = vec!['\'', '\\', '\'', '\''];
    let escaped = replace_char(p.as_slice(), '\'', with.as_slice());
    append_chars(&mut out, escaped.as_slice());
    append_str(&mut out, "*' -exec ls -ld {} \\; 2>/dev/null");
    from_chars(out.as_slice())
}

/// The arguments that make `adb` run `command` in the shell of the device
/// `device_id`.
pub fn shell_args(device_id: &str, command: &str) -> (out: Vec<String>)
    ensures
        texts(out@) == seq!["-s"@, device_id@, "shell"@, command@],
{
    let mut out: Vec<String> = Vec::new();
    out.push(String::from_str("-s"));
    out.push(String::from_str(device_id));
    out.push(String::from_str("shell"));
    out.push(String::from_str(command));
    out
}

/// The arguments that make `adb` copy the file `file_path` of the device
/// `device_id` to `target`.
pub fn pull_args(device_id: &str, file_path: &str, target: &str) -> (out: Vec<String>)
    ensures
        texts(out@) == seq!["-s"@, device_id@, "pull"@, file_path@, target@],
{
    let mut out: Vec<String> = Vec::new();
    out.push(String::from_str("-s"));
    out.push(String::from_str(device_id));
    out.push(String::from_str("pull"));
    out.push(String::from_str(file_path));
    out.push(String::from_str(target));
    out
}

/// The arguments that make `adb` copy the local file `source` to
/// `file_path` on the device `device_id`.
pub fn push_args(device_id: &str, source: &str, file_path: &str) -> (out: Vec<String>)
    ensures
        texts(out@) == seq!["-s"@, device_id@, "push"@, source@, file_path@],
{
    let mut out: Vec<String> = Vec::new();
    out.push(String::from_str("-s"));
    out.push(String::from_str(device_id));
    out.push(String::from_str("push"));
    out.push(String::from_str(source));
    out.push(String::from_str(file_path));
    out
}

/// The arguments that make `ffmpeg` write the frame at one second of the
/// video `input`, scaled to fit 100 by 100, to `output`, over what is
/// there.
pub fn frame_args(input: &str, output: &str) -> (out: Vec<String>)
    ensures
        texts(out@) == seq![
            "-i"@,
            input@,
            "-ss"@,
            "00:00:01"@,
            "-vframes"@,
            "1"@,
            "-vf"@,
            "scale=100:100:force_original_aspect_ratio=decrease"@,
            "-y"@,
            output@,
        ],
{
    let mut out: Vec<String> = Vec::new();
    out.push(String::from_str("-i"));
    out.push(String::from_str(input));
    out.push(String::from_str("-ss"));
    out.push(String::from_str("00:00:01"));
    out.push(String::from_str("-vframes"));
    out.push(String::from_str("1"));
    out.push(String::from_str("-vf"));
    out.push(String::from_str("scale=100:100:force_original_aspect_ratio=decrease"));
    out.push(String::from_str("-y"));
    out.push(String::from_str(output));
    out
}

/// What running a command gave.
#[derive(Debug)]
pub enum CommandOutcome {
    /// The command could not be run at all; `error` says why.
    NotRun { error: String },
    /// The command ran, with or without success.
    Ran { success: bool, stdout: String, stderr: String },
}

/// A `CommandOutcome` as plain values.
pub enum OutcomeView {
    NotRun { error: Seq<char> },
    Ran { success: bool, stdout: Seq<char>, stderr: Seq<char> },
}

impl View for CommandOutcome {
    type V = OutcomeView;

    open spec fn view(&self) -> OutcomeView {
        match self {
            CommandOutcome::NotRun { error } => OutcomeView::NotRun { error: error@ },
            CommandOutcome::Ran { success, stdout, stderr } => OutcomeView::Ran {
                success: *success,
                stdout: stdout@,
                stderr: stderr@,
            },
        }
    }
}

/// `r` is the failure with the text `text`.
pub open spec fn fails_with<T>(r: Result<T, String>, text: Seq<char>) -> bool {
    match r {
        Ok(_) => false,
        Err(m) => m@ == text,
    }
}

fn text_of(head: &str, tail: &str) -> (r: String)
    ensures
        r@ == head@ + tail@,
{
    let mut out: Vec<char> = Vec::new();
    append_str(&mut out, head);
    append_str(&mut out, tail);
    from_chars(out.as_slice())
}

/// The arguments that make `adb` list the connected devices.
pub fn devices_args() -> (out: Vec<String>)
    ensures
        texts(out@) == seq!["devices"@],
{
    let mut out: Vec<String> = Vec::new();
    out.push(String::from_str("devices"));
    assert(texts(out@) =~= seq!["devices"@]);
    out
}

/// The arguments that make `adb` tell its version.
pub fn version_args() -> (out: Vec<String>)
    ensures
        texts(out@) == seq!["version"@],
{
    let mut out: Vec<String> = Vec::new();
    out.push(String::from_str("version"));
    assert(texts(out@) =~= seq!["version"@]);
    out
}

/// The connected devices, as the command that lists them told: its
/// output read where it ran with success, and a failure with what it
/// said on its error stream where it ran without, or with why it could
/// not be run.
pub fn devices_result(outcome: &CommandOutcome) -> (r: Result<Vec<AdbDevice>, String>)
    ensures
        match outcome@ {
            OutcomeView::NotRun { error } => fails_with(
                r,
                "Failed to execute adb command: "@ + error,
            ),
            OutcomeView::Ran { success, stdout, stderr } => if success {
                r is Ok && device_views(r->Ok_0@) == parsed_devices(stdout)
            } else {
                fails_with(r, "ADB command failed: "@ + stderr)
            },
        },
{
    match outcome {
        CommandOutcome::NotRun { error } => Err(
            text_of("Failed to execute adb command: ", error.as_str()),
        ),
        CommandOutcome::Ran { success, stdout, stderr } => if *success {
            Ok(parse_devices(stdout.as_str()))
        } else {
            Err(text_of("ADB command failed: ", stderr.as_str()))
        },
    }
}

/// The entries of a directory, as the command that lists it told.
pub fn list_files_result(outcome: &CommandOutcome) -> (r: Result<Vec<FileEntry>, String>)
    ensures
        match outcome@ {
            OutcomeView::NotRun { error } => fails_with(
                r,
                "Failed to execute adb command: "@ + error,
            ),
            OutcomeView::Ran { success, stdout, stderr } => if success {
                r is Ok && entry_views(r->Ok_0@) == listed(lines(stdout), true)
            } else {
                fails_with(r, "ADB ls command failed: "@ + stderr)
            },
        },
{
    match outcome {
        CommandOutcome::NotRun { error } => Err(
            text_of("Failed to execute adb command: ", error.as_str()),
        ),
        CommandOutcome::Ran { success, stdout, stderr } => if *success {
            Ok(parse_ls_output(stdout.as_str()))
        } else {
            Err(text_of("ADB ls command failed: ", stderr.as_str()))
        },
    }
}

/// Whether `adb` can be used, as the command that asks its version told:
/// it can where the command ran with success, and it is not installed
/// where the command could not be run.
pub fn check_adb_result(outcome: &CommandOutcome) -> (r: Result<bool, String>)
    ensures
        match outcome@ {
            OutcomeView::NotRun { .. } => fails_with(r, "ADB is not installed or not in PATH"@),
            OutcomeView::Ran { success, .. } => r == Ok::<bool, String>(success),
        },
{
    match outcome {
        CommandOutcome::NotRun { .. } => Err(String::from_str("ADB is not installed or not in PATH")),
        CommandOutcome::Ran { success, .. } => Ok(*success),
    }
}

/// How removing `path` ended, as the command that removes it told.
pub fn delete_result(outcome: &CommandOutcome, path: &str) -> (r: Result<(), String>)
    ensures
        match outcome@ {
            OutcomeView::NotRun { error } => fails_with(
                r,
                "Failed to execute delete command: "@ + error,
            ),
            OutcomeView::Ran { success, stdout, stderr } => if success {
                r is Ok
            } else {
                fails_with(r, delete_failure_text(stderr, path@))
            },
        },
{
    match outcome {
        CommandOutcome::NotRun { error } => Err(
            text_of("Failed to execute delete command: ", error.as_str()),
        ),
        CommandOutcome::Ran { success, stdout, stderr } => if *success {
            Ok(())
        } else {
            Err(delete_failure(stderr.as_str(), path))
        },
    }
}

/// The entries that a search found, as the command that searches told.
/// Whether it ran with success says nothing: it fails on every directory
/// that it may not read, and still prints what it found.
pub fn search_result(outcome: &CommandOutcome) -> (r: Result<Vec<FileEntry>, String>)
    ensures
        match outcome@ {
            OutcomeView::NotRun { error } => fails_with(
                r,
                "Failed to execute search command: "@ + error,
            ),
            OutcomeView::Ran { success, stdout, stderr } => r is Ok && entry_views(r->Ok_0@)
                == listed(lines(stdout), false),
        },
{
    match outcome {
        CommandOutcome::NotRun { error } => Err(
            text_of("Failed to execute search command: ", error.as_str()),
        ),
        CommandOutcome::Ran { stdout, .. } => Ok(parse_search_output(stdout.as_str())),
    }
}

} // verus!
