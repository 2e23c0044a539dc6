//! The remote side through the shell of a device: the commands that list
//! and change it, and what their output says.

use crate::commands::{append_quoted, quoted};
use crate::inventory::{record_views, FileRecord, RecordView};
use crate::numbers::{
    all_hex, append_decimal, decimal_digits, hex_digits_value, parse_hex, parse_i64, parse_u64,
    parsed_i64, parsed_u64,
};
use crate::scan::before_last_separator;
use crate::text::{
    append_chars, append_str, copy_range, find_last, from_chars, join, joined, lines, parts_from,
    pieces, split, split_lines, split_words, starts_with, strip_end, to_chars, views, words,
    Separator,
};
use vstd::prelude::*;

verus! {

/// `root` without the separators that it ends with, and one after it:
/// what every path beneath `root` begins with.
pub open spec fn root_prefix(root: Seq<char>) -> Seq<char> {
    strip_end(root, Separator::Char('/')) + seq!['/']
}

/// The path of `relative` beneath `root`; `root` itself for the empty
/// path.
pub open spec fn joined_path(root: Seq<char>, relative: Seq<char>) -> Seq<char> {
    if relative.len() == 0 {
        root
    } else {
        root_prefix(root) + relative
    }
}

fn root_prefix_of(root: &[char]) -> (r: Vec<char>)
    ensures
        r@ == root_prefix(root@),
{
    let mut to: usize = root.len();
    assert(root@.subrange(0, to as int) =~= root@);
    while to > 0 && root[to - 1] == '/'
        invariant
            to <= root.len(),
            strip_end(root@, Separator::Char('/')) == strip_end(
                root@.subrange(0, to as int),
                Separator::Char('/'),
            ),
        decreases to,
    {
        assert(root@.subrange(0, to as int).drop_last() =~= root@.subrange(0, to - 1));
        to -= 1;
    }
    let mut out = copy_range(root, 0, to);
    out.push('/');
    out
}

/// The path of `relative` beneath `root`.
pub fn join_path(root: &str, relative: &str) -> (r: String)
    ensures
        r@ == joined_path(root@, relative@),
{
    let rel = to_chars(relative);
    if rel.len() == 0 {
        return String::from_str(root);
    }
    let base = to_chars(root);
    let mut out = root_prefix_of(base.as_slice());
    append_chars(&mut out, rel.as_slice());
    from_chars(out.as_slice())
}

/// The directory that holds `path`: what stands before its last
/// separator.
pub fn parent_dir(path: &str) -> (r: String)
    ensures
        r@ == before_last_separator(path@),
{
    let p = to_chars(path);
    match find_last(p.as_slice(), '/') {
        Some(k) => {
            let head = copy_range(p.as_slice(), 0, k);
            from_chars(head.as_slice())
        },
        None => String::new(),
    }
}

/// The command that lists all beneath `dir` with, for each entry, its
/// size, the time of its last change, its mode in hexadecimal, and its
/// path.
pub fn listing_command(dir: &str) -> (r: String)
    ensures
        r@ == "find "@ + quoted(dir@) + " -exec stat -c '%s %Y %f %n' {} + 2>/dev/null"@,
{
    let mut out: Vec<char> = Vec::new();
    append_str(&mut out, "find ");
    append_quoted(&mut out, dir);
    append_str(&mut out, " -exec stat -c '%s %Y %f %n' {} + 2>/dev/null");
    from_chars(out.as_slice())
}

/// What a mode in hexadecimal says of an entry: `Some(true)` for a
/// directory, `Some(false)` for a regular file, and `None` for anything
/// else and for what is no mode.
pub open spec fn entry_kind(mode: Seq<char>) -> Option<bool> {
    if 0 < mode.len() <= 8 && all_hex(mode) {
        let kind = (hex_digits_value(mode) / 0x1000) % 16;
        if kind == 4 {
            Some(true)
        } else if kind == 8 {
            Some(false)
        } else {
            None
        }
    } else {
        None
    }
}

/// The record that one line of a listing under `root` gives. The line
/// holds the size, the time and the mode, with one blank after each, and
/// then the path, which must lie beneath `root`. A directory counts with
/// the size 0. Lines of any other form, and entries that are neither
/// files nor directories, give nothing.
pub open spec fn stat_record(line: Seq<char>, root: Seq<char>) -> Option<RecordView> {
    let p = pieces(line, Separator::Char(' '));
    if p.len() < 4 {
        None
    } else {
        let name = joined(p.subrange(3, p.len() as int), seq![' ']);
        let base = root_prefix(root);
        match (parsed_u64(p[0]), parsed_i64(p[1]), entry_kind(p[2])) {
            (Some(size), Some(modified_time), Some(is_directory)) => if base.is_prefix_of(name)
                && name.len() > base.len() {
                Some(
                    RecordView {
                        path: name.skip(base.len() as int),
                        size: if is_directory {
                            0
                        } else {
                            size
                        },
                        modified_time,
                        is_directory,
                        content_hash: None,
                    },
                )
            } else {
                None
            },
            _ => None,
        }
    }
}

fn kind_of(mode: &[char]) -> (r: Option<bool>)
    ensures
        r == entry_kind(mode@),
{
    if mode.len() == 0 || mode.len() > 8 {
        return None;
    }
    match parse_hex(mode) {
        Some(m) => {
            let kind = (m / 0x1000) % 16;
            if kind == 4 {
                Some(true)
            } else if kind == 8 {
                Some(false)
            } else {
                None
            }
        },
        None => None,
    }
}

fn read_stat_line(line: &[char], base: &[char]) -> (r: Option<FileRecord>)
    ensures
        forall|root: Seq<char>|
            base@ == root_prefix(root) ==> match r {
                Some(x) => #[trigger] stat_record(line@, root) == Some(x@),
                None => #[trigger] stat_record(line@, root) is None,
            },
{
    let parts = split(line, Separator::Char(' '));
    if parts.len() < 4 {
        return None;
    }
    let size = parse_u64(parts[0].as_slice());
    let time = parse_i64(parts[1].as_slice());
    let kind = kind_of(parts[2].as_slice());
    let rest = parts_from(&parts, 3);
    let blank: Vec<char> = vec![' '];
    assert(blank@ =~= seq![' ']);
    let name = join(rest.as_slice(), blank.as_slice());
    match (size, time, kind) {
        (Some(size), Some(modified_time), Some(is_directory)) => {
            if starts_with(name.as_slice(), base) && name.len() > base.len() {
                let path = copy_range(name.as_slice(), base.len(), name.len());
                Some(
                    FileRecord {
                        relative_path: from_chars(path.as_slice()),
                        size: if is_directory {
                            0
                        } else {
                            size
                        },
                        modified_time,
                        is_directory,
                        content_hash: None,
                    },
                )
            } else {
                None
            }
        },
        _ => None,
    }
}

/// Reads one line of a listing under `root`.
pub fn parse_stat_line(line: &str, root: &str) -> (r: Option<FileRecord>)
    ensures
        match r {
            Some(x) => stat_record(line@, root@) == Some(x@),
            None => stat_record(line@, root@) is None,
        },
{
    let l = to_chars(line);
    let b = to_chars(root);
    let base = root_prefix_of(b.as_slice());
    read_stat_line(l.as_slice(), base.as_slice())
}

/// The records that the given lines give, in order.
pub open spec fn stat_records(ls: Seq<Seq<char>>, root: Seq<char>) -> Seq<RecordView>
    decreases ls.len(),
{
    if ls.len() == 0 {
        Seq::empty()
    } else {
        match stat_record(ls.last(), root) {
            Some(x) => stat_records(ls.drop_last(), root).push(x),
            None => stat_records(ls.drop_last(), root),
        }
    }
}

/// Reads a listing under `root`. Lines that cannot be read are passed
/// over.
pub fn parse_stat_output(stdout: &str, root: &str) -> (out: Vec<FileRecord>)
    ensures
        record_views(out@) == stat_records(lines(stdout@), root@),
{
    let text = to_chars(stdout);
    let ls = split_lines(text.as_slice());
    let b = to_chars(root);
    let base = root_prefix_of(b.as_slice());
    let mut out: Vec<FileRecord> = Vec::new();
    let mut i: usize = 0;
    while i < ls.len()
        invariant
            i <= ls.len(),
            base@ == root_prefix(root@),
            record_views(out@) == stat_records(views(ls@).take(i as int), root@),
        decreases ls.len() - i,
    {
        assert(views(ls@).take(i + 1).drop_last() =~= views(ls@).take(i as int));
        match read_stat_line(ls[i].as_slice(), base.as_slice()) {
            Some(x) => {
                out.push(x);
            },
            None => {},
        }
        i += 1;
    }
    assert(views(ls@).take(ls@.len() as int) =~= views(ls@));
    out
}

/// The command that prints the digest of the content of `path`.
pub fn digest_command(path: &str) -> (r: String)
    ensures
        r@ == "md5sum "@ + quoted(path@),
{
    let mut out: Vec<char> = Vec::new();
    append_str(&mut out, "md5sum ");
    append_quoted(&mut out, path);
    from_chars(out.as_slice())
}

/// The digest that the output of the digest command shows: its first
/// word, where that is 32 hexadecimal digits.
pub open spec fn parsed_digest(stdout: Seq<char>) -> Option<u128> {
    let w = words(stdout);
    if w.len() > 0 && w[0].len() == 32 && all_hex(w[0]) {
        Some(hex_digits_value(w[0]) as u128)
    } else {
        None
    }
}

/// Reads the output of the digest command.
pub fn parse_digest(stdout: &str) -> (r: Option<u128>)
    ensures
        r == parsed_digest(stdout@),
{
    let text = to_chars(stdout);
    let w = split_words(text.as_slice());
    if w.len() == 0 || w[0].len() != 32 {
        return None;
    }
    parse_hex(w[0].as_slice())
}

/// The command that makes the directory `dir` and those above it.
pub fn make_dir_command(dir: &str) -> (r: String)
    ensures
        r@ == "mkdir -p "@ + quoted(dir@),
{
    let mut out: Vec<char> = Vec::new();
    append_str(&mut out, "mkdir -p ");
    append_quoted(&mut out, dir);
    from_chars(out.as_slice())
}

/// The command that moves `from` to `to`.
pub fn move_command(from: &str, to: &str) -> (r: String)
    ensures
        r@ == "mv "@ + quoted(from@) + " "@ + quoted(to@),
{
    let mut out: Vec<char> = Vec::new();
    append_str(&mut out, "mv ");
    append_quoted(&mut out, from);
    append_str(&mut out, " ");
    append_quoted(&mut out, to);
    from_chars(out.as_slice())
}

/// The decimal notation of `n`, with a minus sign where it is negative.
pub open spec fn signed_decimal(n: int) -> Seq<char> {
    if n < 0 {
        seq!['-'] + decimal_digits((-n) as nat)
    } else {
        decimal_digits(n as nat)
    }
}

/// The command that sets the time of the last change of `path` to
/// `time`, in seconds since the epoch.
pub fn touch_command(path: &str, time: i64) -> (r: String)
    ensures
        r@ == "touch -d @"@ + signed_decimal(time as int) + " "@ + quoted(path@),
{
    let mut out: Vec<char> = Vec::new();
    append_str(&mut out, "touch -d @");
    if time < 0 {
        out.push('-');
        let magnitude: u64 = if time == i64::MIN {
            0x8000_0000_0000_0000
        } else {
            (-time) as u64
        };
        append_decimal(&mut out, magnitude);
    } else {
        append_decimal(&mut out, time as u64);
    }
    append_str(&mut out, " ");
    append_quoted(&mut out, path);
    from_chars(out.as_slice())
}

} // verus!
