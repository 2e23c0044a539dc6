//! Directory listings as the device's `ls -la` and `find ... -exec ls -ld`
//! print them.

use crate::text::{
    after_last, append_chars, copy_range, find_last, from_chars, has_char, join, joined, lines,
    parts_from, split_lines, split_words, starts_with, to_chars, views, words,
};
use vstd::prelude::*;
use vstd::utf8::encode_utf8;

verus! {

/// One entry of a directory listing.
#[derive(Debug)]
pub struct FileEntry {
    pub name: String,
    pub permissions: String,
    pub size: String,
    pub date: String,
    pub is_directory: bool,
    pub extension: Option<String>,
}

/// What a `FileEntry` holds, as plain values.
pub struct FileEntryView {
    pub name: Seq<char>,
    pub permissions: Seq<char>,
    pub size: Seq<char>,
    pub date: Seq<char>,
    pub is_directory: bool,
    pub extension: Option<Seq<char>>,
}

impl View for FileEntry {
    type V = FileEntryView;

    open spec fn view(&self) -> FileEntryView {
        FileEntryView {
            name: self.name@,
            permissions: self.permissions@,
            size: self.size@,
            date: self.date@,
            is_directory: self.is_directory,
            extension: match self.extension {
                Some(e) => Some(e@),
                None => None,
            },
        }
    }
}

/// The views of a sequence of entries.
pub open spec fn entry_views(v: Seq<FileEntry>) -> Seq<FileEntryView> {
    Seq::new(v.len(), |i: int| v[i]@)
}

/// The lower-case form that `str::to_lowercase` gives a text.
pub uninterp spec fn lowercase_of(s: Seq<char>) -> Seq<char>;

/// Calls `str::to_lowercase`, which maps each character by the Unicode
/// rules for lower case; the result depends on the text alone.
#[verifier::external_body]
pub(crate) fn to_lowercase(s: &str) -> (r: String)
    ensures
        r@ == lowercase_of(s@),
{
    s.to_lowercase()
}

/// The index of the first of `parts`, from `from` on, that holds `c`;
/// `parts.len()` where none does.
pub open spec fn first_holding(parts: Seq<Seq<char>>, c: char, from: int) -> int
    decreases parts.len() - from,
{
    if from >= parts.len() {
        parts.len() as int
    } else if parts[from].contains(c) {
        from
    } else {
        first_holding(parts, c, from + 1)
    }
}

/// The extension that a file name shows, as written: what follows its last
/// dot, if that is not the whole name and takes 1 to 10 bytes of UTF-8.
pub open spec fn shown_extension(name: Seq<char>) -> Option<Seq<char>> {
    let ext = after_last(name, '.');
    if 0 < encode_utf8(ext).len() <= 10 && ext != name {
        Some(ext)
    } else {
        None
    }
}

/// The entry that one line of a listing describes, with the extension as
/// the name has it. The line's words are: permissions, links, owner, group,
/// size, date, time, and the name, which may hold blanks. The time is the
/// first word with a colon; a line of fewer than seven words, one without
/// a time or without a name after it, and the entries `.` and `..` describe
/// nothing.
pub open spec fn ls_fields(line: Seq<char>) -> Option<FileEntryView> {
    let parts = words(line);
    let t = first_holding(parts, ':', 0);
    if parts.len() < 7 || t + 1 >= parts.len() {
        None
    } else {
        let name = joined(parts.subrange(t + 1, parts.len() as int), seq![' ']);
        let is_directory = parts[0].len() > 0 && parts[0][0] == 'd';
        if name == seq!['.'] || name == seq!['.', '.'] || name.len() == 0 {
            None
        } else {
            Some(
                FileEntryView {
                    name,
                    permissions: parts[0],
                    size: if t >= 2 {
                        parts[t - 2]
                    } else {
                        seq!['0']
                    },
                    date: (if t > 0 {
                        parts[t - 1]
                    } else {
                        Seq::empty()
                    }) + seq![' '] + parts[t],
                    is_directory,
                    extension: if is_directory {
                        None
                    } else {
                        shown_extension(name)
                    },
                },
            )
        }
    }
}

/// An entry with its extension in lower case.
pub open spec fn with_lower_extension(e: FileEntryView) -> FileEntryView {
    FileEntryView {
        extension: match e.extension {
            Some(x) => Some(lowercase_of(x)),
            None => None,
        },
        ..e
    }
}

/// The entry that one line of a listing describes.
pub open spec fn parsed_ls_line(line: Seq<char>) -> Option<FileEntryView> {
    match ls_fields(line) {
        Some(e) => Some(with_lower_extension(e)),
        None => None,
    }
}

fn find_holding(parts: &Vec<Vec<char>>, c: char) -> (r: usize)
    ensures
        r as int == first_holding(views(parts@), c, 0),
        r <= parts.len(),
{
    let mut i: usize = 0;
    while i < parts.len()
        invariant
            i <= parts.len(),
            first_holding(views(parts@), c, 0) == first_holding(views(parts@), c, i as int),
        decreases parts.len() - i,
    {
        if has_char(parts[i].as_slice(), c) {
            return i;
        }
        i += 1;
    }
    i
}

fn extension_of(name: &Vec<char>) -> (r: Option<String>)
    ensures
        match r {
            Some(e) => shown_extension(name@) == Some(e@),
            None => shown_extension(name@) is None,
        },
{
    let from: usize = match find_last(name.as_slice(), '.') {
        Some(i) => i + 1,
        None => 0,
    };
    let ext = copy_range(name.as_slice(), from, name.len());
    let text = from_chars(ext.as_slice());
    let bytes: usize = text.as_str().as_bytes().len();
    if 0 < bytes && bytes <= 10 && from != 0 {
        Some(text)
    } else {
        proof {
            if from == 0 {
                assert(ext@ == name@);
            }
        }
        None
    }
}

/// Reads one line of a listing, leaving the extension as the name has it.
pub fn read_ls_line(line: &str) -> (r: Option<FileEntry>)
    ensures
        match r {
            Some(e) => ls_fields(line@) == Some(e@),
            None => ls_fields(line@) is None,
        },
{
    let chars = to_chars(line);
    read_fields(chars.as_slice())
}

fn read_fields(line: &[char]) -> (r: Option<FileEntry>)
    ensures
        match r {
            Some(e) => ls_fields(line@) == Some(e@),
            None => ls_fields(line@) is None,
        },
{
    let parts = split_words(line);
    if parts.len() < 7 {
        return None;
    }
    let t = find_holding(&parts, ':');
    if t >= parts.len() - 1 {
        return None;
    }
    let rest = parts_from(&parts, t + 1);
    let space: Vec<char> = vec![' '];
    let name = join(rest.as_slice(), space.as_slice());
    assert(space@ == seq![' ']);
    if name.len() == 0 || (name.len() == 1 && name[0] == '.') || (name.len() == 2 && name[0] == '.'
        && name[1] == '.') {
        proof {
            if name@.len() == 1 {
                assert(name@ == seq!['.']);
            }
            if name@.len() == 2 {
                assert(name@ == seq!['.', '.']);
            }
        }
        return None;
    }
    let is_directory = parts[0].len() > 0 && parts[0][0] == 'd';
    let size = if t >= 2 {
        from_chars(parts[t - 2].as_slice())
    } else {
        let zero: Vec<char> = vec!['0'];
        assert(zero@ == seq!['0']);
        from_chars(zero.as_slice())
    };
    let mut date: Vec<char> = Vec::new();
    if t > 0 {
        append_chars(&mut date, parts[t - 1].as_slice());
    }
    date.push(' ');
    append_chars(&mut date, parts[t].as_slice());
    let extension = if is_directory {
        None
    } else {
        extension_of(&name)
    };
    let entry = FileEntry {
        name: from_chars(name.as_slice()),
        permissions: from_chars(parts[0].as_slice()),
        size,
        date: from_chars(date.as_slice()),
        is_directory,
        extension,
    };
    proof {
        let want = ls_fields(line@).unwrap();
        assert(entry@.date == want.date);
    }
    Some(entry)
}

/// Gives an entry's extension its lower-case form.
pub fn lower_extension(entry: FileEntry) -> (r: FileEntry)
    ensures
        r@ == with_lower_extension(entry@),
{
    let FileEntry { name, permissions, size, date, is_directory, extension } = entry;
    let extension = match extension {
        Some(e) => Some(to_lowercase(e.as_str())),
        None => None,
    };
    FileEntry { name, permissions, size, date, is_directory, extension }
}

/// Reads one line of a listing.
pub fn parse_ls_line(line: &str) -> (r: Option<FileEntry>)
    ensures
        match r {
            Some(e) => parsed_ls_line(line@) == Some(e@),
            None => parsed_ls_line(line@) is None,
        },
{
    match read_ls_line(line) {
        Some(e) => Some(lower_extension(e)),
        None => None,
    }
}

/// The entries that the given lines describe, in order. With `skip_totals`
/// a line that begins with `total` describes nothing.
pub open spec fn listed(ls: Seq<Seq<char>>, skip_totals: bool) -> Seq<FileEntryView>
    decreases ls.len(),
{
    if ls.len() == 0 {
        Seq::empty()
    } else {
        let rest = listed(ls.drop_last(), skip_totals);
        let line = ls.last();
        if skip_totals && "total"@.is_prefix_of(line) {
            rest
        } else {
            match parsed_ls_line(line) {
                Some(e) => rest.push(e),
                None => rest,
            }
        }
    }
}

fn parse_lines(stdout: &str, skip_totals: bool) -> (out: Vec<FileEntry>)
    ensures
        entry_views(out@) == listed(lines(stdout@), skip_totals),
{
    let chars = to_chars(stdout);
    let ls = split_lines(chars.as_slice());
    let total = to_chars("total");
    let mut out: Vec<FileEntry> = Vec::new();
    let mut i: usize = 0;
    while i < ls.len()
        invariant
            i <= ls.len(),
            total@ == "total"@,
            entry_views(out@) == listed(views(ls@).take(i as int), skip_totals),
        decreases ls.len() - i,
    {
        assert(views(ls@).take(i + 1).drop_last() == views(ls@).take(i as int));
        if !(skip_totals && starts_with(ls[i].as_slice(), total.as_slice())) {
            match read_fields(ls[i].as_slice()) {
                Some(e) => {
                    let e = lower_extension(e);
                    out.push(e);
                },
                None => {},
            }
        }
        i += 1;
    }
    assert(views(ls@).take(ls@.len() as int) == views(ls@));
    out
}

/// Reads the output of the command that lists a directory: a line that
/// begins with `total` is its summary and describes no entry.
pub fn parse_ls_output(stdout: &str) -> (out: Vec<FileEntry>)
    ensures
        entry_views(out@) == listed(lines(stdout@), true),
{
    parse_lines(stdout, true)
}

/// Reads the output of the command that searches for entries.
pub fn parse_search_output(stdout: &str) -> (out: Vec<FileEntry>)
    ensures
        entry_views(out@) == listed(lines(stdout@), false),
{
    parse_lines(stdout, false)
}

} // verus!
