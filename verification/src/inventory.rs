//! Inventories: the files of one side of a synchronisation, filtered and
//! in the order of their paths.

use crate::order::{lemma_before_total, lemma_before_transitive, place, text_before, Place};
use crate::pattern::{set_matches, PatternSet};
use crate::text::{from_chars, is_text, pieces, split, to_chars, views, Separator};
use crate::glob::TokenView;
use vstd::prelude::*;

verus! {

/// One file or directory as a side reports it.
#[derive(Debug)]
pub struct FileRecord {
    /// The path from the root, with `/` between its parts.
    pub relative_path: String,
    /// The size in bytes.
    pub size: u64,
    /// The time of the last change, in seconds since the epoch.
    pub modified_time: i64,
    pub is_directory: bool,
    /// The 128-bit digest of the content, where it was computed.
    pub content_hash: Option<u128>,
}

/// What a record holds, as plain values.
pub struct RecordView {
    pub path: Seq<char>,
    pub size: u64,
    pub modified_time: i64,
    pub is_directory: bool,
    pub content_hash: Option<u128>,
}

impl View for FileRecord {
    type V = RecordView;

    open spec fn view(&self) -> RecordView {
        RecordView {
            path: self.relative_path@,
            size: self.size,
            modified_time: self.modified_time,
            is_directory: self.is_directory,
            content_hash: self.content_hash,
        }
    }
}

/// The views of a sequence of records.
pub open spec fn record_views(v: Seq<FileRecord>) -> Seq<RecordView> {
    Seq::new(v.len(), |i: int| v[i]@)
}

/// A record as an inventory keeps it, with the path as characters.
#[derive(Debug)]
pub struct Entry {
    pub path: Vec<char>,
    pub size: u64,
    pub modified_time: i64,
    pub is_directory: bool,
    pub content_hash: Option<u128>,
}

impl View for Entry {
    type V = RecordView;

    open spec fn view(&self) -> RecordView {
        RecordView {
            path: self.path@,
            size: self.size,
            modified_time: self.modified_time,
            is_directory: self.is_directory,
            content_hash: self.content_hash,
        }
    }
}

/// The views of a sequence of entries.
pub open spec fn entry_views(v: Seq<Entry>) -> Seq<RecordView> {
    Seq::new(v.len(), |i: int| v[i]@)
}

/// `name` is a file or directory that an operating system or a device
/// keeps for its own housekeeping.
pub open spec fn housekeeping_name(name: Seq<char>) -> bool {
    ||| name == ".DS_Store"@
    ||| name == ".Spotlight-V100"@
    ||| name == ".Trashes"@
    ||| name == ".fseventsd"@
    ||| name == "Thumbs.db"@
    ||| name == "desktop.ini"@
    ||| name == ".thumbnails"@
    ||| name == ".thumbdata"@
}

/// `name` is `.` or `..`.
pub open spec fn dot_name(name: Seq<char>) -> bool {
    name == seq!['.'] || name == seq!['.', '.']
}

/// The parts of a path between its separators.
pub open spec fn components(path: Seq<char>) -> Seq<Seq<char>> {
    pieces(path, Separator::Char('/'))
}

/// A part of `path`, at any depth, is a housekeeping name.
pub open spec fn is_excluded(path: Seq<char>) -> bool {
    exists|k: int|
        0 <= k < components(path).len() && housekeeping_name(#[trigger] components(path)[k])
}

/// `path` can stand in an inventory: it is not empty, and no part of it
/// is `.` or `..`.
pub open spec fn valid_path(path: Seq<char>) -> bool {
    path.len() > 0 && forall|k: int|
        0 <= k < components(path).len() ==> !dot_name(#[trigger] components(path)[k])
}

/// The record belongs in the inventory that the patterns `globs` ask
/// for: its path is valid and not excluded and, if it is a file, one of
/// the patterns matches it or there are none. Directories are not held to
/// the patterns.
pub open spec fn keeps(r: RecordView, globs: Seq<Seq<TokenView>>) -> bool {
    valid_path(r.path) && !is_excluded(r.path) && (r.is_directory || set_matches(globs, r.path))
}

/// The paths of `inv` stand in strictly ascending order, so none occurs
/// twice.
pub open spec fn sorted_by_path(inv: Seq<RecordView>) -> bool {
    forall|i: int, j: int|
        0 <= i < j < inv.len() ==> text_before(#[trigger] inv[i].path, #[trigger] inv[j].path)
}

/// `inv` with `r` at the place that the order of paths gives it; `inv`
/// itself where it holds a record of that path already.
pub open spec fn inserted(inv: Seq<RecordView>, r: RecordView) -> Seq<RecordView>
    decreases inv.len(),
{
    if inv.len() == 0 {
        seq![r]
    } else if text_before(inv.last().path, r.path) {
        inv.push(r)
    } else if inv.last().path == r.path {
        inv
    } else {
        inserted(inv.drop_last(), r).push(inv.last())
    }
}

/// The inventory of the raw records `raw` under the patterns `globs`: the
/// records that belong in it, in the order of their paths, and of those
/// with one path the first.
pub open spec fn canonical(raw: Seq<RecordView>, globs: Seq<Seq<TokenView>>) -> Seq<RecordView>
    decreases raw.len(),
{
    if raw.len() == 0 {
        Seq::empty()
    } else {
        let rest = canonical(raw.drop_last(), globs);
        if keeps(raw.last(), globs) {
            inserted(rest, raw.last())
        } else {
            rest
        }
    }
}

/// Where every record from `k` on comes after `r` and the one before `k`
/// comes before it, inserting `r` puts it at `k`.
pub proof fn lemma_inserted_at(inv: Seq<RecordView>, r: RecordView, k: int)
    requires
        0 <= k <= inv.len(),
        k > 0 ==> text_before(inv[k - 1].path, r.path),
        forall|j: int| k <= j < inv.len() ==> text_before(r.path, #[trigger] inv[j].path),
    ensures
        inserted(inv, r) == inv.insert(k, r),
    decreases inv.len() - k,
{
    if k < inv.len() {
        let last = inv.last();
        lemma_before_total(last.path, r.path);
        let shorter = inv.drop_last();
        lemma_inserted_at(shorter, r, k);
    }
}

/// Where every record from `k` on comes after `r` and the one before `k`
/// has its path, inserting `r` changes nothing.
pub proof fn lemma_inserted_present(inv: Seq<RecordView>, r: RecordView, k: int)
    requires
        0 < k <= inv.len(),
        inv[k - 1].path == r.path,
        forall|j: int| k <= j < inv.len() ==> text_before(r.path, #[trigger] inv[j].path),
    ensures
        inserted(inv, r) == inv,
    decreases inv.len() - k,
{
    let last = inv.last();
    lemma_before_total(last.path, r.path);
    if k < inv.len() {
        let shorter = inv.drop_last();
        lemma_inserted_present(shorter, r, k);
    }
}

/// Putting a record into a sorted inventory leaves it sorted.
pub proof fn lemma_insert_keeps_sorted(inv: Seq<RecordView>, r: RecordView, k: int)
    requires
        sorted_by_path(inv),
        0 <= k <= inv.len(),
        k > 0 ==> text_before(inv[k - 1].path, r.path),
        forall|j: int| k <= j < inv.len() ==> text_before(r.path, #[trigger] inv[j].path),
    ensures
        sorted_by_path(inv.insert(k, r)),
{
    let out = inv.insert(k, r);
    assert forall|i: int, j: int| 0 <= i < j < out.len() implies text_before(
        #[trigger] out[i].path,
        #[trigger] out[j].path,
    ) by {
        if j == k {
            if i < k - 1 {
                lemma_before_transitive(inv[i].path, inv[k - 1].path, r.path);
            }
        } else if j > k && i < k {
            if i < k - 1 {
                lemma_before_transitive(inv[i].path, inv[k - 1].path, r.path);
            }
            lemma_before_transitive(inv[i].path, r.path, inv[j - 1].path);
        }
    }
}

/// Inserting a record adds it or changes nothing: what stands in the
/// result is the record or stood there before, and what stood there
/// before still does.
pub proof fn lemma_inserted_members(inv: Seq<RecordView>, r: RecordView)
    ensures
        forall|k: int|
            0 <= k < inserted(inv, r).len() ==> (#[trigger] inserted(inv, r)[k]) == r
                || inv.contains(inserted(inv, r)[k]),
        forall|m: int| 0 <= m < inv.len() ==> inserted(inv, r).contains(#[trigger] inv[m]),
        exists|k: int| 0 <= k < inserted(inv, r).len() && (#[trigger] inserted(inv, r)[k]).path
            == r.path,
    decreases inv.len(),
{
    let out = inserted(inv, r);
    if inv.len() == 0 {
        assert(out[0].path == r.path);
    } else if text_before(inv.last().path, r.path) {
        assert forall|k: int| 0 <= k < out.len() implies (#[trigger] out[k]) == r || inv.contains(
            out[k],
        ) by {
            if k < inv.len() {
                assert(inv[k] == out[k]);
            }
        }
        assert forall|m: int| 0 <= m < inv.len() implies out.contains(#[trigger] inv[m]) by {
            assert(out[m] == inv[m]);
        }
        assert(out[out.len() - 1].path == r.path);
    } else if inv.last().path == r.path {
        assert forall|k: int| 0 <= k < out.len() implies (#[trigger] out[k]) == r || inv.contains(
            out[k],
        ) by {
            assert(inv[k] == out[k]);
        }
        assert forall|m: int| 0 <= m < inv.len() implies out.contains(#[trigger] inv[m]) by {
            assert(out[m] == inv[m]);
        }
        assert(out[out.len() - 1].path == r.path);
    } else {
        let shorter = inv.drop_last();
        let inner = inserted(shorter, r);
        lemma_inserted_members(shorter, r);
        assert forall|k: int| 0 <= k < out.len() implies (#[trigger] out[k]) == r || inv.contains(
            out[k],
        ) by {
            if k < inner.len() {
                assert(out[k] == inner[k]);
                if inner[k] != r {
                    let m = choose|m: int| 0 <= m < shorter.len() && shorter[m] == inner[k];
                    assert(inv[m] == out[k]);
                }
            } else {
                assert(inv[inv.len() - 1] == out[k]);
            }
        }
        assert forall|m: int| 0 <= m < inv.len() implies out.contains(#[trigger] inv[m]) by {
            if m < shorter.len() {
                assert(shorter[m] == inv[m]);
                let k = choose|k: int| 0 <= k < inner.len() && inner[k] == shorter[m];
                assert(out[k] == inv[m]);
            } else {
                assert(out[out.len() - 1] == inv[m]);
            }
        }
        let k = choose|k: int| 0 <= k < inner.len() && (#[trigger] inner[k]).path == r.path;
        assert(out[k].path == r.path);
    }
}

/// Inserting a record into a sorted inventory leaves it sorted.
pub proof fn lemma_inserted_sorted(inv: Seq<RecordView>, r: RecordView)
    requires
        sorted_by_path(inv),
    ensures
        sorted_by_path(inserted(inv, r)),
    decreases inv.len(),
{
    let out = inserted(inv, r);
    if inv.len() == 0 {
    } else if text_before(inv.last().path, r.path) {
        lemma_insert_keeps_sorted(inv, r, inv.len() as int);
        assert(inv.insert(inv.len() as int, r) =~= inv.push(r));
    } else if inv.last().path != r.path {
        let last = inv.last();
        let shorter = inv.drop_last();
        lemma_before_total(last.path, r.path);
        assert forall|a: int, b: int| 0 <= a < b < shorter.len() implies text_before(
            #[trigger] shorter[a].path,
            #[trigger] shorter[b].path,
        ) by {
            assert(shorter[a] == inv[a] && shorter[b] == inv[b]);
        }
        lemma_inserted_sorted(shorter, r);
        lemma_inserted_members(shorter, r);
        let inner = inserted(shorter, r);
        assert forall|a: int, b: int| 0 <= a < b < out.len() implies text_before(
            #[trigger] out[a].path,
            #[trigger] out[b].path,
        ) by {
            if b < inner.len() {
                assert(out[a] == inner[a] && out[b] == inner[b]);
            } else {
                assert(out[a] == inner[a] && out[b] == last);
                if inner[a] != r {
                    let m = choose|m: int| 0 <= m < shorter.len() && shorter[m] == inner[a];
                    assert(inv[m] == inner[a]);
                    assert(text_before(inv[m].path, inv[inv.len() - 1].path));
                }
            }
        }
    }
}

/// An inventory made from raw records is sorted by path, so no path
/// occurs twice in it. Each of its records is a raw record that belongs in
/// it, and each raw record that belongs in it has its path there.
pub proof fn lemma_canonical_sound(raw: Seq<RecordView>, globs: Seq<Seq<TokenView>>)
    ensures
        sorted_by_path(canonical(raw, globs)),
        forall|k: int|
            0 <= k < canonical(raw, globs).len() ==> raw.contains(
                #[trigger] canonical(raw, globs)[k],
            ) && keeps(canonical(raw, globs)[k], globs),
        forall|m: int|
            0 <= m < raw.len() && keeps(#[trigger] raw[m], globs) ==> exists|k: int|
                0 <= k < canonical(raw, globs).len() && (#[trigger] canonical(raw, globs)[k]).path
                    == raw[m].path,
    decreases raw.len(),
{
    let out = canonical(raw, globs);
    if raw.len() > 0 {
        let shorter = raw.drop_last();
        let rest = canonical(shorter, globs);
        let last = raw.last();
        lemma_canonical_sound(shorter, globs);
        if keeps(last, globs) {
            lemma_inserted_sorted(rest, last);
            lemma_inserted_members(rest, last);
        }
        assert forall|k: int| 0 <= k < out.len() implies raw.contains(#[trigger] out[k]) && keeps(
            out[k],
            globs,
        ) by {
            if keeps(last, globs) && out[k] == last {
                assert(raw[raw.len() - 1] == last);
            } else {
                let at = choose|at: int| 0 <= at < rest.len() && rest[at] == out[k];
                let m = choose|m: int| 0 <= m < shorter.len() && shorter[m] == rest[at];
                assert(raw[m] == out[k]);
            }
        }
        assert forall|m: int| 0 <= m < raw.len() && keeps(#[trigger] raw[m], globs) implies exists|
            k: int,
        |
            0 <= k < out.len() && (#[trigger] out[k]).path == raw[m].path by {
            if m < shorter.len() {
                assert(shorter[m] == raw[m]);
                let k0 = choose|k: int|
                    0 <= k < rest.len() && (#[trigger] rest[k]).path == shorter[m].path;
                if keeps(last, globs) {
                    assert(out.contains(rest[k0]));
                    let k = choose|k: int| 0 <= k < out.len() && out[k] == rest[k0];
                    assert(out[k].path == raw[m].path);
                } else {
                    assert(out[k0].path == raw[m].path);
                }
            } else {
                let k = choose|k: int| 0 <= k < out.len() && (#[trigger] out[k]).path == last.path;
                assert(out[k].path == raw[m].path);
            }
        }
    }
}

/// A record whose path the inventory does not hold stands in it once
/// inserted.
pub proof fn lemma_inserted_new(inv: Seq<RecordView>, r: RecordView)
    requires
        forall|k: int| 0 <= k < inv.len() ==> (#[trigger] inv[k]).path != r.path,
    ensures
        inserted(inv, r).contains(r),
    decreases inv.len(),
{
    let out = inserted(inv, r);
    if inv.len() == 0 {
        assert(out[0] == r);
    } else if text_before(inv.last().path, r.path) {
        assert(out[out.len() - 1] == r);
    } else {
        assert(inv[inv.len() - 1].path != r.path);
        let shorter = inv.drop_last();
        assert forall|k: int| 0 <= k < shorter.len() implies (#[trigger] shorter[k]).path
            != r.path by {
            assert(shorter[k] == inv[k]);
        }
        lemma_inserted_new(shorter, r);
        let inner = inserted(shorter, r);
        let k = choose|k: int| 0 <= k < inner.len() && inner[k] == r;
        assert(out[k] == r);
    }
}

/// Of the raw records with one path that belong in the inventory, the
/// first is the one that stands in it.
pub proof fn lemma_canonical_keeps_first(raw: Seq<RecordView>, globs: Seq<Seq<TokenView>>, m: int)
    requires
        0 <= m < raw.len(),
        keeps(raw[m], globs),
        forall|k: int| 0 <= k < m && keeps(#[trigger] raw[k], globs) ==> raw[k].path != raw[m].path,
    ensures
        canonical(raw, globs).contains(raw[m]),
    decreases raw.len(),
{
    let shorter = raw.drop_last();
    let rest = canonical(shorter, globs);
    let last = raw.last();
    if m < raw.len() - 1 {
        assert(shorter[m] == raw[m]);
        assert forall|k: int| 0 <= k < m && keeps(#[trigger] shorter[k], globs) implies shorter[k].path
            != shorter[m].path by {
            assert(shorter[k] == raw[k]);
        }
        lemma_canonical_keeps_first(shorter, globs, m);
        if keeps(last, globs) {
            lemma_inserted_members(rest, last);
            let at = choose|at: int| 0 <= at < rest.len() && rest[at] == raw[m];
            assert(inserted(rest, last).contains(rest[at]));
        }
    } else {
        lemma_canonical_sound(shorter, globs);
        assert forall|k: int| 0 <= k < rest.len() implies (#[trigger] rest[k]).path != last.path by {
            assert(shorter.contains(rest[k]));
            let at = choose|at: int| 0 <= at < shorter.len() && shorter[at] == rest[k];
            assert(raw[at] == rest[k]);
        }
        lemma_inserted_new(rest, last);
    }
}

/// Tells whether `name` is a housekeeping name.
pub fn is_housekeeping_name(name: &[char]) -> (r: bool)
    ensures
        r == housekeeping_name(name@),
{
    is_text(name, ".DS_Store") || is_text(name, ".Spotlight-V100") || is_text(name, ".Trashes")
        || is_text(name, ".fseventsd") || is_text(name, "Thumbs.db") || is_text(
        name,
        "desktop.ini",
    ) || is_text(name, ".thumbnails") || is_text(name, ".thumbdata")
}

fn is_dot_name(name: &[char]) -> (r: bool)
    ensures
        r == dot_name(name@),
{
    if name.len() == 1 {
        assert(name@ == seq!['.'] <==> name@[0] == '.') by {
            if name@[0] == '.' {
                assert(name@ =~= seq!['.']);
            }
        }
        name[0] == '.'
    } else if name.len() == 2 {
        assert(name@ == seq!['.', '.'] <==> (name@[0] == '.' && name@[1] == '.')) by {
            if name@[0] == '.' && name@[1] == '.' {
                assert(name@ =~= seq!['.', '.']);
            }
        }
        name[0] == '.' && name[1] == '.'
    } else {
        false
    }
}

/// Tells whether `path` can stand in an inventory and is not excluded.
pub fn is_listable(path: &[char]) -> (r: bool)
    ensures
        r == (valid_path(path@) && !is_excluded(path@)),
{
    if path.len() == 0 {
        return false;
    }
    let parts = split(path, Separator::Char('/'));
    let ghost cs = components(path@);
    let mut k: usize = 0;
    while k < parts.len()
        invariant
            k <= parts.len(),
            cs == components(path@),
            views(parts@) == cs,
            forall|j: int| 0 <= j < k ==> !dot_name(#[trigger] cs[j]),
            forall|j: int| 0 <= j < k ==> !housekeeping_name(#[trigger] cs[j]),
        decreases parts.len() - k,
    {
        assert(cs[k as int] == parts@[k as int]@);
        if is_dot_name(parts[k].as_slice()) || is_housekeeping_name(parts[k].as_slice()) {
            return false;
        }
        k += 1;
    }
    true
}

/// Tells whether the record belongs in the inventory that `patterns`
/// ask for.
pub fn belongs(record: &FileRecord, patterns: &PatternSet) -> (r: bool)
    ensures
        r == keeps(record@, patterns@),
{
    let path = to_chars(record.relative_path.as_str());
    is_listable(path.as_slice()) && (record.is_directory || patterns.matches(path.as_slice()))
}

/// The inventory of one side: records in strictly ascending order of
/// their paths.
pub struct Inventory {
    entries: Vec<Entry>,
}

impl View for Inventory {
    type V = Seq<RecordView>;

    closed spec fn view(&self) -> Seq<RecordView> {
        entry_views(self.entries@)
    }
}

impl Inventory {
    /// The records stand in strictly ascending order of their paths.
    pub open spec fn wf(&self) -> bool {
        sorted_by_path(self@)
    }

    /// The inventory without records.
    pub fn new() -> (r: Inventory)
        ensures
            r@ == Seq::<RecordView>::empty(),
            r.wf(),
    {
        let r = Inventory { entries: Vec::new() };
        r
    }

    /// The number of records.
    pub fn len(&self) -> (n: usize)
        ensures
            n == self@.len(),
    {
        self.entries.len()
    }

    /// The entries, in order.
    pub fn entries(&self) -> (r: &Vec<Entry>)
        ensures
            entry_views(r@) == self@,
    {
        &self.entries
    }

    /// The record at place `i`.
    pub fn record(&self, i: usize) -> (r: FileRecord)
        requires
            i < self@.len(),
        ensures
            r@ == self@[i as int],
    {
        let e = &self.entries[i];
        FileRecord {
            relative_path: from_chars(e.path.as_slice()),
            size: e.size,
            modified_time: e.modified_time,
            is_directory: e.is_directory,
            content_hash: e.content_hash,
        }
    }

    /// The records, in order.
    pub fn records(&self) -> (out: Vec<FileRecord>)
        ensures
            record_views(out@) == self@,
    {
        let mut out: Vec<FileRecord> = Vec::new();
        let mut i: usize = 0;
        while i < self.entries.len()
            invariant
                i <= self.entries.len(),
                out.len() == i,
                forall|k: int| 0 <= k < i ==> out@[k]@ == self@[k],
            decreases self.entries.len() - i,
        {
            out.push(self.record(i));
            i += 1;
        }
        out
    }

    /// The place of the record with the path `path`, if there is one.
    pub fn find(&self, path: &str) -> (r: Option<usize>)
        ensures
            match r {
                Some(i) => i < self@.len() && self@[i as int].path == path@,
                None => forall|k: int| 0 <= k < self@.len() ==> (#[trigger] self@[k]).path != path@,
            },
    {
        let p = to_chars(path);
        let mut i: usize = 0;
        while i < self.entries.len()
            invariant
                i <= self.entries.len(),
                p@ == path@,
                forall|k: int| 0 <= k < i ==> (#[trigger] self@[k]).path != path@,
            decreases self.entries.len() - i,
        {
            match place(self.entries[i].path.as_slice(), p.as_slice()) {
                Place::Same => {
                    return Some(i);
                },
                _ => {},
            }
            i += 1;
        }
        None
    }

    /// Puts `record` at the place that the order of paths gives it, unless
    /// a record of its path is there already.
    pub fn insert(&mut self, record: &FileRecord)
        requires
            old(self).wf(),
        ensures
            final(self)@ == inserted(old(self)@, record@),
            final(self).wf(),
    {
        let key = to_chars(record.relative_path.as_str());
        let ghost inv = self@;
        let ghost r = record@;
        let mut k: usize = self.entries.len();
        let mut placed: bool = false;
        while k > 0 && !placed
            invariant
                k <= self.entries.len(),
                inv == self@,
                inv == old(self)@,
                sorted_by_path(inv),
                inv == entry_views(self.entries@),
                key@ == r.path,
                r == record@,
                forall|j: int| k <= j < inv.len() ==> text_before(r.path, #[trigger] inv[j].path),
                placed ==> k > 0 && text_before(inv[k - 1].path, r.path),
            decreases
                    k,
                    if placed {
                        0int
                    } else {
                        1int
                    },
        {
            match place(self.entries[k - 1].path.as_slice(), key.as_slice()) {
                Place::Before => {
                    placed = true;
                },
                Place::Same => {
                    proof {
                        lemma_inserted_present(inv, r, k as int);
                    }
                    return ;
                },
                Place::After => {
                    k -= 1;
                },
            }
        }
        proof {
            lemma_inserted_at(inv, r, k as int);
            lemma_insert_keeps_sorted(inv, r, k as int);
        }
        let entry = Entry {
            path: key,
            size: record.size,
            modified_time: record.modified_time,
            is_directory: record.is_directory,
            content_hash: record.content_hash,
        };
        self.entries.insert(k, entry);
        assert(self@ =~= inv.insert(k as int, r));
    }

    /// The inventory of the raw records `raw` under `patterns`. The raw
    /// records may come from several listings, one after the other: of
    /// those with one path the first stays.
    pub fn build(raw: &Vec<FileRecord>, patterns: &PatternSet) -> (inv: Inventory)
        ensures
            inv@ == canonical(record_views(raw@), patterns@),
            inv.wf(),
    {
        let mut inv = Inventory::new();
        let mut i: usize = 0;
        while i < raw.len()
            invariant
                i <= raw.len(),
                inv.wf(),
                inv@ == canonical(record_views(raw@).take(i as int), patterns@),
            decreases raw.len() - i,
        {
            let ghost done = record_views(raw@).take(i as int);
            let ghost next = record_views(raw@).take(i + 1);
            assert(next.drop_last() =~= done);
            let record = &raw[i];
            if belongs(record, patterns) {
                inv.insert(record);
            }
            i += 1;
        }
        assert(record_views(raw@).take(raw@.len() as int) =~= record_views(raw@));
        inv
    }
}

} // verus!
