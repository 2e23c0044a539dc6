//! Which directories have to be listed so that every path that a set of
//! patterns can match is seen.

use crate::glob::{is_glob_meta, is_meta};
use crate::text::{copy_range, find_last, from_chars, last_index_of, same_text, texts, to_chars, views};
use vstd::prelude::*;

verus! {

/// The position of the first of `*`, `?` and `[` in `s` at or after
/// `from`; `s.len()` where there is none.
pub open spec fn first_meta(s: Seq<char>, from: int) -> int
    decreases s.len() - from,
{
    if from >= s.len() {
        s.len() as int
    } else if is_glob_meta(s[from]) {
        from
    } else {
        first_meta(s, from + 1)
    }
}

/// What stands before the last separator of `s`; nothing where `s` holds
/// none.
pub open spec fn before_last_separator(s: Seq<char>) -> Seq<char> {
    let k = last_index_of(s, '/');
    if k < 0 {
        Seq::empty()
    } else {
        s.take(k)
    }
}

/// The directory that a pattern implies: of the part before its first
/// glob character, what stands before the last separator. The empty
/// directory is the root itself.
pub open spec fn implied_dir(pattern: Seq<char>) -> Seq<char> {
    before_last_separator(pattern.take(first_meta(pattern, 0)))
}

/// The directories that the patterns imply, each in its place.
pub open spec fn implied_dirs(patterns: Seq<Seq<char>>) -> Seq<Seq<char>> {
    Seq::new(patterns.len(), |i: int| implied_dir(patterns[i]))
}

/// `d` lies beneath `a`: `a` is the root and `d` is not, or `d` begins
/// with `a` and a separator.
pub open spec fn is_beneath(d: Seq<char>, a: Seq<char>) -> bool {
    if a.len() == 0 {
        d.len() > 0
    } else {
        d.len() > a.len() && d.take(a.len() as int) == a && d[a.len() as int] == '/'
    }
}

/// Listing `a` shows all that listing `d` would show.
pub open spec fn covers(a: Seq<char>, d: Seq<char>) -> bool {
    a == d || is_beneath(d, a)
}

/// The directory at `i` is one to list: it lies beneath no other of
/// `dirs`, and stands at no earlier place.
pub open spec fn is_scan_root(dirs: Seq<Seq<char>>, i: int) -> bool {
    &&& forall|j: int| 0 <= j < dirs.len() ==> !is_beneath(dirs[i], #[trigger] dirs[j])
    &&& forall|j: int| 0 <= j < i ==> #[trigger] dirs[j] != dirs[i]
}

/// Of the first `upto` of `dirs`, those to list, in order.
pub open spec fn selected_roots(dirs: Seq<Seq<char>>, upto: int) -> Seq<Seq<char>>
    decreases upto,
{
    if upto <= 0 {
        Seq::empty()
    } else if is_scan_root(dirs, upto - 1) {
        selected_roots(dirs, upto - 1).push(dirs[upto - 1])
    } else {
        selected_roots(dirs, upto - 1)
    }
}

/// The directories to list for a set of canonical patterns, relative to
/// the root: the implied directories without repetitions and without
/// those that lie beneath another. No patterns at all ask for the root.
pub open spec fn scan_roots(patterns: Seq<Seq<char>>) -> Seq<Seq<char>> {
    if patterns.len() == 0 {
        seq![Seq::empty()]
    } else {
        selected_roots(implied_dirs(patterns), patterns.len() as int)
    }
}

/// Every one of `dirs` is covered by one of the directories to list.
pub proof fn lemma_roots_cover(dirs: Seq<Seq<char>>, i: int)
    requires
        0 <= i < dirs.len(),
    ensures
        exists|k: int|
            0 <= k < dirs.len() && is_scan_root(dirs, k) && covers(#[trigger] dirs[k], dirs[i]),
    decreases dirs[i].len(), i,
{
    if is_scan_root(dirs, i) {
        // The directory covers itself.
    } else if exists|j: int| 0 <= j < dirs.len() && is_beneath(dirs[i], #[trigger] dirs[j]) {
        // It lies beneath another, which is shorter, and what covers that one covers it.
        let j = choose|j: int| 0 <= j < dirs.len() && is_beneath(dirs[i], #[trigger] dirs[j]);
        lemma_roots_cover(dirs, j);
        let k = choose|k: int|
            0 <= k < dirs.len() && is_scan_root(dirs, k) && covers(#[trigger] dirs[k], dirs[j]);
        lemma_beneath_transitive(dirs[i], dirs[j], dirs[k]);
    } else {
        // It stands at an earlier place as well.
        let j = choose|j: int| 0 <= j < i && #[trigger] dirs[j] == dirs[i];
        lemma_roots_cover(dirs, j);
    }
}

/// What lies beneath a directory lies beneath all that cover it.
pub proof fn lemma_beneath_transitive(d: Seq<char>, a: Seq<char>, b: Seq<char>)
    requires
        is_beneath(d, a),
        covers(b, a),
    ensures
        is_beneath(d, b),
{
    if b != a && b.len() > 0 {
        assert(d.take(b.len() as int) == a.take(b.len() as int));
    }
}

/// A directory to list is in `selected_roots`, and all in it are
/// directories to list.
pub proof fn lemma_selected(dirs: Seq<Seq<char>>, upto: int)
    requires
        0 <= upto <= dirs.len(),
    ensures
        forall|k: int|
            0 <= k < upto && is_scan_root(dirs, k) ==> selected_roots(dirs, upto).contains(
                #[trigger] dirs[k],
            ),
        forall|r: Seq<char>| #[trigger]
            selected_roots(dirs, upto).contains(r) ==> exists|k: int|
                0 <= k < upto && is_scan_root(dirs, k) && #[trigger] dirs[k] == r,
    decreases upto,
{
    if upto > 0 {
        lemma_selected(dirs, upto - 1);
        let rest = selected_roots(dirs, upto - 1);
        let all = selected_roots(dirs, upto);
        if is_scan_root(dirs, upto - 1) {
            assert(all.last() == dirs[upto - 1]);
            assert forall|k: int| 0 <= k < upto && is_scan_root(dirs, k) implies all.contains(
                #[trigger] dirs[k],
            ) by {
                if k < upto - 1 {
                    let at = choose|at: int| 0 <= at < rest.len() && rest[at] == dirs[k];
                    assert(all[at] == dirs[k]);
                }
            }
            assert forall|r: Seq<char>| #[trigger] all.contains(r) implies exists|k: int|
                0 <= k < upto && is_scan_root(dirs, k) && #[trigger] dirs[k] == r by {
                let at = choose|at: int| 0 <= at < all.len() && all[at] == r;
                if at < rest.len() {
                    assert(rest.contains(r));
                }
            }
        }
    }
}

/// Tells whether `d` lies beneath `a`.
pub fn lies_beneath(d: &[char], a: &[char]) -> (r: bool)
    ensures
        r == is_beneath(d@, a@),
{
    if a.len() == 0 {
        return d.len() > 0;
    }
    if d.len() <= a.len() {
        return false;
    }
    let head = copy_range(d, 0, a.len());
    same_text(head.as_slice(), a) && d[a.len()] == '/'
}

/// The directory that a canonical pattern implies.
pub fn implied_dir_of(pattern: &[char]) -> (r: Vec<char>)
    ensures
        r@ == implied_dir(pattern@),
{
    let mut m: usize = 0;
    while m < pattern.len() && !is_meta(pattern[m])
        invariant
            m <= pattern.len(),
            first_meta(pattern@, 0) == first_meta(pattern@, m as int),
        decreases pattern.len() - m,
    {
        m += 1;
    }
    let prefix = copy_range(pattern, 0, m);
    match find_last(prefix.as_slice(), '/') {
        Some(k) => copy_range(prefix.as_slice(), 0, k),
        None => Vec::new(),
    }
}

fn is_root_at(dirs: &Vec<Vec<char>>, i: usize) -> (r: bool)
    requires
        i < dirs.len(),
    ensures
        r == is_scan_root(views(dirs@), i as int),
{
    let ghost ds = views(dirs@);
    let mut j: usize = 0;
    while j < dirs.len()
        invariant
            j <= dirs.len(),
            i < dirs.len(),
            ds == views(dirs@),
            forall|k: int| 0 <= k < j ==> !is_beneath(ds[i as int], #[trigger] ds[k]),
            forall|k: int| 0 <= k < j && k < i ==> #[trigger] ds[k] != ds[i as int],
        decreases dirs.len() - j,
    {
        assert(ds[j as int] == dirs@[j as int]@);
        if lies_beneath(dirs[i].as_slice(), dirs[j].as_slice()) {
            return false;
        }
        if j < i && same_text(dirs[j].as_slice(), dirs[i].as_slice()) {
            return false;
        }
        j += 1;
    }
    true
}

/// The roots serve the directories: each directory is covered by a root,
/// and no root lies beneath another.
pub open spec fn roots_serve(roots: Seq<Seq<char>>, dirs: Seq<Seq<char>>) -> bool {
    &&& forall|i: int|
        0 <= i < dirs.len() ==> exists|k: int|
            0 <= k < roots.len() && covers(#[trigger] roots[k], #[trigger] dirs[i])
    &&& forall|a: int, b: int|
        0 <= a < roots.len() && 0 <= b < roots.len() ==> !is_beneath(
            #[trigger] roots[a],
            #[trigger] roots[b],
        )
}

/// The directories selected from `dirs` serve them.
pub proof fn lemma_selected_serve(dirs: Seq<Seq<char>>)
    ensures
        roots_serve(selected_roots(dirs, dirs.len() as int), dirs),
{
    let roots = selected_roots(dirs, dirs.len() as int);
    lemma_selected(dirs, dirs.len() as int);
    assert forall|i: int| 0 <= i < dirs.len() implies exists|k: int|
        0 <= k < roots.len() && covers(#[trigger] roots[k], #[trigger] dirs[i]) by {
        lemma_roots_cover(dirs, i);
    }
    assert forall|a: int, b: int| 0 <= a < roots.len() && 0 <= b < roots.len() implies !is_beneath(
        #[trigger] roots[a],
        #[trigger] roots[b],
    ) by {
        assert(roots.contains(roots[a]));
        assert(roots.contains(roots[b]));
    }
}

/// Scan planning is sound: the directories to list for a set of patterns
/// cover every directory that a pattern implies, and none of them lies
/// beneath another.
pub proof fn lemma_scan_roots_serve(patterns: Seq<Seq<char>>)
    ensures
        roots_serve(scan_roots(patterns), implied_dirs(patterns)),
{
    if patterns.len() > 0 {
        lemma_selected_serve(implied_dirs(patterns));
    }
}

fn implied_dirs_of(patterns: &Vec<String>) -> (dirs: Vec<Vec<char>>)
    ensures
        views(dirs@) == implied_dirs(texts(patterns@)),
{
    let mut dirs: Vec<Vec<char>> = Vec::new();
    let mut i: usize = 0;
    while i < patterns.len()
        invariant
            i <= patterns.len(),
            dirs.len() == i,
            forall|k: int| 0 <= k < i ==> dirs@[k]@ == implied_dir(#[trigger] patterns@[k]@),
        decreases patterns.len() - i,
    {
        let p = to_chars(patterns[i].as_str());
        dirs.push(implied_dir_of(p.as_slice()));
        i += 1;
    }
    dirs
}

/// Plans the directories to list for a set of canonical patterns. They
/// are relative to the root, and the empty one is the root itself. Every
/// implied directory is covered by one of them, and none of them lies
/// beneath another.
pub fn plan_scan_roots(patterns: &Vec<String>) -> (out: Vec<String>)
    ensures
        texts(out@) == scan_roots(texts(patterns@)),
        roots_serve(texts(out@), implied_dirs(texts(patterns@))),
{
    proof {
        lemma_scan_roots_serve(texts(patterns@));
    }
    let mut out: Vec<String> = Vec::new();
    if patterns.len() == 0 {
        out.push(String::new());
        return out;
    }
    let dirs = implied_dirs_of(patterns);
    let ghost ds = views(dirs@);
    let mut k: usize = 0;
    while k < dirs.len()
        invariant
            k <= dirs.len(),
            ds == views(dirs@),
            texts(out@) == selected_roots(ds, k as int),
        decreases dirs.len() - k,
    {
        if is_root_at(&dirs, k) {
            out.push(from_chars(dirs[k].as_slice()));
        }
        k += 1;
    }
    out
}

} // verus!
