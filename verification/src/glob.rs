//! Glob patterns over root-relative paths.
//!
//! A pattern is read into tokens once and matched against whole paths.
//! Matching is case-sensitive.

use crate::text::to_chars;
use vstd::prelude::*;

verus! {

/// One element of a pattern.
#[derive(Debug)]
pub enum GlobToken {
    /// A character that stands for itself.
    Literal(char),
    /// `?`: any one character but the separator.
    AnyChar,
    /// `*`: any run of characters without a separator.
    AnySegment,
    /// `**/`: nothing, or any run of characters that ends in a separator;
    /// so any number of directories.
    AnyDirs,
    /// `**` elsewhere: any run of characters.
    AnyPath,
    /// `[..]` or `[!..]`: one character but the separator that is, or is
    /// not, within one of the ranges.
    Class { negated: bool, ranges: Vec<(char, char)> },
}

/// A `GlobToken` as plain values.
pub enum TokenView {
    Literal(char),
    AnyChar,
    AnySegment,
    AnyDirs,
    AnyPath,
    Class { negated: bool, ranges: Seq<(char, char)> },
}

impl View for GlobToken {
    type V = TokenView;

    open spec fn view(&self) -> TokenView {
        match self {
            GlobToken::Literal(c) => TokenView::Literal(*c),
            GlobToken::AnyChar => TokenView::AnyChar,
            GlobToken::AnySegment => TokenView::AnySegment,
            GlobToken::AnyDirs => TokenView::AnyDirs,
            GlobToken::AnyPath => TokenView::AnyPath,
            GlobToken::Class { negated, ranges } => TokenView::Class {
                negated: *negated,
                ranges: ranges@,
            },
        }
    }
}

/// The views of a sequence of tokens.
pub open spec fn token_views(v: Seq<GlobToken>) -> Seq<TokenView> {
    Seq::new(v.len(), |i: int| v[i]@)
}

/// Why a pattern cannot be read.
#[derive(Clone, Copy, Debug, PartialEq, Eq, Structural)]
pub enum PatternError {
    /// A `[` at this position has no `]` after it.
    UnclosedClass { at: usize },
}

/// `c` is one of the characters that make a pattern more than a plain
/// path: `*`, `?` and `[`.
pub open spec fn is_glob_meta(c: char) -> bool {
    c == '*' || c == '?' || c == '['
}

/// Tells whether `c` is one of `*`, `?` and `[`.
pub fn is_meta(c: char) -> (r: bool)
    ensures
        r == is_glob_meta(c),
{
    c == '*' || c == '?' || c == '['
}

/// The position of the first `]` in `s` at or after `from`; `s.len()`
/// where there is none.
pub open spec fn find_close(s: Seq<char>, from: int) -> int
    decreases s.len() - from,
{
    if from >= s.len() {
        s.len() as int
    } else if s[from] == ']' {
        from
    } else {
        find_close(s, from + 1)
    }
}

/// The ranges that the inside of a class, from `from` up to `to`, lists:
/// `a-z` is the range from `a` to `z`, any other character is a range of
/// its own.
pub open spec fn class_ranges(s: Seq<char>, from: int, to: int) -> Seq<(char, char)>
    decreases to - from,
{
    if from >= to {
        Seq::empty()
    } else if from + 2 < to && s[from + 1] == '-' {
        seq![(s[from], s[from + 2])] + class_ranges(s, from + 3, to)
    } else {
        seq![(s[from], s[from])] + class_ranges(s, from + 1, to)
    }
}

/// `t` before the tokens `rest`, where there are any.
pub open spec fn prepend(t: TokenView, rest: Option<Seq<TokenView>>) -> Option<Seq<TokenView>> {
    match rest {
        Some(r) => Some(seq![t] + r),
        None => None,
    }
}

/// The tokens `done` before the tokens `rest`, where there are any.
pub open spec fn after(done: Seq<TokenView>, rest: Option<Seq<TokenView>>) -> Option<
    Seq<TokenView>,
> {
    match rest {
        Some(r) => Some(done + r),
        None => None,
    }
}

/// The tokens of the pattern `s` from position `at` on, or `None` where a
/// class is not closed.
pub open spec fn parse_from(s: Seq<char>, at: int) -> Option<Seq<TokenView>>
    decreases s.len() - at,
{
    if at >= s.len() {
        Some(Seq::empty())
    } else if s[at] == '?' {
        prepend(TokenView::AnyChar, parse_from(s, at + 1))
    } else if s[at] == '*' {
        if at + 1 < s.len() && s[at + 1] == '*' {
            if at + 2 < s.len() && s[at + 2] == '/' {
                prepend(TokenView::AnyDirs, parse_from(s, at + 3))
            } else {
                prepend(TokenView::AnyPath, parse_from(s, at + 2))
            }
        } else {
            prepend(TokenView::AnySegment, parse_from(s, at + 1))
        }
    } else if s[at] == '[' {
        let negated = at + 1 < s.len() && s[at + 1] == '!';
        let start = if negated {
            at + 2
        } else {
            at + 1
        };
        let close = find_close(s, start);
        if start <= close < s.len() {
            prepend(
                TokenView::Class { negated, ranges: class_ranges(s, start, close) },
                parse_from(s, close + 1),
            )
        } else {
            None
        }
    } else {
        prepend(TokenView::Literal(s[at]), parse_from(s, at + 1))
    }
}

/// The tokens of the pattern `s`.
pub open spec fn parsed_glob(s: Seq<char>) -> Option<Seq<TokenView>> {
    parse_from(s, 0)
}

/// `c` lies within one of `ranges`.
pub open spec fn in_ranges(ranges: Seq<(char, char)>, c: char) -> bool {
    exists|k: int| 0 <= k < ranges.len() && (#[trigger] ranges[k]).0 <= c <= ranges[k].1
}

/// The token `t` stands for the whole of `piece`.
pub open spec fn token_accepts(t: TokenView, piece: Seq<char>) -> bool {
    match t {
        TokenView::Literal(c) => piece == seq![c],
        TokenView::AnyChar => piece.len() == 1 && piece[0] != '/',
        TokenView::Class { negated, ranges } => piece.len() == 1 && piece[0] != '/' && (in_ranges(
            ranges,
            piece[0],
        ) != negated),
        TokenView::AnySegment => !piece.contains('/'),
        TokenView::AnyDirs => piece.len() == 0 || piece.last() == '/',
        TokenView::AnyPath => true,
    }
}

/// The tokens from `ti` on stand for what is left of `path` from `pi` on:
/// the path can be cut into one piece for each token.
pub open spec fn matches_from(ts: Seq<TokenView>, path: Seq<char>, ti: int, pi: int) -> bool
    decreases ts.len() - ti,
{
    if ti >= ts.len() {
        pi == path.len()
    } else {
        exists|e: int|
            pi <= e <= path.len() && #[trigger] token_accepts(ts[ti], path.subrange(pi, e))
                && matches_from(ts, path, ti + 1, e)
    }
}

/// The pattern with the tokens `ts` matches the whole of `path`.
pub open spec fn glob_matches(ts: Seq<TokenView>, path: Seq<char>) -> bool {
    matches_from(ts, path, 0, 0)
}

/// The token `t` stands for the one character `c`.
pub open spec fn accepts_char(t: TokenView, c: char) -> bool {
    token_accepts(t, seq![c])
}

/// `t` stands for exactly one character at a time.
pub open spec fn single(t: TokenView) -> bool {
    t is Literal || t is AnyChar || t is Class
}

/// Past a separator after `pi` the rest of the tokens match: what a
/// token for any number of directories needs where it takes some.
pub open spec fn dirs_reach(ts: Seq<TokenView>, path: Seq<char>, ti: int, pi: int) -> bool {
    exists|e: int|
        pi < e <= path.len() && path[e - 1] == '/' && #[trigger] matches_from(ts, path, ti + 1, e)
}

proof fn lemma_single(ts: Seq<TokenView>, path: Seq<char>, ti: int, pi: int)
    requires
        0 <= ti < ts.len(),
        0 <= pi <= path.len(),
        single(ts[ti]),
    ensures
        matches_from(ts, path, ti, pi) == (pi < path.len() && accepts_char(ts[ti], path[pi])
            && matches_from(ts, path, ti + 1, pi + 1)),
{
    if matches_from(ts, path, ti, pi) {
        let e = choose|e: int|
            pi <= e <= path.len() && #[trigger] token_accepts(ts[ti], path.subrange(pi, e))
                && matches_from(ts, path, ti + 1, e);
        assert(path.subrange(pi, e) == seq![path[pi]]);
    }
    if pi < path.len() && accepts_char(ts[ti], path[pi]) && matches_from(ts, path, ti + 1, pi + 1) {
        assert(path.subrange(pi, pi + 1) == seq![path[pi]]);
    }
}

proof fn lemma_any_path(ts: Seq<TokenView>, path: Seq<char>, ti: int, pi: int)
    requires
        0 <= ti < ts.len(),
        0 <= pi <= path.len(),
        ts[ti] is AnyPath,
    ensures
        matches_from(ts, path, ti, pi) == (matches_from(ts, path, ti + 1, pi) || (pi < path.len()
            && matches_from(ts, path, ti, pi + 1))),
{
    if matches_from(ts, path, ti, pi) {
        let e = choose|e: int|
            pi <= e <= path.len() && #[trigger] token_accepts(ts[ti], path.subrange(pi, e))
                && matches_from(ts, path, ti + 1, e);
        if e > pi {
            assert(token_accepts(ts[ti], path.subrange(pi + 1, e)));
        }
    }
    if matches_from(ts, path, ti + 1, pi) {
        assert(token_accepts(ts[ti], path.subrange(pi, pi)));
    }
    if pi < path.len() && matches_from(ts, path, ti, pi + 1) {
        let e = choose|e: int|
            pi + 1 <= e <= path.len() && #[trigger] token_accepts(
                ts[ti],
                path.subrange(pi + 1, e),
            ) && matches_from(ts, path, ti + 1, e);
        assert(token_accepts(ts[ti], path.subrange(pi, e)));
    }
}

proof fn lemma_any_segment(ts: Seq<TokenView>, path: Seq<char>, ti: int, pi: int)
    requires
        0 <= ti < ts.len(),
        0 <= pi <= path.len(),
        ts[ti] is AnySegment,
    ensures
        matches_from(ts, path, ti, pi) == (matches_from(ts, path, ti + 1, pi) || (pi < path.len()
            && path[pi] != '/' && matches_from(ts, path, ti, pi + 1))),
{
    if matches_from(ts, path, ti, pi) {
        let e = choose|e: int|
            pi <= e <= path.len() && #[trigger] token_accepts(ts[ti], path.subrange(pi, e))
                && matches_from(ts, path, ti + 1, e);
        if e > pi {
            let piece = path.subrange(pi, e);
            let rest = path.subrange(pi + 1, e);
            assert(piece[0] == path[pi]);
            if rest.contains('/') {
                let k = choose|k: int| 0 <= k < rest.len() && rest[k] == '/';
                assert(piece[k + 1] == '/');
            }
            assert(token_accepts(ts[ti], rest));
        }
    }
    if matches_from(ts, path, ti + 1, pi) {
        assert(token_accepts(ts[ti], path.subrange(pi, pi)));
    }
    if pi < path.len() && path[pi] != '/' && matches_from(ts, path, ti, pi + 1) {
        let e = choose|e: int|
            pi + 1 <= e <= path.len() && #[trigger] token_accepts(
                ts[ti],
                path.subrange(pi + 1, e),
            ) && matches_from(ts, path, ti + 1, e);
        let piece = path.subrange(pi, e);
        let rest = path.subrange(pi + 1, e);
        if piece.contains('/') {
            let k = choose|k: int| 0 <= k < piece.len() && piece[k] == '/';
            assert(rest[k - 1] == '/');
        }
        assert(token_accepts(ts[ti], piece));
    }
}

proof fn lemma_any_dirs(ts: Seq<TokenView>, path: Seq<char>, ti: int, pi: int)
    requires
        0 <= ti < ts.len(),
        0 <= pi <= path.len(),
        ts[ti] is AnyDirs,
    ensures
        matches_from(ts, path, ti, pi) == (matches_from(ts, path, ti + 1, pi) || dirs_reach(
            ts,
            path,
            ti,
            pi,
        )),
        dirs_reach(ts, path, ti, pi) == (pi < path.len() && ((path[pi] == '/' && matches_from(
            ts,
            path,
            ti + 1,
            pi + 1,
        )) || dirs_reach(ts, path, ti, pi + 1))),
{
    if matches_from(ts, path, ti, pi) {
        let e = choose|e: int|
            pi <= e <= path.len() && #[trigger] token_accepts(ts[ti], path.subrange(pi, e))
                && matches_from(ts, path, ti + 1, e);
    }
    if matches_from(ts, path, ti + 1, pi) {
        assert(token_accepts(ts[ti], path.subrange(pi, pi)));
    }
    if dirs_reach(ts, path, ti, pi) {
        let e = choose|e: int|
            pi < e <= path.len() && path[e - 1] == '/' && #[trigger] matches_from(
                ts,
                path,
                ti + 1,
                e,
            );
        assert(token_accepts(ts[ti], path.subrange(pi, e)));
    }
}

fn in_class(ranges: &Vec<(char, char)>, c: char) -> (r: bool)
    ensures
        r == in_ranges(ranges@, c),
{
    let mut k: usize = 0;
    while k < ranges.len()
        invariant
            k <= ranges.len(),
            forall|j: int| 0 <= j < k ==> !((#[trigger] ranges@[j]).0 <= c <= ranges@[j].1),
        decreases ranges.len() - k,
    {
        if ranges[k].0 <= c && c <= ranges[k].1 {
            return true;
        }
        k += 1;
    }
    false
}

fn token_takes(t: &GlobToken, c: char) -> (r: bool)
    requires
        single(t@),
    ensures
        r == accepts_char(t@, c),
{
    match t {
        GlobToken::Literal(x) => {
            assert((seq![c] == seq![*x]) == (c == *x)) by {
                if seq![c] == seq![*x] {
                    assert(seq![c][0] == seq![*x][0]);
                }
            }
            c == *x
        },
        GlobToken::AnyChar => c != '/',
        GlobToken::Class { negated, ranges } => c != '/' && (in_class(ranges, c) != *negated),
        _ => false,
    }
}

/// Tells whether the pattern with the given tokens matches the whole of
/// `path`.
pub fn glob_match(tokens: &[GlobToken], path: &[char]) -> (r: bool)
    ensures
        r == glob_matches(token_views(tokens@), path@),
{
    let ghost ts = token_views(tokens@);
    let n = path.len();
    let mut row: Vec<bool> = Vec::new();
    let mut k: usize = 0;
    while k < n
        invariant
            k <= n,
            n == path.len(),
            ts.len() == tokens.len(),
            row.len() == k,
            forall|q: int| 0 <= q < k ==> row@[q] == matches_from(ts, path@, ts.len() as int, q),
        decreases n - k,
    {
        row.push(false);
        k += 1;
    }
    let mut end: bool = true;
    let mut ti: usize = tokens.len();
    while ti > 0
        invariant
            ti <= tokens.len(),
            n == path.len(),
            row.len() == n,
            ts == token_views(tokens@),
            forall|q: int| 0 <= q < n ==> row@[q] == matches_from(ts, path@, ti as int, q),
            end == matches_from(ts, path@, ti as int, n as int),
        decreases ti,
    {
        let t = &tokens[ti - 1];
        let is_single = match t {
            GlobToken::Literal(_) => true,
            GlobToken::AnyChar => true,
            GlobToken::Class { .. } => true,
            _ => false,
        };
        let is_dirs = match t {
            GlobToken::AnyDirs => true,
            _ => false,
        };
        let is_segment = match t {
            GlobToken::AnySegment => true,
            _ => false,
        };
        // The values at the position to the right: of the row as it was,
        // of the row as it becomes, and whether a separator further right
        // is followed by a match of the row as it was.
        let mut right_was: bool = end;
        let new_end: bool = if is_single {
            false
        } else {
            end
        };
        let mut right_now: bool = new_end;
        let mut right_reach: bool = false;
        proof {
            if is_single {
                lemma_single(ts, path@, ti - 1, n as int);
            } else if is_dirs {
                lemma_any_dirs(ts, path@, ti - 1, n as int);
            } else if is_segment {
                lemma_any_segment(ts, path@, ti - 1, n as int);
            } else {
                lemma_any_path(ts, path@, ti - 1, n as int);
            }
        }
        let mut pi: usize = n;
        while pi > 0
            invariant
                pi <= n,
                0 < ti <= tokens.len(),
                n == path.len(),
                row.len() == n,
                ts == token_views(tokens@),
                ts[ti - 1] == t@,
                is_single == single(t@),
                is_dirs == (t@ is AnyDirs),
                is_segment == (t@ is AnySegment),
                !is_single && !is_dirs && !is_segment ==> t@ is AnyPath,
                forall|q: int| 0 <= q < pi ==> row@[q] == matches_from(ts, path@, ti as int, q),
                forall|q: int| pi <= q < n ==> row@[q] == matches_from(ts, path@, ti - 1, q),
                right_was == matches_from(ts, path@, ti as int, pi as int),
                right_now == matches_from(ts, path@, ti - 1, pi as int),
                is_dirs ==> right_reach == dirs_reach(ts, path@, ti - 1, pi as int),
                new_end == matches_from(ts, path@, ti - 1, n as int),
            decreases pi,
        {
            pi -= 1;
            let c = path[pi];
            let was = row[pi];
            let now: bool;
            proof {
                if is_single {
                    lemma_single(ts, path@, ti - 1, pi as int);
                } else if is_dirs {
                    lemma_any_dirs(ts, path@, ti - 1, pi as int);
                } else if is_segment {
                    lemma_any_segment(ts, path@, ti - 1, pi as int);
                } else {
                    lemma_any_path(ts, path@, ti - 1, pi as int);
                }
            }
            if is_single {
                now = token_takes(t, c) && right_was;
            } else if is_dirs {
                right_reach = (c == '/' && right_was) || right_reach;
                now = was || right_reach;
            } else if is_segment {
                now = was || (c != '/' && right_now);
            } else {
                now = was || right_now;
            }
            row.set(pi, now);
            right_was = was;
            right_now = now;
        }
        end = new_end;
        ti -= 1;
    }
    if n == 0 {
        end
    } else {
        row[0]
    }
}

proof fn lemma_after_push(done: Seq<TokenView>, t: TokenView, rest: Option<Seq<TokenView>>)
    ensures
        after(done, prepend(t, rest)) == after(done.push(t), rest),
{
}

fn close_of(s: &[char], from: usize) -> (r: usize)
    requires
        from <= s.len(),
    ensures
        r as int == find_close(s@, from as int),
        from <= r <= s.len(),
{
    let mut k: usize = from;
    while k < s.len() && s[k] != ']'
        invariant
            from <= k <= s.len(),
            find_close(s@, from as int) == find_close(s@, k as int),
        decreases s.len() - k,
    {
        k += 1;
    }
    k
}

fn ranges_of(s: &[char], from: usize, to: usize) -> (r: Vec<(char, char)>)
    requires
        from <= to <= s.len(),
    ensures
        r@ == class_ranges(s@, from as int, to as int),
{
    let mut out: Vec<(char, char)> = Vec::new();
    let mut k: usize = from;
    while k < to
        invariant
            from <= k <= to <= s.len(),
            out@ + class_ranges(s@, k as int, to as int) == class_ranges(
                s@,
                from as int,
                to as int,
            ),
        decreases to - k,
    {
        if to - k > 2 && s[k + 1] == '-' {
            out.push((s[k], s[k + 2]));
            k += 3;
        } else {
            out.push((s[k], s[k]));
            k += 1;
        }
    }
    out
}

/// Reads the token that begins at `at`, and tells where the next one
/// begins.
fn read_token(s: &[char], at: usize) -> (r: Option<(GlobToken, usize)>)
    requires
        at < s.len(),
    ensures
        match r {
            Some((token, next)) => at < next <= s.len() && parse_from(s@, at as int) == prepend(
                token@,
                parse_from(s@, next as int),
            ),
            None => parse_from(s@, at as int) is None,
        },
{
    let c = s[at];
    if c == '?' {
        Some((GlobToken::AnyChar, at + 1))
    } else if c == '*' {
        if s.len() - at > 1 && s[at + 1] == '*' {
            if s.len() - at > 2 && s[at + 2] == '/' {
                Some((GlobToken::AnyDirs, at + 3))
            } else {
                Some((GlobToken::AnyPath, at + 2))
            }
        } else {
            Some((GlobToken::AnySegment, at + 1))
        }
    } else if c == '[' {
        let negated = s.len() - at > 1 && s[at + 1] == '!';
        let start: usize = if negated {
            at + 2
        } else {
            at + 1
        };
        let close = close_of(s, start);
        if close >= s.len() {
            None
        } else {
            Some((GlobToken::Class { negated, ranges: ranges_of(s, start, close) }, close + 1))
        }
    } else {
        Some((GlobToken::Literal(c), at + 1))
    }
}

/// Reads the pattern held in `s` into tokens.
pub fn parse_glob_chars(s: &[char]) -> (r: Result<Vec<GlobToken>, PatternError>)
    ensures
        match r {
            Ok(ts) => parsed_glob(s@) == Some(token_views(ts@)),
            Err(_) => parsed_glob(s@) is None,
        },
{
    let mut tokens: Vec<GlobToken> = Vec::new();
    let mut at: usize = 0;
    while at < s.len()
        invariant
            at <= s.len(),
            parsed_glob(s@) == after(token_views(tokens@), parse_from(s@, at as int)),
        decreases s.len() - at,
    {
        let ghost done = token_views(tokens@);
        match read_token(s, at) {
            None => {
                return Err(PatternError::UnclosedClass { at });
            },
            Some((token, next)) => {
                let ghost tv = token@;
                tokens.push(token);
                proof {
                    lemma_after_push(done, tv, parse_from(s@, next as int));
                }
                at = next;
            },
        }
    }
    Ok(tokens)
}

/// Reads a pattern into tokens.
pub fn parse_glob(pattern: &str) -> (r: Result<Vec<GlobToken>, PatternError>)
    ensures
        match r {
            Ok(ts) => parsed_glob(pattern@) == Some(token_views(ts@)),
            Err(_) => parsed_glob(pattern@) is None,
        },
{
    let s = to_chars(pattern);
    parse_glob_chars(s.as_slice())
}

} // verus!
