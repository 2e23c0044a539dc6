//! Inclusion patterns: from what a user writes to canonical globs relative
//! to a root, and the set of globs that an inventory is filtered by.

use crate::glob::{
    glob_match, glob_matches, is_glob_meta, is_meta, parse_glob_chars, parsed_glob, GlobToken,
    PatternError, TokenView, token_views,
};
use crate::text::{
    append_str, copy_range, from_chars, starts_with, strip, stripped, texts, to_chars, Separator,
};
use vstd::prelude::*;

verus! {

/// `s` holds one of the characters `*`, `?` and `[`.
pub open spec fn has_glob_meta(s: Seq<char>) -> bool {
    exists|i: int| 0 <= i < s.len() && is_glob_meta(#[trigger] s[i])
}

/// `pattern` without `root` where it begins with it.
pub open spec fn without_root(pattern: Seq<char>, root: Seq<char>) -> Seq<char> {
    if root.is_prefix_of(pattern) {
        pattern.skip(root.len() as int)
    } else {
        pattern
    }
}

/// The canonical form of one pattern under `root`: without the root it
/// begins with, without separators at either end, and, where that names a
/// plain directory, with `/**/*` after it for all that lies beneath.
pub open spec fn compiled_pattern(pattern: Seq<char>, root: Seq<char>) -> Seq<char> {
    let bare = stripped(without_root(pattern, root), Separator::Char('/'));
    if has_glob_meta(bare) {
        bare
    } else {
        bare + "/**/*"@
    }
}

/// The canonical forms of the patterns under `root`, each in its place.
pub open spec fn compiled_patterns(patterns: Seq<Seq<char>>, root: Seq<char>) -> Seq<Seq<char>> {
    Seq::new(patterns.len(), |i: int| compiled_pattern(patterns[i], root))
}

/// Tells whether `s` holds one of `*`, `?` and `[`.
pub fn holds_meta(s: &[char]) -> (r: bool)
    ensures
        r == has_glob_meta(s@),
{
    let mut i: usize = 0;
    while i < s.len()
        invariant
            i <= s.len(),
            forall|k: int| 0 <= k < i ==> !is_glob_meta(#[trigger] s@[k]),
        decreases s.len() - i,
    {
        if is_meta(s[i]) {
            return true;
        }
        i += 1;
    }
    false
}

/// Brings one pattern into its canonical form under `root`.
pub fn compile_pattern(pattern: &str, root: &str) -> (r: String)
    ensures
        r@ == compiled_pattern(pattern@, root@),
{
    let p = to_chars(pattern);
    let r = to_chars(root);
    let from: usize = if starts_with(p.as_slice(), r.as_slice()) {
        r.len()
    } else {
        0
    };
    let rest = copy_range(p.as_slice(), from, p.len());
    assert(rest@ == without_root(pattern@, root@));
    let mut bare = strip(rest.as_slice(), Separator::Char('/'));
    if !holds_meta(bare.as_slice()) {
        append_str(&mut bare, "/**/*");
    }
    from_chars(bare.as_slice())
}

/// Brings each pattern into its canonical form under `root`. No patterns
/// give none, which matches everything.
pub fn compile_patterns(patterns: &Vec<String>, root: &str) -> (out: Vec<String>)
    ensures
        texts(out@) == compiled_patterns(texts(patterns@), root@),
{
    let mut out: Vec<String> = Vec::new();
    let mut i: usize = 0;
    while i < patterns.len()
        invariant
            i <= patterns.len(),
            out.len() == i,
            forall|k: int| 0 <= k < i ==> out@[k]@ == compiled_pattern(patterns@[k]@, root@),
        decreases patterns.len() - i,
    {
        out.push(compile_pattern(patterns[i].as_str(), root));
        i += 1;
    }
    out
}

/// Canonical patterns, read and ready to match paths.
pub struct PatternSet {
    globs: Vec<Vec<GlobToken>>,
}

/// One of `globs` matches `path`, or there is none to match.
pub open spec fn set_matches(globs: Seq<Seq<TokenView>>, path: Seq<char>) -> bool {
    globs.len() == 0 || exists|i: int| 0 <= i < globs.len() && glob_matches(#[trigger] globs[i], path)
}

impl View for PatternSet {
    type V = Seq<Seq<TokenView>>;

    closed spec fn view(&self) -> Seq<Seq<TokenView>> {
        Seq::new(self.globs@.len(), |i: int| token_views(self.globs@[i]@))
    }
}

impl PatternSet {
    /// The set without patterns, which matches every path.
    pub fn all() -> (r: PatternSet)
        ensures
            r@.len() == 0,
    {
        PatternSet { globs: Vec::new() }
    }

    /// Reads canonical patterns. The first one that cannot be read stops
    /// the reading, and is told by its place.
    pub fn compile(patterns: &Vec<String>) -> (r: Result<PatternSet, (usize, PatternError)>)
        ensures
            match r {
                Ok(set) => set@.len() == patterns@.len() && forall|i: int|
                    0 <= i < patterns@.len() ==> parsed_glob(#[trigger] patterns@[i]@) == Some(
                        set@[i],
                    ),
                Err((at, _)) => at < patterns@.len() && parsed_glob(patterns@[at as int]@) is None
                    && forall|i: int|
                    0 <= i < at ==> parsed_glob(#[trigger] patterns@[i]@) is Some,
            },
    {
        let mut globs: Vec<Vec<GlobToken>> = Vec::new();
        let mut i: usize = 0;
        while i < patterns.len()
            invariant
                i <= patterns.len(),
                globs.len() == i,
                forall|k: int|
                    0 <= k < i ==> parsed_glob(#[trigger] patterns@[k]@) == Some(
                        token_views(globs@[k]@),
                    ),
            decreases patterns.len() - i,
        {
            let p = to_chars(patterns[i].as_str());
            match parse_glob_chars(p.as_slice()) {
                Ok(tokens) => {
                    globs.push(tokens);
                },
                Err(e) => {
                    return Err((i, e));
                },
            }
            i += 1;
        }
        Ok(PatternSet { globs })
    }

    /// The number of patterns.
    pub fn len(&self) -> (n: usize)
        ensures
            n == self@.len(),
    {
        self.globs.len()
    }

    /// Tells whether one of the patterns matches `path`, or there is no
    /// pattern at all.
    pub fn matches(&self, path: &[char]) -> (r: bool)
        ensures
            r == set_matches(self@, path@),
    {
        if self.globs.len() == 0 {
            return true;
        }
        let mut i: usize = 0;
        while i < self.globs.len()
            invariant
                i <= self.globs.len(),
                forall|k: int| 0 <= k < i ==> !glob_matches(#[trigger] self@[k], path@),
            decreases self.globs.len() - i,
        {
            if glob_match(self.globs[i].as_slice(), path) {
                assert(glob_matches(self@[i as int], path@));
                return true;
            }
            i += 1;
        }
        false
    }
}

} // verus!
