//! Character-level text operations shared by the rest of the crate.
//!
//! Every executable function works on a slice of `char`s and is specified
//! over `Seq<char>`, the view that `str` and `String` have as well.

use vstd::prelude::*;

verus! {

/// What separates the pieces of a text.
#[derive(Clone, Copy, Debug)]
pub enum Separator {
    /// One given character.
    Char(char),
    /// Any character with the Unicode property `White_Space`.
    Whitespace,
}

/// `c` has the Unicode property `White_Space`.
pub open spec fn is_space(c: char) -> bool {
    let n = c as u32;
    ||| 0x09 <= n <= 0x0D
    ||| n == 0x20
    ||| n == 0x85
    ||| n == 0xA0
    ||| n == 0x1680
    ||| 0x2000 <= n <= 0x200A
    ||| n == 0x2028
    ||| n == 0x2029
    ||| n == 0x202F
    ||| n == 0x205F
    ||| n == 0x3000
}

impl Separator {
    /// `c` is an occurrence of this separator.
    pub open spec fn hits(self, c: char) -> bool {
        match self {
            Separator::Char(x) => c == x,
            Separator::Whitespace => is_space(c),
        }
    }

    /// Tells whether `c` is an occurrence of this separator.
    pub fn matches_char(&self, c: char) -> (r: bool)
        ensures
            r == self.hits(c),
    {
        match self {
            Separator::Char(x) => c == *x,
            Separator::Whitespace => is_whitespace(c),
        }
    }
}

/// The views of a sequence of character vectors.
pub open spec fn views(v: Seq<Vec<char>>) -> Seq<Seq<char>> {
    Seq::new(v.len(), |i: int| v[i]@)
}

/// The views of a sequence of strings.
pub open spec fn texts(v: Seq<String>) -> Seq<Seq<char>> {
    Seq::new(v.len(), |i: int| v[i]@)
}

/// The pieces of `s` between occurrences of `sep`, read from position `at`
/// on, where the piece being read began at `start`. Two adjacent separators
/// have an empty piece between them, and the last piece runs to the end.
pub open spec fn pieces_scan(s: Seq<char>, sep: Separator, start: int, at: int) -> Seq<Seq<char>>
    decreases s.len() - at,
{
    if at >= s.len() {
        seq![s.subrange(start, s.len() as int)]
    } else if sep.hits(s[at]) {
        seq![s.subrange(start, at)] + pieces_scan(s, sep, at + 1, at + 1)
    } else {
        pieces_scan(s, sep, start, at + 1)
    }
}

/// The pieces of `s` between occurrences of `sep`; never empty.
pub open spec fn pieces(s: Seq<char>, sep: Separator) -> Seq<Seq<char>> {
    pieces_scan(s, sep, 0, 0)
}

/// The maximal runs of characters of `s` that are not white space, read
/// from position `at` on, where the run being read began at `start`.
pub open spec fn words_scan(s: Seq<char>, start: int, at: int) -> Seq<Seq<char>>
    decreases s.len() - at,
{
    if at >= s.len() {
        if start < s.len() {
            seq![s.subrange(start, s.len() as int)]
        } else {
            Seq::empty()
        }
    } else if is_space(s[at]) {
        if start < at {
            seq![s.subrange(start, at)] + words_scan(s, at + 1, at + 1)
        } else {
            words_scan(s, at + 1, at + 1)
        }
    } else {
        words_scan(s, start, at + 1)
    }
}

/// The words of `s`: its maximal runs of characters that are not white
/// space, in order. None of them is empty.
pub open spec fn words(s: Seq<char>) -> Seq<Seq<char>> {
    words_scan(s, 0, 0)
}

/// A line without the carriage return that stood before its line feed.
pub open spec fn without_carriage_return(line: Seq<char>) -> Seq<char> {
    if line.len() > 0 && line.last() == '\r' {
        line.drop_last()
    } else {
        line
    }
}

/// The lines of `s`, read from position `at` on, where the line being read
/// began at `start`.
pub open spec fn lines_scan(s: Seq<char>, start: int, at: int) -> Seq<Seq<char>>
    decreases s.len() - at,
{
    if at >= s.len() {
        if start < s.len() {
            seq![s.subrange(start, s.len() as int)]
        } else {
            Seq::empty()
        }
    } else if s[at] == '\n' {
        seq![without_carriage_return(s.subrange(start, at))] + lines_scan(s, at + 1, at + 1)
    } else {
        lines_scan(s, start, at + 1)
    }
}

/// The lines of `s`. A line ends at a line feed, which is left out together
/// with a carriage return just before it; what follows the last line feed
/// is a line of its own unless it is empty.
pub open spec fn lines(s: Seq<char>) -> Seq<Seq<char>> {
    lines_scan(s, 0, 0)
}

/// `s` without the occurrences of `sep` that it begins with.
pub open spec fn strip_start(s: Seq<char>, sep: Separator) -> Seq<char>
    decreases s.len(),
{
    if s.len() > 0 && sep.hits(s[0]) {
        strip_start(s.drop_first(), sep)
    } else {
        s
    }
}

/// `s` without the occurrences of `sep` that it ends with.
pub open spec fn strip_end(s: Seq<char>, sep: Separator) -> Seq<char>
    decreases s.len(),
{
    if s.len() > 0 && sep.hits(s.last()) {
        strip_end(s.drop_last(), sep)
    } else {
        s
    }
}

/// `s` without the occurrences of `sep` that it begins and ends with.
pub open spec fn stripped(s: Seq<char>, sep: Separator) -> Seq<char> {
    strip_end(strip_start(s, sep), sep)
}

/// `s` without its leading and trailing white space.
pub open spec fn trimmed(s: Seq<char>) -> Seq<char> {
    stripped(s, Separator::Whitespace)
}

/// `needle` occurs in `hay` at position `at`.
pub open spec fn occurs_at(hay: Seq<char>, needle: Seq<char>, at: int) -> bool {
    0 <= at && at + needle.len() <= hay.len() && hay.subrange(at, at + needle.len()) == needle
}

/// `needle` occurs somewhere in `hay`.
pub open spec fn contains_text(hay: Seq<char>, needle: Seq<char>) -> bool {
    exists|at: int| occurs_at(hay, needle, at)
}

/// The position of the last `c` in `s`, or -1 where there is none.
pub open spec fn last_index_of(s: Seq<char>, c: char) -> int
    decreases s.len(),
{
    if s.len() == 0 {
        -1
    } else if s.last() == c {
        s.len() - 1
    } else {
        last_index_of(s.drop_last(), c)
    }
}

/// What follows the last `c` in `s`; all of `s` where it holds no `c`.
pub open spec fn after_last(s: Seq<char>, c: char) -> Seq<char> {
    s.subrange(last_index_of(s, c) + 1, s.len() as int)
}

/// The parts joined into one text with `sep` between each two of them.
pub open spec fn joined(parts: Seq<Seq<char>>, sep: Seq<char>) -> Seq<char>
    decreases parts.len(),
{
    if parts.len() == 0 {
        Seq::empty()
    } else if parts.len() == 1 {
        parts[0]
    } else {
        joined(parts.drop_last(), sep) + sep + parts.last()
    }
}

/// `s` with `with` in the place of each `c`.
pub open spec fn replaced(s: Seq<char>, c: char, with: Seq<char>) -> Seq<char>
    decreases s.len(),
{
    if s.len() == 0 {
        Seq::empty()
    } else if s.last() == c {
        replaced(s.drop_last(), c, with) + with
    } else {
        replaced(s.drop_last(), c, with).push(s.last())
    }
}

/// A text before the parts joined is the text, the separator and the
/// parts joined, unless there are no parts.
pub proof fn lemma_joined_after(first: Seq<char>, parts: Seq<Seq<char>>, sep: Seq<char>)
    requires
        parts.len() > 0,
    ensures
        joined(seq![first] + parts, sep) == first + sep + joined(parts, sep),
    decreases parts.len(),
{
    let all = seq![first] + parts;
    assert(all.drop_last() =~= seq![first] + parts.drop_last());
    if parts.len() == 1 {
        assert(joined(all.drop_last(), sep) == first);
    } else {
        lemma_joined_after(first, parts.drop_last(), sep);
    }
}

proof fn lemma_pieces_scan(s: Seq<char>, sep: Separator, start: int, at: int)
    requires
        0 <= start <= at <= s.len(),
        forall|k: int| start <= k < at ==> !sep.hits(#[trigger] s[k]),
    ensures
        pieces_scan(s, sep, start, at).len() > 0,
        forall|i: int, k: int|
            0 <= i < pieces_scan(s, sep, start, at).len() && 0 <= k < pieces_scan(
                s,
                sep,
                start,
                at,
            )[i].len() ==> !sep.hits(#[trigger] pieces_scan(s, sep, start, at)[i][k]),
        match sep {
            Separator::Char(c) => joined(pieces_scan(s, sep, start, at), seq![c]) == s.subrange(
                start,
                s.len() as int,
            ),
            Separator::Whitespace => true,
        },
    decreases s.len() - at,
{
    let all = pieces_scan(s, sep, start, at);
    if at >= s.len() {
        match sep {
            Separator::Char(c) => {
                assert(joined(all, seq![c]) == all[0]);
            },
            Separator::Whitespace => {},
        }
    } else if sep.hits(s[at]) {
        let rest = pieces_scan(s, sep, at + 1, at + 1);
        lemma_pieces_scan(s, sep, at + 1, at + 1);
        let first = s.subrange(start, at);
        assert(all == seq![first] + rest);
        assert forall|i: int, k: int| 0 <= i < all.len() && 0 <= k < all[i].len() implies !sep.hits(
            #[trigger] all[i][k],
        ) by {
            if i == 0 {
                assert(all[0][k] == s[start + k]);
            } else {
                assert(all[i] == rest[i - 1]);
            }
        }
        match sep {
            Separator::Char(c) => {
                lemma_joined_after(first, rest, seq![c]);
                assert(first + seq![c] + s.subrange(at + 1, s.len() as int) =~= s.subrange(
                    start,
                    s.len() as int,
                ));
            },
            Separator::Whitespace => {},
        }
    } else {
        lemma_pieces_scan(s, sep, start, at + 1);
    }
}

/// The pieces of a text are never none, none of them holds the separator,
/// and, for a separator of one character, the pieces joined with it are
/// the text again.
pub proof fn lemma_pieces(s: Seq<char>, sep: Separator)
    ensures
        pieces(s, sep).len() > 0,
        forall|i: int, k: int|
            0 <= i < pieces(s, sep).len() && 0 <= k < pieces(s, sep)[i].len() ==> !sep.hits(
                #[trigger] pieces(s, sep)[i][k],
            ),
        match sep {
            Separator::Char(c) => joined(pieces(s, sep), seq![c]) == s,
            Separator::Whitespace => true,
        },
{
    lemma_pieces_scan(s, sep, 0, 0);
}

/// No word is empty, and no word holds white space.
pub proof fn lemma_words(s: Seq<char>)
    ensures
        forall|i: int| 0 <= i < words(s).len() ==> (#[trigger] words(s)[i]).len() > 0,
        forall|i: int, k: int|
            0 <= i < words(s).len() && 0 <= k < words(s)[i].len() ==> !is_space(
                #[trigger] words(s)[i][k],
            ),
{
    lemma_words_scan(s, 0, 0);
}

proof fn lemma_words_scan(s: Seq<char>, start: int, at: int)
    requires
        0 <= start <= at <= s.len(),
        forall|k: int| start <= k < at ==> !is_space(#[trigger] s[k]),
    ensures
        forall|i: int|
            0 <= i < words_scan(s, start, at).len() ==> (#[trigger] words_scan(s, start, at)[i]).len()
                > 0,
        forall|i: int, k: int|
            0 <= i < words_scan(s, start, at).len() && 0 <= k < words_scan(s, start, at)[i].len()
                ==> !is_space(#[trigger] words_scan(s, start, at)[i][k]),
    decreases s.len() - at,
{
    let all = words_scan(s, start, at);
    if at >= s.len() {
        if start < s.len() {
            assert(all =~= seq![s.subrange(start, s.len() as int)]);
            assert forall|i: int, k: int| 0 <= i < all.len() && 0 <= k < all[i].len() implies !is_space(
                #[trigger] all[i][k],
            ) by {
                assert(all[0][k] == s[start + k]);
            }
        } else {
            assert(all =~= Seq::<Seq<char>>::empty());
        }
    } else if is_space(s[at]) {
        let rest = words_scan(s, at + 1, at + 1);
        lemma_words_scan(s, at + 1, at + 1);
        if start >= at {
            assert(all == rest);
        }
        if start < at {
            let first = s.subrange(start, at);
            assert(all == seq![first] + rest);
            assert(all[0] == first);
            assert forall|i: int| 0 <= i < all.len() implies (#[trigger] all[i]).len() > 0 by {
                if i > 0 {
                    assert(all[i] == rest[i - 1]);
                }
            }
            assert forall|i: int, k: int| 0 <= i < all.len() && 0 <= k < all[i].len() implies !is_space(
                #[trigger] all[i][k],
            ) by {
                if i == 0 {
                    assert(all[0][k] == s[start + k]);
                } else {
                    assert(all[i] == rest[i - 1]);
                }
            }
        }
    } else {
        assert forall|k: int| start <= k < at + 1 implies !is_space(#[trigger] s[k]) by {}
        lemma_words_scan(s, start, at + 1);
        assert(all == words_scan(s, start, at + 1));
    }
}

/// No line holds a line feed.
pub proof fn lemma_lines(s: Seq<char>)
    ensures
        forall|i: int, k: int|
            0 <= i < lines(s).len() && 0 <= k < lines(s)[i].len() ==> #[trigger] lines(s)[i][k]
                != '\n',
{
    lemma_lines_scan(s, 0, 0);
}

proof fn lemma_lines_scan(s: Seq<char>, start: int, at: int)
    requires
        0 <= start <= at <= s.len(),
        forall|k: int| start <= k < at ==> #[trigger] s[k] != '\n',
    ensures
        forall|i: int, k: int|
            0 <= i < lines_scan(s, start, at).len() && 0 <= k < lines_scan(s, start, at)[i].len()
                ==> #[trigger] lines_scan(s, start, at)[i][k] != '\n',
    decreases s.len() - at,
{
    let all = lines_scan(s, start, at);
    if at >= s.len() {
        if start < s.len() {
            assert(all =~= seq![s.subrange(start, s.len() as int)]);
            assert forall|i: int, k: int| 0 <= i < all.len() && 0 <= k < all[i].len() implies #[trigger] all[i][k]
                != '\n' by {
                assert(all[0][k] == s[start + k]);
            }
        }
    } else if s[at] == '\n' {
        let rest = lines_scan(s, at + 1, at + 1);
        lemma_lines_scan(s, at + 1, at + 1);
        let whole = s.subrange(start, at);
        let first = without_carriage_return(whole);
        assert(all == seq![first] + rest);
        assert forall|i: int, k: int| 0 <= i < all.len() && 0 <= k < all[i].len() implies #[trigger] all[i][k]
            != '\n' by {
            if i == 0 {
                assert(first[k] == whole[k]);
                assert(whole[k] == s[start + k]);
            } else {
                assert(all[i] == rest[i - 1]);
            }
        }
    } else {
        assert forall|k: int| start <= k < at + 1 implies #[trigger] s[k] != '\n' by {}
        lemma_lines_scan(s, start, at + 1);
        assert(all == lines_scan(s, start, at + 1));
    }
}

/// Tells whether `c` is white space.
pub fn is_whitespace(c: char) -> (r: bool)
    ensures
        r == is_space(c),
{
    let n: u32 = c as u32;
    (0x09 <= n && n <= 0x0D) || n == 0x20 || n == 0x85 || n == 0xA0 || n == 0x1680 || (0x2000 <= n
        && n <= 0x200A) || n == 0x2028 || n == 0x2029 || n == 0x202F || n == 0x205F || n == 0x3000
}

/// The characters of `s`, in order.
pub fn to_chars(s: &str) -> (v: Vec<char>)
    ensures
        v@ == s@,
{
    let mut v: Vec<char> = Vec::new();
    for c in it: s.chars()
        invariant
            v@ == it.seq().take(it.index() as int),
            it.seq() == s@,
    {
        v.push(c);
    }
    v
}

/// Appends one character to a string, as `String::push` does.
#[verifier::external_body]
fn push_char(s: &mut String, c: char)
    ensures
        final(s)@ == old(s)@.push(c),
{
    s.push(c)
}

/// The string that holds exactly the characters of `v`.
pub fn from_chars(v: &[char]) -> (s: String)
    ensures
        s@ == v@,
{
    let mut s = String::new();
    let mut i: usize = 0;
    while i < v.len()
        invariant
            i <= v.len(),
            s@ == v@.take(i as int),
        decreases v.len() - i,
    {
        push_char(&mut s, v[i]);
        i += 1;
    }
    s
}

/// A copy of the characters of `s` from `from` up to `to`.
pub fn copy_range(s: &[char], from: usize, to: usize) -> (v: Vec<char>)
    requires
        from <= to <= s.len(),
    ensures
        v@ == s@.subrange(from as int, to as int),
{
    let mut v: Vec<char> = Vec::new();
    let mut i: usize = from;
    while i < to
        invariant
            from <= i <= to <= s.len(),
            v@ == s@.subrange(from as int, i as int),
        decreases to - i,
    {
        v.push(s[i]);
        i += 1;
    }
    v
}

/// Appends the characters of `tail` to `v`.
pub fn append_chars(v: &mut Vec<char>, tail: &[char])
    ensures
        final(v)@ == old(v)@ + tail@,
{
    let mut i: usize = 0;
    while i < tail.len()
        invariant
            i <= tail.len(),
            v@ == old(v)@ + tail@.take(i as int),
        decreases tail.len() - i,
    {
        v.push(tail[i]);
        i += 1;
    }
}

/// Appends the characters of the string `tail` to `v`.
pub fn append_str(v: &mut Vec<char>, tail: &str)
    ensures
        final(v)@ == old(v)@ + tail@,
{
    let t = to_chars(tail);
    append_chars(v, t.as_slice());
}

/// Tells whether two texts hold the same characters.
pub fn same_text(a: &[char], b: &[char]) -> (r: bool)
    ensures
        r == (a@ == b@),
{
    if a.len() != b.len() {
        return false;
    }
    let mut i: usize = 0;
    while i < a.len()
        invariant
            i <= a.len(),
            a.len() == b.len(),
            a@.take(i as int) == b@.take(i as int),
        decreases a.len() - i,
    {
        if a[i] != b[i] {
            return false;
        }
        i += 1;
    }
    assert(a@ == a@.take(a.len() as int));
    assert(b@ == b@.take(b.len() as int));
    true
}

/// Tells whether `needle` occurs in `hay` at position `at`.
pub fn matches_at(hay: &[char], needle: &[char], at: usize) -> (r: bool)
    ensures
        r == occurs_at(hay@, needle@, at as int),
{
    if needle.len() > hay.len() || at > hay.len() - needle.len() {
        return false;
    }
    let mut i: usize = 0;
    while i < needle.len()
        invariant
            i <= needle.len(),
            at + needle.len() <= hay.len(),
            hay@.subrange(at as int, at + i) == needle@.take(i as int),
        decreases needle.len() - i,
    {
        if hay[at + i] != needle[i] {
            return false;
        }
        i += 1;
    }
    assert(needle@ == needle@.take(needle.len() as int));
    true
}

/// Tells whether `s` begins with `prefix`.
pub fn starts_with(s: &[char], prefix: &[char]) -> (r: bool)
    ensures
        r == prefix@.is_prefix_of(s@),
{
    let r = matches_at(s, prefix, 0);
    r
}

/// Tells whether `needle` occurs somewhere in `hay`.
pub fn contains(hay: &[char], needle: &[char]) -> (r: bool)
    ensures
        r == contains_text(hay@, needle@),
{
    if needle.len() > hay.len() {
        return false;
    }
    let last: usize = hay.len() - needle.len();
    let mut at: usize = 0;
    loop
        invariant
            at <= last,
            last == hay.len() - needle.len(),
            forall|k: int| 0 <= k < at ==> !occurs_at(hay@, needle@, k),
        decreases last - at,
    {
        if matches_at(hay, needle, at) {
            return true;
        }
        if at == last {
            return false;
        }
        at += 1;
    }
}

/// The pieces of `s` between occurrences of `sep`.
pub fn split(s: &[char], sep: Separator) -> (out: Vec<Vec<char>>)
    ensures
        views(out@) == pieces(s@, sep),
{
    let mut out: Vec<Vec<char>> = Vec::new();
    let mut start: usize = 0;
    let mut at: usize = 0;
    while at < s.len()
        invariant
            start <= at <= s.len(),
            views(out@) + pieces_scan(s@, sep, start as int, at as int) == pieces(s@, sep),
        decreases s.len() - at,
    {
        if sep.matches_char(s[at]) {
            let piece = copy_range(s, start, at);
            out.push(piece);
            start = at + 1;
        }
        at += 1;
    }
    let piece = copy_range(s, start, s.len());
    out.push(piece);
    out
}

/// The words of `s`.
pub fn split_words(s: &[char]) -> (out: Vec<Vec<char>>)
    ensures
        views(out@) == words(s@),
{
    let mut out: Vec<Vec<char>> = Vec::new();
    let mut start: usize = 0;
    let mut at: usize = 0;
    while at < s.len()
        invariant
            start <= at <= s.len(),
            views(out@) + words_scan(s@, start as int, at as int) == words(s@),
        decreases s.len() - at,
    {
        if is_whitespace(s[at]) {
            if start < at {
                let piece = copy_range(s, start, at);
                out.push(piece);
            }
            start = at + 1;
        }
        at += 1;
    }
    if start < s.len() {
        let piece = copy_range(s, start, s.len());
        out.push(piece);
    }
    out
}

/// The lines of `s`.
pub fn split_lines(s: &[char]) -> (out: Vec<Vec<char>>)
    ensures
        views(out@) == lines(s@),
{
    let mut out: Vec<Vec<char>> = Vec::new();
    let mut start: usize = 0;
    let mut at: usize = 0;
    while at < s.len()
        invariant
            start <= at <= s.len(),
            views(out@) + lines_scan(s@, start as int, at as int) == lines(s@),
        decreases s.len() - at,
    {
        if s[at] == '\n' {
            let end: usize = if start < at && s[at - 1] == '\r' {
                at - 1
            } else {
                at
            };
            let piece = copy_range(s, start, end);
            let ghost line = without_carriage_return(s@.subrange(start as int, at as int));
            assert(piece@ == line);
            out.push(piece);
            start = at + 1;
        }
        at += 1;
    }
    if start < s.len() {
        let piece = copy_range(s, start, s.len());
        out.push(piece);
    }
    out
}

/// `s` without the occurrences of `sep` that it begins and ends with.
pub fn strip(s: &[char], sep: Separator) -> (out: Vec<char>)
    ensures
        out@ == stripped(s@, sep),
{
    let mut from: usize = 0;
    assert(s@.subrange(0, s@.len() as int) == s@);
    while from < s.len() && sep.matches_char(s[from])
        invariant
            from <= s.len(),
            strip_start(s@, sep) == strip_start(s@.subrange(from as int, s@.len() as int), sep),
        decreases s.len() - from,
    {
        assert(s@.subrange(from as int, s@.len() as int).drop_first() == s@.subrange(
            from + 1,
            s@.len() as int,
        ));
        from += 1;
    }
    let mut to: usize = s.len();
    while to > from && sep.matches_char(s[to - 1])
        invariant
            from <= to <= s.len(),
            stripped(s@, sep) == strip_end(s@.subrange(from as int, to as int), sep),
        decreases to - from,
    {
        assert(s@.subrange(from as int, to as int).drop_last() == s@.subrange(
            from as int,
            to - 1,
        ));
        to -= 1;
    }
    copy_range(s, from, to)
}

/// `s` without its leading and trailing white space.
pub fn trim(s: &[char]) -> (out: Vec<char>)
    ensures
        out@ == trimmed(s@),
{
    strip(s, Separator::Whitespace)
}

/// The position of the last `c` in `s`.
pub fn find_last(s: &[char], c: char) -> (r: Option<usize>)
    ensures
        match r {
            Some(i) => i as int == last_index_of(s@, c) && i < s.len(),
            None => last_index_of(s@, c) == -1,
        },
{
    let mut i: usize = s.len();
    assert(s@.take(s@.len() as int) == s@);
    while i > 0
        invariant
            i <= s.len(),
            last_index_of(s@, c) == last_index_of(s@.take(i as int), c),
        decreases i,
    {
        if s[i - 1] == c {
            return Some(i - 1);
        }
        assert(s@.take(i as int).drop_last() == s@.take(i - 1));
        i -= 1;
    }
    None
}

/// The parts joined into one text with `sep` between each two of them.
pub fn join(parts: &[Vec<char>], sep: &[char]) -> (out: Vec<char>)
    ensures
        out@ == joined(views(parts@), sep@),
{
    let mut out: Vec<char> = Vec::new();
    let mut i: usize = 0;
    while i < parts.len()
        invariant
            i <= parts.len(),
            out@ == joined(views(parts@).take(i as int), sep@),
        decreases parts.len() - i,
    {
        let ghost done = views(parts@).take(i as int);
        let ghost next = views(parts@).take(i + 1);
        assert(next.drop_last() == done);
        if i > 0 {
            append_chars(&mut out, sep);
        }
        append_chars(&mut out, parts[i].as_slice());
        i += 1;
    }
    assert(views(parts@).take(parts@.len() as int) == views(parts@));
    out
}

/// `s` with `with` in the place of each `c`.
pub fn replace_char(s: &[char], c: char, with: &[char]) -> (out: Vec<char>)
    ensures
        out@ == replaced(s@, c, with@),
{
    let mut out: Vec<char> = Vec::new();
    let mut i: usize = 0;
    while i < s.len()
        invariant
            i <= s.len(),
            out@ == replaced(s@.take(i as int), c, with@),
        decreases s.len() - i,
    {
        assert(s@.take(i + 1).drop_last() == s@.take(i as int));
        if s[i] == c {
            append_chars(&mut out, with);
        } else {
            out.push(s[i]);
        }
        i += 1;
    }
    assert(s@.take(s@.len() as int) == s@);
    out
}

/// Tells whether `s` holds exactly the characters of the string `lit`.
pub fn is_text(s: &[char], lit: &str) -> (r: bool)
    ensures
        r == (s@ == lit@),
{
    let l = to_chars(lit);
    same_text(s, l.as_slice())
}

/// Tells whether the string `needle` occurs somewhere in `hay`.
pub fn contains_str(hay: &[char], needle: &str) -> (r: bool)
    ensures
        r == contains_text(hay@, needle@),
{
    let n = to_chars(needle);
    contains(hay, n.as_slice())
}

/// Tells whether `c` occurs in `s`.
pub fn has_char(s: &[char], c: char) -> (r: bool)
    ensures
        r == s@.contains(c),
{
    let mut i: usize = 0;
    while i < s.len()
        invariant
            i <= s.len(),
            forall|k: int| 0 <= k < i ==> s@[k] != c,
        decreases s.len() - i,
    {
        if s[i] == c {
            return true;
        }
        i += 1;
    }
    false
}

/// Copies of the parts from `from` on.
pub fn parts_from(parts: &Vec<Vec<char>>, from: usize) -> (out: Vec<Vec<char>>)
    requires
        from <= parts.len(),
    ensures
        views(out@) == views(parts@).subrange(from as int, parts@.len() as int),
{
    let mut out: Vec<Vec<char>> = Vec::new();
    let mut i: usize = from;
    while i < parts.len()
        invariant
            from <= i <= parts.len(),
            views(out@) == views(parts@).subrange(from as int, i as int),
        decreases parts.len() - i,
    {
        let ghost before = views(out@);
        let piece = copy_range(parts[i].as_slice(), 0, parts[i].len());
        assert(piece@ =~= parts@[i as int]@);
        out.push(piece);
        assert(views(out@) =~= before.push(parts@[i as int]@));
        i += 1;
    }
    out
}

} // verus!
