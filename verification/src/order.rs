//! The order of texts: by their characters' code points, the shorter of
//! two first where one begins the other.

use vstd::prelude::*;

verus! {

/// `a` stands before `b`.
pub open spec fn text_before(a: Seq<char>, b: Seq<char>) -> bool
    decreases a.len(),
{
    if b.len() == 0 {
        false
    } else if a.len() == 0 {
        true
    } else if a[0] == b[0] {
        text_before(a.drop_first(), b.drop_first())
    } else {
        a[0] < b[0]
    }
}

/// How one text stands to another.
#[derive(Clone, Copy, Debug, PartialEq, Eq, Structural)]
pub enum Place {
    Before,
    Same,
    After,
}

/// How `a` stands to `b`.
pub open spec fn place_of(a: Seq<char>, b: Seq<char>) -> Place {
    if text_before(a, b) {
        Place::Before
    } else if text_before(b, a) {
        Place::After
    } else {
        Place::Same
    }
}

/// No text stands before itself.
pub proof fn lemma_before_irreflexive(a: Seq<char>)
    ensures
        !text_before(a, a),
    decreases a.len(),
{
    if a.len() > 0 {
        lemma_before_irreflexive(a.drop_first());
    }
}

/// Of two texts, one stands before the other or they are the same, and
/// only one of the three holds.
pub proof fn lemma_before_total(a: Seq<char>, b: Seq<char>)
    ensures
        text_before(a, b) || text_before(b, a) || a == b,
        !(text_before(a, b) && text_before(b, a)),
        a == b ==> !text_before(a, b),
    decreases a.len(),
{
    if a.len() > 0 && b.len() > 0 && a[0] == b[0] {
        lemma_before_total(a.drop_first(), b.drop_first());
        if a.drop_first() == b.drop_first() {
            assert(a == seq![a[0]] + a.drop_first());
        }
    }
    if a == b {
        lemma_before_irreflexive(a);
    }
}

/// What stands before a text stands before all that the text stands
/// before.
pub proof fn lemma_before_transitive(a: Seq<char>, b: Seq<char>, c: Seq<char>)
    requires
        text_before(a, b),
        text_before(b, c),
    ensures
        text_before(a, c),
    decreases a.len(),
{
    if a.len() > 0 && a[0] == b[0] && b[0] == c[0] {
        lemma_before_transitive(a.drop_first(), b.drop_first(), c.drop_first());
    }
}

/// Tells how `a` stands to `b`.
pub fn place(a: &[char], b: &[char]) -> (r: Place)
    ensures
        r == place_of(a@, b@),
        r == Place::Same <==> a@ == b@,
{
    let mut k: usize = 0;
    proof {
        assert(a@.skip(0) == a@);
        assert(b@.skip(0) == b@);
    }
    while k < a.len() && k < b.len()
        invariant
            k <= a.len(),
            k <= b.len(),
            a@.take(k as int) == b@.take(k as int),
            text_before(a@, b@) == text_before(a@.skip(k as int), b@.skip(k as int)),
            text_before(b@, a@) == text_before(b@.skip(k as int), a@.skip(k as int)),
        decreases a.len() - k,
    {
        let ghost ra = a@.skip(k as int);
        let ghost rb = b@.skip(k as int);
        if a[k] != b[k] {
            return if a[k] < b[k] {
                Place::Before
            } else {
                Place::After
            };
        }
        assert(ra.drop_first() == a@.skip(k + 1));
        assert(rb.drop_first() == b@.skip(k + 1));
        k += 1;
    }
    proof {
        lemma_before_total(a@, b@);
    }
    if k < b.len() {
        Place::Before
    } else if k < a.len() {
        Place::After
    } else {
        Place::Same
    }
}

} // verus!
