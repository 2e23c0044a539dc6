//! What carrying out a plan does to the two sides, and that a second plan
//! made right after finds nothing left to do.
//!
//! The two sides are taken as maps from paths to files, and an action as
//! what it does to them. A plan is carried out in the order of its paths,
//! so the proof walks the two inventories as the comparison does: the
//! paths that the walk has passed are settled, but for files that are
//! still to be moved away, and the paths ahead are as the inventories have
//! them, but for files that were moved away already.

use crate::action::{ActionDirection, ActionKind, ActionView};
use crate::diff::{
    attributes_differ, both_sides, by_content, diff_actions, files_of, first_with_hash,
    lemma_files_sorted, local_only, local_rename, local_wins, merged, remote_only, remote_rename,
    DiffOptions, IdentityMode, SyncDirection,
};
use crate::inventory::{sorted_by_path, RecordView};
use crate::order::{lemma_before_irreflexive, lemma_before_total, lemma_before_transitive, text_before};
use vstd::prelude::*;

verus! {

/// The files of one side, each under its path.
pub open spec fn side_of(inv: Seq<RecordView>) -> Map<Seq<char>, RecordView>
    decreases inv.len(),
{
    if inv.len() == 0 {
        Map::empty()
    } else {
        side_of(inv.drop_last()).insert(inv.last().path, inv.last())
    }
}

/// The side `side` after the file `from` was moved to `to`, over what
/// was there.
pub open spec fn moved(
    side: Map<Seq<char>, RecordView>,
    from: Seq<char>,
    to: Seq<char>,
) -> Map<Seq<char>, RecordView> {
    if side.contains_key(from) {
        side.remove(from).insert(to, RecordView { path: to, ..side[from] })
    } else {
        side
    }
}

/// The two sides after the transport has done what the action `a` asks
/// for. A transfer leaves the file on the side that takes as it is on
/// the side that gives, with its time.
pub open spec fn apply_action(
    local: Map<Seq<char>, RecordView>,
    remote: Map<Seq<char>, RecordView>,
    a: ActionView,
) -> (Map<Seq<char>, RecordView>, Map<Seq<char>, RecordView>) {
    match a.direction {
        None => (local, remote),
        Some(ActionDirection::ToRemote) => match a.kind {
            ActionKind::Copy | ActionKind::Update => if local.contains_key(a.file_path) {
                (local, remote.insert(a.file_path, local[a.file_path]))
            } else {
                (local, remote)
            },
            ActionKind::Delete => (local, remote.remove(a.file_path)),
            ActionKind::Rename => match a.rename_from {
                Some(from) => (local, moved(remote, from, a.file_path)),
                None => (local, remote),
            },
            ActionKind::Skip => (local, remote),
        },
        Some(ActionDirection::ToLocal) => match a.kind {
            ActionKind::Copy | ActionKind::Update => if remote.contains_key(a.file_path) {
                (local.insert(a.file_path, remote[a.file_path]), remote)
            } else {
                (local, remote)
            },
            ActionKind::Delete => (local.remove(a.file_path), remote),
            ActionKind::Rename => match a.rename_from {
                Some(from) => (moved(local, from, a.file_path), remote),
                None => (local, remote),
            },
            ActionKind::Skip => (local, remote),
        },
    }
}

/// The two sides after the transport has done, in order and without
/// failure, what the actions ask for.
pub open spec fn apply_all(
    local: Map<Seq<char>, RecordView>,
    remote: Map<Seq<char>, RecordView>,
    actions: Seq<ActionView>,
) -> (Map<Seq<char>, RecordView>, Map<Seq<char>, RecordView>)
    decreases actions.len(),
{
    if actions.len() == 0 {
        (local, remote)
    } else {
        let next = apply_action(local, remote, actions[0]);
        apply_all(next.0, next.1, actions.drop_first())
    }
}

/// Two files of one path are alike: by path and attributes, they do not
/// differ by their attributes; by content, they have the same known
/// digest, or one digest is not known and they do not differ by their
/// attributes.
pub open spec fn alike(l: RecordView, r: RecordView, o: DiffOptions) -> bool {
    match o.identity_mode {
        IdentityMode::PathAttributes => !attributes_differ(l, r, o.direction),
        IdentityMode::ContentHash => (l.content_hash is Some && l.content_hash == r.content_hash)
            || ((l.content_hash is None || r.content_hash is None) && !attributes_differ(
            l,
            r,
            o.direction,
        )),
    }
}

/// Nothing is left to do for the path `p`: the two sides have files there
/// that are alike, or one side has none and is not asked to take or lose
/// one.
pub open spec fn path_settled(
    local: Map<Seq<char>, RecordView>,
    remote: Map<Seq<char>, RecordView>,
    p: Seq<char>,
    o: DiffOptions,
) -> bool {
    if local.contains_key(p) {
        if remote.contains_key(p) {
            alike(local[p], remote[p], o)
        } else {
            o.direction == SyncDirection::RemoteToLocal && !o.delete_missing
        }
    } else {
        remote.contains_key(p) ==> o.direction == SyncDirection::LocalToRemote && !o.delete_missing
    }
}

/// The path `p` is still to come when the walk stands at `i` and `j`.
pub open spec fn ahead(
    local: Seq<RecordView>,
    remote: Seq<RecordView>,
    i: int,
    j: int,
    p: Seq<char>,
) -> bool {
    ||| exists|a: int| i <= a < local.len() && (#[trigger] local[a]).path == p
    ||| exists|b: int| j <= b < remote.len() && (#[trigger] remote[b]).path == p
}

/// The walk stands at `i` and `j` as a walk in the order of paths does:
/// what either side has behind stands before what the other has next.
pub open spec fn walk_point(local: Seq<RecordView>, remote: Seq<RecordView>, i: int, j: int) -> bool {
    &&& 0 <= i <= local.len()
    &&& 0 <= j <= remote.len()
    &&& i < local.len() ==> forall|b: int|
        0 <= b < j ==> text_before(#[trigger] remote[b].path, local[i].path)
    &&& j < remote.len() ==> forall|a: int|
        0 <= a < i ==> text_before(#[trigger] local[a].path, remote[j].path)
}

/// No content stands twice on a side, and content that both sides have
/// stands under one path: nothing was moved and nothing is there twice.
pub open spec fn content_apart(local: Seq<RecordView>, remote: Seq<RecordView>) -> bool {
    &&& forall|a: int, b: int|
        0 <= a < local.len() && 0 <= b < local.len() && a != b && (
        #[trigger] local[a]).content_hash is Some ==> local[a].content_hash != (
        #[trigger] local[b]).content_hash
    &&& forall|a: int, b: int|
        0 <= a < remote.len() && 0 <= b < remote.len() && a != b && (
        #[trigger] remote[a]).content_hash is Some ==> remote[a].content_hash != (
        #[trigger] remote[b]).content_hash
    &&& forall|a: int, b: int|
        0 <= a < local.len() && 0 <= b < remote.len() && (#[trigger] local[a]).content_hash is Some
            && local[a].content_hash == (#[trigger] remote[b]).content_hash ==> local[a].path
            == remote[b].path
}

/// The same of two sides as they stand.
pub open spec fn sides_apart(
    ml: Map<Seq<char>, RecordView>,
    mr: Map<Seq<char>, RecordView>,
) -> bool {
    &&& forall|p: Seq<char>, q: Seq<char>|
        #![trigger ml[p], ml[q]]
        ml.contains_key(p) && ml.contains_key(q) && p != q && ml[p].content_hash is Some
            ==> ml[p].content_hash != ml[q].content_hash
    &&& forall|p: Seq<char>, q: Seq<char>|
        #![trigger mr[p], mr[q]]
        mr.contains_key(p) && mr.contains_key(q) && p != q && mr[p].content_hash is Some
            ==> mr[p].content_hash != mr[q].content_hash
    &&& forall|p: Seq<char>, q: Seq<char>|
        #![trigger ml[p], mr[q]]
        ml.contains_key(p) && mr.contains_key(q) && ml[p].content_hash is Some
            && ml[p].content_hash == mr[q].content_hash ==> p == q
}

/// Where digests are compared, the inventories hold no content twice and
/// none that was moved.
pub open spec fn fit_for(local: Seq<RecordView>, remote: Seq<RecordView>, o: DiffOptions) -> bool {
    o.identity_mode == IdentityMode::ContentHash ==> content_apart(local, remote)
}

/// The same of two sides as they stand.
pub open spec fn sides_fit(
    ml: Map<Seq<char>, RecordView>,
    mr: Map<Seq<char>, RecordView>,
    o: DiffOptions,
) -> bool {
    o.identity_mode == IdentityMode::ContentHash ==> sides_apart(ml, mr)
}

/// The first record with a digest, if there is one, has that digest, and
/// stands no later than any record that has it.
pub proof fn lemma_first_with_hash(inv: Seq<RecordView>, h: u128, from: int)
    requires
        0 <= from <= inv.len(),
    ensures
        from <= first_with_hash(inv, h, from) <= inv.len(),
        first_with_hash(inv, h, from) < inv.len() ==> inv[first_with_hash(
            inv,
            h,
            from,
        )].content_hash == Some(h),
        forall|k: int|
            from <= k < inv.len() && (#[trigger] inv[k]).content_hash == Some(h)
                ==> first_with_hash(inv, h, from) <= k,
    decreases inv.len() - from,
{
    if from < inv.len() && inv[from].content_hash != Some(h) {
        lemma_first_with_hash(inv, h, from + 1);
    }
}

/// In a sorted inventory one path stands at one place.
pub proof fn lemma_one_place(inv: Seq<RecordView>, a: int, b: int)
    requires
        sorted_by_path(inv),
        0 <= a < inv.len(),
        0 <= b < inv.len(),
        inv[a].path == inv[b].path,
    ensures
        a == b,
{
    lemma_before_irreflexive(inv[a].path);
    if a < b {
        assert(text_before(inv[a].path, inv[b].path));
    } else if b < a {
        assert(text_before(inv[b].path, inv[a].path));
    }
}

/// Sorted inventories that hold no content twice and none that was moved
/// make sides of which the same holds, and the other way round.
pub proof fn lemma_apart(local: Seq<RecordView>, remote: Seq<RecordView>)
    requires
        sorted_by_path(local),
        sorted_by_path(remote),
    ensures
        content_apart(local, remote) <==> sides_apart(side_of(local), side_of(remote)),
{
    lemma_side_of(local);
    lemma_side_of(remote);
    let ml = side_of(local);
    let mr = side_of(remote);
    if content_apart(local, remote) {
        assert forall|p: Seq<char>, q: Seq<char>|
            #![trigger ml[p], ml[q]]
            ml.contains_key(p) && ml.contains_key(q) && p != q && ml[p].content_hash is Some
                implies ml[p].content_hash != ml[q].content_hash by {
            let a = choose|a: int| 0 <= a < local.len() && (#[trigger] local[a]).path == p;
            let b = choose|b: int| 0 <= b < local.len() && (#[trigger] local[b]).path == q;
            assert(ml[p] == local[a] && ml[q] == local[b]);
        }
        assert forall|p: Seq<char>, q: Seq<char>|
            #![trigger mr[p], mr[q]]
            mr.contains_key(p) && mr.contains_key(q) && p != q && mr[p].content_hash is Some
                implies mr[p].content_hash != mr[q].content_hash by {
            let a = choose|a: int| 0 <= a < remote.len() && (#[trigger] remote[a]).path == p;
            let b = choose|b: int| 0 <= b < remote.len() && (#[trigger] remote[b]).path == q;
            assert(mr[p] == remote[a] && mr[q] == remote[b]);
        }
        assert forall|p: Seq<char>, q: Seq<char>|
            #![trigger ml[p], mr[q]]
            ml.contains_key(p) && mr.contains_key(q) && ml[p].content_hash is Some
                && ml[p].content_hash == mr[q].content_hash implies p == q by {
            let a = choose|a: int| 0 <= a < local.len() && (#[trigger] local[a]).path == p;
            let b = choose|b: int| 0 <= b < remote.len() && (#[trigger] remote[b]).path == q;
            assert(ml[p] == local[a] && mr[q] == remote[b]);
        }
    }
    if sides_apart(ml, mr) {
        assert forall|a: int, b: int|
            0 <= a < local.len() && 0 <= b < local.len() && a != b && (
            #[trigger] local[a]).content_hash is Some implies local[a].content_hash != (
            #[trigger] local[b]).content_hash by {
            if local[a].path == local[b].path {
                lemma_one_place(local, a, b);
            }
            assert(ml[local[a].path] == local[a] && ml[local[b].path] == local[b]);
        }
        assert forall|a: int, b: int|
            0 <= a < remote.len() && 0 <= b < remote.len() && a != b && (
            #[trigger] remote[a]).content_hash is Some implies remote[a].content_hash != (
            #[trigger] remote[b]).content_hash by {
            if remote[a].path == remote[b].path {
                lemma_one_place(remote, a, b);
            }
            assert(mr[remote[a].path] == remote[a] && mr[remote[b].path] == remote[b]);
        }
        assert forall|a: int, b: int|
            0 <= a < local.len() && 0 <= b < remote.len() && (
            #[trigger] local[a]).content_hash is Some && local[a].content_hash == (
            #[trigger] remote[b]).content_hash implies local[a].path == remote[b].path by {
            assert(ml[local[a].path] == local[a] && mr[remote[b].path] == remote[b]);
        }
    }
}

/// Where content that both sides have stands under one path, the record
/// that stands for the content of a file on the other side, if there is
/// one, has the file's path.
proof fn lemma_found_in_place(here: Seq<RecordView>, there: Seq<RecordView>, i: int)
    requires
        0 <= i < here.len(),
        content_apart(here, there) || content_apart(there, here),
    ensures
        here[i].content_hash is Some ==> {
            let k = first_with_hash(there, here[i].content_hash->0, 0);
            &&& 0 <= k <= there.len()
            &&& k < there.len() ==> there[k].content_hash == here[i].content_hash && there[k].path
                == here[i].path
        },
{
    if here[i].content_hash is Some {
        lemma_first_with_hash(there, here[i].content_hash->0, 0);
    }
}

/// Where no content stands twice and none was moved, no file is to be
/// renamed, and a file whose content the other side has finds it there
/// under its own path.
pub proof fn lemma_nothing_moved(local: Seq<RecordView>, remote: Seq<RecordView>, o: DiffOptions)
    requires
        content_apart(local, remote),
    ensures
        forall|i: int|
            0 <= i < local.len() ==> #[trigger] remote_rename(local, remote, i, o) == Seq::<
                ActionView,
            >::empty(),
        forall|j: int|
            0 <= j < remote.len() ==> #[trigger] local_rename(local, remote, j, o) == Seq::<
                ActionView,
            >::empty(),
        forall|i: int|
            0 <= i < local.len() && #[trigger] by_content(local[i], remote, o) ==> exists|b: int|
                0 <= b < remote.len() && (#[trigger] remote[b]).path == local[i].path && remote[b].content_hash
                    == local[i].content_hash,
        forall|j: int|
            0 <= j < remote.len() && #[trigger] by_content(remote[j], local, o) ==> exists|a: int|
                0 <= a < local.len() && (#[trigger] local[a]).path == remote[j].path && local[a].content_hash
                    == remote[j].content_hash,
        forall|i: int, j: int|
            0 <= i < local.len() && 0 <= j < remote.len() && (#[trigger] local[i]).content_hash is Some
                && local[i].content_hash == (#[trigger] remote[j]).content_hash
                && o.identity_mode == IdentityMode::ContentHash ==> by_content(local[i], remote, o)
                && by_content(remote[j], local, o),
{
    assert forall|i: int| 0 <= i < local.len() implies #[trigger] remote_rename(
        local,
        remote,
        i,
        o,
    ) == Seq::<ActionView>::empty() by {
        lemma_found_in_place(local, remote, i);
    }
    assert forall|i: int|
        0 <= i < local.len() && #[trigger] by_content(local[i], remote, o) implies exists|b: int|
        0 <= b < remote.len() && (#[trigger] remote[b]).path == local[i].path && remote[b].content_hash
            == local[i].content_hash by {
        lemma_found_in_place(local, remote, i);
        let b = first_with_hash(remote, local[i].content_hash->0, 0);
        assert(remote[b].path == local[i].path);
    }
    assert forall|j: int| 0 <= j < remote.len() implies #[trigger] local_rename(
        local,
        remote,
        j,
        o,
    ) == Seq::<ActionView>::empty() by {
        lemma_found_in_place(remote, local, j);
    }
    assert forall|j: int|
        0 <= j < remote.len() && #[trigger] by_content(remote[j], local, o) implies exists|a: int|
        0 <= a < local.len() && (#[trigger] local[a]).path == remote[j].path && local[a].content_hash
            == remote[j].content_hash by {
        lemma_found_in_place(remote, local, j);
        let a = first_with_hash(local, remote[j].content_hash->0, 0);
        assert(local[a].path == remote[j].path);
    }
    assert forall|i: int, j: int|
        0 <= i < local.len() && 0 <= j < remote.len() && (#[trigger] local[i]).content_hash is Some
            && local[i].content_hash == (#[trigger] remote[j]).content_hash && o.identity_mode
            == IdentityMode::ContentHash implies by_content(local[i], remote, o) && by_content(
        remote[j],
        local,
        o,
    ) by {
        let h = local[i].content_hash->0;
        lemma_first_with_hash(remote, h, 0);
        lemma_first_with_hash(local, h, 0);
    }
}

/// A sorted inventory holds, under each of its paths, the record with
/// that path, and nothing else.
pub proof fn lemma_side_of(inv: Seq<RecordView>)
    requires
        sorted_by_path(inv),
    ensures
        forall|k: int|
            0 <= k < inv.len() ==> side_of(inv).contains_key(#[trigger] inv[k].path) && side_of(
                inv,
            )[inv[k].path] == inv[k],
        forall|p: Seq<char>| #[trigger]
            side_of(inv).contains_key(p) ==> exists|k: int|
                0 <= k < inv.len() && (#[trigger] inv[k]).path == p,
    decreases inv.len(),
{
    if inv.len() > 0 {
        let shorter = inv.drop_last();
        assert forall|a: int, b: int| 0 <= a < b < shorter.len() implies text_before(
            #[trigger] shorter[a].path,
            #[trigger] shorter[b].path,
        ) by {
            assert(shorter[a] == inv[a] && shorter[b] == inv[b]);
        }
        lemma_side_of(shorter);
        let last = inv.last();
        assert forall|k: int| 0 <= k < inv.len() implies side_of(inv).contains_key(
            #[trigger] inv[k].path,
        ) && side_of(inv)[inv[k].path] == inv[k] by {
            if k < inv.len() - 1 {
                assert(shorter[k] == inv[k]);
                assert(text_before(inv[k].path, inv[inv.len() - 1].path));
                lemma_before_irreflexive(last.path);
            }
        }
        assert forall|p: Seq<char>| #[trigger] side_of(inv).contains_key(p) implies exists|k: int|
            0 <= k < inv.len() && (#[trigger] inv[k]).path == p by {
            if p == last.path {
                assert(inv[inv.len() - 1].path == p);
            } else {
                assert(side_of(shorter).contains_key(p));
                let k = choose|k: int| 0 <= k < shorter.len() && (#[trigger] shorter[k]).path == p;
                assert(inv[k].path == p);
            }
        }
    }
}

/// Carrying out one list of actions and then another is carrying out the
/// two as one.
pub proof fn lemma_apply_concat(
    local: Map<Seq<char>, RecordView>,
    remote: Map<Seq<char>, RecordView>,
    a: Seq<ActionView>,
    b: Seq<ActionView>,
)
    ensures
        apply_all(local, remote, a + b) == apply_all(
            apply_all(local, remote, a).0,
            apply_all(local, remote, a).1,
            b,
        ),
    decreases a.len(),
{
    if a.len() > 0 {
        let next = apply_action(local, remote, a[0]);
        assert((a + b).drop_first() =~= a.drop_first() + b);
        lemma_apply_concat(next.0, next.1, a.drop_first(), b);
    }
}

/// Where no content stands twice and none was moved, two files of one
/// path are reconciled by content only if they have the same digest.
proof fn lemma_alone_at(
    local: Seq<RecordView>,
    remote: Seq<RecordView>,
    i: int,
    j: int,
    o: DiffOptions,
)
    requires
        sorted_by_path(local),
        sorted_by_path(remote),
        fit_for(local, remote, o),
        0 <= i < local.len(),
        0 <= j < remote.len(),
        local[i].path == remote[j].path,
    ensures
        by_content(local[i], remote, o) || by_content(remote[j], local, o) <==> o.identity_mode
            == IdentityMode::ContentHash && local[i].content_hash is Some && local[i].content_hash
            == remote[j].content_hash,
        o.identity_mode == IdentityMode::ContentHash ==> remote_rename(local, remote, i, o)
            == Seq::<ActionView>::empty() && local_rename(local, remote, j, o) == Seq::<
            ActionView,
        >::empty(),
{
    if o.identity_mode == IdentityMode::ContentHash {
        lemma_nothing_moved(local, remote, o);
        if by_content(local[i], remote, o) {
            let b = choose|b: int|
                0 <= b < remote.len() && (#[trigger] remote[b]).path == local[i].path
                    && remote[b].content_hash == local[i].content_hash;
            lemma_one_place(remote, b, j);
        }
        if by_content(remote[j], local, o) {
            let a = choose|a: int|
                0 <= a < local.len() && (#[trigger] local[a]).path == remote[j].path
                    && local[a].content_hash == remote[j].content_hash;
            lemma_one_place(local, a, i);
        }
    }
}

/// Where nothing is left to do for any path, the walk from any point
/// gives no action.
proof fn lemma_settled_gives_nothing(
    local: Seq<RecordView>,
    remote: Seq<RecordView>,
    i: int,
    j: int,
    o: DiffOptions,
)
    requires
        sorted_by_path(local),
        sorted_by_path(remote),
        fit_for(local, remote, o),
        walk_point(local, remote, i, j),
        forall|p: Seq<char>| path_settled(side_of(local), side_of(remote), p, o),
    ensures
        merged(local, remote, i, j, o) == Seq::<ActionView>::empty(),
    decreases (local.len() - i) + (remote.len() - j),
{
    reveal(local_only);
    reveal(remote_only);
    reveal(both_sides);
    lemma_side_of(local);
    lemma_side_of(remote);
    let ml = side_of(local);
    let mr = side_of(remote);
    if o.identity_mode == IdentityMode::ContentHash {
        lemma_nothing_moved(local, remote, o);
    }
    if i < local.len() || j < remote.len() {
        lemma_walk_on(local, remote, i, j);
        let take_local = j >= remote.len() || (i < local.len() && text_before(
            local[i].path,
            remote[j].path,
        ));
        let take_remote = !take_local && (i >= local.len() || text_before(
            remote[j].path,
            local[i].path,
        ));
        if take_local {
            let p = local[i].path;
            lemma_absent(remote, j, p);
            assert(path_settled(ml, mr, p, o));
            assert(local_only(local, remote, i, o) =~= Seq::<ActionView>::empty());
            lemma_settled_gives_nothing(local, remote, i + 1, j, o);
            assert(merged(local, remote, i, j, o) =~= Seq::<ActionView>::empty());
        } else if take_remote {
            let p = remote[j].path;
            lemma_absent(local, i, p);
            assert(path_settled(ml, mr, p, o));
            assert(remote_only(local, remote, j, o) =~= Seq::<ActionView>::empty());
            lemma_settled_gives_nothing(local, remote, i, j + 1, o);
            assert(merged(local, remote, i, j, o) =~= Seq::<ActionView>::empty());
        } else {
            let p = local[i].path;
            assert(remote[j].path == p);
            assert(path_settled(ml, mr, p, o));
            assert(ml[p] == local[i] && mr[p] == remote[j]);
            lemma_alone_at(local, remote, i, j, o);
            assert(both_sides(local, remote, i, j, o) =~= Seq::<ActionView>::empty());
            lemma_settled_gives_nothing(local, remote, i + 1, j + 1, o);
            assert(merged(local, remote, i, j, o) =~= Seq::<ActionView>::empty());
        }
    }
}

/// A sorted inventory whose records before `k` stand before `p`, and
/// whose records from `k` on stand after it, does not hold `p`.
proof fn lemma_absent(inv: Seq<RecordView>, k: int, p: Seq<char>)
    requires
        0 <= k <= inv.len(),
        forall|a: int| 0 <= a < k ==> text_before(#[trigger] inv[a].path, p),
        forall|a: int| k <= a < inv.len() ==> text_before(p, #[trigger] inv[a].path),
        sorted_by_path(inv),
    ensures
        !side_of(inv).contains_key(p),
        forall|a: int| 0 <= a < inv.len() ==> (#[trigger] inv[a]).path != p,
{
    lemma_side_of(inv);
    lemma_before_irreflexive(p);
    assert forall|a: int| 0 <= a < inv.len() implies (#[trigger] inv[a]).path != p by {
        if a < k {
            assert(text_before(inv[a].path, p));
        } else {
            assert(text_before(p, inv[a].path));
        }
    }
}

/// The points that follow a point of the walk are points of the walk, and
/// the records not visited stand after the path that is visited.
proof fn lemma_walk_on(local: Seq<RecordView>, remote: Seq<RecordView>, i: int, j: int)
    requires
        sorted_by_path(local),
        sorted_by_path(remote),
        walk_point(local, remote, i, j),
        i < local.len() || j < remote.len(),
    ensures
        ({
            let take_local = j >= remote.len() || (i < local.len() && text_before(
                local[i].path,
                remote[j].path,
            ));
            let take_remote = !take_local && (i >= local.len() || text_before(
                remote[j].path,
                local[i].path,
            ));
            let i2 = if take_remote {
                i
            } else {
                i + 1
            };
            let j2 = if take_local {
                j
            } else {
                j + 1
            };
            let p = if take_remote {
                remote[j].path
            } else {
                local[i].path
            };
            &&& walk_point(local, remote, i2, j2)
            &&& forall|a: int| i2 <= a < local.len() ==> text_before(p, #[trigger] local[a].path)
            &&& forall|b: int| j2 <= b < remote.len() ==> text_before(p, #[trigger] remote[b].path)
            &&& forall|a: int| 0 <= a < i ==> text_before(#[trigger] local[a].path, p)
            &&& forall|b: int| 0 <= b < j ==> text_before(#[trigger] remote[b].path, p)
            &&& !take_local && !take_remote ==> local[i].path == remote[j].path
        }),
{
    if i < local.len() && j < remote.len() {
        lemma_before_total(local[i].path, remote[j].path);
    }
    let take_local = j >= remote.len() || (i < local.len() && text_before(
        local[i].path,
        remote[j].path,
    ));
    let take_remote = !take_local && (i >= local.len() || text_before(
        remote[j].path,
        local[i].path,
    ));
    let i2 = if take_remote {
        i
    } else {
        i + 1
    };
    let j2 = if take_local {
        j
    } else {
        j + 1
    };
    let p = if take_remote {
        remote[j].path
    } else {
        local[i].path
    };
    assert forall|a: int| i2 <= a < local.len() implies text_before(p, #[trigger] local[a].path) by {
        if take_remote {
            if a > i {
                lemma_before_transitive(p, local[i].path, local[a].path);
            }
        } else {
            assert(text_before(local[i].path, local[a].path));
        }
    }
    assert forall|b: int| j2 <= b < remote.len() implies text_before(
        p,
        #[trigger] remote[b].path,
    ) by {
        if take_local {
            if b > j {
                lemma_before_transitive(p, remote[j].path, remote[b].path);
            }
        } else {
            assert(text_before(remote[j].path, remote[b].path));
        }
    }
    assert forall|a: int| 0 <= a < i implies text_before(#[trigger] local[a].path, p) by {
        if !take_remote {
            assert(text_before(local[a].path, local[i].path));
        }
    }
    assert forall|b: int| 0 <= b < j implies text_before(#[trigger] remote[b].path, p) by {
        if take_remote {
            assert(text_before(remote[b].path, remote[j].path));
        }
    }
    if i2 < local.len() {
        assert forall|b: int| 0 <= b < j2 implies text_before(
            #[trigger] remote[b].path,
            local[i2].path,
        ) by {
            if b < j {
                if i2 > i {
                    lemma_before_transitive(remote[b].path, local[i].path, local[i2].path);
                }
            } else {
                if i2 > i && !take_local {
                    assert(text_before(local[i].path, local[i2].path));
                }
            }
        }
    }
    if j2 < remote.len() {
        assert forall|a: int| 0 <= a < i2 implies text_before(
            #[trigger] local[a].path,
            remote[j2].path,
        ) by {
            if a < i {
                if j2 > j {
                    lemma_before_transitive(local[a].path, remote[j].path, remote[j2].path);
                }
            } else {
                if j2 > j && !take_remote {
                    assert(text_before(remote[j].path, remote[j2].path));
                }
            }
        }
    }
}

/// The two pairs of sides hold the same under `p`.
pub open spec fn same_at(
    a: (Map<Seq<char>, RecordView>, Map<Seq<char>, RecordView>),
    b: (Map<Seq<char>, RecordView>, Map<Seq<char>, RecordView>),
    p: Seq<char>,
) -> bool {
    &&& a.0.contains_key(p) == b.0.contains_key(p)
    &&& a.0.contains_key(p) ==> a.0[p] == b.0[p]
    &&& a.1.contains_key(p) == b.1.contains_key(p)
    &&& a.1.contains_key(p) ==> a.1[p] == b.1[p]
}

/// The actions of the visit at `i` and `j`.
pub open spec fn visit_actions(
    local: Seq<RecordView>,
    remote: Seq<RecordView>,
    i: int,
    j: int,
    o: DiffOptions,
) -> Seq<ActionView> {
    if j >= remote.len() || (i < local.len() && text_before(local[i].path, remote[j].path)) {
        local_only(local, remote, i, o)
    } else if i >= local.len() || text_before(remote[j].path, local[i].path) {
        remote_only(local, remote, j, o)
    } else {
        both_sides(local, remote, i, j, o)
    }
}

/// The path of the visit at `i` and `j`.
pub open spec fn visit_path(
    local: Seq<RecordView>,
    remote: Seq<RecordView>,
    i: int,
    j: int,
) -> Seq<char> {
    if j >= remote.len() || (i < local.len() && text_before(local[i].path, remote[j].path)) {
        local[i].path
    } else if i >= local.len() || text_before(remote[j].path, local[i].path) {
        remote[j].path
    } else {
        local[i].path
    }
}

/// The local file `x` has its content on the remote side under another
/// path and wins over the file there: the remote file is moved to its
/// path.
pub open spec fn wins_local(x: RecordView, remote: Seq<RecordView>, o: DiffOptions) -> bool {
    &&& o.identity_mode == IdentityMode::ContentHash
    &&& x.content_hash is Some
    &&& first_with_hash(remote, x.content_hash->0, 0) < remote.len()
    &&& remote[first_with_hash(remote, x.content_hash->0, 0)].path != x.path
    &&& local_wins(x, remote[first_with_hash(remote, x.content_hash->0, 0)], o.direction)
}

/// The local file `x` has its content on the remote side under another
/// path and loses to the file there: it is moved to that file's path.
pub open spec fn loses_local(x: RecordView, remote: Seq<RecordView>, o: DiffOptions) -> bool {
    &&& o.identity_mode == IdentityMode::ContentHash
    &&& x.content_hash is Some
    &&& first_with_hash(remote, x.content_hash->0, 0) < remote.len()
    &&& remote[first_with_hash(remote, x.content_hash->0, 0)].path != x.path
    &&& !local_wins(x, remote[first_with_hash(remote, x.content_hash->0, 0)], o.direction)
}

/// The remote file `y` has its content on the local side under another
/// path and wins over the file there.
pub open spec fn wins_remote(y: RecordView, local: Seq<RecordView>, o: DiffOptions) -> bool {
    &&& o.identity_mode == IdentityMode::ContentHash
    &&& y.content_hash is Some
    &&& first_with_hash(local, y.content_hash->0, 0) < local.len()
    &&& local[first_with_hash(local, y.content_hash->0, 0)].path != y.path
    &&& !local_wins(local[first_with_hash(local, y.content_hash->0, 0)], y, o.direction)
}

/// The remote file `y` has its content on the local side under another
/// path and loses to the file there.
pub open spec fn loses_remote(y: RecordView, local: Seq<RecordView>, o: DiffOptions) -> bool {
    &&& o.identity_mode == IdentityMode::ContentHash
    &&& y.content_hash is Some
    &&& first_with_hash(local, y.content_hash->0, 0) < local.len()
    &&& local[first_with_hash(local, y.content_hash->0, 0)].path != y.path
    &&& local_wins(local[first_with_hash(local, y.content_hash->0, 0)], y, o.direction)
}

/// No content stands twice on a side.
pub open spec fn content_once(inv: Seq<RecordView>) -> bool {
    forall|a: int, b: int|
        0 <= a < inv.len() && 0 <= b < inv.len() && a != b && (#[trigger] inv[a]).content_hash is Some
            ==> inv[a].content_hash != (#[trigger] inv[b]).content_hash
}

/// The plan for the two inventories can be carried out in the order of its
/// paths. Where files are told apart by content: no content stands twice
/// on a side; where content stands under different paths on the two
/// sides, the path that it is moved to stands before the path that it is
/// moved from, unless the side that wins has no file under the path that
/// it is moved from, so that nothing is written there; and no path takes
/// a moved file on both sides.
pub open spec fn tidy(local: Seq<RecordView>, remote: Seq<RecordView>, o: DiffOptions) -> bool {
    o.identity_mode == IdentityMode::ContentHash ==> {
        &&& content_once(local)
        &&& content_once(remote)
        &&& forall|a: int, b: int|
            0 <= a < local.len() && 0 <= b < remote.len() && (#[trigger] local[a]).content_hash is Some
                && local[a].content_hash == (#[trigger] remote[b]).content_hash && local[a].path
                != remote[b].path ==> if local_wins(local[a], remote[b], o.direction) {
                text_before(local[a].path, remote[b].path) || !side_of(local).contains_key(
                    remote[b].path,
                )
            } else {
                text_before(remote[b].path, local[a].path) || !side_of(remote).contains_key(
                    local[a].path,
                )
            }
        &&& forall|a: int, b: int|
            0 <= a < local.len() && 0 <= b < remote.len() && (#[trigger] local[a]).path == (
            #[trigger] remote[b]).path ==> !(wins_local(local[a], remote, o) && wins_remote(
                remote[b],
                local,
                o,
            ))
    }
}

/// Inventories that hold no content twice and none that was moved are
/// tidy.
pub proof fn lemma_apart_is_tidy(local: Seq<RecordView>, remote: Seq<RecordView>, o: DiffOptions)
    requires
        content_apart(local, remote),
    ensures
        tidy(local, remote, o),
{
    if o.identity_mode == IdentityMode::ContentHash {
        assert forall|a: int, b: int|
            0 <= a < local.len() && 0 <= b < remote.len() && (#[trigger] local[a]).path == (
            #[trigger] remote[b]).path implies !(wins_local(local[a], remote, o) && wins_remote(
            remote[b],
            local,
            o,
        )) by {
            if local[a].content_hash is Some {
                lemma_first_with_hash(remote, local[a].content_hash->0, 0);
            }
        }
    }
}

/// The local file `x` was moved away already when the walk stands before
/// the remote file at `j`.
pub open spec fn gone_local(x: RecordView, remote: Seq<RecordView>, j: int, o: DiffOptions) -> bool {
    loses_local(x, remote, o) && first_with_hash(remote, x.content_hash->0, 0) < j
}

/// The remote file `y` was moved away already when the walk stands before
/// the local file at `i`.
pub open spec fn gone_remote(y: RecordView, local: Seq<RecordView>, i: int, o: DiffOptions) -> bool {
    loses_remote(y, local, o) && first_with_hash(local, y.content_hash->0, 0) < i
}

/// The local file `x` is still to be moved away when the walk stands
/// before the remote file at `j`.
pub open spec fn pending_local(x: RecordView, remote: Seq<RecordView>, j: int, o: DiffOptions) -> bool {
    loses_local(x, remote, o) && first_with_hash(remote, x.content_hash->0, 0) >= j
}

/// The remote file `y` is still to be moved away when the walk stands
/// before the local file at `i`.
pub open spec fn pending_remote(y: RecordView, local: Seq<RecordView>, i: int, o: DiffOptions) -> bool {
    loses_remote(y, local, o) && first_with_hash(local, y.content_hash->0, 0) >= i
}

/// The path `p` is open on the local side: the walk has not come to it,
/// or the local file there is still to be moved away.
pub open spec fn local_open(
    local: Seq<RecordView>,
    remote: Seq<RecordView>,
    i: int,
    j: int,
    p: Seq<char>,
    o: DiffOptions,
) -> bool {
    ahead(local, remote, i, j, p) || (side_of(local).contains_key(p) && pending_local(
        side_of(local)[p],
        remote,
        j,
        o,
    ))
}

/// The path `p` is open on the remote side.
pub open spec fn remote_open(
    local: Seq<RecordView>,
    remote: Seq<RecordView>,
    i: int,
    j: int,
    p: Seq<char>,
    o: DiffOptions,
) -> bool {
    ahead(local, remote, i, j, p) || (side_of(remote).contains_key(p) && pending_remote(
        side_of(remote)[p],
        local,
        i,
        o,
    ))
}

/// The two sides hold under `p`, a path that the walk has passed, what is
/// right there: a file that is still to be moved away, with nothing on
/// the other side, or else nothing that is left to do.
pub open spec fn behind_ok(
    ml: Map<Seq<char>, RecordView>,
    mr: Map<Seq<char>, RecordView>,
    local: Seq<RecordView>,
    remote: Seq<RecordView>,
    i: int,
    j: int,
    p: Seq<char>,
    o: DiffOptions,
) -> bool {
    if side_of(local).contains_key(p) && pending_local(side_of(local)[p], remote, j, o) {
        ml.contains_key(p) && ml[p] == side_of(local)[p] && !mr.contains_key(p)
    } else if side_of(remote).contains_key(p) && pending_remote(side_of(remote)[p], local, i, o) {
        mr.contains_key(p) && mr[p] == side_of(remote)[p] && !ml.contains_key(p)
    } else {
        path_settled(ml, mr, p, o)
    }
}

/// The two sides hold under `p`, a path that the walk has not come to,
/// what the inventories hold under it, but for files that were moved
/// away.
pub open spec fn as_expected(
    ml: Map<Seq<char>, RecordView>,
    mr: Map<Seq<char>, RecordView>,
    local: Seq<RecordView>,
    remote: Seq<RecordView>,
    i: int,
    j: int,
    p: Seq<char>,
    o: DiffOptions,
) -> bool {
    &&& if side_of(local).contains_key(p) && !gone_local(side_of(local)[p], remote, j, o) {
        ml.contains_key(p) && ml[p] == side_of(local)[p]
    } else {
        !ml.contains_key(p)
    }
    &&& if side_of(remote).contains_key(p) && !gone_remote(side_of(remote)[p], local, i, o) {
        mr.contains_key(p) && mr[p] == side_of(remote)[p]
    } else {
        !mr.contains_key(p)
    }
}

/// Where files are told apart by content: no content stands twice on a
/// side as the sides stand, and content that both sides have stands under
/// one path or under two paths that are open.
pub open spec fn hashes_kept(
    ml: Map<Seq<char>, RecordView>,
    mr: Map<Seq<char>, RecordView>,
    local: Seq<RecordView>,
    remote: Seq<RecordView>,
    i: int,
    j: int,
    o: DiffOptions,
) -> bool {
    o.identity_mode == IdentityMode::ContentHash ==> {
        &&& forall|p: Seq<char>, q: Seq<char>|
            #![trigger ml[p], ml[q]]
            ml.contains_key(p) && ml.contains_key(q) && p != q && ml[p].content_hash is Some
                ==> ml[p].content_hash != ml[q].content_hash
        &&& forall|p: Seq<char>, q: Seq<char>|
            #![trigger mr[p], mr[q]]
            mr.contains_key(p) && mr.contains_key(q) && p != q && mr[p].content_hash is Some
                ==> mr[p].content_hash != mr[q].content_hash
        &&& forall|p: Seq<char>, q: Seq<char>|
            #![trigger ml[p], mr[q]]
            ml.contains_key(p) && mr.contains_key(q) && ml[p].content_hash is Some
                && ml[p].content_hash == mr[q].content_hash ==> p == q || (local_open(
                local,
                remote,
                i,
                j,
                p,
                o,
            ) && remote_open(local, remote, i, j, q, o))
    }
}

/// What holds of the two sides while a plan is carried out, when the walk
/// stands at `i` and `j`: the paths behind are as is right there, and the
/// paths ahead are as expected.
pub open spec fn on_the_way(
    ml: Map<Seq<char>, RecordView>,
    mr: Map<Seq<char>, RecordView>,
    local: Seq<RecordView>,
    remote: Seq<RecordView>,
    i: int,
    j: int,
    o: DiffOptions,
) -> bool {
    &&& forall|p: Seq<char>| #[trigger]
        ahead(local, remote, i, j, p) ==> as_expected(ml, mr, local, remote, i, j, p, o)
    &&& forall|p: Seq<char>|
        !ahead(local, remote, i, j, p) ==> #[trigger] behind_ok(ml, mr, local, remote, i, j, p, o)
    &&& hashes_kept(ml, mr, local, remote, i, j, o)
}

/// Where no content stands twice on a side, the first record with a
/// digest is the only one: a record with a known digest stands for its
/// content, and a record of the other side with that digest is the one
/// that is found for it.
pub proof fn lemma_leads(here: Seq<RecordView>, there: Seq<RecordView>)
    requires
        content_once(here),
        content_once(there),
    ensures
        forall|a: int|
            0 <= a < here.len() && (#[trigger] here[a]).content_hash is Some ==> first_with_hash(
                here,
                here[a].content_hash->0,
                0,
            ) == a,
        forall|a: int, b: int|
            0 <= a < here.len() && 0 <= b < there.len() && (#[trigger] here[a]).content_hash is Some
                && here[a].content_hash == (#[trigger] there[b]).content_hash ==> first_with_hash(
                there,
                here[a].content_hash->0,
                0,
            ) == b,
        forall|a: int|
            0 <= a < here.len() && (#[trigger] here[a]).content_hash is Some ==> {
                let k = first_with_hash(there, here[a].content_hash->0, 0);
                0 <= k <= there.len() && (k < there.len() ==> there[k].content_hash
                    == here[a].content_hash)
            },
{
    assert forall|a: int|
        0 <= a < here.len() && (#[trigger] here[a]).content_hash is Some implies first_with_hash(
        here,
        here[a].content_hash->0,
        0,
    ) == a by {
        lemma_first_with_hash(here, here[a].content_hash->0, 0);
    }
    assert forall|a: int, b: int|
        0 <= a < here.len() && 0 <= b < there.len() && (#[trigger] here[a]).content_hash is Some
            && here[a].content_hash == (#[trigger] there[b]).content_hash implies first_with_hash(
        there,
        here[a].content_hash->0,
        0,
    ) == b by {
        lemma_first_with_hash(there, here[a].content_hash->0, 0);
    }
    assert forall|a: int|
        0 <= a < here.len() && (#[trigger] here[a]).content_hash is Some implies {
        let k = first_with_hash(there, here[a].content_hash->0, 0);
        0 <= k <= there.len() && (k < there.len() ==> there[k].content_hash
            == here[a].content_hash)
    } by {
        lemma_first_with_hash(there, here[a].content_hash->0, 0);
    }
}

/// The place on the local side where the walk stands after the visit at
/// `i` and `j`.
pub open spec fn next_local(local: Seq<RecordView>, remote: Seq<RecordView>, i: int, j: int) -> int {
    if j >= remote.len() || (i < local.len() && text_before(local[i].path, remote[j].path)) {
        i + 1
    } else if i >= local.len() || text_before(remote[j].path, local[i].path) {
        i
    } else {
        i + 1
    }
}

/// The place on the remote side where the walk stands after the visit at
/// `i` and `j`.
pub open spec fn next_remote(local: Seq<RecordView>, remote: Seq<RecordView>, i: int, j: int) -> int {
    if j >= remote.len() || (i < local.len() && text_before(local[i].path, remote[j].path)) {
        j
    } else {
        j + 1
    }
}

/// Where the file that is visited has its content on the other side
/// under another path: the other file is the one that is found for it and
/// the other way round; the path that is moved from is still to come, or
/// was passed and the side that wins has no file there; and the path that
/// is moved to was passed, or is still to come and the side that wins
/// has no file under the path of the visit. `of_local` tells that the
/// local file of the visit is meant.
proof fn lemma_partner_place(
    local: Seq<RecordView>,
    remote: Seq<RecordView>,
    i: int,
    j: int,
    of_local: bool,
    o: DiffOptions,
)
    requires
        sorted_by_path(local),
        sorted_by_path(remote),
        tidy(local, remote, o),
        walk_point(local, remote, i, j),
        of_local ==> i < local.len() && (j < remote.len() ==> !text_before(
            remote[j].path,
            local[i].path,
        )),
        !of_local ==> j < remote.len() && (i < local.len() ==> !text_before(
            local[i].path,
            remote[j].path,
        )),
    ensures
        of_local && (wins_local(local[i], remote, o) || loses_local(local[i], remote, o)) ==> {
            let b = first_with_hash(remote, local[i].content_hash->0, 0);
            &&& 0 <= b < remote.len()
            &&& remote[b].content_hash == local[i].content_hash
            &&& first_with_hash(local, remote[b].content_hash->0, 0) == i
            &&& wins_local(local[i], remote, o) <==> loses_remote(remote[b], local, o)
            &&& loses_local(local[i], remote, o) <==> wins_remote(remote[b], local, o)
            &&& side_of(remote).contains_key(remote[b].path) && side_of(remote)[remote[b].path]
                == remote[b]
            &&& if next_remote(local, remote, i, j) <= b {
                text_before(local[i].path, remote[b].path) && ahead(
                    local,
                    remote,
                    i,
                    j,
                    remote[b].path,
                )
            } else {
                b < j && text_before(remote[b].path, local[i].path) && !ahead(
                    local,
                    remote,
                    i,
                    j,
                    remote[b].path,
                )
            }
            &&& wins_local(local[i], remote, o) && b < j ==> !side_of(local).contains_key(
                remote[b].path,
            )
            &&& loses_local(local[i], remote, o) && b >= j ==> !side_of(remote).contains_key(
                local[i].path,
            )
        },
        !of_local && (wins_remote(remote[j], local, o) || loses_remote(remote[j], local, o)) ==> {
            let a = first_with_hash(local, remote[j].content_hash->0, 0);
            &&& 0 <= a < local.len()
            &&& local[a].content_hash == remote[j].content_hash
            &&& first_with_hash(remote, local[a].content_hash->0, 0) == j
            &&& wins_remote(remote[j], local, o) <==> loses_local(local[a], remote, o)
            &&& loses_remote(remote[j], local, o) <==> wins_local(local[a], remote, o)
            &&& side_of(local).contains_key(local[a].path) && side_of(local)[local[a].path]
                == local[a]
            &&& if next_local(local, remote, i, j) <= a {
                text_before(remote[j].path, local[a].path) && ahead(
                    local,
                    remote,
                    i,
                    j,
                    local[a].path,
                )
            } else {
                a < i && text_before(local[a].path, remote[j].path) && !ahead(
                    local,
                    remote,
                    i,
                    j,
                    local[a].path,
                )
            }
            &&& wins_remote(remote[j], local, o) && a < i ==> !side_of(remote).contains_key(
                local[a].path,
            )
            &&& loses_remote(remote[j], local, o) && a >= i ==> !side_of(local).contains_key(
                remote[j].path,
            )
        },
{
    lemma_walk_on(local, remote, i, j);
    lemma_side_of(local);
    lemma_side_of(remote);
    if o.identity_mode == IdentityMode::ContentHash {
        lemma_leads(local, remote);
        lemma_leads(remote, local);
        let pv = visit_path(local, remote, i, j);
        lemma_before_irreflexive(pv);
        if of_local && local[i].content_hash is Some {
            let b = first_with_hash(remote, local[i].content_hash->0, 0);
            if b < remote.len() && remote[b].path != local[i].path {
                let q = remote[b].path;
                lemma_before_total(local[i].path, q);
                if j < remote.len() {
                    lemma_before_total(local[i].path, remote[j].path);
                }
                assert(local[i].path == pv);
                if b < j {
                    assert(text_before(q, pv));
                    lemma_not_ahead(local, remote, i, j, q);
                } else {
                    assert(b >= next_remote(local, remote, i, j)) by {
                        if b == j && next_remote(local, remote, i, j) > j {
                            assert(remote[j].path == pv);
                        }
                    }
                    assert(text_before(pv, q));
                    assert(ahead(local, remote, i, j, q));
                }
            }
        }
        if !of_local && remote[j].content_hash is Some {
            let a = first_with_hash(local, remote[j].content_hash->0, 0);
            if a < local.len() && local[a].path != remote[j].path {
                let q = local[a].path;
                lemma_before_total(remote[j].path, q);
                if i < local.len() {
                    lemma_before_total(local[i].path, remote[j].path);
                }
                assert(remote[j].path == pv);
                if a < i {
                    assert(text_before(q, pv));
                    lemma_not_ahead(local, remote, i, j, q);
                } else {
                    assert(a >= next_local(local, remote, i, j)) by {
                        if a == i && next_local(local, remote, i, j) > i {
                            assert(local[i].path == pv);
                        }
                    }
                    assert(text_before(pv, q));
                    assert(ahead(local, remote, i, j, q));
                }
            }
        }
    }
}

/// A path that stands before the path of the visit is not ahead.
proof fn lemma_not_ahead(
    local: Seq<RecordView>,
    remote: Seq<RecordView>,
    i: int,
    j: int,
    q: Seq<char>,
)
    requires
        sorted_by_path(local),
        sorted_by_path(remote),
        walk_point(local, remote, i, j),
        i < local.len() || j < remote.len(),
        text_before(q, visit_path(local, remote, i, j)),
    ensures
        !ahead(local, remote, i, j, q),
{
    lemma_walk_on(local, remote, i, j);
    let pv = visit_path(local, remote, i, j);
    lemma_before_total(q, pv);
    if ahead(local, remote, i, j, q) {
        if exists|a: int| i <= a < local.len() && (#[trigger] local[a]).path == q {
            let a = choose|a: int| i <= a < local.len() && (#[trigger] local[a]).path == q;
            if a > i || next_local(local, remote, i, j) == i {
                assert(text_before(pv, local[a].path));
            } else {
                assert(local[i].path == pv);
            }
        } else {
            let b = choose|b: int| j <= b < remote.len() && (#[trigger] remote[b]).path == q;
            if b > j || next_remote(local, remote, i, j) == j {
                assert(text_before(pv, remote[b].path));
            } else {
                assert(remote[j].path == pv);
            }
        }
    }
}

/// The path that the local side gives up at the visit at `i` and `j`:
/// that of the file that is moved to the path of the visit, because the
/// remote file there has its content and wins.
pub open spec fn left_local(
    local: Seq<RecordView>,
    remote: Seq<RecordView>,
    i: int,
    j: int,
    o: DiffOptions,
) -> Option<Seq<char>> {
    if next_remote(local, remote, i, j) > j && wins_remote(remote[j], local, o) {
        Some(local[first_with_hash(local, remote[j].content_hash->0, 0)].path)
    } else {
        None
    }
}

/// The path that the remote side gives up at the visit at `i` and `j`.
pub open spec fn left_remote(
    local: Seq<RecordView>,
    remote: Seq<RecordView>,
    i: int,
    j: int,
    o: DiffOptions,
) -> Option<Seq<char>> {
    if next_local(local, remote, i, j) > i && wins_local(local[i], remote, o) {
        Some(remote[first_with_hash(remote, local[i].content_hash->0, 0)].path)
    } else {
        None
    }
}

/// The side `after` is the side `before` but for the path `pv` and the
/// path `left`, which it no longer holds.
pub open spec fn side_moved_on(
    after: Map<Seq<char>, RecordView>,
    before: Map<Seq<char>, RecordView>,
    pv: Seq<char>,
    left: Option<Seq<char>>,
) -> bool {
    forall|p: Seq<char>|
        p != pv ==> (#[trigger] after.contains_key(p) <==> before.contains_key(p) && left != Some(
            p,
        )) && (after.contains_key(p) ==> after[p] == before[p])
}

/// The digest of what the side `after` holds under `pv` is that of what
/// the same side held there, of what the other side held there, or of
/// what the same side held under the path `left`.
pub open spec fn digest_from(
    after: Map<Seq<char>, RecordView>,
    same: Map<Seq<char>, RecordView>,
    other: Map<Seq<char>, RecordView>,
    pv: Seq<char>,
    left: Option<Seq<char>>,
) -> bool {
    after.contains_key(pv) ==> {
        ||| same.contains_key(pv) && after[pv].content_hash == same[pv].content_hash
        ||| other.contains_key(pv) && after[pv].content_hash == other[pv].content_hash
        ||| left is Some && same.contains_key(left->0) && after[pv].content_hash
            == same[left->0].content_hash
    }
}

/// What one visit has done to the two sides.
pub open spec fn visit_done(
    next: (Map<Seq<char>, RecordView>, Map<Seq<char>, RecordView>),
    ml: Map<Seq<char>, RecordView>,
    mr: Map<Seq<char>, RecordView>,
    local: Seq<RecordView>,
    remote: Seq<RecordView>,
    i: int,
    j: int,
    o: DiffOptions,
) -> bool {
    let pv = visit_path(local, remote, i, j);
    &&& side_moved_on(next.0, ml, pv, left_local(local, remote, i, j, o))
    &&& side_moved_on(next.1, mr, pv, left_remote(local, remote, i, j, o))
    &&& behind_ok(
        next.0,
        next.1,
        local,
        remote,
        next_local(local, remote, i, j),
        next_remote(local, remote, i, j),
        pv,
        o,
    )
    &&& digest_from(next.0, ml, mr, pv, left_local(local, remote, i, j, o))
    &&& digest_from(next.1, mr, ml, pv, left_remote(local, remote, i, j, o))
}

/// The files that are moved at the visit at `i` and `j` are where they
/// are moved from.
pub open spec fn sources_ready(
    ml: Map<Seq<char>, RecordView>,
    mr: Map<Seq<char>, RecordView>,
    local: Seq<RecordView>,
    remote: Seq<RecordView>,
    i: int,
    j: int,
    o: DiffOptions,
) -> bool {
    &&& match left_local(local, remote, i, j, o) {
        Some(q) => ml.contains_key(q) && ml[q] == side_of(local)[q],
        None => true,
    }
    &&& match left_remote(local, remote, i, j, o) {
        Some(q) => mr.contains_key(q) && mr[q] == side_of(remote)[q],
        None => true,
    }
}

/// On the way, the files that are moved at a visit are where they are
/// moved from.
proof fn lemma_sources_ready(
    local: Seq<RecordView>,
    remote: Seq<RecordView>,
    i: int,
    j: int,
    o: DiffOptions,
    ml: Map<Seq<char>, RecordView>,
    mr: Map<Seq<char>, RecordView>,
)
    requires
        sorted_by_path(local),
        sorted_by_path(remote),
        tidy(local, remote, o),
        walk_point(local, remote, i, j),
        i < local.len() || j < remote.len(),
        on_the_way(ml, mr, local, remote, i, j, o),
    ensures
        sources_ready(ml, mr, local, remote, i, j, o),
        as_expected(ml, mr, local, remote, i, j, visit_path(local, remote, i, j), o),
{
    let pv = visit_path(local, remote, i, j);
    lemma_ahead_after(local, remote, i, j, pv);
    if i < local.len() && j < remote.len() {
        lemma_before_total(local[i].path, remote[j].path);
    }
    if next_local(local, remote, i, j) > i && wins_local(local[i], remote, o) {
        lemma_partner_place(local, remote, i, j, true, o);
        let b = first_with_hash(remote, local[i].content_hash->0, 0);
        let q = remote[b].path;
        if ahead(local, remote, i, j, q) {
            assert(as_expected(ml, mr, local, remote, i, j, q, o));
        } else {
            assert(behind_ok(ml, mr, local, remote, i, j, q, o));
        }
    }
    if next_remote(local, remote, i, j) > j && wins_remote(remote[j], local, o) {
        lemma_partner_place(local, remote, i, j, false, o);
        let a = first_with_hash(local, remote[j].content_hash->0, 0);
        let q = local[a].path;
        if ahead(local, remote, i, j, q) {
            assert(as_expected(ml, mr, local, remote, i, j, q, o));
        } else {
            assert(behind_ok(ml, mr, local, remote, i, j, q, o));
        }
    }
}

/// What the actions of one visit do to the two sides.
#[verifier::rlimit(100)]
proof fn lemma_visit_effect(
    local: Seq<RecordView>,
    remote: Seq<RecordView>,
    i: int,
    j: int,
    o: DiffOptions,
    ml: Map<Seq<char>, RecordView>,
    mr: Map<Seq<char>, RecordView>,
)
    requires
        sorted_by_path(local),
        sorted_by_path(remote),
        tidy(local, remote, o),
        walk_point(local, remote, i, j),
        i < local.len() || j < remote.len(),
        as_expected(ml, mr, local, remote, i, j, visit_path(local, remote, i, j), o),
        sources_ready(ml, mr, local, remote, i, j, o),
    ensures
        visit_done(
            apply_all(ml, mr, visit_actions(local, remote, i, j, o)),
            ml,
            mr,
            local,
            remote,
            i,
            j,
            o,
        ),
{
    reveal(local_only);
    reveal(remote_only);
    reveal(both_sides);
    reveal_with_fuel(apply_all, 3);
    lemma_side_of(local);
    lemma_side_of(remote);
    lemma_walk_on(local, remote, i, j);
    if o.identity_mode == IdentityMode::ContentHash {
        lemma_leads(local, remote);
        lemma_leads(remote, local);
    }
    let pv = visit_path(local, remote, i, j);
    let take_local = j >= remote.len() || (i < local.len() && text_before(
        local[i].path,
        remote[j].path,
    ));
    let take_remote = !take_local && (i >= local.len() || text_before(
        remote[j].path,
        local[i].path,
    ));
    if take_local {
        lemma_absent(remote, j, pv);
    } else if take_remote {
        lemma_absent(local, i, pv);
    }
    if i < local.len() && j < remote.len() {
        lemma_before_total(local[i].path, remote[j].path);
    }
    if !take_remote {
        lemma_partner_place(local, remote, i, j, true, o);
    }
    if !take_local {
        lemma_partner_place(local, remote, i, j, false, o);
    }
}

/// A path that is ahead after a visit was ahead before it and is not the
/// path of the visit; a path that was ahead before and is not the path of
/// the visit is ahead after it.
proof fn lemma_ahead_after(
    local: Seq<RecordView>,
    remote: Seq<RecordView>,
    i: int,
    j: int,
    p: Seq<char>,
)
    requires
        sorted_by_path(local),
        sorted_by_path(remote),
        walk_point(local, remote, i, j),
        i < local.len() || j < remote.len(),
    ensures
        ahead(local, remote, next_local(local, remote, i, j), next_remote(local, remote, i, j), p)
            <==> ahead(local, remote, i, j, p) && p != visit_path(local, remote, i, j),
        ahead(local, remote, i, j, visit_path(local, remote, i, j)),
{
    lemma_walk_on(local, remote, i, j);
    let pv = visit_path(local, remote, i, j);
    let i2 = next_local(local, remote, i, j);
    let j2 = next_remote(local, remote, i, j);
    lemma_before_irreflexive(pv);
    if j2 > j {
        assert(remote[j].path == pv);
    }
    if i2 > i {
        assert(local[i].path == pv);
    }
    if ahead(local, remote, i2, j2, p) {
        if exists|a: int| i2 <= a < local.len() && (#[trigger] local[a]).path == p {
            let a = choose|a: int| i2 <= a < local.len() && (#[trigger] local[a]).path == p;
            assert(text_before(pv, local[a].path));
            assert(i <= a < local.len() && local[a].path == p);
        } else {
            let b = choose|b: int| j2 <= b < remote.len() && (#[trigger] remote[b]).path == p;
            assert(text_before(pv, remote[b].path));
            assert(j <= b < remote.len() && remote[b].path == p);
        }
    }
    if ahead(local, remote, i, j, p) && p != pv {
        if exists|a: int| i <= a < local.len() && (#[trigger] local[a]).path == p {
            let a = choose|a: int| i <= a < local.len() && (#[trigger] local[a]).path == p;
            assert(i2 <= a < local.len() && local[a].path == p);
        } else {
            let b = choose|b: int| j <= b < remote.len() && (#[trigger] remote[b]).path == p;
            assert(j2 <= b < remote.len() && remote[b].path == p);
        }
    }
}

/// After a visit, the paths ahead are as expected.
proof fn lemma_visit_expected(
    local: Seq<RecordView>,
    remote: Seq<RecordView>,
    i: int,
    j: int,
    o: DiffOptions,
    ml: Map<Seq<char>, RecordView>,
    mr: Map<Seq<char>, RecordView>,
    next: (Map<Seq<char>, RecordView>, Map<Seq<char>, RecordView>),
    p: Seq<char>,
)
    requires
        sorted_by_path(local),
        sorted_by_path(remote),
        tidy(local, remote, o),
        walk_point(local, remote, i, j),
        i < local.len() || j < remote.len(),
        as_expected(ml, mr, local, remote, i, j, p, o),
        visit_done(next, ml, mr, local, remote, i, j, o),
        ahead(local, remote, next_local(local, remote, i, j), next_remote(local, remote, i, j), p),
    ensures
        as_expected(
            next.0,
            next.1,
            local,
            remote,
            next_local(local, remote, i, j),
            next_remote(local, remote, i, j),
            p,
            o,
        ),
{
    lemma_ahead_after(local, remote, i, j, p);
    lemma_side_of(local);
    lemma_side_of(remote);
    lemma_walk_on(local, remote, i, j);
    let i2 = next_local(local, remote, i, j);
    let j2 = next_remote(local, remote, i, j);
    if i < local.len() && j < remote.len() {
        lemma_before_total(local[i].path, remote[j].path);
    }
    let pv = visit_path(local, remote, i, j);
    assert(p != pv);
    if o.identity_mode == IdentityMode::ContentHash {
        lemma_leads(local, remote);
        lemma_leads(remote, local);
        if j2 > j {
            lemma_partner_place(local, remote, i, j, false, o);
        }
        if i2 > i {
            lemma_partner_place(local, remote, i, j, true, o);
        }
        if side_of(local).contains_key(p) {
            let a = choose|a: int| 0 <= a < local.len() && (#[trigger] local[a]).path == p;
            let x = local[a];
            assert(side_of(local)[p] == x);
            if gone_local(x, remote, j2, o) && !gone_local(x, remote, j, o) {
                let bx = first_with_hash(remote, x.content_hash->0, 0);
                assert(bx == j && j2 == j + 1);
                assert(remote[j].content_hash == x.content_hash);
                assert(first_with_hash(local, remote[j].content_hash->0, 0) == a);
                assert(wins_remote(remote[j], local, o));
                assert(left_local(local, remote, i, j, o) == Some(p));
            }
            if left_local(local, remote, i, j, o) == Some(p) {
                let a2 = first_with_hash(local, remote[j].content_hash->0, 0);
                lemma_one_place(local, a, a2);
                assert(x.content_hash == remote[j].content_hash);
                assert(first_with_hash(remote, x.content_hash->0, 0) == j);
                assert(loses_local(x, remote, o));
                assert(gone_local(x, remote, j2, o));
            }
        }
        if side_of(remote).contains_key(p) {
            let b = choose|b: int| 0 <= b < remote.len() && (#[trigger] remote[b]).path == p;
            let y = remote[b];
            assert(side_of(remote)[p] == y);
            if gone_remote(y, local, i2, o) && !gone_remote(y, local, i, o) {
                let ay = first_with_hash(local, y.content_hash->0, 0);
                assert(ay == i && i2 == i + 1);
                assert(local[i].content_hash == y.content_hash);
                assert(first_with_hash(remote, local[i].content_hash->0, 0) == b);
                assert(wins_local(local[i], remote, o));
                assert(left_remote(local, remote, i, j, o) == Some(p));
            }
            if left_remote(local, remote, i, j, o) == Some(p) {
                let b2 = first_with_hash(remote, local[i].content_hash->0, 0);
                lemma_one_place(remote, b, b2);
                assert(y.content_hash == local[i].content_hash);
                assert(first_with_hash(local, y.content_hash->0, 0) == i);
                assert(loses_remote(y, local, o));
                assert(gone_remote(y, local, i2, o));
            }
        }
    }
    let sl = left_local(local, remote, i, j, o);
    let sr = left_remote(local, remote, i, j, o);
    assert(next.0.contains_key(p) <==> ml.contains_key(p) && sl != Some(p));
    assert(next.1.contains_key(p) <==> mr.contains_key(p) && sr != Some(p));
    assert(forall|x: RecordView| gone_local(x, remote, j, o) ==> gone_local(x, remote, j2, o));
    assert(forall|y: RecordView| gone_remote(y, local, i, o) ==> gone_remote(y, local, i2, o));
    assert(if side_of(local).contains_key(p) && !gone_local(side_of(local)[p], remote, j2, o) {
        next.0.contains_key(p) && next.0[p] == side_of(local)[p]
    } else {
        !next.0.contains_key(p)
    });
    assert(if side_of(remote).contains_key(p) && !gone_remote(side_of(remote)[p], local, i2, o) {
        next.1.contains_key(p) && next.1[p] == side_of(remote)[p]
    } else {
        !next.1.contains_key(p)
    });
}

/// After a visit, no path of the local side but that of the visit holds
/// the content that the side has under the path of the visit.
#[verifier::rlimit(100)]
proof fn lemma_once_local(
    local: Seq<RecordView>,
    remote: Seq<RecordView>,
    i: int,
    j: int,
    o: DiffOptions,
    ml: Map<Seq<char>, RecordView>,
    mr: Map<Seq<char>, RecordView>,
    next: (Map<Seq<char>, RecordView>, Map<Seq<char>, RecordView>),
    t: Seq<char>,
)
    requires
        sorted_by_path(local),
        sorted_by_path(remote),
        tidy(local, remote, o),
        o.identity_mode == IdentityMode::ContentHash,
        walk_point(local, remote, i, j),
        i < local.len() || j < remote.len(),
        on_the_way(ml, mr, local, remote, i, j, o),
        visit_done(next, ml, mr, local, remote, i, j, o),
        next.0.contains_key(t),
        next.0.contains_key(visit_path(local, remote, i, j)),
        next.0[t].content_hash is Some,
        next.0[t].content_hash == next.0[visit_path(local, remote, i, j)].content_hash,
    ensures
        t == visit_path(local, remote, i, j),
{
    let pv = visit_path(local, remote, i, j);
    let i2 = next_local(local, remote, i, j);
    let j2 = next_remote(local, remote, i, j);
    let left_same = left_local(local, remote, i, j, o);
    let left_other = left_remote(local, remote, i, j, o);
    lemma_side_of(local);
    lemma_side_of(remote);
    lemma_walk_on(local, remote, i, j);
    lemma_leads(local, remote);
    lemma_leads(remote, local);
    lemma_sources_ready(local, remote, i, j, o, ml, mr);
    if i < local.len() && j < remote.len() {
        lemma_before_total(local[i].path, remote[j].path);
    }
    if j2 > j {
        lemma_partner_place(local, remote, i, j, false, o);
        assert(remote[j].path == pv);
    } else {
        lemma_absent(remote, j, pv);
    }
    if i2 > i {
        lemma_partner_place(local, remote, i, j, true, o);
        assert(local[i].path == pv);
    } else {
        lemma_absent(local, i, pv);
    }
    lemma_ahead_after(local, remote, i, j, pv);
    lemma_ahead_after(local, remote, i, j, t);
    assert(behind_ok(next.0, next.1, local, remote, i2, j2, pv, o));
    if t != pv {
        assert(ml.contains_key(t) && next.0[t] == ml[t] && left_same != Some(t));
        if ml.contains_key(pv) && next.0[pv].content_hash == ml[pv].content_hash {
            assert(ml[t].content_hash != ml[pv].content_hash);
        } else if left_same is Some && ml.contains_key(left_same->0) && next.0[pv].content_hash
            == ml[left_same->0].content_hash {
            assert(ml[t].content_hash != ml[left_same->0].content_hash);
        } else {
            assert(mr.contains_key(pv) && next.0[pv].content_hash == mr[pv].content_hash);
            assert(local_open(local, remote, i, j, t, o));
            if ahead(local, remote, i, j, t) {
                assert(as_expected(ml, mr, local, remote, i, j, t, o));
            } else {
                assert(behind_ok(ml, mr, local, remote, i, j, t, o));
            }
            assert(side_of(local).contains_key(t) && ml[t] == side_of(local)[t]);
            let k = choose|k: int| 0 <= k < local.len() && (#[trigger] local[k]).path == t;
            let x = local[k];
            assert(ml[t] == x);
            let y = remote[j];
            assert(mr[pv] == y);
            assert(x.content_hash == y.content_hash);
            assert(first_with_hash(local, y.content_hash->0, 0) == k);
            if wins_remote(y, local, o) {
                assert(left_same == Some(t));
            } else {
                assert(loses_remote(y, local, o));
                if k < i {
                    assert(gone_remote(y, local, i, o));
                } else {
                    assert(pending_remote(y, local, next_local(local, remote, i, j), o));
                }
            }
        }
    }
}

/// After a visit, no path of the remote side but that of the visit holds
/// the content that the side has under the path of the visit.
#[verifier::rlimit(100)]
proof fn lemma_once_remote(
    local: Seq<RecordView>,
    remote: Seq<RecordView>,
    i: int,
    j: int,
    o: DiffOptions,
    ml: Map<Seq<char>, RecordView>,
    mr: Map<Seq<char>, RecordView>,
    next: (Map<Seq<char>, RecordView>, Map<Seq<char>, RecordView>),
    t: Seq<char>,
)
    requires
        sorted_by_path(local),
        sorted_by_path(remote),
        tidy(local, remote, o),
        o.identity_mode == IdentityMode::ContentHash,
        walk_point(local, remote, i, j),
        i < local.len() || j < remote.len(),
        on_the_way(ml, mr, local, remote, i, j, o),
        visit_done(next, ml, mr, local, remote, i, j, o),
        next.1.contains_key(t),
        next.1.contains_key(visit_path(local, remote, i, j)),
        next.1[t].content_hash is Some,
        next.1[t].content_hash == next.1[visit_path(local, remote, i, j)].content_hash,
    ensures
        t == visit_path(local, remote, i, j),
{
    let pv = visit_path(local, remote, i, j);
    let i2 = next_local(local, remote, i, j);
    let j2 = next_remote(local, remote, i, j);
    let left_same = left_remote(local, remote, i, j, o);
    let left_other = left_local(local, remote, i, j, o);
    lemma_side_of(local);
    lemma_side_of(remote);
    lemma_walk_on(local, remote, i, j);
    lemma_leads(local, remote);
    lemma_leads(remote, local);
    lemma_sources_ready(local, remote, i, j, o, ml, mr);
    if i < local.len() && j < remote.len() {
        lemma_before_total(local[i].path, remote[j].path);
    }
    if j2 > j {
        lemma_partner_place(local, remote, i, j, false, o);
        assert(remote[j].path == pv);
    } else {
        lemma_absent(remote, j, pv);
    }
    if i2 > i {
        lemma_partner_place(local, remote, i, j, true, o);
        assert(local[i].path == pv);
    } else {
        lemma_absent(local, i, pv);
    }
    lemma_ahead_after(local, remote, i, j, pv);
    lemma_ahead_after(local, remote, i, j, t);
    assert(behind_ok(next.0, next.1, local, remote, i2, j2, pv, o));
    if t != pv {
        assert(mr.contains_key(t) && next.1[t] == mr[t] && left_same != Some(t));
        if mr.contains_key(pv) && next.1[pv].content_hash == mr[pv].content_hash {
            assert(mr[t].content_hash != mr[pv].content_hash);
        } else if left_same is Some && mr.contains_key(left_same->0) && next.1[pv].content_hash
            == mr[left_same->0].content_hash {
            assert(mr[t].content_hash != mr[left_same->0].content_hash);
        } else {
            assert(ml.contains_key(pv) && next.1[pv].content_hash == ml[pv].content_hash);
            assert(remote_open(local, remote, i, j, t, o));
            if ahead(local, remote, i, j, t) {
                assert(as_expected(ml, mr, local, remote, i, j, t, o));
            } else {
                assert(behind_ok(ml, mr, local, remote, i, j, t, o));
            }
            assert(side_of(remote).contains_key(t) && mr[t] == side_of(remote)[t]);
            let k = choose|k: int| 0 <= k < remote.len() && (#[trigger] remote[k]).path == t;
            let x = remote[k];
            assert(mr[t] == x);
            let y = local[i];
            assert(ml[pv] == y);
            assert(x.content_hash == y.content_hash);
            assert(first_with_hash(remote, y.content_hash->0, 0) == k);
            if wins_local(y, remote, o) {
                assert(left_same == Some(t));
            } else {
                assert(loses_local(y, remote, o));
                if k < j {
                    assert(gone_local(y, remote, j, o));
                } else {
                    assert(pending_local(y, remote, next_remote(local, remote, i, j), o));
                }
            }
        }
    }
}

/// After a visit, the content that the local side has under the path of
/// the visit stands on the remote side under that path, or under an open
/// path while the path of the visit is open as well.
#[verifier::rlimit(100)]
proof fn lemma_across_local(
    local: Seq<RecordView>,
    remote: Seq<RecordView>,
    i: int,
    j: int,
    o: DiffOptions,
    ml: Map<Seq<char>, RecordView>,
    mr: Map<Seq<char>, RecordView>,
    next: (Map<Seq<char>, RecordView>, Map<Seq<char>, RecordView>),
    t: Seq<char>,
)
    requires
        sorted_by_path(local),
        sorted_by_path(remote),
        tidy(local, remote, o),
        o.identity_mode == IdentityMode::ContentHash,
        walk_point(local, remote, i, j),
        i < local.len() || j < remote.len(),
        on_the_way(ml, mr, local, remote, i, j, o),
        visit_done(next, ml, mr, local, remote, i, j, o),
        next.1.contains_key(t),
        next.0.contains_key(visit_path(local, remote, i, j)),
        next.1[t].content_hash is Some,
        next.1[t].content_hash == next.0[visit_path(local, remote, i, j)].content_hash,
    ensures
        t == visit_path(local, remote, i, j) || (local_open(
            local,
            remote,
            next_local(local, remote, i, j),
            next_remote(local, remote, i, j),
            visit_path(local, remote, i, j),
            o,
        ) && remote_open(
            local,
            remote,
            next_local(local, remote, i, j),
            next_remote(local, remote, i, j),
            t,
            o,
        )),
{
    let pv = visit_path(local, remote, i, j);
    let i2 = next_local(local, remote, i, j);
    let j2 = next_remote(local, remote, i, j);
    let left_same = left_local(local, remote, i, j, o);
    let left_other = left_remote(local, remote, i, j, o);
    lemma_side_of(local);
    lemma_side_of(remote);
    lemma_walk_on(local, remote, i, j);
    lemma_leads(local, remote);
    lemma_leads(remote, local);
    lemma_sources_ready(local, remote, i, j, o, ml, mr);
    if i < local.len() && j < remote.len() {
        lemma_before_total(local[i].path, remote[j].path);
    }
    if j2 > j {
        lemma_partner_place(local, remote, i, j, false, o);
        assert(remote[j].path == pv);
    } else {
        lemma_absent(remote, j, pv);
    }
    if i2 > i {
        lemma_partner_place(local, remote, i, j, true, o);
        assert(local[i].path == pv);
    } else {
        lemma_absent(local, i, pv);
    }
    lemma_ahead_after(local, remote, i, j, pv);
    lemma_ahead_after(local, remote, i, j, t);
    assert(behind_ok(next.0, next.1, local, remote, i2, j2, pv, o));
    if t != pv {
        assert(mr.contains_key(t) && next.1[t] == mr[t] && left_other != Some(t));
        if mr.contains_key(pv) && next.0[pv].content_hash == mr[pv].content_hash {
            assert(mr[t].content_hash != mr[pv].content_hash);
        } else if left_same is Some && ml.contains_key(left_same->0) && next.0[pv].content_hash
            == ml[left_same->0].content_hash {
            let y = remote[j];
            assert(wins_remote(y, local, o));
            let a = first_with_hash(local, y.content_hash->0, 0);
            assert(ml[left_same->0] == local[a]);
            assert(!gone_remote(y, local, i, o));
            assert(mr.contains_key(pv) && mr[pv] == y);
            assert(mr[t].content_hash != mr[pv].content_hash);
        } else {
            assert(ml.contains_key(pv) && next.0[pv].content_hash == ml[pv].content_hash);
            assert(remote_open(local, remote, i, j, t, o));
            if ahead(local, remote, i, j, t) {
                assert(as_expected(ml, mr, local, remote, i, j, t, o));
            } else {
                assert(behind_ok(ml, mr, local, remote, i, j, t, o));
            }
            assert(side_of(remote).contains_key(t) && mr[t] == side_of(remote)[t]);
            let k = choose|k: int| 0 <= k < remote.len() && (#[trigger] remote[k]).path == t;
            let y = remote[k];
            assert(mr[t] == y);
            let x = local[i];
            assert(ml[pv] == x);
            assert(x.content_hash == y.content_hash);
            assert(first_with_hash(remote, x.content_hash->0, 0) == k);
            if wins_local(x, remote, o) {
                assert(left_other == Some(t));
            } else {
                assert(loses_local(x, remote, o));
                if k < j {
                    assert(gone_local(x, remote, j, o));
                } else {
                    assert(!side_of(remote).contains_key(pv));
                    assert(next_remote(local, remote, i, j) == j);
                    assert(pending_local(x, remote, next_remote(local, remote, i, j), o));
                    assert(ahead(local, remote, i2, j2, t)) by {
                        assert(remote[k].path == t);
                    }
                }
            }
        }
    }
}

/// After a visit, the content that the remote side has under the path of
/// the visit stands on the local side under that path, or under an open
/// path while the path of the visit is open as well.
#[verifier::rlimit(100)]
proof fn lemma_across_remote(
    local: Seq<RecordView>,
    remote: Seq<RecordView>,
    i: int,
    j: int,
    o: DiffOptions,
    ml: Map<Seq<char>, RecordView>,
    mr: Map<Seq<char>, RecordView>,
    next: (Map<Seq<char>, RecordView>, Map<Seq<char>, RecordView>),
    t: Seq<char>,
)
    requires
        sorted_by_path(local),
        sorted_by_path(remote),
        tidy(local, remote, o),
        o.identity_mode == IdentityMode::ContentHash,
        walk_point(local, remote, i, j),
        i < local.len() || j < remote.len(),
        on_the_way(ml, mr, local, remote, i, j, o),
        visit_done(next, ml, mr, local, remote, i, j, o),
        next.0.contains_key(t),
        next.1.contains_key(visit_path(local, remote, i, j)),
        next.0[t].content_hash is Some,
        next.0[t].content_hash == next.1[visit_path(local, remote, i, j)].content_hash,
    ensures
        t == visit_path(local, remote, i, j) || (remote_open(
            local,
            remote,
            next_local(local, remote, i, j),
            next_remote(local, remote, i, j),
            visit_path(local, remote, i, j),
            o,
        ) && local_open(
            local,
            remote,
            next_local(local, remote, i, j),
            next_remote(local, remote, i, j),
            t,
            o,
        )),
{
    let pv = visit_path(local, remote, i, j);
    let i2 = next_local(local, remote, i, j);
    let j2 = next_remote(local, remote, i, j);
    let left_same = left_remote(local, remote, i, j, o);
    let left_other = left_local(local, remote, i, j, o);
    lemma_side_of(local);
    lemma_side_of(remote);
    lemma_walk_on(local, remote, i, j);
    lemma_leads(local, remote);
    lemma_leads(remote, local);
    lemma_sources_ready(local, remote, i, j, o, ml, mr);
    if i < local.len() && j < remote.len() {
        lemma_before_total(local[i].path, remote[j].path);
    }
    if j2 > j {
        lemma_partner_place(local, remote, i, j, false, o);
        assert(remote[j].path == pv);
    } else {
        lemma_absent(remote, j, pv);
    }
    if i2 > i {
        lemma_partner_place(local, remote, i, j, true, o);
        assert(local[i].path == pv);
    } else {
        lemma_absent(local, i, pv);
    }
    lemma_ahead_after(local, remote, i, j, pv);
    lemma_ahead_after(local, remote, i, j, t);
    assert(behind_ok(next.0, next.1, local, remote, i2, j2, pv, o));
    if t != pv {
        assert(ml.contains_key(t) && next.0[t] == ml[t] && left_other != Some(t));
        if ml.contains_key(pv) && next.1[pv].content_hash == ml[pv].content_hash {
            assert(ml[t].content_hash != ml[pv].content_hash);
        } else if left_same is Some && mr.contains_key(left_same->0) && next.1[pv].content_hash
            == mr[left_same->0].content_hash {
            let y = local[i];
            assert(wins_local(y, remote, o));
            let a = first_with_hash(remote, y.content_hash->0, 0);
            assert(mr[left_same->0] == remote[a]);
            assert(!gone_local(y, remote, j, o));
            assert(ml.contains_key(pv) && ml[pv] == y);
            assert(ml[t].content_hash != ml[pv].content_hash);
        } else {
            assert(mr.contains_key(pv) && next.1[pv].content_hash == mr[pv].content_hash);
            assert(local_open(local, remote, i, j, t, o));
            if ahead(local, remote, i, j, t) {
                assert(as_expected(ml, mr, local, remote, i, j, t, o));
            } else {
                assert(behind_ok(ml, mr, local, remote, i, j, t, o));
            }
            assert(side_of(local).contains_key(t) && ml[t] == side_of(local)[t]);
            let k = choose|k: int| 0 <= k < local.len() && (#[trigger] local[k]).path == t;
            let y = local[k];
            assert(ml[t] == y);
            let x = remote[j];
            assert(mr[pv] == x);
            assert(x.content_hash == y.content_hash);
            assert(first_with_hash(local, x.content_hash->0, 0) == k);
            if wins_remote(x, local, o) {
                assert(left_other == Some(t));
            } else {
                assert(loses_remote(x, local, o));
                if k < i {
                    assert(gone_remote(x, local, i, o));
                } else {
                    assert(!side_of(local).contains_key(pv));
                    assert(next_local(local, remote, i, j) == i);
                    assert(pending_remote(x, local, next_local(local, remote, i, j), o));
                    assert(ahead(local, remote, i2, j2, t)) by {
                        assert(local[k].path == t);
                    }
                }
            }
        }
    }
}

/// A path that was open before a visit, that is not the path of the
/// visit and whose file was not moved away at the visit, is open after it.
proof fn lemma_open_after(
    local: Seq<RecordView>,
    remote: Seq<RecordView>,
    i: int,
    j: int,
    o: DiffOptions,
    p: Seq<char>,
)
    requires
        sorted_by_path(local),
        sorted_by_path(remote),
        tidy(local, remote, o),
        walk_point(local, remote, i, j),
        i < local.len() || j < remote.len(),
        p != visit_path(local, remote, i, j),
    ensures
        local_open(local, remote, i, j, p, o) && left_local(local, remote, i, j, o) != Some(p)
            ==> local_open(
            local,
            remote,
            next_local(local, remote, i, j),
            next_remote(local, remote, i, j),
            p,
            o,
        ),
        remote_open(local, remote, i, j, p, o) && left_remote(local, remote, i, j, o) != Some(p)
            ==> remote_open(
            local,
            remote,
            next_local(local, remote, i, j),
            next_remote(local, remote, i, j),
            p,
            o,
        ),
        !ahead(local, remote, i, j, p) ==> {
            &&& side_of(local).contains_key(p) && left_local(local, remote, i, j, o) != Some(p)
                ==> (pending_local(side_of(local)[p], remote, j, o) <==> pending_local(
                side_of(local)[p],
                remote,
                next_remote(local, remote, i, j),
                o,
            ))
            &&& side_of(remote).contains_key(p) && left_remote(local, remote, i, j, o) != Some(p)
                ==> (pending_remote(side_of(remote)[p], local, i, o) <==> pending_remote(
                side_of(remote)[p],
                local,
                next_local(local, remote, i, j),
                o,
            ))
            &&& left_local(local, remote, i, j, o) == Some(p) ==> side_of(local).contains_key(p)
                && pending_local(side_of(local)[p], remote, j, o) && !pending_local(
                side_of(local)[p],
                remote,
                next_remote(local, remote, i, j),
                o,
            ) && !side_of(remote).contains_key(p)
            &&& left_remote(local, remote, i, j, o) == Some(p) ==> side_of(remote).contains_key(p)
                && pending_remote(side_of(remote)[p], local, i, o) && !pending_remote(
                side_of(remote)[p],
                local,
                next_local(local, remote, i, j),
                o,
            ) && !side_of(local).contains_key(p)
        },
{
    let pv = visit_path(local, remote, i, j);
    let i2 = next_local(local, remote, i, j);
    let j2 = next_remote(local, remote, i, j);
    lemma_ahead_after(local, remote, i, j, p);
    lemma_side_of(local);
    lemma_side_of(remote);
    lemma_walk_on(local, remote, i, j);
    if i < local.len() && j < remote.len() {
        lemma_before_total(local[i].path, remote[j].path);
    }
    if o.identity_mode == IdentityMode::ContentHash {
        lemma_leads(local, remote);
        lemma_leads(remote, local);
        if j2 > j {
            lemma_partner_place(local, remote, i, j, false, o);
        }
        if i2 > i {
            lemma_partner_place(local, remote, i, j, true, o);
        }
        if side_of(local).contains_key(p) {
            let a = choose|a: int| 0 <= a < local.len() && (#[trigger] local[a]).path == p;
            let x = local[a];
            assert(side_of(local)[p] == x);
            if pending_local(x, remote, j, o) && !pending_local(x, remote, j2, o) {
                assert(first_with_hash(remote, x.content_hash->0, 0) == j && j2 == j + 1);
                assert(remote[j].content_hash == x.content_hash);
                assert(first_with_hash(local, remote[j].content_hash->0, 0) == a);
                assert(wins_remote(remote[j], local, o));
                assert(left_local(local, remote, i, j, o) == Some(p));
            }
            if left_local(local, remote, i, j, o) == Some(p) {
                let a2 = first_with_hash(local, remote[j].content_hash->0, 0);
                lemma_one_place(local, a, a2);
                assert(first_with_hash(remote, x.content_hash->0, 0) == j);
            }
        }
        if side_of(remote).contains_key(p) {
            let b = choose|b: int| 0 <= b < remote.len() && (#[trigger] remote[b]).path == p;
            let y = remote[b];
            assert(side_of(remote)[p] == y);
            if pending_remote(y, local, i, o) && !pending_remote(y, local, i2, o) {
                assert(first_with_hash(local, y.content_hash->0, 0) == i && i2 == i + 1);
                assert(local[i].content_hash == y.content_hash);
                assert(first_with_hash(remote, local[i].content_hash->0, 0) == b);
                assert(wins_local(local[i], remote, o));
                assert(left_remote(local, remote, i, j, o) == Some(p));
            }
            if left_remote(local, remote, i, j, o) == Some(p) {
                let b2 = first_with_hash(remote, local[i].content_hash->0, 0);
                lemma_one_place(remote, b, b2);
                assert(first_with_hash(local, y.content_hash->0, 0) == i);
            }
        }
    }
}

/// After a visit, no content stands twice on a side, and content that
/// both sides have stands under one path or under two open paths.
#[verifier::rlimit(100)]
proof fn lemma_visit_hashes(
    local: Seq<RecordView>,
    remote: Seq<RecordView>,
    i: int,
    j: int,
    o: DiffOptions,
    ml: Map<Seq<char>, RecordView>,
    mr: Map<Seq<char>, RecordView>,
    next: (Map<Seq<char>, RecordView>, Map<Seq<char>, RecordView>),
)
    requires
        sorted_by_path(local),
        sorted_by_path(remote),
        tidy(local, remote, o),
        walk_point(local, remote, i, j),
        i < local.len() || j < remote.len(),
        on_the_way(ml, mr, local, remote, i, j, o),
        visit_done(next, ml, mr, local, remote, i, j, o),
    ensures
        hashes_kept(
            next.0,
            next.1,
            local,
            remote,
            next_local(local, remote, i, j),
            next_remote(local, remote, i, j),
            o,
        ),
{
    if o.identity_mode == IdentityMode::ContentHash {
        let pv = visit_path(local, remote, i, j);
        let i2 = next_local(local, remote, i, j);
        let j2 = next_remote(local, remote, i, j);
        assert forall|p: Seq<char>, q: Seq<char>|
            #![trigger next.0[p], next.1[q]]
            next.0.contains_key(p) && next.1.contains_key(q) && next.0[p].content_hash is Some
                && next.0[p].content_hash == next.1[q].content_hash implies p == q || (local_open(
            local,
            remote,
            i2,
            j2,
            p,
            o,
        ) && remote_open(local, remote, i2, j2, q, o)) by {
            if p == pv {
                lemma_across_local(local, remote, i, j, o, ml, mr, next, q);
            } else if q == pv {
                lemma_across_remote(local, remote, i, j, o, ml, mr, next, p);
            } else {
                assert(next.0[p] == ml[p] && next.1[q] == mr[q]);
                lemma_open_after(local, remote, i, j, o, p);
                lemma_open_after(local, remote, i, j, o, q);
            }
        }
        assert forall|p: Seq<char>, q: Seq<char>|
            #![trigger next.0[p], next.0[q]]
            next.0.contains_key(p) && next.0.contains_key(q) && p != q && next.0[p].content_hash is Some
                implies next.0[p].content_hash != next.0[q].content_hash by {
            if next.0[p].content_hash == next.0[q].content_hash {
                if p == pv {
                    lemma_once_local(local, remote, i, j, o, ml, mr, next, q);
                } else if q == pv {
                    lemma_once_local(local, remote, i, j, o, ml, mr, next, p);
                } else {
                    assert(next.0[p] == ml[p] && next.0[q] == ml[q]);
                }
            }
        }
        assert forall|p: Seq<char>, q: Seq<char>|
            #![trigger next.1[p], next.1[q]]
            next.1.contains_key(p) && next.1.contains_key(q) && p != q && next.1[p].content_hash is Some
                implies next.1[p].content_hash != next.1[q].content_hash by {
            if next.1[p].content_hash == next.1[q].content_hash {
                if p == pv {
                    lemma_once_remote(local, remote, i, j, o, ml, mr, next, q);
                } else if q == pv {
                    lemma_once_remote(local, remote, i, j, o, ml, mr, next, p);
                } else {
                    assert(next.1[p] == mr[p] && next.1[q] == mr[q]);
                }
            }
        }
    }
}

/// Carrying out the actions of the walk from a point settles every path
/// and leaves no content twice on a side or under two paths.
proof fn lemma_walk_keeps(
    local: Seq<RecordView>,
    remote: Seq<RecordView>,
    i: int,
    j: int,
    o: DiffOptions,
    ml: Map<Seq<char>, RecordView>,
    mr: Map<Seq<char>, RecordView>,
)
    requires
        sorted_by_path(local),
        sorted_by_path(remote),
        tidy(local, remote, o),
        walk_point(local, remote, i, j),
        on_the_way(ml, mr, local, remote, i, j, o),
    ensures
        sides_fit(
            apply_all(ml, mr, merged(local, remote, i, j, o)).0,
            apply_all(ml, mr, merged(local, remote, i, j, o)).1,
            o,
        ),
        forall|p: Seq<char>| #[trigger]
            path_settled(
                apply_all(ml, mr, merged(local, remote, i, j, o)).0,
                apply_all(ml, mr, merged(local, remote, i, j, o)).1,
                p,
                o,
            ),
    decreases (local.len() - i) + (remote.len() - j),
{
    if i >= local.len() && j >= remote.len() {
        lemma_side_of(local);
        lemma_side_of(remote);
        assert forall|p: Seq<char>| #[trigger] path_settled(ml, mr, p, o) by {
            assert(!ahead(local, remote, i, j, p));
            assert(behind_ok(ml, mr, local, remote, i, j, p, o));
            lemma_none_pending(local, remote, i, j, o, p);
        }
        if o.identity_mode == IdentityMode::ContentHash {
            assert forall|p: Seq<char>, q: Seq<char>|
                #![trigger ml[p], mr[q]]
                ml.contains_key(p) && mr.contains_key(q) && ml[p].content_hash is Some
                    && ml[p].content_hash == mr[q].content_hash implies p == q by {
                assert(!ahead(local, remote, i, j, p));
                lemma_none_pending(local, remote, i, j, o, p);
            }
        }
    } else {
        lemma_walk_on(local, remote, i, j);
        let i2 = next_local(local, remote, i, j);
        let j2 = next_remote(local, remote, i, j);
        let pv = visit_path(local, remote, i, j);
        let head = visit_actions(local, remote, i, j, o);
        let tail = merged(local, remote, i2, j2, o);
        assert(merged(local, remote, i, j, o) == head + tail);
        lemma_sources_ready(local, remote, i, j, o, ml, mr);
        lemma_visit_effect(local, remote, i, j, o, ml, mr);
        let next = apply_all(ml, mr, head);
        lemma_visit_hashes(local, remote, i, j, o, ml, mr, next);
        assert forall|p: Seq<char>| #[trigger] ahead(local, remote, i2, j2, p) implies as_expected(
            next.0,
            next.1,
            local,
            remote,
            i2,
            j2,
            p,
            o,
        ) by {
            lemma_ahead_after(local, remote, i, j, p);
            lemma_visit_expected(local, remote, i, j, o, ml, mr, next, p);
        }
        assert forall|p: Seq<char>| !ahead(local, remote, i2, j2, p) implies #[trigger] behind_ok(
            next.0,
            next.1,
            local,
            remote,
            i2,
            j2,
            p,
            o,
        ) by {
            lemma_ahead_after(local, remote, i, j, p);
            if p != pv {
                assert(!ahead(local, remote, i, j, p));
                assert(behind_ok(ml, mr, local, remote, i, j, p, o));
                lemma_behind_kept(local, remote, i, j, o, ml, mr, next, p);
            } else {
                assert(behind_ok(next.0, next.1, local, remote, i2, j2, pv, o));
            }
        }
        lemma_walk_keeps(local, remote, i2, j2, o, next.0, next.1);
        lemma_apply_concat(ml, mr, head, tail);
    }
}

/// At the end of the walk no file is still to be moved away.
proof fn lemma_none_pending(
    local: Seq<RecordView>,
    remote: Seq<RecordView>,
    i: int,
    j: int,
    o: DiffOptions,
    p: Seq<char>,
)
    requires
        i >= local.len(),
        j >= remote.len(),
    ensures
        !local_open(local, remote, i, j, p, o),
        !remote_open(local, remote, i, j, p, o),
{
}

/// A path behind the walk is as is right there after a visit as well.
proof fn lemma_behind_kept(
    local: Seq<RecordView>,
    remote: Seq<RecordView>,
    i: int,
    j: int,
    o: DiffOptions,
    ml: Map<Seq<char>, RecordView>,
    mr: Map<Seq<char>, RecordView>,
    next: (Map<Seq<char>, RecordView>, Map<Seq<char>, RecordView>),
    p: Seq<char>,
)
    requires
        sorted_by_path(local),
        sorted_by_path(remote),
        tidy(local, remote, o),
        walk_point(local, remote, i, j),
        i < local.len() || j < remote.len(),
        visit_done(next, ml, mr, local, remote, i, j, o),
        !ahead(local, remote, i, j, p),
        p != visit_path(local, remote, i, j),
        behind_ok(ml, mr, local, remote, i, j, p, o),
    ensures
        behind_ok(
            next.0,
            next.1,
            local,
            remote,
            next_local(local, remote, i, j),
            next_remote(local, remote, i, j),
            p,
            o,
        ),
{
    let sl = left_local(local, remote, i, j, o);
    let sr = left_remote(local, remote, i, j, o);
    lemma_open_after(local, remote, i, j, o, p);
    assert(next.0.contains_key(p) <==> ml.contains_key(p) && sl != Some(p));
    assert(next.1.contains_key(p) <==> mr.contains_key(p) && sr != Some(p));
    if sl != Some(p) && sr != Some(p) {
        assert(same_at(next, (ml, mr), p));
    }
}

/// Carried out without failure, a plan leaves nothing to do: the plan
/// that is made next, for the same options and from the two sides as they
/// then are, has no action. This holds of every plan by path and
/// attributes, and of every plan by content that is tidy. Left out are,
/// by content: inventories that hold the same content twice on a side; a
/// move to a path that stands after the path that is moved from while
/// the side that wins has a file there as well, which is then written
/// before the move is made; and two moves, one on each side, to one path.
///
/// `local` and `remote` are the inventories that the first plan was made
/// from, `local_after` and `remote_after` those that the second is made
/// from: they hold the files that carrying out the first plan leaves on
/// each side.
pub proof fn lemma_second_plan_is_empty(
    local: Seq<RecordView>,
    remote: Seq<RecordView>,
    local_after: Seq<RecordView>,
    remote_after: Seq<RecordView>,
    o: DiffOptions,
)
    requires
        sorted_by_path(local),
        sorted_by_path(remote),
        sorted_by_path(local_after),
        sorted_by_path(remote_after),
        tidy(files_of(local), files_of(remote), o),
        side_of(files_of(local_after)) == apply_all(
            side_of(files_of(local)),
            side_of(files_of(remote)),
            diff_actions(local, remote, o),
        ).0,
        side_of(files_of(remote_after)) == apply_all(
            side_of(files_of(local)),
            side_of(files_of(remote)),
            diff_actions(local, remote, o),
        ).1,
    ensures
        diff_actions(local_after, remote_after, o) == Seq::<ActionView>::empty(),
{
    let lf = files_of(local);
    let rf = files_of(remote);
    lemma_files_sorted(local);
    lemma_files_sorted(remote);
    lemma_files_sorted(local_after);
    lemma_files_sorted(remote_after);
    lemma_side_of(lf);
    lemma_side_of(rf);
    let ml = side_of(lf);
    let mr = side_of(rf);
    assert forall|p: Seq<char>| !ahead(lf, rf, 0, 0, p) implies #[trigger] behind_ok(
        ml,
        mr,
        lf,
        rf,
        0,
        0,
        p,
        o,
    ) by {
        if ml.contains_key(p) {
            let k = choose|k: int| 0 <= k < lf.len() && (#[trigger] lf[k]).path == p;
            assert(ahead(lf, rf, 0, 0, p));
        }
        if mr.contains_key(p) {
            let k = choose|k: int| 0 <= k < rf.len() && (#[trigger] rf[k]).path == p;
            assert(ahead(lf, rf, 0, 0, p));
        }
    }
    assert forall|p: Seq<char>| #[trigger] ahead(lf, rf, 0, 0, p) implies as_expected(
        ml,
        mr,
        lf,
        rf,
        0,
        0,
        p,
        o,
    ) by {
        if ml.contains_key(p) && ml[p].content_hash is Some {
            lemma_first_with_hash(rf, ml[p].content_hash->0, 0);
        }
        if mr.contains_key(p) && mr[p].content_hash is Some {
            lemma_first_with_hash(lf, mr[p].content_hash->0, 0);
        }
    }
    if o.identity_mode == IdentityMode::ContentHash {
        assert forall|p: Seq<char>, q: Seq<char>|
            #![trigger ml[p], ml[q]]
            ml.contains_key(p) && ml.contains_key(q) && p != q && ml[p].content_hash is Some
                implies ml[p].content_hash != ml[q].content_hash by {
            let a = choose|a: int| 0 <= a < lf.len() && (#[trigger] lf[a]).path == p;
            let b = choose|b: int| 0 <= b < lf.len() && (#[trigger] lf[b]).path == q;
            assert(ml[p] == lf[a] && ml[q] == lf[b]);
        }
        assert forall|p: Seq<char>, q: Seq<char>|
            #![trigger mr[p], mr[q]]
            mr.contains_key(p) && mr.contains_key(q) && p != q && mr[p].content_hash is Some
                implies mr[p].content_hash != mr[q].content_hash by {
            let a = choose|a: int| 0 <= a < rf.len() && (#[trigger] rf[a]).path == p;
            let b = choose|b: int| 0 <= b < rf.len() && (#[trigger] rf[b]).path == q;
            assert(mr[p] == rf[a] && mr[q] == rf[b]);
        }
        assert forall|p: Seq<char>, q: Seq<char>|
            #![trigger ml[p], mr[q]]
            ml.contains_key(p) && mr.contains_key(q) && ml[p].content_hash is Some
                && ml[p].content_hash == mr[q].content_hash implies p == q || (local_open(
            lf,
            rf,
            0,
            0,
            p,
            o,
        ) && remote_open(lf, rf, 0, 0, q, o)) by {
            let a = choose|a: int| 0 <= a < lf.len() && (#[trigger] lf[a]).path == p;
            let b = choose|b: int| 0 <= b < rf.len() && (#[trigger] rf[b]).path == q;
            assert(ahead(lf, rf, 0, 0, p));
            assert(ahead(lf, rf, 0, 0, q));
        }
    }
    lemma_walk_keeps(lf, rf, 0, 0, o, ml, mr);
    lemma_apart(files_of(local_after), files_of(remote_after));
    lemma_settled_gives_nothing(files_of(local_after), files_of(remote_after), 0, 0, o);
}

} // verus!
