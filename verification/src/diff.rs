//! The comparison of two inventories: which actions bring the two sides
//! together, for a direction and a way of telling files apart.

use crate::action::{
    action_views, mirrored_all, reason_text, summarize, summary_of, transfer_bytes,
    ActionDirection, ActionKind, ActionView, SyncAction, SyncPlanSummary, SyncReason,
};
use crate::inventory::{entry_views, sorted_by_path, Entry, Inventory, RecordView};
use crate::order::{
    lemma_before_irreflexive, lemma_before_total, lemma_before_transitive, place, text_before,
    Place,
};
use crate::text::copy_range;
use crate::text::from_chars;
use vstd::prelude::*;

verus! {

/// Which side gives and which side takes.
#[derive(Clone, Copy, Debug, PartialEq, Eq, Structural)]
pub enum SyncDirection {
    /// The local side is the source; the remote side is made like it.
    LocalToRemote,
    /// The remote side is the source; the local side is made like it.
    RemoteToLocal,
    /// Each file goes to the side that lacks it, and of two versions the
    /// one changed last wins.
    Bidirectional,
}

/// How two records are told to be the same file.
#[derive(Clone, Copy, Debug, PartialEq, Eq, Structural)]
pub enum IdentityMode {
    /// By path; the versions differ by size and time.
    PathAttributes,
    /// By the digest of the content, wherever it is known.
    ContentHash,
}

/// What a comparison is made for.
#[derive(Clone, Copy, Debug, PartialEq, Eq, Structural)]
pub struct DiffOptions {
    pub direction: SyncDirection,
    pub identity_mode: IdentityMode,
    /// In a one-way direction, remove from the destination what the
    /// source does not have.
    pub delete_missing: bool,
}

/// The records of `inv` that are files, in order.
pub open spec fn files_of(inv: Seq<RecordView>) -> Seq<RecordView>
    decreases inv.len(),
{
    if inv.len() == 0 {
        Seq::empty()
    } else if inv.last().is_directory {
        files_of(inv.drop_last())
    } else {
        files_of(inv.drop_last()).push(inv.last())
    }
}

/// The place of the first record of `inv`, from `from` on, whose content
/// has the digest `h`; `inv.len()` where there is none.
pub open spec fn first_with_hash(inv: Seq<RecordView>, h: u128, from: int) -> int
    decreases inv.len() - from,
{
    if from >= inv.len() {
        inv.len() as int
    } else if inv[from].content_hash == Some(h) {
        from
    } else {
        first_with_hash(inv, h, from + 1)
    }
}

/// The content of `x` is known and stands somewhere in `other`.
pub open spec fn matched(x: RecordView, other: Seq<RecordView>) -> bool {
    match x.content_hash {
        Some(h) => first_with_hash(other, h, 0) < other.len(),
        None => false,
    }
}

/// The record at `i` is the first of `inv` with its content: the one that
/// stands for it.
pub open spec fn is_lead(inv: Seq<RecordView>, i: int) -> bool {
    match inv[i].content_hash {
        Some(h) => first_with_hash(inv, h, 0) == i,
        None => false,
    }
}

/// The record of `other` that stands for the content of `x`.
pub open spec fn lead_for(x: RecordView, other: Seq<RecordView>) -> RecordView {
    other[first_with_hash(other, x.content_hash->0, 0)]
}

/// Of a local and a remote version, the local one is the source: always
/// from local to remote, never from remote to local, and in both
/// directions where it was not changed before the remote one.
pub open spec fn local_wins(l: RecordView, r: RecordView, d: SyncDirection) -> bool {
    match d {
        SyncDirection::LocalToRemote => true,
        SyncDirection::RemoteToLocal => false,
        SyncDirection::Bidirectional => l.modified_time >= r.modified_time,
    }
}

/// Two records of one path differ by their attributes: in size, or in
/// that the source was changed later; in both directions, in size or time.
pub open spec fn attributes_differ(l: RecordView, r: RecordView, d: SyncDirection) -> bool {
    l.size != r.size || match d {
        SyncDirection::LocalToRemote => l.modified_time > r.modified_time,
        SyncDirection::RemoteToLocal => r.modified_time > l.modified_time,
        SyncDirection::Bidirectional => l.modified_time != r.modified_time,
    }
}

/// The action that brings the file `source` to the side `toward`.
pub open spec fn transfer(
    kind: ActionKind,
    source: RecordView,
    toward: ActionDirection,
    reason: SyncReason,
) -> ActionView {
    ActionView {
        file_path: source.path,
        kind,
        direction: Some(toward),
        size: source.size,
        reason: reason_text(reason),
        rename_from: None,
    }
}

/// The action that replaces the losing version of two by the winning one.
pub open spec fn update_between(
    l: RecordView,
    r: RecordView,
    d: SyncDirection,
    reason: SyncReason,
) -> ActionView {
    if local_wins(l, r, d) {
        transfer(ActionKind::Update, l, ActionDirection::ToRemote, reason)
    } else {
        transfer(ActionKind::Update, r, ActionDirection::ToLocal, reason)
    }
}

/// The action that, on the side `on`, moves the file at `from` to the
/// path of `winner`, whose content it has.
pub open spec fn rename_to(winner: RecordView, from: Seq<char>, on: ActionDirection) -> ActionView {
    ActionView {
        file_path: winner.path,
        kind: ActionKind::Rename,
        direction: Some(on),
        size: winner.size,
        reason: reason_text(SyncReason::Moved),
        rename_from: Some(from),
    }
}

/// The action that removes `x` from the side `on`.
pub open spec fn removal(x: RecordView, on: ActionDirection) -> ActionView {
    ActionView {
        file_path: x.path,
        kind: ActionKind::Delete,
        direction: Some(on),
        size: 0,
        reason: reason_text(SyncReason::MissingOnSource),
        rename_from: None,
    }
}

/// Why two versions that differ by their attributes are brought together.
pub open spec fn attribute_reason(l: RecordView, r: RecordView) -> SyncReason {
    if l.size != r.size {
        SyncReason::SizeDiffers
    } else {
        SyncReason::SourceNewer
    }
}

/// The rename that the local file at `i` asks of the remote side: its
/// content is on the remote side under another path, it stands for that
/// content, and it wins over the remote file that does.
pub open spec fn remote_rename(
    local: Seq<RecordView>,
    remote: Seq<RecordView>,
    i: int,
    o: DiffOptions,
) -> Seq<ActionView> {
    let l = local[i];
    let r = lead_for(l, remote);
    if o.identity_mode == IdentityMode::ContentHash && matched(l, remote) && is_lead(local, i)
        && r.path != l.path && local_wins(l, r, o.direction) {
        seq![rename_to(l, r.path, ActionDirection::ToRemote)]
    } else {
        Seq::empty()
    }
}

/// The rename that the remote file at `j` asks of the local side.
pub open spec fn local_rename(
    local: Seq<RecordView>,
    remote: Seq<RecordView>,
    j: int,
    o: DiffOptions,
) -> Seq<ActionView> {
    let r = remote[j];
    let l = lead_for(r, local);
    if o.identity_mode == IdentityMode::ContentHash && matched(r, local) && is_lead(remote, j)
        && l.path != r.path && !local_wins(l, r, o.direction) {
        seq![rename_to(r, l.path, ActionDirection::ToLocal)]
    } else {
        Seq::empty()
    }
}

/// The record is reconciled by its content: digests are compared, and
/// its digest stands on the other side.
pub open spec fn by_content(x: RecordView, other: Seq<RecordView>, o: DiffOptions) -> bool {
    o.identity_mode == IdentityMode::ContentHash && matched(x, other)
}

/// The actions for the local file at `i`, whose path the remote side does
/// not have. Content that the remote side has under another path is
/// moved, not copied, and further files with that content are left alone.
/// Else the file is copied to the remote side; but where the remote side
/// is the source, it is removed if asked and left otherwise.
#[verifier::opaque]
pub open spec fn local_only(
    local: Seq<RecordView>,
    remote: Seq<RecordView>,
    i: int,
    o: DiffOptions,
) -> Seq<ActionView> {
    let l = local[i];
    if by_content(l, remote, o) {
        remote_rename(local, remote, i, o)
    } else if o.direction == SyncDirection::RemoteToLocal {
        if o.delete_missing {
            seq![removal(l, ActionDirection::ToLocal)]
        } else {
            Seq::empty()
        }
    } else {
        seq![
            transfer(
                ActionKind::Copy,
                l,
                ActionDirection::ToRemote,
                SyncReason::MissingOnDestination,
            ),
        ]
    }
}

/// The actions for the remote file at `j`, whose path the local side does
/// not have.
#[verifier::opaque]
pub open spec fn remote_only(
    local: Seq<RecordView>,
    remote: Seq<RecordView>,
    j: int,
    o: DiffOptions,
) -> Seq<ActionView> {
    let r = remote[j];
    if by_content(r, local, o) {
        local_rename(local, remote, j, o)
    } else if o.direction == SyncDirection::LocalToRemote {
        if o.delete_missing {
            seq![removal(r, ActionDirection::ToRemote)]
        } else {
            Seq::empty()
        }
    } else {
        seq![
            transfer(
                ActionKind::Copy,
                r,
                ActionDirection::ToLocal,
                SyncReason::MissingOnDestination,
            ),
        ]
    }
}

/// The copy that the local file at `i` asks for where the remote side has
/// its path under other content: the file's own content stands on no
/// other path of the remote side, and the local side gives.
pub open spec fn lone_local(
    local: Seq<RecordView>,
    remote: Seq<RecordView>,
    i: int,
    o: DiffOptions,
) -> Seq<ActionView> {
    if !by_content(local[i], remote, o) && o.direction != SyncDirection::RemoteToLocal {
        seq![
            transfer(
                ActionKind::Copy,
                local[i],
                ActionDirection::ToRemote,
                SyncReason::MissingOnDestination,
            ),
        ]
    } else {
        Seq::empty()
    }
}

/// The copy that the remote file at `j` asks for where the local side has
/// its path under other content.
pub open spec fn lone_remote(
    local: Seq<RecordView>,
    remote: Seq<RecordView>,
    j: int,
    o: DiffOptions,
) -> Seq<ActionView> {
    if !by_content(remote[j], local, o) && o.direction != SyncDirection::LocalToRemote {
        seq![
            transfer(
                ActionKind::Copy,
                remote[j],
                ActionDirection::ToLocal,
                SyncReason::MissingOnDestination,
            ),
        ]
    } else {
        Seq::empty()
    }
}

/// The actions for a path that both sides have, at `i` and at `j`. Where
/// the content of either file stands on the other side, the files are
/// reconciled by content: first by the renames that bring content to this
/// path, and then, where the content of one of the two files stands on
/// its own side only, by the copy of that file to the other side, whose
/// file of this path has its content elsewhere. Else two known digests,
/// which differ, ask for an update, and without them the attributes
/// decide.
#[verifier::opaque]
pub open spec fn both_sides(
    local: Seq<RecordView>,
    remote: Seq<RecordView>,
    i: int,
    j: int,
    o: DiffOptions,
) -> Seq<ActionView> {
    let l = local[i];
    let r = remote[j];
    if by_content(l, remote, o) || by_content(r, local, o) {
        remote_rename(local, remote, i, o) + local_rename(local, remote, j, o) + lone_local(
            local,
            remote,
            i,
            o,
        ) + lone_remote(local, remote, j, o)
    } else if o.identity_mode == IdentityMode::ContentHash && l.content_hash is Some
        && r.content_hash is Some {
        seq![update_between(l, r, o.direction, SyncReason::ContentDiffers)]
    } else if attributes_differ(l, r, o.direction) {
        seq![update_between(l, r, o.direction, attribute_reason(l, r))]
    } else {
        Seq::empty()
    }
}

/// The actions for the files from `i` and `j` on, in the order of their
/// paths: the two inventories are walked together, and each path is dealt
/// with as it stands on one side or on both.
pub open spec fn merged(
    local: Seq<RecordView>,
    remote: Seq<RecordView>,
    i: int,
    j: int,
    o: DiffOptions,
) -> Seq<ActionView>
    decreases
            (if i < local.len() {
                local.len() - i
            } else {
                0
            }) + (if j < remote.len() {
                remote.len() - j
            } else {
                0
            }),
{
    if i >= local.len() && j >= remote.len() {
        Seq::empty()
    } else if j >= remote.len() {
        local_only(local, remote, i, o) + merged(local, remote, i + 1, j, o)
    } else if i >= local.len() {
        remote_only(local, remote, j, o) + merged(local, remote, i, j + 1, o)
    } else if text_before(local[i].path, remote[j].path) {
        local_only(local, remote, i, o) + merged(local, remote, i + 1, j, o)
    } else if text_before(remote[j].path, local[i].path) {
        remote_only(local, remote, j, o) + merged(local, remote, i, j + 1, o)
    } else {
        both_sides(local, remote, i, j, o) + merged(local, remote, i + 1, j + 1, o)
    }
}

/// The actions that bring the two inventories together. Directories take
/// no part.
pub open spec fn diff_actions(
    local: Seq<RecordView>,
    remote: Seq<RecordView>,
    o: DiffOptions,
) -> Seq<ActionView> {
    merged(files_of(local), files_of(remote), 0, 0, o)
}

/// The paths of the actions do not descend.
pub open spec fn paths_ascend(actions: Seq<ActionView>) -> bool {
    forall|a: int, b: int|
        0 <= a < b < actions.len() ==> !text_before(
            #[trigger] actions[b].file_path,
            #[trigger] actions[a].file_path,
        )
}

/// The action is one that a comparison for `o` can plan: it changes a
/// side, and in a one-way direction the side that takes; nothing is set
/// aside; only a rename tells where a file was before, and there is none
/// where files are told apart by path; and a file is removed, at no cost
/// in bytes, only where that was asked for in a one-way direction.
pub open spec fn planned_for(a: ActionView, o: DiffOptions) -> bool {
    &&& a.kind != ActionKind::Skip
    &&& a.direction is Some
    &&& o.direction == SyncDirection::LocalToRemote ==> a.direction == Some(
        ActionDirection::ToRemote,
    )
    &&& o.direction == SyncDirection::RemoteToLocal ==> a.direction == Some(
        ActionDirection::ToLocal,
    )
    &&& a.rename_from is Some <==> a.kind == ActionKind::Rename
    &&& a.kind == ActionKind::Rename ==> o.identity_mode == IdentityMode::ContentHash
    &&& a.kind == ActionKind::Delete ==> a.size == 0 && o.delete_missing && o.direction
        != SyncDirection::Bidirectional
}

/// Every action is one that a comparison for `o` can plan.
pub open spec fn all_planned_for(actions: Seq<ActionView>, o: DiffOptions) -> bool {
    forall|k: int| 0 <= k < actions.len() ==> planned_for(#[trigger] actions[k], o)
}

/// No action occurs twice.
pub open spec fn no_repeats(actions: Seq<ActionView>) -> bool {
    forall|a: int, b: int| 0 <= a < b < actions.len() ==> actions[a] != actions[b]
}

/// A plan: the actions in the order of their paths, and their totals.
#[derive(Debug)]
pub struct SyncPlan {
    pub actions: Vec<SyncAction>,
    pub summary: SyncPlanSummary,
}

fn emit(out: &mut Vec<SyncAction>, a: SyncAction)
    ensures
        action_views(final(out)@) == action_views(old(out)@) + seq![a@],
{
    out.push(a);
}

fn lead_index(inv: &Vec<Entry>, h: u128) -> (k: usize)
    ensures
        k as int == first_with_hash(entry_views(inv@), h, 0),
        k <= inv.len(),
{
    let mut k: usize = 0;
    while k < inv.len()
        invariant
            k <= inv.len(),
            first_with_hash(entry_views(inv@), h, 0) == first_with_hash(
                entry_views(inv@),
                h,
                k as int,
            ),
        decreases inv.len() - k,
    {
        match inv[k].content_hash {
            Some(x) => {
                if x == h {
                    return k;
                }
            },
            None => {},
        }
        k += 1;
    }
    k
}

fn is_matched(x: &Entry, other: &Vec<Entry>) -> (r: bool)
    ensures
        r == matched(x@, entry_views(other@)),
{
    match x.content_hash {
        Some(h) => lead_index(other, h) < other.len(),
        None => false,
    }
}

fn wins(l: &Entry, r: &Entry, d: SyncDirection) -> (b: bool)
    ensures
        b == local_wins(l@, r@, d),
{
    match d {
        SyncDirection::LocalToRemote => true,
        SyncDirection::RemoteToLocal => false,
        SyncDirection::Bidirectional => l.modified_time >= r.modified_time,
    }
}

fn differ(l: &Entry, r: &Entry, d: SyncDirection) -> (b: bool)
    ensures
        b == attributes_differ(l@, r@, d),
{
    l.size != r.size || match d {
        SyncDirection::LocalToRemote => l.modified_time > r.modified_time,
        SyncDirection::RemoteToLocal => r.modified_time > l.modified_time,
        SyncDirection::Bidirectional => l.modified_time != r.modified_time,
    }
}

fn make_transfer(
    kind: ActionKind,
    source: &Entry,
    toward: ActionDirection,
    reason: SyncReason,
) -> (a: SyncAction)
    ensures
        a@ == transfer(kind, source@, toward, reason),
{
    SyncAction {
        file_path: from_chars(source.path.as_slice()),
        kind,
        direction: Some(toward),
        size: source.size,
        reason: reason.describe(),
        rename_from: None,
    }
}

fn make_update(l: &Entry, r: &Entry, d: SyncDirection, reason: SyncReason) -> (a: SyncAction)
    ensures
        a@ == update_between(l@, r@, d, reason),
{
    if wins(l, r, d) {
        make_transfer(ActionKind::Update, l, ActionDirection::ToRemote, reason)
    } else {
        make_transfer(ActionKind::Update, r, ActionDirection::ToLocal, reason)
    }
}

fn make_rename(winner: &Entry, from: &Entry, on: ActionDirection) -> (a: SyncAction)
    ensures
        a@ == rename_to(winner@, from@.path, on),
{
    SyncAction {
        file_path: from_chars(winner.path.as_slice()),
        kind: ActionKind::Rename,
        direction: Some(on),
        size: winner.size,
        reason: SyncReason::Moved.describe(),
        rename_from: Some(from_chars(from.path.as_slice())),
    }
}

fn make_removal(x: &Entry, on: ActionDirection) -> (a: SyncAction)
    ensures
        a@ == removal(x@, on),
{
    SyncAction {
        file_path: from_chars(x.path.as_slice()),
        kind: ActionKind::Delete,
        direction: Some(on),
        size: 0,
        reason: SyncReason::MissingOnSource.describe(),
        rename_from: None,
    }
}

fn emit_remote_rename(
    local: &Vec<Entry>,
    remote: &Vec<Entry>,
    i: usize,
    o: DiffOptions,
    out: &mut Vec<SyncAction>,
)
    requires
        i < local.len(),
    ensures
        action_views(final(out)@) == action_views(old(out)@) + remote_rename(
            entry_views(local@),
            entry_views(remote@),
            i as int,
            o,
        ),
{
    let l = &local[i];
    match o.identity_mode {
        IdentityMode::ContentHash => {
            match l.content_hash {
                Some(h) => {
                    let k = lead_index(remote, h);
                    if k < remote.len() && lead_index(local, h) == i {
                        let r = &remote[k];
                        match place(r.path.as_slice(), l.path.as_slice()) {
                            Place::Same => {},
                            _ => {
                                if wins(l, r, o.direction) {
                                    emit(out, make_rename(l, r, ActionDirection::ToRemote));
                                }
                            },
                        }
                    }
                },
                None => {},
            }
        },
        IdentityMode::PathAttributes => {},
    }
}

fn emit_local_rename(
    local: &Vec<Entry>,
    remote: &Vec<Entry>,
    j: usize,
    o: DiffOptions,
    out: &mut Vec<SyncAction>,
)
    requires
        j < remote.len(),
    ensures
        action_views(final(out)@) == action_views(old(out)@) + local_rename(
            entry_views(local@),
            entry_views(remote@),
            j as int,
            o,
        ),
{
    let r = &remote[j];
    match o.identity_mode {
        IdentityMode::ContentHash => {
            match r.content_hash {
                Some(h) => {
                    let k = lead_index(local, h);
                    if k < local.len() && lead_index(remote, h) == j {
                        let l = &local[k];
                        match place(l.path.as_slice(), r.path.as_slice()) {
                            Place::Same => {},
                            _ => {
                                if !wins(l, r, o.direction) {
                                    emit(out, make_rename(r, l, ActionDirection::ToLocal));
                                }
                            },
                        }
                    }
                },
                None => {},
            }
        },
        IdentityMode::PathAttributes => {},
    }
}

fn reconciled_by_content(x: &Entry, other: &Vec<Entry>, o: DiffOptions) -> (b: bool)
    ensures
        b == by_content(x@, entry_views(other@), o),
{
    match o.identity_mode {
        IdentityMode::ContentHash => is_matched(x, other),
        IdentityMode::PathAttributes => false,
    }
}

fn emit_local_only(
    local: &Vec<Entry>,
    remote: &Vec<Entry>,
    i: usize,
    o: DiffOptions,
    out: &mut Vec<SyncAction>,
)
    requires
        i < local.len(),
    ensures
        action_views(final(out)@) == action_views(old(out)@) + local_only(
            entry_views(local@),
            entry_views(remote@),
            i as int,
            o,
        ),
{
    let l = &local[i];
    proof {
        reveal(local_only);
    }
    if reconciled_by_content(l, remote, o) {
        emit_remote_rename(local, remote, i, o, out);
    } else {
        match o.direction {
            SyncDirection::RemoteToLocal => {
                if o.delete_missing {
                    emit(out, make_removal(l, ActionDirection::ToLocal));
                }
            },
            _ => {
                emit(
                    out,
                    make_transfer(
                        ActionKind::Copy,
                        l,
                        ActionDirection::ToRemote,
                        SyncReason::MissingOnDestination,
                    ),
                );
            },
        }
    }
}

fn emit_remote_only(
    local: &Vec<Entry>,
    remote: &Vec<Entry>,
    j: usize,
    o: DiffOptions,
    out: &mut Vec<SyncAction>,
)
    requires
        j < remote.len(),
    ensures
        action_views(final(out)@) == action_views(old(out)@) + remote_only(
            entry_views(local@),
            entry_views(remote@),
            j as int,
            o,
        ),
{
    let r = &remote[j];
    proof {
        reveal(remote_only);
    }
    if reconciled_by_content(r, local, o) {
        emit_local_rename(local, remote, j, o, out);
    } else {
        match o.direction {
            SyncDirection::LocalToRemote => {
                if o.delete_missing {
                    emit(out, make_removal(r, ActionDirection::ToRemote));
                }
            },
            _ => {
                emit(
                    out,
                    make_transfer(
                        ActionKind::Copy,
                        r,
                        ActionDirection::ToLocal,
                        SyncReason::MissingOnDestination,
                    ),
                );
            },
        }
    }
}

fn emit_both_sides(
    local: &Vec<Entry>,
    remote: &Vec<Entry>,
    i: usize,
    j: usize,
    o: DiffOptions,
    out: &mut Vec<SyncAction>,
)
    requires
        i < local.len(),
        j < remote.len(),
    ensures
        action_views(final(out)@) == action_views(old(out)@) + both_sides(
            entry_views(local@),
            entry_views(remote@),
            i as int,
            j as int,
            o,
        ),
{
    let l = &local[i];
    let r = &remote[j];
    proof {
        reveal(both_sides);
    }
    let l_by_content = reconciled_by_content(l, remote, o);
    let r_by_content = reconciled_by_content(r, local, o);
    if l_by_content || r_by_content {
        let ghost before = action_views(out@);
        let ghost ls = entry_views(local@);
        let ghost rs = entry_views(remote@);
        emit_remote_rename(local, remote, i, o, out);
        emit_local_rename(local, remote, j, o, out);
        if !l_by_content {
            match o.direction {
                SyncDirection::RemoteToLocal => {},
                _ => {
                    emit(
                        out,
                        make_transfer(
                            ActionKind::Copy,
                            l,
                            ActionDirection::ToRemote,
                            SyncReason::MissingOnDestination,
                        ),
                    );
                },
            }
        }
        if !r_by_content {
            match o.direction {
                SyncDirection::LocalToRemote => {},
                _ => {
                    emit(
                        out,
                        make_transfer(
                            ActionKind::Copy,
                            r,
                            ActionDirection::ToLocal,
                            SyncReason::MissingOnDestination,
                        ),
                    );
                },
            }
        }
        assert(action_views(out@) =~= before + (remote_rename(ls, rs, i as int, o) + local_rename(
            ls,
            rs,
            j as int,
            o,
        ) + lone_local(ls, rs, i as int, o) + lone_remote(ls, rs, j as int, o)));
        return ;
    }
    let both_hashed = match o.identity_mode {
        IdentityMode::ContentHash => l.content_hash.is_some() && r.content_hash.is_some(),
        IdentityMode::PathAttributes => false,
    };
    if both_hashed {
        emit(out, make_update(l, r, o.direction, SyncReason::ContentDiffers));
    } else if differ(l, r, o.direction) {
        let reason = if l.size != r.size {
            SyncReason::SizeDiffers
        } else {
            SyncReason::SourceNewer
        };
        emit(out, make_update(l, r, o.direction, reason));
    }
}

/// Walks two lists of files together and gives the actions in the order
/// of their paths.
fn merge_files(local: &Vec<Entry>, remote: &Vec<Entry>, o: DiffOptions) -> (out: Vec<SyncAction>)
    ensures
        action_views(out@) == merged(entry_views(local@), entry_views(remote@), 0, 0, o),
{
    let ghost ls = entry_views(local@);
    let ghost rs = entry_views(remote@);
    let mut out: Vec<SyncAction> = Vec::new();
    let mut i: usize = 0;
    let mut j: usize = 0;
    while i < local.len() || j < remote.len()
        invariant
            i <= local.len(),
            j <= remote.len(),
            ls == entry_views(local@),
            rs == entry_views(remote@),
            action_views(out@) + merged(ls, rs, i as int, j as int, o) == merged(ls, rs, 0, 0, o),
        decreases (local.len() - i) + (remote.len() - j),
    {
        let which: Place = if j >= remote.len() {
            Place::Before
        } else if i >= local.len() {
            Place::After
        } else {
            place(local[i].path.as_slice(), remote[j].path.as_slice())
        };
        match which {
            Place::Before => {
                emit_local_only(local, remote, i, o, &mut out);
                i += 1;
            },
            Place::After => {
                emit_remote_only(local, remote, j, o, &mut out);
                j += 1;
            },
            Place::Same => {
                emit_both_sides(local, remote, i, j, o, &mut out);
                i += 1;
                j += 1;
            },
        }
    }
    out
}

/// Each file of an inventory is one of its records, and the files of a
/// sorted inventory are sorted.
pub proof fn lemma_files_sorted(inv: Seq<RecordView>)
    requires
        sorted_by_path(inv),
    ensures
        sorted_by_path(files_of(inv)),
        forall|k: int|
            0 <= k < files_of(inv).len() ==> exists|m: int|
                0 <= m < inv.len() && inv[m] == #[trigger] files_of(inv)[k],
    decreases inv.len(),
{
    if inv.len() > 0 {
        let shorter = inv.drop_last();
        assert forall|i: int, j: int| 0 <= i < j < shorter.len() implies text_before(
            #[trigger] shorter[i].path,
            #[trigger] shorter[j].path,
        ) by {
            assert(shorter[i] == inv[i] && shorter[j] == inv[j]);
        }
        lemma_files_sorted(shorter);
        let rest = files_of(shorter);
        let all = files_of(inv);
        assert forall|k: int| 0 <= k < all.len() implies exists|m: int|
            0 <= m < inv.len() && inv[m] == #[trigger] all[k] by {
            if k < rest.len() {
                let m = choose|m: int| 0 <= m < shorter.len() && shorter[m] == rest[k];
                assert(inv[m] == all[k]);
            } else {
                assert(inv[inv.len() - 1] == all[k]);
            }
        }
        assert forall|i: int, j: int| 0 <= i < j < all.len() implies text_before(
            #[trigger] all[i].path,
            #[trigger] all[j].path,
        ) by {
            if j < rest.len() {
                assert(all[i] == rest[i] && all[j] == rest[j]);
            } else {
                let m = choose|m: int| 0 <= m < shorter.len() && shorter[m] == rest[i];
                assert(inv[m] == all[i]);
                assert(all[j] == inv[inv.len() - 1]);
            }
        }
    }
}

/// `p` is the path of a local file at or after `i`, or of a remote file
/// at or after `j`.
pub open spec fn path_ahead(
    local: Seq<RecordView>,
    remote: Seq<RecordView>,
    i: int,
    j: int,
    p: Seq<char>,
) -> bool {
    ||| exists|a: int| i <= a < local.len() && (#[trigger] local[a]).path == p
    ||| exists|b: int| j <= b < remote.len() && (#[trigger] remote[b]).path == p
}

/// A path ahead of a later point is ahead of an earlier one.
proof fn lemma_path_ahead_weakens(
    local: Seq<RecordView>,
    remote: Seq<RecordView>,
    i: int,
    j: int,
    i2: int,
    j2: int,
    p: Seq<char>,
)
    requires
        i <= i2,
        j <= j2,
        path_ahead(local, remote, i2, j2, p),
    ensures
        path_ahead(local, remote, i, j, p),
{
}

/// No path ahead of the point after a visit stands before the path that
/// was visited, or is that path.
proof fn lemma_ahead_not_before(
    local: Seq<RecordView>,
    remote: Seq<RecordView>,
    i2: int,
    j2: int,
    visited: Seq<char>,
    p: Seq<char>,
)
    requires
        sorted_by_path(local),
        sorted_by_path(remote),
        0 <= i2,
        0 <= j2,
        forall|a: int| i2 <= a < local.len() ==> text_before(visited, #[trigger] local[a].path),
        forall|b: int| j2 <= b < remote.len() ==> text_before(visited, #[trigger] remote[b].path),
        path_ahead(local, remote, i2, j2, p),
    ensures
        !text_before(p, visited),
        p != visited,
{
    lemma_before_total(p, visited);
    lemma_before_irreflexive(visited);
}

/// The paths of the actions for two sorted inventories do not descend, no
/// action occurs twice, and the path of each is that of a file that was
/// still ahead.
pub proof fn lemma_merged_ascends(
    local: Seq<RecordView>,
    remote: Seq<RecordView>,
    i: int,
    j: int,
    o: DiffOptions,
)
    requires
        sorted_by_path(local),
        sorted_by_path(remote),
        0 <= i <= local.len(),
        0 <= j <= remote.len(),
    ensures
        paths_ascend(merged(local, remote, i, j, o)),
        no_repeats(merged(local, remote, i, j, o)),
        forall|k: int|
            0 <= k < merged(local, remote, i, j, o).len() ==> path_ahead(
                local,
                remote,
                i,
                j,
                #[trigger] merged(local, remote, i, j, o)[k].file_path,
            ),
    decreases (local.len() - i) + (remote.len() - j),
{
    reveal(local_only);
    reveal(remote_only);
    reveal(both_sides);
    let all = merged(local, remote, i, j, o);
    if i < local.len() || j < remote.len() {
        let take_local = j >= remote.len() || (i < local.len() && text_before(
            local[i].path,
            remote[j].path,
        ));
        let take_remote = !take_local && (i >= local.len() || text_before(
            remote[j].path,
            local[i].path,
        ));
        let i2 = if take_remote {
            i
        } else {
            i + 1
        };
        let j2 = if take_local {
            j
        } else {
            j + 1
        };
        let head = if take_local {
            local_only(local, remote, i, o)
        } else if take_remote {
            remote_only(local, remote, j, o)
        } else {
            both_sides(local, remote, i, j, o)
        };
        let visited = if take_remote {
            remote[j].path
        } else {
            local[i].path
        };
        lemma_merged_ascends(local, remote, i2, j2, o);
        if !take_local && !take_remote {
            lemma_before_total(local[i].path, remote[j].path);
        }
        assert forall|k: int| 0 <= k < head.len() implies (#[trigger] head[k]).file_path
            == visited by {}
        assert forall|a: int| i2 <= a < local.len() implies text_before(
            visited,
            #[trigger] local[a].path,
        ) by {
            if take_remote && a > i {
                lemma_before_transitive(remote[j].path, local[i].path, local[a].path);
            }
        }
        assert forall|b: int| j2 <= b < remote.len() implies text_before(
            visited,
            #[trigger] remote[b].path,
        ) by {
            if take_local && b > j {
                lemma_before_transitive(local[i].path, remote[j].path, remote[b].path);
            }
        }
        assert forall|k: int| 0 <= k < all.len() implies path_ahead(
            local,
            remote,
            i,
            j,
            #[trigger] all[k].file_path,
        ) by {
            if k >= head.len() {
                lemma_path_ahead_weakens(local, remote, i, j, i2, j2, all[k].file_path);
            }
        }
        assert forall|a: int, b: int| 0 <= a < b < all.len() implies !text_before(
            #[trigger] all[b].file_path,
            #[trigger] all[a].file_path,
        ) && all[a] != all[b] by {
            if b < head.len() {
                lemma_before_irreflexive(visited);
            } else if a < head.len() {
                lemma_ahead_not_before(local, remote, i2, j2, visited, all[b].file_path);
            }
        }
    }
}

/// Every action of a comparison is one that it can plan.
pub proof fn lemma_merged_planned(
    local: Seq<RecordView>,
    remote: Seq<RecordView>,
    i: int,
    j: int,
    o: DiffOptions,
)
    requires
        0 <= i,
        0 <= j,
    ensures
        all_planned_for(merged(local, remote, i, j, o), o),
    decreases
            (if i < local.len() {
                local.len() - i
            } else {
                0
            }) + (if j < remote.len() {
                remote.len() - j
            } else {
                0
            }),
{
    reveal(local_only);
    reveal(remote_only);
    reveal(both_sides);
    if i < local.len() || j < remote.len() {
        let take_local = j >= remote.len() || (i < local.len() && text_before(
            local[i].path,
            remote[j].path,
        ));
        let take_remote = !take_local && (i >= local.len() || text_before(
            remote[j].path,
            local[i].path,
        ));
        let i2 = if take_remote {
            i
        } else {
            i + 1
        };
        let j2 = if take_local {
            j
        } else {
            j + 1
        };
        let head = if take_local {
            local_only(local, remote, i, o)
        } else if take_remote {
            remote_only(local, remote, j, o)
        } else {
            both_sides(local, remote, i, j, o)
        };
        let tail = merged(local, remote, i2, j2, o);
        lemma_merged_planned(local, remote, i2, j2, o);
        assert forall|k: int| 0 <= k < head.len() implies planned_for(#[trigger] head[k], o) by {}
        assert forall|k: int| 0 <= k < (head + tail).len() implies planned_for(
            #[trigger] (head + tail)[k],
            o,
        ) by {
            if k >= head.len() {
                assert((head + tail)[k] == tail[k - head.len()]);
            } else {
                assert((head + tail)[k] == head[k]);
            }
        }
    }
}

fn copy_entry(e: &Entry) -> (r: Entry)
    ensures
        r@ == e@,
{
    let path = copy_range(e.path.as_slice(), 0, e.path.len());
    assert(path@ =~= e.path@);
    Entry {
        path,
        size: e.size,
        modified_time: e.modified_time,
        is_directory: e.is_directory,
        content_hash: e.content_hash,
    }
}

fn file_entries(inv: &Inventory) -> (out: Vec<Entry>)
    ensures
        entry_views(out@) == files_of(inv@),
{
    let entries = inv.entries();
    let ghost all = entry_views(entries@);
    let mut out: Vec<Entry> = Vec::new();
    let mut i: usize = 0;
    while i < entries.len()
        invariant
            i <= entries.len(),
            all == entry_views(entries@),
            entry_views(out@) == files_of(all.take(i as int)),
        decreases entries.len() - i,
    {
        assert(all.take(i + 1).drop_last() =~= all.take(i as int));
        if !entries[i].is_directory {
            let e = copy_entry(&entries[i]);
            out.push(e);
        }
        i += 1;
    }
    assert(all.take(all.len() as int) =~= all);
    out
}

/// Compares two inventories and plans the actions that bring the two
/// sides together. The actions stand in the order of their paths; the
/// summary counts them by kind and adds up the bytes of those that copy
/// or update.
pub fn diff(local: &Inventory, remote: &Inventory, options: DiffOptions) -> (plan: SyncPlan)
    requires
        local.wf(),
        remote.wf(),
    ensures
        action_views(plan.actions@) == diff_actions(local@, remote@, options),
        paths_ascend(action_views(plan.actions@)),
        no_repeats(action_views(plan.actions@)),
        all_planned_for(action_views(plan.actions@), options),
        plan.summary == summary_of(action_views(plan.actions@)),
        plan.summary.total_transfer_bytes == transfer_bytes(action_views(plan.actions@)),
{
    let local_files = file_entries(local);
    let remote_files = file_entries(remote);
    proof {
        lemma_files_sorted(local@);
        lemma_files_sorted(remote@);
        lemma_merged_ascends(files_of(local@), files_of(remote@), 0, 0, options);
        lemma_merged_planned(files_of(local@), files_of(remote@), 0, 0, options);
    }
    let actions = merge_files(&local_files, &remote_files, options);
    let summary = summarize(&actions);
    SyncPlan { actions, summary }
}

/// The options of a one-way comparison toward the remote side.
pub open spec fn to_remote(identity_mode: IdentityMode, delete_missing: bool) -> DiffOptions {
    DiffOptions { direction: SyncDirection::LocalToRemote, identity_mode, delete_missing }
}

/// The options of a one-way comparison toward the local side.
pub open spec fn to_local(identity_mode: IdentityMode, delete_missing: bool) -> DiffOptions {
    DiffOptions { direction: SyncDirection::RemoteToLocal, identity_mode, delete_missing }
}

proof fn lemma_mirror_concat(a: Seq<ActionView>, b: Seq<ActionView>)
    ensures
        mirrored_all(a + b) == mirrored_all(a) + mirrored_all(b),
{
}

proof fn lemma_mirror_visits(
    local: Seq<RecordView>,
    remote: Seq<RecordView>,
    i: int,
    j: int,
    identity_mode: IdentityMode,
    delete_missing: bool,
)
    ensures
        remote_only(remote, local, i, to_local(identity_mode, delete_missing)) == mirrored_all(
            local_only(local, remote, i, to_remote(identity_mode, delete_missing)),
        ),
        local_only(remote, local, j, to_local(identity_mode, delete_missing)) == mirrored_all(
            remote_only(local, remote, j, to_remote(identity_mode, delete_missing)),
        ),
        both_sides(remote, local, j, i, to_local(identity_mode, delete_missing)) == mirrored_all(
            both_sides(local, remote, i, j, to_remote(identity_mode, delete_missing)),
        ),
{
    reveal(local_only);
    reveal(remote_only);
    reveal(both_sides);
}

proof fn lemma_merged_mirror(
    local: Seq<RecordView>,
    remote: Seq<RecordView>,
    i: int,
    j: int,
    identity_mode: IdentityMode,
    delete_missing: bool,
)
    requires
        0 <= i,
        0 <= j,
    ensures
        merged(remote, local, j, i, to_local(identity_mode, delete_missing)) == mirrored_all(
            merged(local, remote, i, j, to_remote(identity_mode, delete_missing)),
        ),
    decreases
            (if i < local.len() {
                local.len() - i
            } else {
                0
            }) + (if j < remote.len() {
                remote.len() - j
            } else {
                0
            }),
{
    let or = to_remote(identity_mode, delete_missing);
    lemma_mirror_visits(local, remote, i, j, identity_mode, delete_missing);
    if i < local.len() || j < remote.len() {
        if i < local.len() && j < remote.len() {
            lemma_before_total(local[i].path, remote[j].path);
        }
        let take_local = j >= remote.len() || (i < local.len() && text_before(
            local[i].path,
            remote[j].path,
        ));
        let take_remote = !take_local && (i >= local.len() || text_before(
            remote[j].path,
            local[i].path,
        ));
        if take_local {
            lemma_merged_mirror(local, remote, i + 1, j, identity_mode, delete_missing);
            lemma_mirror_concat(
                local_only(local, remote, i, or),
                merged(local, remote, i + 1, j, or),
            );
        } else if take_remote {
            lemma_merged_mirror(local, remote, i, j + 1, identity_mode, delete_missing);
            lemma_mirror_concat(
                remote_only(local, remote, j, or),
                merged(local, remote, i, j + 1, or),
            );
        } else {
            lemma_merged_mirror(local, remote, i + 1, j + 1, identity_mode, delete_missing);
            lemma_mirror_concat(
                both_sides(local, remote, i, j, or),
                merged(local, remote, i + 1, j + 1, or),
            );
        }
    }
}

/// The two one-way directions mirror each other: comparing from local to
/// remote, and comparing from remote to local with the sides exchanged,
/// give the same actions for the same files with the opposite direction
/// on each.
pub proof fn lemma_one_way_mirror(
    local: Seq<RecordView>,
    remote: Seq<RecordView>,
    identity_mode: IdentityMode,
    delete_missing: bool,
)
    ensures
        diff_actions(remote, local, to_local(identity_mode, delete_missing)) == mirrored_all(
            diff_actions(local, remote, to_remote(identity_mode, delete_missing)),
        ),
{
    lemma_merged_mirror(files_of(local), files_of(remote), 0, 0, identity_mode, delete_missing);
}

} // verus!
