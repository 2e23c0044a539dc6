//! Sync actions: the operations that bring two sides together, and their
//! totals.

use vstd::prelude::*;

verus! {

/// What an action does.
#[derive(Clone, Copy, Debug, PartialEq, Eq, Structural)]
pub enum ActionKind {
    /// Bring a file to the side that lacks it.
    Copy,
    /// Replace a file by the other side's version.
    Update,
    /// Remove a file.
    Delete,
    /// Move a file to the path that its content has on the other side.
    Rename,
    /// Do nothing; the action is only counted.
    Skip,
}

/// The side that an action changes.
#[derive(Clone, Copy, Debug, PartialEq, Eq, Structural)]
pub enum ActionDirection {
    ToLocal,
    ToRemote,
}

/// Why an action was planned.
#[derive(Clone, Copy, Debug, PartialEq, Eq, Structural)]
pub enum SyncReason {
    /// The file is on one side only.
    MissingOnDestination,
    /// The sizes differ.
    SizeDiffers,
    /// The source was changed later than the destination.
    SourceNewer,
    /// The contents differ.
    ContentDiffers,
    /// The file is gone from the source.
    MissingOnSource,
    /// The content stands under another path on the other side.
    Moved,
    /// The action was set aside.
    SetAside,
}

/// One operation that brings the two sides closer together.
#[derive(Debug)]
pub struct SyncAction {
    /// The path, relative to the root, that the file has after the action.
    pub file_path: String,
    pub kind: ActionKind,
    /// The side that is changed; none for `Skip`.
    pub direction: Option<ActionDirection>,
    /// The bytes involved; 0 for `Delete`.
    pub size: u64,
    /// Why the action was planned, in words for a reader.
    pub reason: String,
    /// For `Rename`, the path that the file had before.
    pub rename_from: Option<String>,
}

/// What an action holds, as plain values.
pub struct ActionView {
    pub file_path: Seq<char>,
    pub kind: ActionKind,
    pub direction: Option<ActionDirection>,
    pub size: u64,
    pub reason: Seq<char>,
    pub rename_from: Option<Seq<char>>,
}

impl View for SyncAction {
    type V = ActionView;

    open spec fn view(&self) -> ActionView {
        ActionView {
            file_path: self.file_path@,
            kind: self.kind,
            direction: self.direction,
            size: self.size,
            reason: self.reason@,
            rename_from: match self.rename_from {
                Some(p) => Some(p@),
                None => None,
            },
        }
    }
}

/// The views of a sequence of actions.
pub open spec fn action_views(v: Seq<SyncAction>) -> Seq<ActionView> {
    Seq::new(v.len(), |i: int| v[i]@)
}

/// The other side.
pub open spec fn opposite(d: ActionDirection) -> ActionDirection {
    match d {
        ActionDirection::ToLocal => ActionDirection::ToRemote,
        ActionDirection::ToRemote => ActionDirection::ToLocal,
    }
}

/// The action that does on the other side what `a` does on its own.
pub open spec fn mirrored(a: ActionView) -> ActionView {
    ActionView {
        direction: match a.direction {
            Some(d) => Some(opposite(d)),
            None => None,
        },
        ..a
    }
}

/// Each action mirrored, in the same order.
pub open spec fn mirrored_all(actions: Seq<ActionView>) -> Seq<ActionView> {
    Seq::new(actions.len(), |i: int| mirrored(actions[i]))
}

/// The action moves bytes from one side to the other.
pub open spec fn transfers(a: ActionView) -> bool {
    a.kind == ActionKind::Copy || a.kind == ActionKind::Update
}

/// The sum of the sizes of the actions that copy or update.
pub open spec fn transfer_bytes(actions: Seq<ActionView>) -> nat
    decreases actions.len(),
{
    if actions.len() == 0 {
        0
    } else {
        transfer_bytes(actions.drop_last()) + if transfers(actions.last()) {
            actions.last().size as nat
        } else {
            0
        }
    }
}

/// The number of actions of the kind `kind`.
pub open spec fn count_of(actions: Seq<ActionView>, kind: ActionKind) -> nat
    decreases actions.len(),
{
    if actions.len() == 0 {
        0
    } else {
        count_of(actions.drop_last(), kind) + if actions.last().kind == kind {
            1nat
        } else {
            0nat
        }
    }
}

/// The totals of a plan.
#[derive(Clone, Copy, Debug, PartialEq, Eq, Structural)]
pub struct SyncPlanSummary {
    /// The sum of the sizes of the actions that copy or update.
    pub total_transfer_bytes: u128,
    pub copy_count: usize,
    pub update_count: usize,
    pub delete_count: usize,
    pub rename_count: usize,
    pub skip_count: usize,
}

/// The totals of `actions`.
pub open spec fn summary_of(actions: Seq<ActionView>) -> SyncPlanSummary {
    SyncPlanSummary {
        total_transfer_bytes: transfer_bytes(actions) as u128,
        copy_count: count_of(actions, ActionKind::Copy) as usize,
        update_count: count_of(actions, ActionKind::Update) as usize,
        delete_count: count_of(actions, ActionKind::Delete) as usize,
        rename_count: count_of(actions, ActionKind::Rename) as usize,
        skip_count: count_of(actions, ActionKind::Skip) as usize,
    }
}

/// No total exceeds what its field can hold.
pub proof fn lemma_totals_fit(actions: Seq<ActionView>)
    ensures
        transfer_bytes(actions) <= actions.len() * u64::MAX,
        forall|kind: ActionKind| #[trigger] count_of(actions, kind) <= actions.len(),
    decreases actions.len(),
{
    if actions.len() > 0 {
        lemma_totals_fit(actions.drop_last());
        assert forall|kind: ActionKind| #[trigger] count_of(actions, kind) <= actions.len() by {
            assert(count_of(actions.drop_last(), kind) <= actions.len() - 1);
        }
    }
}

/// Counts the actions by kind and adds up the bytes to transfer: the sum
/// of `size` over the actions that copy or update, and over no others.
pub fn summarize(actions: &Vec<SyncAction>) -> (s: SyncPlanSummary)
    ensures
        s == summary_of(action_views(actions@)),
        s.total_transfer_bytes == transfer_bytes(action_views(actions@)),
        s.copy_count == count_of(action_views(actions@), ActionKind::Copy),
        s.update_count == count_of(action_views(actions@), ActionKind::Update),
        s.delete_count == count_of(action_views(actions@), ActionKind::Delete),
        s.rename_count == count_of(action_views(actions@), ActionKind::Rename),
        s.skip_count == count_of(action_views(actions@), ActionKind::Skip),
{
    let ghost all = action_views(actions@);
    let mut s = SyncPlanSummary {
        total_transfer_bytes: 0,
        copy_count: 0,
        update_count: 0,
        delete_count: 0,
        rename_count: 0,
        skip_count: 0,
    };
    let mut i: usize = 0;
    while i < actions.len()
        invariant
            i <= actions.len(),
            all == action_views(actions@),
            s.total_transfer_bytes == transfer_bytes(all.take(i as int)),
            s.copy_count == count_of(all.take(i as int), ActionKind::Copy),
            s.update_count == count_of(all.take(i as int), ActionKind::Update),
            s.delete_count == count_of(all.take(i as int), ActionKind::Delete),
            s.rename_count == count_of(all.take(i as int), ActionKind::Rename),
            s.skip_count == count_of(all.take(i as int), ActionKind::Skip),
        decreases actions.len() - i,
    {
        proof {
            assert(all.take(i + 1).drop_last() =~= all.take(i as int));
            lemma_totals_fit(all.take(i as int));
            lemma_totals_fit(all.take(i + 1));
            assert(all.take(i as int).len() * u64::MAX <= usize::MAX * u64::MAX) by (nonlinear_arith)
                requires
                    all.take(i as int).len() <= usize::MAX,
            ;
            assert(usize::MAX * u64::MAX + u64::MAX <= u128::MAX) by (nonlinear_arith)
                requires
                    usize::MAX <= u64::MAX,
            ;
        }
        let a = &actions[i];
        match a.kind {
            ActionKind::Copy => {
                s.copy_count = s.copy_count + 1;
                s.total_transfer_bytes = s.total_transfer_bytes + a.size as u128;
            },
            ActionKind::Update => {
                s.update_count = s.update_count + 1;
                s.total_transfer_bytes = s.total_transfer_bytes + a.size as u128;
            },
            ActionKind::Delete => {
                s.delete_count = s.delete_count + 1;
            },
            ActionKind::Rename => {
                s.rename_count = s.rename_count + 1;
            },
            ActionKind::Skip => {
                s.skip_count = s.skip_count + 1;
            },
        }
        i += 1;
    }
    proof {
        assert(all.take(all.len() as int) =~= all);
        lemma_totals_fit(all);
        assert(all.len() * u64::MAX <= usize::MAX * u64::MAX) by (nonlinear_arith)
            requires
                all.len() <= usize::MAX,
        ;
        assert(usize::MAX * u64::MAX <= u128::MAX) by (nonlinear_arith)
            requires
                usize::MAX <= u64::MAX,
        ;
    }
    s
}

/// The words that tell a reader why an action was planned.
pub open spec fn reason_text(reason: SyncReason) -> Seq<char> {
    match reason {
        SyncReason::MissingOnDestination => "missing on destination"@,
        SyncReason::SizeDiffers => "size differs"@,
        SyncReason::SourceNewer => "source is newer"@,
        SyncReason::ContentDiffers => "content differs"@,
        SyncReason::MissingOnSource => "missing on source"@,
        SyncReason::Moved => "same content under another path"@,
        SyncReason::SetAside => "set aside"@,
    }
}

impl SyncReason {
    /// The words that tell a reader why an action was planned.
    pub fn describe(&self) -> (r: String)
        ensures
            r@ == reason_text(*self),
    {
        match self {
            SyncReason::MissingOnDestination => String::from_str("missing on destination"),
            SyncReason::SizeDiffers => String::from_str("size differs"),
            SyncReason::SourceNewer => String::from_str("source is newer"),
            SyncReason::ContentDiffers => String::from_str("content differs"),
            SyncReason::MissingOnSource => String::from_str("missing on source"),
            SyncReason::Moved => String::from_str("same content under another path"),
            SyncReason::SetAside => String::from_str("set aside"),
        }
    }
}

} // verus!
