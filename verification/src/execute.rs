//! Carrying out a plan: one action at a time, in order, with a count of
//! what worked and a record of what did not.
//!
//! The run itself moves no file. It tells what the transport has to do
//! next, takes the outcome, and keeps the count; one failed action does
//! not end the run.

use crate::action::{
    action_views, lemma_totals_fit, summarize, transfer_bytes, transfers, ActionDirection,
    ActionKind, ActionView, SyncAction,
};
use crate::inventory::{entry_views, Inventory, RecordView};
use crate::order::{place, Place};
use crate::text::{append_str, from_chars, texts, to_chars};
use vstd::prelude::*;

verus! {

/// What the transport is asked to do for one action.
#[derive(Debug)]
pub enum TransportRequest {
    /// Bring the file at `path` to the side `toward`, making the
    /// directories above it as needed, and then give it the time
    /// `modified_time`, if there is one, as well as that can be done.
    Transfer { path: String, toward: ActionDirection, modified_time: Option<i64> },
    /// Remove the file at `path` on the side `on`.
    Delete { path: String, on: ActionDirection },
    /// Move the file at `from` to `to` on the side `on`, making the
    /// directories above `to` as needed.
    Rename { from: String, to: String, on: ActionDirection },
}

/// A `TransportRequest` as plain values.
pub enum RequestView {
    Transfer { path: Seq<char>, toward: ActionDirection, modified_time: Option<i64> },
    Delete { path: Seq<char>, on: ActionDirection },
    Rename { from: Seq<char>, to: Seq<char>, on: ActionDirection },
}

impl View for TransportRequest {
    type V = RequestView;

    open spec fn view(&self) -> RequestView {
        match self {
            TransportRequest::Transfer { path, toward, modified_time } => RequestView::Transfer {
                path: path@,
                toward: *toward,
                modified_time: *modified_time,
            },
            TransportRequest::Delete { path, on } => RequestView::Delete { path: path@, on: *on },
            TransportRequest::Rename { from, to, on } => RequestView::Rename {
                from: from@,
                to: to@,
                on: *on,
            },
        }
    }
}

/// How far a run has come.
#[derive(Debug)]
pub struct SyncProgress {
    /// The path of the action that was completed last; empty before the
    /// first.
    pub current_path: String,
    pub completed_count: usize,
    pub total_count: usize,
    pub bytes_completed: u128,
    pub bytes_total: u128,
}

/// A `SyncProgress` as plain values.
pub struct ProgressView {
    pub current_path: Seq<char>,
    pub completed_count: nat,
    pub total_count: nat,
    pub bytes_completed: nat,
    pub bytes_total: nat,
}

impl View for SyncProgress {
    type V = ProgressView;

    open spec fn view(&self) -> ProgressView {
        ProgressView {
            current_path: self.current_path@,
            completed_count: self.completed_count as nat,
            total_count: self.total_count as nat,
            bytes_completed: self.bytes_completed as nat,
            bytes_total: self.bytes_total as nat,
        }
    }
}

/// How a run ended.
#[derive(Debug)]
pub struct SyncRunResult {
    pub success_count: usize,
    pub skipped_count: usize,
    pub error_count: usize,
    /// One message for each failed action, in order, each beginning with
    /// the action's path.
    pub errors: Vec<String>,
}

/// The time of the last change of the file `path` in `inv`, looked for
/// from `from` on.
pub open spec fn file_time(inv: Seq<RecordView>, path: Seq<char>, from: int) -> Option<i64>
    decreases inv.len() - from,
{
    if from >= inv.len() {
        None
    } else if inv[from].path == path && !inv[from].is_directory {
        Some(inv[from].modified_time)
    } else {
        file_time(inv, path, from + 1)
    }
}

/// What the transport has to do for the action `a`; nothing for an
/// action that is only counted, or that lacks what its kind needs. A
/// transfer carries the time that its source has for the file.
pub open spec fn request_for(
    a: ActionView,
    local: Seq<RecordView>,
    remote: Seq<RecordView>,
) -> Option<RequestView> {
    match a.direction {
        None => None,
        Some(side) => match a.kind {
            ActionKind::Copy | ActionKind::Update => Some(
                RequestView::Transfer {
                    path: a.file_path,
                    toward: side,
                    modified_time: match side {
                        ActionDirection::ToRemote => file_time(local, a.file_path, 0),
                        ActionDirection::ToLocal => file_time(remote, a.file_path, 0),
                    },
                },
            ),
            ActionKind::Delete => Some(RequestView::Delete { path: a.file_path, on: side }),
            ActionKind::Rename => match a.rename_from {
                Some(from) => Some(RequestView::Rename { from, to: a.file_path, on: side }),
                None => None,
            },
            ActionKind::Skip => None,
        },
    }
}

/// The action asks nothing of the transport.
pub open spec fn is_idle(a: ActionView) -> bool {
    a.direction is None || a.kind == ActionKind::Skip || (a.kind == ActionKind::Rename
        && a.rename_from is None)
}

/// The state of a run, as plain values.
pub struct RunView {
    pub actions: Seq<ActionView>,
    /// The number of actions that are completed.
    pub cursor: nat,
    pub success_count: nat,
    pub skipped_count: nat,
    pub error_count: nat,
    pub errors: Seq<Seq<char>>,
    pub bytes_completed: nat,
    /// The bytes that the actions transfer in all.
    pub bytes_total: nat,
}

/// The state before the first action.
pub open spec fn run_start(actions: Seq<ActionView>) -> RunView {
    RunView {
        actions,
        cursor: 0,
        success_count: 0,
        skipped_count: 0,
        error_count: 0,
        errors: Seq::empty(),
        bytes_completed: 0,
        bytes_total: transfer_bytes(actions),
    }
}

/// The message for a failed action: its path, a colon and a blank, and
/// what the transport said.
pub open spec fn failure_line(path: Seq<char>, message: Seq<char>) -> Seq<char> {
    path + ": "@ + message
}

/// The state after the current action is completed with `failure`: `None`
/// where the transport did what was asked. An idle action is skipped
/// whatever is reported for it. A failure is recorded and the run goes
/// on. Only a transfer that worked adds to the bytes. A run that is over
/// stays as it is.
pub open spec fn run_step(s: RunView, failure: Option<Seq<char>>) -> RunView {
    if s.cursor >= s.actions.len() {
        s
    } else {
        let a = s.actions[s.cursor as int];
        let next = (s.cursor + 1) as nat;
        if is_idle(a) {
            RunView { cursor: next, skipped_count: s.skipped_count + 1, ..s }
        } else {
            match failure {
                None => RunView {
                    cursor: next,
                    success_count: s.success_count + 1,
                    bytes_completed: s.bytes_completed + if transfers(a) {
                        a.size as nat
                    } else {
                        0
                    },
                    ..s
                },
                Some(message) => RunView {
                    cursor: next,
                    error_count: s.error_count + 1,
                    errors: s.errors.push(failure_line(a.file_path, message)),
                    ..s
                },
            }
        }
    }
}

/// What an outcome says of a failure: nothing where the action worked.
pub open spec fn failure_of(outcome: Result<(), String>) -> Option<Seq<char>> {
    match outcome {
        Ok(_) => None,
        Err(m) => Some(m@),
    }
}

/// The state after the outcomes `failures` were reported in turn.
pub open spec fn run_after(actions: Seq<ActionView>, failures: Seq<Option<Seq<char>>>) -> RunView
    decreases failures.len(),
{
    if failures.len() == 0 {
        run_start(actions)
    } else {
        run_step(run_after(actions, failures.drop_last()), failures.last())
    }
}

/// What holds of every state of a run: each completed action is counted
/// once, as a success, as skipped or as an error; there is one message
/// for each error; the bytes completed are at most those of the completed
/// actions; and the total is that of all actions.
pub open spec fn run_consistent(s: RunView) -> bool {
    &&& s.cursor <= s.actions.len()
    &&& s.success_count + s.skipped_count + s.error_count == s.cursor
    &&& s.errors.len() == s.error_count
    &&& s.bytes_completed <= transfer_bytes(s.actions.take(s.cursor as int))
    &&& s.bytes_total == transfer_bytes(s.actions)
}

/// The bytes of the actions up to a point are at most the bytes of all.
pub proof fn lemma_transfer_bytes_grow(actions: Seq<ActionView>, n: int)
    requires
        0 <= n <= actions.len(),
    ensures
        transfer_bytes(actions.take(n)) <= transfer_bytes(actions),
    decreases actions.len() - n,
{
    if n < actions.len() {
        lemma_transfer_bytes_grow(actions, n + 1);
        assert(actions.take(n + 1).drop_last() =~= actions.take(n));
    } else {
        assert(actions.take(n) =~= actions);
    }
}

/// A step keeps a run consistent, and completes one action unless the run
/// is over.
pub proof fn lemma_step_consistent(s: RunView, failure: Option<Seq<char>>)
    requires
        run_consistent(s),
    ensures
        run_consistent(run_step(s, failure)),
        run_step(s, failure).actions == s.actions,
        s.cursor < s.actions.len() ==> run_step(s, failure).cursor == s.cursor + 1,
{
    if s.cursor < s.actions.len() {
        let n = s.cursor as int;
        assert(s.actions.take(n + 1).drop_last() =~= s.actions.take(n));
    }
}

/// Every state that a run can reach is consistent, whatever was
/// reported; and once as many outcomes are reported as there are actions,
/// every action is counted.
pub proof fn lemma_run_consistent(actions: Seq<ActionView>, failures: Seq<Option<Seq<char>>>)
    ensures
        run_consistent(run_after(actions, failures)),
        run_after(actions, failures).actions == actions,
        run_after(actions, failures).cursor == if failures.len() <= actions.len() {
            failures.len()
        } else {
            actions.len()
        },
    decreases failures.len(),
{
    if failures.len() > 0 {
        lemma_run_consistent(actions, failures.drop_last());
        lemma_step_consistent(run_after(actions, failures.drop_last()), failures.last());
    }
}

/// A run of a plan.
pub struct SyncRun {
    actions: Vec<SyncAction>,
    cursor: usize,
    success_count: usize,
    skipped_count: usize,
    error_count: usize,
    errors: Vec<String>,
    bytes_completed: u128,
    bytes_total: u128,
}

impl View for SyncRun {
    type V = RunView;

    closed spec fn view(&self) -> RunView {
        RunView {
            actions: action_views(self.actions@),
            cursor: self.cursor as nat,
            success_count: self.success_count as nat,
            skipped_count: self.skipped_count as nat,
            error_count: self.error_count as nat,
            errors: texts(self.errors@),
            bytes_completed: self.bytes_completed as nat,
            bytes_total: self.bytes_total as nat,
        }
    }
}

fn find_file_time(inv: &Inventory, path: &[char]) -> (r: Option<i64>)
    ensures
        r == file_time(inv@, path@, 0),
{
    let entries = inv.entries();
    let mut k: usize = 0;
    while k < entries.len()
        invariant
            k <= entries.len(),
            entry_views(entries@) == inv@,
            file_time(inv@, path@, 0) == file_time(inv@, path@, k as int),
        decreases entries.len() - k,
    {
        if !entries[k].is_directory {
            match place(entries[k].path.as_slice(), path) {
                Place::Same => {
                    return Some(entries[k].modified_time);
                },
                _ => {},
            }
        }
        k += 1;
    }
    None
}

fn idle(a: &SyncAction) -> (r: bool)
    ensures
        r == is_idle(a@),
{
    if a.direction.is_none() {
        return true;
    }
    match a.kind {
        ActionKind::Skip => true,
        ActionKind::Rename => a.rename_from.is_none(),
        _ => false,
    }
}

impl SyncRun {
    /// The run is in a state that a run can reach.
    pub open spec fn wf(&self) -> bool {
        run_consistent(self@)
    }

    /// A run of `actions`, before the first of them.
    pub fn new(actions: Vec<SyncAction>) -> (run: SyncRun)
        ensures
            run.wf(),
            run@ == run_start(action_views(actions@)),
    {
        let summary = summarize(&actions);
        let run = SyncRun {
            actions,
            cursor: 0,
            success_count: 0,
            skipped_count: 0,
            error_count: 0,
            errors: Vec::new(),
            bytes_completed: 0,
            bytes_total: summary.total_transfer_bytes,
        };
        assert(texts(run.errors@) =~= Seq::<Seq<char>>::empty());
        run
    }

    /// Tells whether every action is completed.
    pub fn is_finished(&self) -> (r: bool)
        requires
            self.wf(),
        ensures
            r == (self@.cursor == self@.actions.len()),
    {
        self.cursor >= self.actions.len()
    }

    /// What the transport has to do for the current action: `None` where
    /// the run is over, or the action is only to be counted. The two
    /// inventories are those that the plan was made from.
    pub fn next_request(&self, local: &Inventory, remote: &Inventory) -> (r: Option<
        TransportRequest,
    >)
        requires
            self.wf(),
        ensures
            match r {
                Some(q) => self@.cursor < self@.actions.len() && request_for(
                    self@.actions[self@.cursor as int],
                    local@,
                    remote@,
                ) == Some(q@),
                None => self@.cursor >= self@.actions.len() || request_for(
                    self@.actions[self@.cursor as int],
                    local@,
                    remote@,
                ) is None,
            },
    {
        if self.cursor >= self.actions.len() {
            return None;
        }
        let a = &self.actions[self.cursor];
        let side = match a.direction {
            Some(side) => side,
            None => {
                return None;
            },
        };
        match a.kind {
            ActionKind::Copy | ActionKind::Update => {
                let path = to_chars(a.file_path.as_str());
                let modified_time = match side {
                    ActionDirection::ToRemote => find_file_time(local, path.as_slice()),
                    ActionDirection::ToLocal => find_file_time(remote, path.as_slice()),
                };
                Some(
                    TransportRequest::Transfer {
                        path: a.file_path.clone(),
                        toward: side,
                        modified_time,
                    },
                )
            },
            ActionKind::Delete => Some(
                TransportRequest::Delete { path: a.file_path.clone(), on: side },
            ),
            ActionKind::Rename => match &a.rename_from {
                Some(from) => Some(
                    TransportRequest::Rename {
                        from: from.clone(),
                        to: a.file_path.clone(),
                        on: side,
                    },
                ),
                None => None,
            },
            ActionKind::Skip => None,
        }
    }

    /// How far the run has come.
    pub fn progress(&self) -> (p: SyncProgress)
        requires
            self.wf(),
        ensures
            p@.completed_count == self@.cursor,
            p@.total_count == self@.actions.len(),
            p@.bytes_completed == self@.bytes_completed,
            p@.bytes_total == self@.bytes_total,
            p@.completed_count <= p@.total_count,
            p@.bytes_completed <= p@.bytes_total,
            p@.current_path == if self@.cursor == 0 {
                Seq::<char>::empty()
            } else {
                self@.actions[self@.cursor - 1].file_path
            },
    {
        proof {
            lemma_transfer_bytes_grow(self@.actions, self@.cursor as int);
        }
        let current_path = if self.cursor == 0 {
            String::new()
        } else {
            self.actions[self.cursor - 1].file_path.clone()
        };
        SyncProgress {
            current_path,
            completed_count: self.cursor,
            total_count: self.actions.len(),
            bytes_completed: self.bytes_completed,
            bytes_total: self.bytes_total,
        }
    }

    /// Completes the current action with what the transport reported, and
    /// tells how far the run has come.
    pub fn complete(&mut self, outcome: Result<(), String>) -> (p: SyncProgress)
        requires
            old(self).wf(),
        ensures
            final(self).wf(),
            final(self)@ == run_step(old(self)@, failure_of(outcome)),
            p@.completed_count == final(self)@.cursor,
            p@.total_count == final(self)@.actions.len(),
            p@.bytes_completed == final(self)@.bytes_completed,
            p@.bytes_total == final(self)@.bytes_total,
            p@.current_path == if final(self)@.cursor == 0 {
                Seq::<char>::empty()
            } else {
                final(self)@.actions[final(self)@.cursor - 1].file_path
            },
    {
        let ghost before = self@;
        let ghost failure = failure_of(outcome);
        proof {
            lemma_step_consistent(before, failure);
        }
        if self.cursor < self.actions.len() {
            let a = &self.actions[self.cursor];
            proof {
                let n = self.cursor as int;
                lemma_transfer_bytes_grow(before.actions, n + 1);
                lemma_totals_fit(before.actions);
                assert(before.actions.len() * u64::MAX <= usize::MAX * u64::MAX) by (nonlinear_arith)
                    requires
                        before.actions.len() <= usize::MAX,
                ;
                assert(usize::MAX * u64::MAX <= u128::MAX) by (nonlinear_arith)
                    requires
                        usize::MAX <= u64::MAX,
                ;
            }
            if idle(a) {
                self.skipped_count = self.skipped_count + 1;
            } else {
                match outcome {
                    Ok(_) => {
                        let moved: u128 = match a.kind {
                            ActionKind::Copy | ActionKind::Update => a.size as u128,
                            _ => 0,
                        };
                        self.bytes_completed = self.bytes_completed + moved;
                        self.success_count = self.success_count + 1;
                    },
                    Err(message) => {
                        let mut line = to_chars(a.file_path.as_str());
                        append_str(&mut line, ": ");
                        append_str(&mut line, message.as_str());
                        let ghost had = texts(self.errors@);
                        self.errors.push(from_chars(line.as_slice()));
                        assert(texts(self.errors@) =~= had.push(
                            failure_line(a@.file_path, message@),
                        ));
                        self.error_count = self.error_count + 1;
                    },
                }
            }
            self.cursor = self.cursor + 1;
        }
        self.progress()
    }

    /// Ends the run, at any point, with the counts so far. Each completed
    /// action is counted once, and each error has its message.
    pub fn finish(self) -> (r: SyncRunResult)
        requires
            self.wf(),
        ensures
            r.success_count == self@.success_count,
            r.skipped_count == self@.skipped_count,
            r.error_count == self@.error_count,
            texts(r.errors@) == self@.errors,
            r.success_count + r.skipped_count + r.error_count == self@.cursor,
            r.errors@.len() == r.error_count,
    {
        SyncRunResult {
            success_count: self.success_count,
            skipped_count: self.skipped_count,
            error_count: self.error_count,
            errors: self.errors,
        }
    }
}

} // verus!
