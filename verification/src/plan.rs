//! Planning a synchronisation from its options and the raw listings of
//! the two sides.

use crate::action::action_views;
use crate::diff::{
    diff, diff_actions, DiffOptions, IdentityMode, SyncDirection, SyncPlan,
};
use crate::action::{summary_of, transfer_bytes};
use crate::diff::{all_planned_for, no_repeats, paths_ascend};
use crate::glob::{parsed_glob, TokenView};
use crate::inventory::{canonical, record_views, FileRecord, Inventory};
use crate::pattern::{compile_patterns, compiled_patterns, PatternSet};
use crate::text::{append_str, from_chars, texts};
use vstd::prelude::*;

verus! {

/// What a synchronisation is asked to do.
#[derive(Debug)]
pub struct SyncOptions {
    /// The root of the local side.
    pub local_root: String,
    /// The root of the remote side.
    pub remote_root: String,
    /// The patterns that say which files take part; all files where there
    /// are none.
    pub patterns: Vec<String>,
    pub direction: SyncDirection,
    pub identity_mode: IdentityMode,
    pub delete_missing: bool,
}

/// Why there is no plan.
#[derive(Debug)]
pub enum SyncError {
    /// A side could not be listed or reached.
    ProviderUnavailable { detail: String },
    /// The options cannot be carried out.
    ConfigInvalid { detail: String },
}

/// The root that patterns are written against: that of the side that
/// takes, which in both directions is the remote one.
pub open spec fn pattern_root(
    local_root: Seq<char>,
    remote_root: Seq<char>,
    direction: SyncDirection,
) -> Seq<char> {
    match direction {
        SyncDirection::RemoteToLocal => local_root,
        _ => remote_root,
    }
}

/// The canonical patterns of the options.
pub open spec fn canonical_patterns(o: SyncOptions) -> Seq<Seq<char>> {
    compiled_patterns(texts(o.patterns@), pattern_root(o.local_root@, o.remote_root@, o.direction))
}

/// Every one of `patterns` can be read.
pub open spec fn all_readable(patterns: Seq<Seq<char>>) -> bool {
    forall|i: int| 0 <= i < patterns.len() ==> parsed_glob(#[trigger] patterns[i]) is Some
}

/// The tokens of each of `patterns`.
pub open spec fn globs_of(patterns: Seq<Seq<char>>) -> Seq<Seq<TokenView>> {
    Seq::new(patterns.len(), |i: int| parsed_glob(patterns[i])->0)
}

/// What the comparison is made for.
pub open spec fn diff_options_of(o: SyncOptions) -> DiffOptions {
    DiffOptions {
        direction: o.direction,
        identity_mode: o.identity_mode,
        delete_missing: o.delete_missing,
    }
}

/// The canonical patterns that the options give, for listing and for
/// filtering.
pub fn sync_patterns(options: &SyncOptions) -> (out: Vec<String>)
    ensures
        texts(out@) == canonical_patterns(*options),
{
    let root = match options.direction {
        SyncDirection::RemoteToLocal => options.local_root.as_str(),
        _ => options.remote_root.as_str(),
    };
    compile_patterns(&options.patterns, root)
}

/// A plan together with the inventories that it was made from.
pub struct SyncPreparation {
    pub local: Inventory,
    pub remote: Inventory,
    pub plan: SyncPlan,
}

/// The plan is the one that the options ask for, for the two raw
/// listings.
pub open spec fn is_plan_for(
    plan: SyncPlan,
    o: SyncOptions,
    local_raw: Seq<FileRecord>,
    remote_raw: Seq<FileRecord>,
) -> bool {
    let patterns = canonical_patterns(o);
    &&& all_readable(patterns)
    &&& action_views(plan.actions@) == diff_actions(
        canonical(record_views(local_raw), globs_of(patterns)),
        canonical(record_views(remote_raw), globs_of(patterns)),
        diff_options_of(o),
    )
    &&& paths_ascend(action_views(plan.actions@))
    &&& no_repeats(action_views(plan.actions@))
    &&& all_planned_for(action_views(plan.actions@), diff_options_of(o))
    &&& plan.summary == summary_of(action_views(plan.actions@))
    &&& plan.summary.total_transfer_bytes == transfer_bytes(action_views(plan.actions@))
}

/// One of the options' patterns cannot be read, and `detail` names the
/// first such.
pub open spec fn names_malformed_pattern(detail: Seq<char>, o: SyncOptions) -> bool {
    exists|at: int|
        0 <= at < canonical_patterns(o).len() && parsed_glob(#[trigger] canonical_patterns(o)[at])
            is None && detail == "malformed pattern: "@ + canonical_patterns(o)[at] && forall|
            k: int,
        |
            0 <= k < at ==> parsed_glob(#[trigger] canonical_patterns(o)[k]) is Some
}

/// Prepares a synchronisation: brings the patterns into canonical form,
/// filters the raw listings of the two sides into inventories, and
/// compares these. Nothing is changed on either side. A pattern that
/// cannot be read makes the options invalid, and then there is no plan at
/// all; the error names the first such pattern.
pub fn prepare_sync(
    options: &SyncOptions,
    local_raw: &Vec<FileRecord>,
    remote_raw: &Vec<FileRecord>,
) -> (r: Result<SyncPreparation, SyncError>)
    ensures
        match r {
            Ok(p) => {
                let globs = globs_of(canonical_patterns(*options));
                &&& is_plan_for(p.plan, *options, local_raw@, remote_raw@)
                &&& p.local.wf()
                &&& p.remote.wf()
                &&& p.local@ == canonical(record_views(local_raw@), globs)
                &&& p.remote@ == canonical(record_views(remote_raw@), globs)
            },
            Err(SyncError::ConfigInvalid { detail }) => names_malformed_pattern(detail@, *options),
            Err(SyncError::ProviderUnavailable { .. }) => false,
        },
{
    let patterns = sync_patterns(options);
    let ghost ps = canonical_patterns(*options);
    let set = match PatternSet::compile(&patterns) {
        Ok(set) => set,
        Err((at, _)) => {
            let mut detail: Vec<char> = Vec::new();
            append_str(&mut detail, "malformed pattern: ");
            append_str(&mut detail, patterns[at].as_str());
            proof {
                assert(ps[at as int] == patterns@[at as int]@);
                assert forall|k: int| 0 <= k < at implies parsed_glob(#[trigger] ps[k]) is Some by {
                    assert(ps[k] == patterns@[k]@);
                }
            }
            return Err(SyncError::ConfigInvalid { detail: from_chars(detail.as_slice()) });
        },
    };
    proof {
        assert forall|i: int| 0 <= i < ps.len() implies parsed_glob(#[trigger] ps[i]) is Some by {
            assert(ps[i] == patterns@[i]@);
        }
        assert(set@ =~= globs_of(ps)) by {
            assert forall|i: int| 0 <= i < ps.len() implies set@[i] == globs_of(ps)[i] by {
                assert(ps[i] == patterns@[i]@);
            }
        }
    }
    let local = Inventory::build(local_raw, &set);
    let remote = Inventory::build(remote_raw, &set);
    let o = DiffOptions {
        direction: options.direction,
        identity_mode: options.identity_mode,
        delete_missing: options.delete_missing,
    };
    let plan = diff(&local, &remote, o);
    Ok(SyncPreparation { local, remote, plan })
}

/// Plans a synchronisation: the plan that `prepare_sync` makes, without
/// the inventories.
pub fn plan_sync(
    options: &SyncOptions,
    local_raw: &Vec<FileRecord>,
    remote_raw: &Vec<FileRecord>,
) -> (r: Result<SyncPlan, SyncError>)
    ensures
        match r {
            Ok(plan) => is_plan_for(plan, *options, local_raw@, remote_raw@),
            Err(SyncError::ConfigInvalid { detail }) => names_malformed_pattern(detail@, *options),
            Err(SyncError::ProviderUnavailable { .. }) => false,
        },
{
    match prepare_sync(options, local_raw, remote_raw) {
        Ok(p) => Ok(p.plan),
        Err(e) => Err(e),
    }
}

} // verus!
