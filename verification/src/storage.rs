//! Finding the directory that holds a device's shared storage, one shell
//! command at a time.

use crate::text::{
    append_str, contains_str, contains_text, from_chars, is_text, to_chars, trim, trimmed,
};
use vstd::prelude::*;

verus! {

/// Where the search stands: the command that is to be run next, or the
/// end.
#[derive(Debug)]
pub enum StorageProbe {
    /// Ask the device for the value of `EXTERNAL_STORAGE`.
    ReadEnv,
    /// Ask whether the directory that `EXTERNAL_STORAGE` names exists.
    VerifyEnv { path: String },
    /// Ask what that directory resolves to.
    ResolveEnv { path: String },
    /// Ask whether one of the usual directories exists.
    VerifyCommon { index: usize },
    /// Ask what that usual directory resolves to.
    ResolveCommon { index: usize },
    /// The search is over.
    Done { result: Result<String, String> },
}

/// A `StorageProbe` as plain values.
pub enum ProbeView {
    ReadEnv,
    VerifyEnv { path: Seq<char> },
    ResolveEnv { path: Seq<char> },
    VerifyCommon { index: int },
    ResolveCommon { index: int },
    Done { result: Result<Seq<char>, Seq<char>> },
}

impl View for StorageProbe {
    type V = ProbeView;

    open spec fn view(&self) -> ProbeView {
        match self {
            StorageProbe::ReadEnv => ProbeView::ReadEnv,
            StorageProbe::VerifyEnv { path } => ProbeView::VerifyEnv { path: path@ },
            StorageProbe::ResolveEnv { path } => ProbeView::ResolveEnv { path: path@ },
            StorageProbe::VerifyCommon { index } => ProbeView::VerifyCommon {
                index: *index as int,
            },
            StorageProbe::ResolveCommon { index } => ProbeView::ResolveCommon {
                index: *index as int,
            },
            StorageProbe::Done { result } => ProbeView::Done {
                result: match result {
                    Ok(p) => Ok(p@),
                    Err(m) => Err(m@),
                },
            },
        }
    }
}

/// What running a command gave.
#[derive(Debug)]
pub enum CommandReport {
    /// The command could not be run at all.
    NotRun { error: String },
    /// The command ran.
    Ran { success: bool, stdout: String },
}

/// A `CommandReport` as plain values.
pub enum ReportView {
    NotRun { error: Seq<char> },
    Ran { success: bool, stdout: Seq<char> },
}

impl View for CommandReport {
    type V = ReportView;

    open spec fn view(&self) -> ReportView {
        match self {
            CommandReport::NotRun { error } => ReportView::NotRun { error: error@ },
            CommandReport::Ran { success, stdout } => ReportView::Ran {
                success: *success,
                stdout: stdout@,
            },
        }
    }
}

/// The directory that is taken where nothing else is found.
pub open spec fn default_storage() -> Seq<char> {
    "/storage/emulated/0"@
}

/// The usual directories, in the order in which they are tried.
pub open spec fn common_path(index: int) -> Seq<char> {
    if index <= 0 {
        "/sdcard"@
    } else if index == 1 {
        "/mnt/sdcard"@
    } else {
        "/storage/self/primary"@
    }
}

/// The command that asks whether the directory `path` exists.
pub open spec fn verify_command(path: Seq<char>) -> Seq<char> {
    "test -d '"@ + path + "' && echo exists"@
}

/// The command that asks what `path` resolves to.
pub open spec fn resolve_command(path: Seq<char>) -> Seq<char> {
    "readlink -f '"@ + path + "'"@
}

/// The shell command that a state asks for; none at the end.
pub open spec fn probe_command(state: ProbeView) -> Option<Seq<char>> {
    match state {
        ProbeView::ReadEnv => Some("echo $EXTERNAL_STORAGE"@),
        ProbeView::VerifyEnv { path } => Some(verify_command(path)),
        ProbeView::ResolveEnv { path } => Some(resolve_command(path)),
        ProbeView::VerifyCommon { index } => Some(verify_command(common_path(index))),
        ProbeView::ResolveCommon { index } => Some(resolve_command(common_path(index))),
        ProbeView::Done { .. } => None,
    }
}

/// The report says that the directory asked about exists.
pub open spec fn says_exists(report: ReportView) -> bool {
    match report {
        ReportView::Ran { stdout, .. } => contains_text(stdout, "exists"@),
        ReportView::NotRun { .. } => false,
    }
}

/// What a resolving command gave, if it gave anything.
pub open spec fn resolved(report: ReportView) -> Option<Seq<char>> {
    match report {
        ReportView::Ran { stdout, .. } => if trimmed(stdout).len() > 0 {
            Some(trimmed(stdout))
        } else {
            None
        },
        ReportView::NotRun { .. } => None,
    }
}

/// The state that follows `state` when its command gave `report`.
///
/// The value of `EXTERNAL_STORAGE` is taken if the command succeeded and
/// printed something other than the variable's own name, and if that
/// directory exists. Else the usual directories are tried in order. A
/// directory that exists is resolved, and stands as it is where resolving
/// gives nothing. Where none exists the default is the answer. Only a
/// first command that cannot be run is an error.
pub open spec fn next_probe(state: ProbeView, report: ReportView) -> ProbeView {
    match state {
        ProbeView::ReadEnv => match report {
            ReportView::NotRun { error } => ProbeView::Done {
                result: Err("Failed to execute adb command: "@ + error),
            },
            ReportView::Ran { success, stdout } => {
                let path = trimmed(stdout);
                if success && path.len() > 0 && path != "$EXTERNAL_STORAGE"@ {
                    ProbeView::VerifyEnv { path }
                } else {
                    ProbeView::VerifyCommon { index: 0 }
                }
            },
        },
        ProbeView::VerifyEnv { path } => if says_exists(report) {
            ProbeView::ResolveEnv { path }
        } else {
            ProbeView::VerifyCommon { index: 0 }
        },
        ProbeView::ResolveEnv { path } => ProbeView::Done {
            result: Ok(
                match resolved(report) {
                    Some(r) => r,
                    None => path,
                },
            ),
        },
        ProbeView::VerifyCommon { index } => if says_exists(report) {
            ProbeView::ResolveCommon { index }
        } else if index < 2 {
            ProbeView::VerifyCommon { index: index + 1 }
        } else {
            ProbeView::Done { result: Ok(default_storage()) }
        },
        ProbeView::ResolveCommon { index } => ProbeView::Done {
            result: Ok(
                match resolved(report) {
                    Some(r) => r,
                    None => common_path(index),
                },
            ),
        },
        ProbeView::Done { result } => ProbeView::Done { result },
    }
}

/// The number of commands that can still follow a state.
pub open spec fn commands_left(state: ProbeView) -> nat {
    match state {
        ProbeView::ReadEnv => 6,
        ProbeView::VerifyEnv { .. } => 5,
        ProbeView::VerifyCommon { index } => if index <= 0 {
            4
        } else if index == 1 {
            3
        } else {
            2
        },
        ProbeView::ResolveEnv { .. } => 1,
        ProbeView::ResolveCommon { .. } => 1,
        ProbeView::Done { .. } => 0,
    }
}

fn common_path_text(index: usize) -> (r: String)
    ensures
        r@ == common_path(index as int),
{
    if index == 0 {
        String::from_str("/sdcard")
    } else if index == 1 {
        String::from_str("/mnt/sdcard")
    } else {
        String::from_str("/storage/self/primary")
    }
}

fn verify_command_for(path: &str) -> (r: String)
    ensures
        r@ == verify_command(path@),
{
    let mut out: Vec<char> = Vec::new();
    append_str(&mut out, "test -d '");
    append_str(&mut out, path);
    append_str(&mut out, "' && echo exists");
    from_chars(out.as_slice())
}

fn resolve_command_for(path: &str) -> (r: String)
    ensures
        r@ == resolve_command(path@),
{
    let mut out: Vec<char> = Vec::new();
    append_str(&mut out, "readlink -f '");
    append_str(&mut out, path);
    append_str(&mut out, "'");
    from_chars(out.as_slice())
}

fn report_says_exists(report: &CommandReport) -> (r: bool)
    ensures
        r == says_exists(report@),
{
    match report {
        CommandReport::Ran { stdout, .. } => {
            let s = to_chars(stdout.as_str());
            contains_str(s.as_slice(), "exists")
        },
        CommandReport::NotRun { .. } => false,
    }
}

fn report_resolved(report: &CommandReport) -> (r: Option<String>)
    ensures
        match r {
            Some(p) => resolved(report@) == Some(p@),
            None => resolved(report@) is None,
        },
{
    match report {
        CommandReport::Ran { stdout, .. } => {
            let s = to_chars(stdout.as_str());
            let t = trim(s.as_slice());
            if t.len() > 0 {
                Some(from_chars(t.as_slice()))
            } else {
                None
            }
        },
        CommandReport::NotRun { .. } => None,
    }
}

impl StorageProbe {
    /// The state in which the search begins.
    pub fn start() -> (r: StorageProbe)
        ensures
            r@ == ProbeView::ReadEnv,
    {
        StorageProbe::ReadEnv
    }

    /// The shell command to run on the device next, or `None` at the end.
    pub fn command(&self) -> (r: Option<String>)
        ensures
            match r {
                Some(c) => probe_command(self@) == Some(c@),
                None => probe_command(self@) is None,
            },
    {
        match self {
            StorageProbe::ReadEnv => Some(String::from_str("echo $EXTERNAL_STORAGE")),
            StorageProbe::VerifyEnv { path } => Some(verify_command_for(path.as_str())),
            StorageProbe::ResolveEnv { path } => Some(resolve_command_for(path.as_str())),
            StorageProbe::VerifyCommon { index } => {
                let p = common_path_text(*index);
                Some(verify_command_for(p.as_str()))
            },
            StorageProbe::ResolveCommon { index } => {
                let p = common_path_text(*index);
                Some(resolve_command_for(p.as_str()))
            },
            StorageProbe::Done { .. } => None,
        }
    }

    /// The state that follows when this state's command gave `report`.
    /// Each step leaves fewer commands to run, so the search ends.
    pub fn advance(self, report: CommandReport) -> (r: StorageProbe)
        ensures
            r@ == next_probe(self@, report@),
            !(self@ is Done) ==> commands_left(r@) < commands_left(self@),
    {
        match self {
            StorageProbe::ReadEnv => match report {
                CommandReport::NotRun { error } => {
                    let mut out: Vec<char> = Vec::new();
                    append_str(&mut out, "Failed to execute adb command: ");
                    append_str(&mut out, error.as_str());
                    StorageProbe::Done { result: Err(from_chars(out.as_slice())) }
                },
                CommandReport::Ran { success, stdout } => {
                    let s = to_chars(stdout.as_str());
                    let path = trim(s.as_slice());
                    if success && path.len() > 0 && !is_text(
                        path.as_slice(),
                        "$EXTERNAL_STORAGE",
                    ) {
                        StorageProbe::VerifyEnv { path: from_chars(path.as_slice()) }
                    } else {
                        StorageProbe::VerifyCommon { index: 0 }
                    }
                },
            },
            StorageProbe::VerifyEnv { path } => if report_says_exists(&report) {
                StorageProbe::ResolveEnv { path }
            } else {
                StorageProbe::VerifyCommon { index: 0 }
            },
            StorageProbe::ResolveEnv { path } => match report_resolved(&report) {
                Some(r) => StorageProbe::Done { result: Ok(r) },
                None => StorageProbe::Done { result: Ok(path) },
            },
            StorageProbe::VerifyCommon { index } => if report_says_exists(&report) {
                StorageProbe::ResolveCommon { index }
            } else if index < 2 {
                StorageProbe::VerifyCommon { index: index + 1 }
            } else {
                StorageProbe::Done { result: Ok(String::from_str("/storage/emulated/0")) }
            },
            StorageProbe::ResolveCommon { index } => match report_resolved(&report) {
                Some(r) => StorageProbe::Done { result: Ok(r) },
                None => StorageProbe::Done { result: Ok(common_path_text(index)) },
            },
            StorageProbe::Done { result } => StorageProbe::Done { result },
        }
    }

    /// The answer, once the search is over.
    pub fn result(&self) -> (r: Option<&Result<String, String>>)
        ensures
            match r {
                Some(x) => *self == (StorageProbe::Done { result: *x }),
                None => !(self@ is Done),
            },
    {
        match self {
            StorageProbe::Done { result } => Some(result),
            _ => None,
        }
    }
}

} // verus!
