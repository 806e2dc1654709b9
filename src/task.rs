//! Compiled tasks, as sent to a cluster.
use vstd::prelude::*;
use crate::model::{Requirements, TaskUsedResource};

verus! {

/// What a cluster is asked to do with a task.
#[derive(Clone, Copy, Debug, PartialEq, Eq, Structural)]
pub enum TaskCommand {
    Start,
    Pause,
    Continue,
    Delete,
}

/// How the software is run on a cluster.
#[derive(Clone, Debug)]
pub enum FacilityKind {
    Spack { name: String, argument_list: Vec<String> },
    Singularity { image: String, tag: String },
}

/// Where the standard input of the command comes from.
#[derive(Clone, Debug)]
pub enum StdInKind {
    Text { text: String },
    File { path: String },
    Absent,
}

/// The content of an input file: a stored file, or literal text.
#[derive(Clone, Debug)]
pub enum InFileForm {
    Id(u128),
    Content(String),
}

/// A file placed before the run or fetched after it.
#[derive(Clone, Debug)]
pub enum FileInfo {
    Input { path: String, is_package: bool, form: InFileForm },
    Output { id: u128, path: String, is_package: bool, optional: bool },
}

/// What a collector reads, resolved.
#[derive(Clone, Debug)]
pub enum TaskCollectFrom {
    FileOut { path: String },
    Stdout,
    Stderr,
}

/// Where a collected result is stored, resolved.
#[derive(Clone, Debug)]
pub enum TaskCollectTo {
    File { path: String, id: u128 },
    Text { id: u128 },
}

/// How a collector picks its result.
#[derive(Clone, Debug)]
pub enum TaskCollectRule {
    Regex(String),
    BottomLines(usize),
    TopLines(usize),
}

/// One step of a task.
#[derive(Clone, Debug)]
pub enum TaskBody {
    SoftwareDeployment { facility_kind: FacilityKind },
    UsecaseExecution {
        name: String,
        arguments: Vec<String>,
        environments: Vec<(String, String)>,
        files: Vec<FileInfo>,
        facility_kind: FacilityKind,
        std_in: StdInKind,
        requirements: Option<Requirements>,
    },
    CollectedOut { from: TaskCollectFrom, rule: TaskCollectRule, to: TaskCollectTo, optional: bool },
}

/// A compiled task.
#[derive(Clone, Debug)]
pub struct Task {
    pub id: u128,
    pub command: TaskCommand,
    pub body: Vec<TaskBody>,
}

/// A file of a task as plain values: direction (0 input, 1 output), path,
/// package flag, optional flag, id, form (0 stored file, 1 literal text) and
/// literal text.
pub type FileView = (int, Seq<char>, bool, bool, u128, int, Seq<char>);

/// A task file as plain values.
pub open spec fn file_view(f: FileInfo) -> FileView {
    match f {
        FileInfo::Input { path, is_package, form: InFileForm::Id(id) } => (0, path@, is_package, false, id, 0, Seq::empty()),
        FileInfo::Input { path, is_package, form: InFileForm::Content(c) } => (0, path@, is_package, false, 0, 1, c@),
        FileInfo::Output { id, path, is_package, optional } => (1, path@, is_package, optional, id, 0, Seq::empty()),
    }
}

/// Task files as plain values.
pub open spec fn files_view(v: Seq<FileInfo>) -> Seq<FileView> {
    v.map_values(|f: FileInfo| file_view(f))
}

/// A collector step as plain values: source (0 file, 1 stdout, 2 stderr, and
/// the file's path), rule (0 regex, 1 bottom lines, 2 top lines, the pattern,
/// the count), target (0 text, 1 file, the path, the id), and whether it is
/// optional.
pub type CollectView = ((int, Seq<char>), (int, Seq<char>, usize), (int, Seq<char>, u128), bool);

/// A collector's source as plain values.
pub open spec fn task_from_view(f: TaskCollectFrom) -> (int, Seq<char>) {
    match f {
        TaskCollectFrom::FileOut { path } => (0, path@),
        TaskCollectFrom::Stdout => (1, Seq::empty()),
        TaskCollectFrom::Stderr => (2, Seq::empty()),
    }
}

/// A collect rule as plain values.
pub open spec fn task_rule_view(r: TaskCollectRule) -> (int, Seq<char>, usize) {
    match r {
        TaskCollectRule::Regex(p) => (0, p@, 0),
        TaskCollectRule::BottomLines(n) => (1, Seq::empty(), n),
        TaskCollectRule::TopLines(n) => (2, Seq::empty(), n),
    }
}

/// A collector's target as plain values.
pub open spec fn task_to_view(t: TaskCollectTo) -> (int, Seq<char>, u128) {
    match t {
        TaskCollectTo::Text { id } => (0, Seq::empty(), id),
        TaskCollectTo::File { path, id } => (1, path@, id),
    }
}

/// A collector step as plain values.
pub open spec fn collect_view(b: TaskBody) -> CollectView {
    match b {
        TaskBody::CollectedOut { from, rule, to, optional } => (task_from_view(from), task_rule_view(rule), task_to_view(to), optional),
        _ => ((0, Seq::empty()), (0, Seq::empty(), 0), (0, Seq::empty(), 0), false),
    }
}

/// How a task ended, as reported on the status topic.
#[derive(Clone, Copy, Debug, PartialEq, Eq, Structural)]
pub enum TaskResultStatus {
    Success,
    Failed,
    Paused,
    Continued,
    Deleted,
}

/// A status message about a task.
#[derive(Clone, Debug)]
pub struct TaskResult {
    pub id: u128,
    pub status: TaskResultStatus,
    pub message: String,
    pub used_resources: Option<TaskUsedResource>,
}

/// An operation asked of a running task.
#[derive(Clone, Copy, Debug, PartialEq, Eq, Structural)]
pub struct Operation {
    pub task_id: u128,
    pub command: TaskCommand,
}

} // verus!
