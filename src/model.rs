//! Workflow domain model: specifications, slots, batch strategies and node
//! instances.
use vstd::prelude::*;

verus! {

use NodeInstanceStatus::{
    Created, Error, Finished, Paused, Pausing, Pending, Recovering, Running, Standby, Stopped,
    Stopping,
};

/// How clusters are chosen for a node.
#[derive(Clone, Debug)]
pub enum SchedulingStrategy {
    /// The scheduler must choose among these clusters.
    Manual { clusters: Vec<u128> },
    /// The scheduler chooses freely.
    Auto,
    /// The scheduler prefers these clusters.
    Prefer { clusters: Vec<u128> },
}

/// A dependency between two nodes and the slots that it connects.
#[derive(Clone, Debug)]
pub struct NodeRelation {
    pub from_id: u128,
    pub to_id: u128,
    pub slot_relations: Vec<SlotRelation>,
}

/// One output slot of the upstream node feeding one input slot downstream.
#[derive(Clone, Debug)]
pub struct SlotRelation {
    pub from_slot: String,
    pub to_slot: String,
    pub transfer_strategy: TransferStrategy,
}

/// How data moves along a slot relation.
#[derive(Clone, Copy, Debug, PartialEq, Eq, Structural)]
pub enum TransferStrategy {
    Network,
    Disk,
}

/// Compute resources asked for by a task.
#[derive(Clone, Copy, Debug, PartialEq, Eq, Structural)]
pub struct Requirements {
    pub cpu_cores: Option<usize>,
    pub node_count: Option<isize>,
    pub max_wall_time: Option<usize>,
    pub max_cpu_time: Option<usize>,
    pub stop_time: Option<usize>,
}

/// A batch strategy attached to one input slot.
#[derive(Clone, Debug)]
pub struct BatchStrategy {
    pub input_slot_descriptor: String,
    pub renaming_pattern: Option<String>,
    pub kind: BatchStrategyKind,
}

/// How a batch strategy decides its number of sub-tasks.
#[derive(Clone, Debug)]
pub enum BatchStrategyKind {
    /// One sub-task per input bound on the slot.
    OriginalBatch,
    /// A fixed number of sub-tasks made by filling a pattern.
    MatchRegex { regex_to_match: String, fill_count: usize, filler: Filler },
    /// As many sub-tasks as the upstream node that feeds the slot.
    FromBatchOutputs,
}

/// How generated batch inputs are filled.
#[derive(Clone, Debug)]
pub enum Filler {
    AutoNumber { start: i32, step: i32 },
    Enumeration { items: Vec<String> },
}

impl Filler {
    /// The default filler: numbers counting up from zero by one.
    pub fn default() -> (r: Filler)
        ensures
            r matches Filler::AutoNumber { start: 0, step: 1 },
    {
        Filler::AutoNumber { start: 0, step: 1 }
    }
}

/// One file bound to a file input slot.
#[derive(Clone, Debug)]
pub struct FileInput {
    pub file_metadata_id: u128,
    pub file_metadata_name: String,
    pub hash: String,
    pub size: usize,
}

/// The input of one sub-task on one slot.
#[derive(Clone, Debug)]
pub enum Input {
    Text(u128),
    File(FileInput),
}

/// An input slot of a node.
#[derive(Clone, Debug)]
pub struct NodeInputSlot {
    pub kind: NodeInputSlotKind,
    pub optional: bool,
    pub descriptor: String,
    pub description: Option<String>,
}

/// What an input slot carries.
#[derive(Clone, Debug)]
pub enum NodeInputSlotKind {
    Text { contents: Option<Vec<u128>>, rule: TextInputSlotRule },
    File { contents: Option<Vec<FileInput>>, expected_file_name: Option<String>, is_batch: bool },
    Unknown,
}

/// Whether an input slot has no contents bound.
pub open spec fn slot_is_empty(kind: NodeInputSlotKind) -> bool {
    match kind {
        NodeInputSlotKind::Text { contents, .. } => contents is None,
        NodeInputSlotKind::File { contents, .. } => contents is None,
        NodeInputSlotKind::Unknown => true,
    }
}

/// The number of inputs bound on a slot (zero when empty).
pub open spec fn slot_input_count(kind: NodeInputSlotKind) -> nat {
    match kind {
        NodeInputSlotKind::Text { contents: Some(v), .. } => v@.len(),
        NodeInputSlotKind::File { contents: Some(v), .. } => v@.len(),
        _ => 0,
    }
}

impl NodeInputSlot {
    /// Whether the slot has no contents bound; an `Unknown` slot counts as empty.
    pub fn is_empty_input(&self) -> (r: bool)
        ensures
            r == slot_is_empty(self.kind),
    {
        match &self.kind {
            NodeInputSlotKind::Text { contents, .. } => contents.is_none(),
            NodeInputSlotKind::File { contents, .. } => contents.is_none(),
            NodeInputSlotKind::Unknown => true,
        }
    }

    /// The number of inputs bound on the slot.
    pub fn inputs_count(&self) -> (r: usize)
        ensures
            r == slot_input_count(self.kind),
    {
        match &self.kind {
            NodeInputSlotKind::Text { contents: Some(v), .. } => v.len(),
            NodeInputSlotKind::File { contents: Some(v), .. } => v.len(),
            _ => 0,
        }
    }
}

/// The rule that a text input must follow.
#[derive(Clone, Debug)]
pub enum TextInputSlotRule {
    Json,
    Number,
    Regex { regex: String },
    AnyString,
}

/// Where a file output comes from.
#[derive(Clone, Copy, Debug, PartialEq, Eq, Structural)]
pub enum FileOutOrigin {
    CollectedOut,
    UsecaseOut,
}

/// An output slot of a node, with one pre-allocated id per sub-task.
#[derive(Clone, Debug)]
pub struct NodeSpecOutputSlot {
    pub kind: NodeSpecOutputSlotKind,
    pub descriptor: String,
    pub optional: bool,
}

/// What an output slot produces.
#[derive(Clone, Debug)]
pub enum NodeSpecOutputSlotKind {
    Text { all_tasks_prepared_text_keys: Vec<u128> },
    File { all_tasks_prepared_content_ids: Vec<u128>, origin: FileOutOrigin },
}

/// The kind of work a node does.
#[derive(Clone, Debug)]
pub enum NodeKind {
    SoftwareUsecaseComputing { data: SoftwareUsecaseComputing },
    NoAction,
    Script { script_info: ScriptInfo },
    Milestone { data: Milestone },
}

/// A script node's description.
#[derive(Clone, Debug)]
pub struct ScriptInfo {
    pub kind: ScriptKind,
    /// Input slot descriptor and the path its file is placed at.
    pub input_path: Vec<(String, String)>,
    /// Output slot descriptor, the path it is read from and its check.
    pub output_path: Vec<(String, OutPathAndValidate)>,
    pub origin: ScriptOriginKind,
}

/// The path of a script output and an optional check of it.
#[derive(Clone, Debug)]
pub struct OutPathAndValidate {
    pub path: String,
    pub validator: Option<String>,
}

/// Where a script comes from.
#[derive(Clone, Debug)]
pub enum ScriptOriginKind {
    Git { url: String },
    Edit { content: String },
}

/// The language of a script.
#[derive(Clone, Copy, Debug, PartialEq, Eq, Structural)]
pub enum ScriptKind {
    Python,
}

/// The packages that a software node runs.
#[derive(Clone, Copy, Debug, PartialEq, Eq, Structural)]
pub struct SoftwareUsecaseComputing {
    pub usecase_version_id: u128,
    pub software_version_id: u128,
}

/// A milestone node's description.
#[derive(Clone, Debug)]
pub struct Milestone {
    pub name: String,
    pub url: String,
    pub custom_message: String,
}

impl NodeKind {
    /// The default kind: a software node with zero package ids.
    pub fn default() -> (r: NodeKind)
        ensures
            r matches NodeKind::SoftwareUsecaseComputing { data }
                && data.usecase_version_id == 0 && data.software_version_id == 0,
    {
        NodeKind::SoftwareUsecaseComputing {
            data: SoftwareUsecaseComputing { usecase_version_id: 0, software_version_id: 0 },
        }
    }
}

/// One step of a workflow.
#[derive(Clone, Debug)]
pub struct NodeSpec {
    pub id: u128,
    pub name: String,
    pub kind: NodeKind,
    pub input_slots: Vec<NodeInputSlot>,
    pub output_slots: Vec<NodeSpecOutputSlot>,
    pub batch_strategies: Vec<BatchStrategy>,
    pub scheduling_strategy: SchedulingStrategy,
    pub requirements: Option<Requirements>,
}

/// The static graph of a workflow.
#[derive(Clone, Debug)]
pub struct WorkflowInstanceSpec {
    pub node_specs: Vec<NodeSpec>,
    pub node_relations: Vec<NodeRelation>,
}

/// One submitted workflow.
#[derive(Clone, Debug)]
pub struct WorkflowInstance {
    pub id: u128,
    pub spec: WorkflowInstanceSpec,
}

/// Resources used by a finished task.
#[derive(Clone, Copy, Debug, PartialEq, Eq, Structural)]
pub struct TaskUsedResource {
    pub cpu: u64,
    pub avg_memory: u64,
    pub max_memory: u64,
    pub storage: u64,
    pub wall_time: u64,
    pub cpu_time: u64,
    pub node: u64,
    pub start_time: i64,
    pub end_time: i64,
}

/// A materialised node of a running workflow.
#[derive(Clone, Debug)]
pub struct NodeInstance {
    pub kind: NodeInstanceKind,
    pub id: u128,
    pub name: String,
    pub is_parent: bool,
    pub batch_parent_id: Option<u128>,
    pub flow_instance_id: u128,
    pub status: NodeInstanceStatus,
    pub cluster_id: Option<u128>,
    pub log: Option<String>,
    pub resource_meter: Option<TaskUsedResource>,
}

/// The kind of a node instance.
#[derive(Clone, Copy, Debug, PartialEq, Eq, Structural)]
pub enum NodeInstanceKind {
    SoftwareUsecaseComputing,
    NoAction,
    Script,
    Milestone,
}

/// The instance kind that a node kind materialises as.
pub open spec fn instance_kind_of(kind: NodeKind) -> NodeInstanceKind {
    match kind {
        NodeKind::SoftwareUsecaseComputing { .. } => NodeInstanceKind::SoftwareUsecaseComputing,
        NodeKind::NoAction => NodeInstanceKind::NoAction,
        NodeKind::Script { .. } => NodeInstanceKind::Script,
        NodeKind::Milestone { .. } => NodeInstanceKind::Milestone,
    }
}

impl NodeInstanceKind {
    /// The instance kind for a node kind.
    pub fn from_node_kind(kind: &NodeKind) -> (r: NodeInstanceKind)
        ensures
            r == instance_kind_of(*kind),
    {
        match kind {
            NodeKind::SoftwareUsecaseComputing { .. } => NodeInstanceKind::SoftwareUsecaseComputing,
            NodeKind::NoAction => NodeInstanceKind::NoAction,
            NodeKind::Script { .. } => NodeInstanceKind::Script,
            NodeKind::Milestone { .. } => NodeInstanceKind::Milestone,
        }
    }
}

/// The life cycle of a node instance.
#[derive(Clone, Copy, Debug, PartialEq, Eq, Structural)]
pub enum NodeInstanceStatus {
    Created,
    Pending,
    Running,
    Finished,
    Error,
    Stopping,
    Stopped,
    Standby,
    Pausing,
    Paused,
    Recovering,
}

/// Whether a status is final.
pub open spec fn is_terminal(s: NodeInstanceStatus) -> bool {
    s == NodeInstanceStatus::Finished || s == NodeInstanceStatus::Stopped
        || s == NodeInstanceStatus::Error
}

/// The moves that the status machine allows.
pub open spec fn allowed_transition(from: NodeInstanceStatus, to: NodeInstanceStatus) -> bool {
    match (from, to) {
        (Created, Pending) | (Pending, Running) | (Running, Finished) => true,
        (Running, Stopping) | (Stopping, Stopped) => true,
        (Running, Pausing) | (Pausing, Paused) | (Paused, Recovering) | (Recovering, Running) => true,
        (Pending, Standby) | (Standby, Pending) => true,
        (_, Error) => !is_terminal(from),
        _ => false,
    }
}

impl NodeInstanceStatus {
    /// Whether a node in this status may move to `to`.
    pub fn can_transition_to(&self, to: NodeInstanceStatus) -> (r: bool)
        ensures
            r == allowed_transition(*self, to),
    {
        match (*self, to) {
            (Created, Pending) | (Pending, Running) | (Running, Finished) => true,
            (Running, Stopping) | (Stopping, Stopped) => true,
            (Running, Pausing) | (Pausing, Paused) | (Paused, Recovering) | (Recovering, Running) => true,
            (Pending, Standby) | (Standby, Pending) => true,
            (_, Error) => !(*self == Finished || *self == Stopped || *self == Error),
            _ => false,
        }
    }

    /// Whether the status is final.
    pub fn is_terminal(&self) -> (r: bool)
        ensures
            r == is_terminal(*self),
    {
        *self == NodeInstanceStatus::Finished || *self == NodeInstanceStatus::Stopped
            || *self == NodeInstanceStatus::Error
    }
}

} // verus!
