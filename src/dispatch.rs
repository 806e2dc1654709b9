//! Per-kind use-case services: the status they report and the commands they
//! send.
use vstd::prelude::*;
use vstd::string::StringExecFns;
use crate::content::join_spaced;
use crate::model::{NodeInstanceKind, NodeSpec};
use crate::task::{Operation, Task, TaskBody, TaskCommand, TaskResult, TaskResultStatus};

verus! {

/// The topic that task results are published on.
pub fn node_status_topic() -> (r: String)
    ensures
        r@ == "node_status"@,
{
    String::from_str("node_status")
}

/// The status reported for an operation on a task that does nothing.
pub open spec fn no_action_status(c: TaskCommand) -> TaskResultStatus {
    match c {
        TaskCommand::Start => TaskResultStatus::Success,
        TaskCommand::Pause => TaskResultStatus::Paused,
        TaskCommand::Continue => TaskResultStatus::Success,
        TaskCommand::Delete => TaskResultStatus::Deleted,
    }
}

/// The service for nodes that do nothing: every request succeeds at once.
pub struct NoActionUsecaseService {}

impl NoActionUsecaseService {
    /// The service.
    pub fn new() -> (r: NoActionUsecaseService) {
        NoActionUsecaseService {}
    }

    /// The result reported for a node that does nothing: immediate success,
    /// with an empty message and no resources.
    pub fn handle_usecase(&self, node_spec: &NodeSpec) -> (r: TaskResult)
        ensures
            r.id == node_spec.id,
            r.status == TaskResultStatus::Success,
            r.message@.len() == 0,
            r.used_resources is None,
    {
        TaskResult { id: node_spec.id, status: TaskResultStatus::Success, message: String::new(), used_resources: None }
    }

    /// The result reported for an operation on such a node.
    pub fn operate_task(&self, operate: Operation) -> (r: TaskResult)
        ensures
            r.id == operate.task_id,
            r.status == no_action_status(operate.command),
            r.message@.len() == 0,
            r.used_resources is None,
    {
        let status = match operate.command {
            TaskCommand::Start => TaskResultStatus::Success,
            TaskCommand::Pause => TaskResultStatus::Paused,
            TaskCommand::Continue => TaskResultStatus::Success,
            TaskCommand::Delete => TaskResultStatus::Deleted,
        };
        TaskResult { id: operate.task_id, status, message: String::new(), used_resources: None }
    }

    /// The kind of node this service handles.
    pub fn get_service_type(&self) -> (r: NodeInstanceKind)
        ensures
            r == NodeInstanceKind::NoAction,
    {
        NodeInstanceKind::NoAction
    }
}

/// The first execution step of a task, if any.
pub open spec fn first_execution(body: Seq<TaskBody>, k: int) -> int
    decreases body.len() - k,
{
    if k < 0 || k >= body.len() {
        -1
    } else if body[k] is UsecaseExecution {
        k
    } else {
        first_execution(body, k + 1)
    }
}

/// The command line of an execution step: its name, then its arguments
/// joined by spaces, if there are any.
pub open spec fn command_line_text(name: Seq<char>, args: Seq<Seq<char>>) -> Seq<char> {
    if join_spaced(args).len() == 0 {
        name
    } else {
        name + seq![' '] + join_spaced(args)
    }
}

/// The command line of the first execution step of `task`.
pub fn command_line(task: &Task) -> (r: Option<String>)
    ensures
        first_execution(task.body@, 0) < 0 ==> r is None,
        first_execution(task.body@, 0) >= 0 ==> (r matches Some(s) && task.body@[first_execution(task.body@, 0)] matches TaskBody::UsecaseExecution { name, arguments, .. }
            && s@ == command_line_text(name@, arguments@.map_values(|a: String| a@))),
{
    let mut k: usize = 0;
    while k < task.body.len()
        invariant
            k <= task.body@.len(),
            first_execution(task.body@, 0) == first_execution(task.body@, k as int),
        decreases task.body@.len() - k,
    {
        if let TaskBody::UsecaseExecution { name, arguments, .. } = &task.body[k] {
            let ghost parts = arguments@.map_values(|a: String| a@);
            let mut joined = String::new();
            let mut i: usize = 0;
            while i < arguments.len()
                invariant
                    i <= arguments@.len(),
                    parts == arguments@.map_values(|a: String| a@),
                    joined@ == join_spaced(parts.subrange(0, i as int)),
                decreases arguments@.len() - i,
            {
                proof {
                    let a = parts.subrange(0, i + 1);
                    assert(a.drop_last() =~= parts.subrange(0, i as int));
                    assert(a.last() == arguments@[i as int]@);
                    if i == 0 {
                        assert(a =~= seq![arguments@[i as int]@]);
                    }
                }
                if i > 0 {
                    joined.append(" ");
                    proof {
                        reveal_strlit(" ");
                    }
                }
                joined.append(arguments[i].as_str());
                i += 1;
            }
            proof {
                assert(parts.subrange(0, i as int) =~= parts);
            }
            let mut line = name.clone();
            if joined.unicode_len() > 0 {
                line.append(" ");
                proof {
                    reveal_strlit(" ");
                }
                line.append(joined.as_str());
            }
            return Some(line);
        }
        k += 1;
    }
    None
}

/// The task that carries an operation on a running task to its cluster.
pub fn operation_task(operate: Operation) -> (r: Task)
    ensures
        r.id == operate.task_id,
        r.command == operate.command,
        r.body@.len() == 0,
{
    Task { id: operate.task_id, command: operate.command, body: Vec::new() }
}

} // verus!
