//! Workflow expansion: node lookup, batch fan-out counts and the list of node
//! instances.
use vstd::prelude::*;
use vstd::string::{StrSliceExecFns, StringExecFns};
use crate::error::KernelError;
use crate::graph::acyclic;
use crate::model::{
    instance_kind_of, slot_input_count, BatchStrategy, BatchStrategyKind, NodeInputSlot,
    NodeInstance, NodeInstanceKind, NodeInstanceStatus, NodeRelation, NodeSpec, WorkflowInstance,
    WorkflowInstanceSpec,
};
use crate::seqs::{first_index, lemma_first_index_found, lemma_first_index_none, lemma_first_index_range};

verus! {

/// Nodes with this id.
pub open spec fn has_id(id: u128) -> spec_fn(NodeSpec) -> bool {
    |n: NodeSpec| n.id == id
}

/// Input slots with this descriptor.
pub open spec fn slot_named(d: Seq<char>) -> spec_fn(NodeInputSlot) -> bool {
    |s: NodeInputSlot| s.descriptor@ == d
}

/// Relations into node `to` that feed the input slot `d`.
pub open spec fn feeds_slot(to: u128, d: Seq<char>) -> spec_fn(NodeRelation) -> bool {
    |r: NodeRelation|
        r.to_id == to && exists|k: int|
            0 <= k < r.slot_relations@.len() && (#[trigger] r.slot_relations@[k]).to_slot@ == d
}

/// Relations into node `to`.
pub open spec fn into_node(to: u128) -> spec_fn(NodeRelation) -> bool {
    |r: NodeRelation| r.to_id == to
}

/// Position of the first node with this id, or -1.
pub open spec fn node_index(w: WorkflowInstanceSpec, id: u128) -> int {
    first_index(w.node_specs@, has_id(id))
}

/// The sub-task count of node `id`, following upstream batch nodes at most
/// `fuel` levels deep.
pub open spec fn sub_count(w: WorkflowInstanceSpec, id: u128, fuel: nat) -> Result<nat, KernelError>
    decreases fuel, 2nat, 0nat,
{
    let i = node_index(w, id);
    if i < 0 || i >= w.node_specs@.len() {
        Err(KernelError::NoSuchNode)
    } else {
        let node = w.node_specs@[i];
        strategies_product(w, node, node.batch_strategies@.len(), fuel)
    }
}

/// The product of the counts of the first `k` batch strategies of `node`.
pub open spec fn strategies_product(
    w: WorkflowInstanceSpec,
    node: NodeSpec,
    k: nat,
    fuel: nat,
) -> Result<nat, KernelError>
    decreases fuel, 1nat, k,
{
    if k == 0 || k > node.batch_strategies@.len() {
        Ok(1)
    } else {
        match strategies_product(w, node, (k - 1) as nat, fuel) {
            Err(e) => Err(e),
            Ok(acc) => match strategy_count(w, node, node.batch_strategies@[k - 1], fuel) {
                Err(e) => Err(e),
                Ok(c) => if acc * c > usize::MAX {
                    Err(KernelError::CountOverflow)
                } else {
                    Ok(acc * c)
                },
            },
        }
    }
}

/// The count that one batch strategy of `node` contributes.
pub open spec fn strategy_count(
    w: WorkflowInstanceSpec,
    node: NodeSpec,
    bs: BatchStrategy,
    fuel: nat,
) -> Result<nat, KernelError>
    decreases fuel, 0nat, 0nat,
{
    match bs.kind {
        BatchStrategyKind::OriginalBatch => {
            let s = first_index(node.input_slots@, slot_named(bs.input_slot_descriptor@));
            if s < 0 || s >= node.input_slots@.len() {
                Err(KernelError::NoSuchSlot)
            } else {
                Ok(slot_input_count(node.input_slots@[s].kind))
            }
        },
        BatchStrategyKind::MatchRegex { fill_count, .. } => Ok(fill_count as nat),
        BatchStrategyKind::FromBatchOutputs => {
            let r = first_index(w.node_relations@, feeds_slot(node.id, bs.input_slot_descriptor@));
            if r < 0 || r >= w.node_relations@.len() {
                Err(KernelError::NoSuchSlot)
            } else if fuel == 0 {
                Err(KernelError::WorkflowCyclic)
            } else {
                sub_count(w, w.node_relations@[r].from_id, (fuel - 1) as nat)
            }
        },
    }
}

/// A count as a mathematical result.
pub open spec fn count_result(r: Result<usize, KernelError>) -> Result<nat, KernelError> {
    match r {
        Ok(c) => Ok(c as nat),
        Err(e) => Err(e),
    }
}

/// The sub-task count of node `id` in a workflow: followed through as many
/// upstream levels as the workflow has nodes.
pub open spec fn node_sub_count(w: WorkflowInstanceSpec, id: u128) -> Result<nat, KernelError> {
    sub_count(w, id, w.node_specs@.len())
}

/// How many children the node at position `i` fans out into: none for a node
/// without batch strategies.
pub open spec fn child_count(w: WorkflowInstanceSpec, i: int) -> Result<nat, KernelError> {
    if w.node_specs@[i].batch_strategies@.len() == 0 {
        Ok(0)
    } else {
        node_sub_count(w, w.node_specs@[i].id)
    }
}

/// The child counts of the first `k` nodes, or the first error met.
pub open spec fn children_plan(w: WorkflowInstanceSpec, k: nat) -> Result<Seq<nat>, KernelError>
    decreases k,
{
    if k == 0 {
        Ok(Seq::empty())
    } else {
        match children_plan(w, (k - 1) as nat) {
            Err(e) => Err(e),
            Ok(s) => match child_count(w, k - 1) {
                Err(e) => Err(e),
                Ok(c) => Ok(s.push(c)),
            },
        }
    }
}

/// Where the block of node `k` starts: each earlier node takes one root and
/// its children.
pub open spec fn block_start(counts: Seq<nat>, k: int) -> int
    decreases k,
{
    if k <= 0 {
        0
    } else {
        block_start(counts, k - 1) + 1 + counts[k - 1]
    }
}

/// The sum of the first `k` counts.
pub open spec fn sum_counts(counts: Seq<nat>, k: int) -> int
    decreases k,
{
    if k <= 0 {
        0
    } else {
        sum_counts(counts, k - 1) + counts[k - 1]
    }
}

/// The decimal digits of `n`.
pub open spec fn decimal(n: nat) -> Seq<char>
    decreases n,
{
    if n < 10 {
        seq![digit_char(n)]
    } else {
        decimal(n / 10).push(digit_char(n % 10))
    }
}

/// The decimal digit for a value below ten.
pub open spec fn digit_char(d: nat) -> char {
    seq!['0', '1', '2', '3', '4', '5', '6', '7', '8', '9'][d as int]
}

/// The name of the `c`-th child of a node named `parent`.
pub open spec fn sub_task_name(parent: Seq<char>, c: nat) -> Seq<char> {
    parent + "_sub_task_"@ + decimal(c)
}

/// Whether `v` is the root instance made for `node` in workflow `flow`.
pub open spec fn is_root_instance(v: NodeInstance, node: NodeSpec, flow: u128) -> bool {
    &&& v.id == node.id
    &&& v.name@ == node.name@
    &&& v.kind == instance_kind_of(node.kind)
    &&& v.is_parent == (node.batch_strategies@.len() > 0)
    &&& v.batch_parent_id is None
    &&& v.flow_instance_id == flow
    &&& v.status == NodeInstanceStatus::Created
    &&& v.cluster_id is None
    &&& v.log is None
    &&& v.resource_meter is None
}

/// Whether `v` is the `c`-th child instance made for `node` in workflow `flow`.
pub open spec fn is_child_instance(v: NodeInstance, node: NodeSpec, flow: u128, c: nat) -> bool {
    &&& v.name@ == sub_task_name(node.name@, c)
    &&& v.kind == instance_kind_of(node.kind)
    &&& !v.is_parent
    &&& v.batch_parent_id == Some(node.id)
    &&& v.flow_instance_id == flow
    &&& v.status == NodeInstanceStatus::Created
    &&& v.cluster_id is None
    &&& v.log is None
    &&& v.resource_meter is None
}

/// The decimal digits of `n`, most significant first.
fn decimal_text(n: usize) -> (r: String)
    ensures
        r@ == decimal(n as nat),
    decreases n,
{
    let digits = "0123456789";
    proof {
        reveal_strlit("0123456789");
    }
    let d = n % 10;
    let one = digits.substring_char(d, d + 1);
    assert(one@ =~= seq![digit_char(d as nat)]);
    if n < 10 {
        String::from_str(one)
    } else {
        let mut r = decimal_text(n / 10);
        r.append(one);
        r
    }
}

proof fn lemma_block_start_prefix(counts: Seq<nat>, c: nat, k: int)
    requires
        0 <= k <= counts.len(),
    ensures
        block_start(counts.push(c), k) == block_start(counts, k),
        sum_counts(counts.push(c), k) == sum_counts(counts, k),
        block_start(counts, k) == k + sum_counts(counts, k),
    decreases k,
{
    if k > 0 {
        lemma_block_start_prefix(counts, c, k - 1);
        assert(counts.push(c)[k - 1] == counts[k - 1]);
    }
}

impl WorkflowInstanceSpec {
    /// The position of the first node with this id.
    pub fn node_position(&self, id: u128) -> (r: Option<usize>)
        ensures
            r is None <==> node_index(*self, id) < 0,
            r matches Some(i) ==> i as int == node_index(*self, id) && i < self.node_specs@.len(),
            node_index(*self, id) < self.node_specs@.len(),
    {
        proof {
            lemma_first_index_range(self.node_specs@, has_id(id));
        }
        let mut i: usize = 0;
        while i < self.node_specs.len()
            invariant
                i <= self.node_specs@.len(),
                forall|j: int| 0 <= j < i ==> !has_id(id)(#[trigger] self.node_specs@[j]),
            decreases self.node_specs@.len() - i,
        {
            if self.node_specs[i].id == id {
                proof {
                    lemma_first_index_found(self.node_specs@, has_id(id), i as int);
                }
                return Some(i);
            }
            i += 1;
        }
        proof {
            lemma_first_index_none(self.node_specs@, has_id(id));
        }
        None
    }

    /// The first node with this id.
    pub fn node(&self, id: u128) -> (r: Option<&NodeSpec>)
        ensures
            node_index(*self, id) < 0 ==> r is None,
            node_index(*self, id) >= 0 ==> (r matches Some(n) && *n
                == self.node_specs@[node_index(*self, id)]),
    {
        match self.node_position(id) {
            Some(i) => {
                assert(i as int == node_index(*self, id));
                Some(&self.node_specs[i])
            },
            None => None,
        }
    }

    /// The first relation into node `to` that feeds its input slot `d`.
    fn relation_feeding(&self, to: u128, d: &String) -> (r: Option<usize>)
        ensures
            r is None <==> first_index(self.node_relations@, feeds_slot(to, d@)) < 0,
            r matches Some(i) ==> i as int == first_index(self.node_relations@, feeds_slot(to, d@))
                && i < self.node_relations@.len(),
            first_index(self.node_relations@, feeds_slot(to, d@)) < self.node_relations@.len(),
    {
        proof {
            lemma_first_index_range(self.node_relations@, feeds_slot(to, d@));
        }
        let mut i: usize = 0;
        while i < self.node_relations.len()
            invariant
                i <= self.node_relations@.len(),
                forall|j: int|
                    0 <= j < i ==> !feeds_slot(to, d@)(#[trigger] self.node_relations@[j]),
            decreases self.node_relations@.len() - i,
        {
            let rel = &self.node_relations[i];
            if rel.to_id == to {
                let mut k: usize = 0;
                while k < rel.slot_relations.len()
                    invariant
                        i < self.node_relations@.len(),
                        *rel == self.node_relations@[i as int],
                        rel.to_id == to,
                        forall|j: int|
                            0 <= j < i ==> !feeds_slot(to, d@)(#[trigger] self.node_relations@[j]),
                        k <= rel.slot_relations@.len(),
                        forall|kk: int|
                            0 <= kk < k ==> (#[trigger] rel.slot_relations@[kk]).to_slot@ != d@,
                    decreases rel.slot_relations@.len() - k,
                {
                    if rel.slot_relations[k].to_slot == *d {
                        assert(rel.slot_relations@[k as int].to_slot@ == d@);
                        assert(feeds_slot(to, d@)(*rel));
                        proof {
                            lemma_first_index_found(self.node_relations@, feeds_slot(to, d@), i as int);
                        }
                        return Some(i);
                    }
                    k += 1;
                }
            }
            i += 1;
        }
        proof {
            lemma_first_index_none(self.node_relations@, feeds_slot(to, d@));
        }
        None
    }

    /// The count that batch strategy `k` of node `i` contributes.
    fn strategy_count_at(&self, i: usize, k: usize, fuel: usize) -> (r: Result<usize, KernelError>)
        requires
            i < self.node_specs@.len(),
            k < self.node_specs@[i as int].batch_strategies@.len(),
        ensures
            count_result(r) == strategy_count(
                *self,
                self.node_specs@[i as int],
                self.node_specs@[i as int].batch_strategies@[k as int],
                fuel as nat,
            ),
        decreases fuel, 0nat,
    {
        let node = &self.node_specs[i];
        let bs = &node.batch_strategies[k];
        match &bs.kind {
            BatchStrategyKind::OriginalBatch => {
                let mut s: usize = 0;
                while s < node.input_slots.len()
                    invariant
                        i < self.node_specs@.len(),
                        k < self.node_specs@[i as int].batch_strategies@.len(),
                        *node == self.node_specs@[i as int],
                        *bs == node.batch_strategies@[k as int],
                        bs.kind is OriginalBatch,
                        s <= node.input_slots@.len(),
                        forall|j: int|
                            0 <= j < s ==> !slot_named(bs.input_slot_descriptor@)(
                                #[trigger] node.input_slots@[j],
                            ),
                    decreases node.input_slots@.len() - s,
                {
                    if node.input_slots[s].descriptor == bs.input_slot_descriptor {
                        proof {
                            lemma_first_index_found(
                                node.input_slots@,
                                slot_named(bs.input_slot_descriptor@),
                                s as int,
                            );
                        }
                        return Ok(node.input_slots[s].inputs_count());
                    }
                    s += 1;
                }
                proof {
                    lemma_first_index_none(node.input_slots@, slot_named(bs.input_slot_descriptor@));
                }
                Err(KernelError::NoSuchSlot)
            },
            BatchStrategyKind::MatchRegex { fill_count, .. } => Ok(*fill_count),
            BatchStrategyKind::FromBatchOutputs => {
                match self.relation_feeding(node.id, &bs.input_slot_descriptor) {
                    None => Err(KernelError::NoSuchSlot),
                    Some(r) => {
                        if fuel == 0 {
                            Err(KernelError::WorkflowCyclic)
                        } else {
                            self.sub_count_within(self.node_relations[r].from_id, fuel - 1)
                        }
                    },
                }
            },
        }
    }

    /// The sub-task count of node `id`, following at most `fuel` upstream levels.
    fn sub_count_within(&self, id: u128, fuel: usize) -> (r: Result<usize, KernelError>)
        ensures
            count_result(r) == sub_count(*self, id, fuel as nat),
        decreases fuel, 1nat,
    {
        let i = match self.node_position(id) {
            Some(i) => i,
            None => {
                return Err(KernelError::NoSuchNode);
            },
        };
        assert(i as int == node_index(*self, id));
        let ghost node = self.node_specs@[i as int];
        let n = self.node_specs[i].batch_strategies.len();
        let mut acc: usize = 1;
        let mut k: usize = 0;
        while k < n
            invariant
                i < self.node_specs@.len(),
                node == self.node_specs@[i as int],
                node_index(*self, id) == i,
                n == node.batch_strategies@.len(),
                k <= n,
                strategies_product(*self, node, k as nat, fuel as nat) == Ok::<nat, KernelError>(
                    acc as nat,
                ),
            decreases n - k,
        {
            let c = match self.strategy_count_at(i, k, fuel) {
                Ok(c) => c,
                Err(e) => {
                    proof {
                        lemma_product_error_sticks(*self, node, (k + 1) as nat, n as nat, fuel as nat);
                    }
                    return Err(e);
                },
            };
            match acc.checked_mul(c) {
                Some(p) => {
                    acc = p;
                },
                None => {
                    proof {
                        lemma_product_error_sticks(*self, node, (k + 1) as nat, n as nat, fuel as nat);
                    }
                    return Err(KernelError::CountOverflow);
                },
            }
            k += 1;
        }
        Ok(acc)
    }
}

impl WorkflowInstance {
    /// The relations that lead into node `node_id`, in their order.
    pub fn node_dependency_relations(&self, node_id: u128) -> (r: Vec<NodeRelation>)
        ensures
            r@.len() == self.spec.node_relations@.filter(into_node(node_id)).len(),
            forall|k: int|
                0 <= k < r@.len() ==> (#[trigger] r@[k]).to_id == node_id && r@[k].from_id
                    == self.spec.node_relations@.filter(into_node(node_id))[k].from_id
                    && r@[k].slot_relations@ == self.spec.node_relations@.filter(
                    into_node(node_id),
                )[k].slot_relations@,
    {
        let ghost p = into_node(node_id);
        let ghost all = self.spec.node_relations@;
        let mut r: Vec<NodeRelation> = Vec::new();
        let mut i: usize = 0;
        while i < self.spec.node_relations.len()
            invariant
                all == self.spec.node_relations@,
                p == into_node(node_id),
                i <= all.len(),
                r@.len() == all.subrange(0, i as int).filter(p).len(),
                forall|k: int|
                    0 <= k < r@.len() ==> (#[trigger] r@[k]).to_id == node_id && r@[k].from_id
                        == all.subrange(0, i as int).filter(p)[k].from_id
                        && r@[k].slot_relations@ == all.subrange(0, i as int).filter(
                        p,
                    )[k].slot_relations@,
            decreases all.len() - i,
        {
            proof {
                reveal(Seq::filter);
                assert(all.subrange(0, i + 1).drop_last() == all.subrange(0, i as int));
                assert(all.subrange(0, i + 1).last() == all[i as int]);
            }
            let rel = &self.spec.node_relations[i];
            if rel.to_id == node_id {
                r.push(NodeRelation { from_id: rel.from_id, to_id: rel.to_id, slot_relations: copy_slot_relations(&rel.slot_relations) });
            }
            i += 1;
        }
        assert(all.subrange(0, i as int) == all);
        r
    }

    /// The number of sub-tasks that node `node_id` fans out into: the product
    /// of its batch strategies' counts (1 with none).
    pub fn sub_node_count(&self, node_id: u128) -> (r: Result<usize, KernelError>)
        ensures
            count_result(r) == node_sub_count(self.spec, node_id),
            acyclic(self.spec) ==> r != Err::<usize, KernelError>(KernelError::WorkflowCyclic),
    {
        proof {
            if acyclic(self.spec) {
                lemma_acyclic_counts_not_cyclic(self.spec, node_id);
            }
        }
        self.spec.sub_count_within(node_id, self.spec.node_specs.len())
    }

    /// The node instances of this workflow: for each node in order, its root
    /// instance followed by its children, if it is a batch parent.
    pub fn parse_node_instances(&self) -> (r: Result<Vec<NodeInstance>, KernelError>)
        ensures
            !acyclic(self.spec) ==> r == Err::<Vec<NodeInstance>, KernelError>(
                KernelError::WorkflowCyclic,
            ),
            acyclic(self.spec) ==> r != Err::<Vec<NodeInstance>, KernelError>(KernelError::WorkflowCyclic),
            acyclic(self.spec) ==> (r is Ok <==> children_plan(
                self.spec,
                self.spec.node_specs@.len(),
            ) is Ok),
            acyclic(self.spec) ==> (r matches Err(e) ==> children_plan(
                self.spec,
                self.spec.node_specs@.len(),
            ) == Err::<Seq<nat>, KernelError>(e)),
            r matches Ok(v) ==> {
                let n = self.spec.node_specs@.len();
                let counts = children_plan(self.spec, n)->Ok_0;
                &&& counts.len() == n
                &&& v@.len() == n + sum_counts(counts, n as int)
                &&& forall|k: int|
                    0 <= k < n ==> is_root_instance(
                        #[trigger] v@[block_start(counts, k)],
                        self.spec.node_specs@[k],
                        self.id,
                    )
                &&& forall|k: int, c: int|
                    0 <= k < n && 0 <= c < counts[k] ==> is_child_instance(
                        #[trigger] v@[block_start(counts, k) + 1 + c],
                        self.spec.node_specs@[k],
                        self.id,
                        c as nat,
                    )
            },
    {
        if !self.spec.is_acyclic() {
            return Err(KernelError::WorkflowCyclic);
        }
        proof {
            lemma_acyclic_plan_not_cyclic(self.spec, self.spec.node_specs@.len());
        }
        let n = self.spec.node_specs.len();
        let mut v: Vec<NodeInstance> = Vec::new();
        let ghost mut counts: Seq<nat> = Seq::empty();
        let mut k: usize = 0;
        while k < n
            invariant
                acyclic(self.spec),
                n == self.spec.node_specs@.len(),
                k <= n,
                children_plan(self.spec, k as nat) == Ok::<Seq<nat>, KernelError>(counts),
                counts.len() == k,
                v@.len() == block_start(counts, k as int),
                block_start(counts, k as int) == k + sum_counts(counts, k as int),
                forall|j: int|
                    0 <= j < k ==> is_root_instance(
                        #[trigger] v@[block_start(counts, j)],
                        self.spec.node_specs@[j],
                        self.id,
                    ),
                forall|j: int, c: int|
                    0 <= j < k && 0 <= c < counts[j] ==> is_child_instance(
                        #[trigger] v@[block_start(counts, j) + 1 + c],
                        self.spec.node_specs@[j],
                        self.id,
                        c as nat,
                    ),
            decreases n - k,
        {
            let node = &self.spec.node_specs[k];
            let is_parent = node.batch_strategies.len() > 0;
            let count: usize = if is_parent {
                match self.sub_node_count(node.id) {
                    Ok(c) => c,
                    Err(e) => {
                        proof {
                            lemma_plan_error_sticks(self.spec, (k + 1) as nat, n as nat);
                        }
                        return Err(e);
                    },
                }
            } else {
                0
            };
            let ghost start = v@.len() as int;
            let ghost old_v = v@;
            push_node_block(&mut v, node, self.id, count);
            proof {
                let new_counts = counts.push(count as nat);
                lemma_block_start_prefix(counts, count as nat, k as int);
                lemma_block_start_prefix(new_counts, 0, (k + 1) as int);
                assert(new_counts[k as int] == count as nat);
                assert forall|j: int| 0 <= j < k + 1 implies is_root_instance(
                    #[trigger] v@[block_start(new_counts, j)],
                    self.spec.node_specs@[j],
                    self.id,
                ) by {
                    lemma_block_start_prefix(counts, count as nat, j);
                    let b = block_start(counts, j);
                    lemma_block_start_mono(counts, 0, j);
                    if j < k {
                        lemma_block_start_mono(counts, j, k as int);
                        assert(old_v[b] == v@[b]);
                    }
                }
                assert forall|j: int, cc: int|
                    0 <= j < k + 1 && 0 <= cc < new_counts[j] implies is_child_instance(
                    #[trigger] v@[block_start(new_counts, j) + 1 + cc],
                    self.spec.node_specs@[j],
                    self.id,
                    cc as nat,
                ) by {
                    lemma_block_start_prefix(counts, count as nat, j);
                    let b = block_start(counts, j);
                    lemma_block_start_mono(counts, 0, j);
                    if j < k {
                        lemma_block_start_mono(counts, j + 1, k as int);
                        assert(new_counts[j] == counts[j]);
                        assert(old_v[b + 1 + cc] == v@[b + 1 + cc]);
                    }
                }
                counts = new_counts;
            }
            k += 1;
        }
        Ok(v)
    }
}

/// A copy of a relation's slot relations.
fn copy_slot_relations(v: &Vec<crate::model::SlotRelation>) -> (r: Vec<crate::model::SlotRelation>)
    ensures
        r@ == v@,
{
    let mut r: Vec<crate::model::SlotRelation> = Vec::new();
    let mut i: usize = 0;
    while i < v.len()
        invariant
            i <= v@.len(),
            r@ == v@.subrange(0, i as int),
        decreases v@.len() - i,
    {
        let x = &v[i];
        r.push(crate::model::SlotRelation { from_slot: x.from_slot.clone(), to_slot: x.to_slot.clone(), transfer_strategy: x.transfer_strategy });
        assert(r@ =~= v@.subrange(0, i + 1));
        i += 1;
    }
    assert(v@.subrange(0, i as int) =~= v@);
    r
}

proof fn lemma_product_error_sticks(
    w: WorkflowInstanceSpec,
    node: NodeSpec,
    k: nat,
    m: nat,
    fuel: nat,
)
    requires
        k <= m <= node.batch_strategies@.len(),
        strategies_product(w, node, k, fuel) is Err,
    ensures
        strategies_product(w, node, m, fuel) == strategies_product(w, node, k, fuel),
    decreases m - k,
{
    if k < m {
        lemma_product_error_sticks(w, node, k, (m - 1) as nat, fuel);
    }
}

/// Appends the root instance of `node` and its `count` children.
fn push_node_block(v: &mut Vec<NodeInstance>, node: &NodeSpec, flow: u128, count: usize)
    requires
        count > 0 ==> node.batch_strategies@.len() > 0,
    ensures
        final(v)@.len() == old(v)@.len() + 1 + count,
        forall|i: int| 0 <= i < old(v)@.len() ==> final(v)@[i] == old(v)@[i],
        is_root_instance(final(v)@[old(v)@.len() as int], *node, flow),
        forall|c: int|
            0 <= c < count ==> is_child_instance(
                #[trigger] final(v)@[old(v)@.len() + 1 + c],
                *node,
                flow,
                c as nat,
            ),
{
    let root = NodeInstance {
        kind: NodeInstanceKind::from_node_kind(&node.kind),
        id: node.id,
        name: node.name.clone(),
        is_parent: node.batch_strategies.len() > 0,
        batch_parent_id: None,
        flow_instance_id: flow,
        status: NodeInstanceStatus::Created,
        cluster_id: None,
        log: None,
        resource_meter: None,
    };
    let ghost start = old(v)@.len() as int;
    v.push(root);
    let mut c: usize = 0;
    while c < count
        invariant
            c <= count,
            start == old(v)@.len(),
            v@.len() == start + 1 + c,
            forall|i: int| 0 <= i < start ==> v@[i] == old(v)@[i],
            is_root_instance(v@[start], *node, flow),
            forall|cc: int|
                0 <= cc < c ==> is_child_instance(#[trigger] v@[start + 1 + cc], *node, flow, cc as nat),
        decreases count - c,
    {
        let name = node.name.clone();
        let name = name.concat("_sub_task_");
        let digits = decimal_text(c);
        let name = name.concat(digits.as_str());
        let child = NodeInstance {
            kind: NodeInstanceKind::from_node_kind(&node.kind),
            id: crate::ids::fresh_id(),
            name,
            is_parent: false,
            batch_parent_id: Some(node.id),
            flow_instance_id: flow,
            status: NodeInstanceStatus::Created,
            cluster_id: None,
            log: None,
            resource_meter: None,
        };
        assert(is_child_instance(child, *node, flow, c as nat));
        v.push(child);
        c += 1;
    }
}

proof fn lemma_plan_error_sticks(w: WorkflowInstanceSpec, k: nat, m: nat)
    requires
        k <= m,
        children_plan(w, k) is Err,
    ensures
        children_plan(w, m) == children_plan(w, k),
    decreases m - k,
{
    if k < m {
        lemma_plan_error_sticks(w, k, (m - 1) as nat);
    }
}

proof fn lemma_block_start_mono(counts: Seq<nat>, j: int, k: int)
    requires
        0 <= j <= k <= counts.len(),
    ensures
        block_start(counts, j) + (k - j) <= block_start(counts, k),
    decreases k - j,
{
    if j < k {
        lemma_block_start_mono(counts, j, k - 1);
    }
}


/// Instance count: in the plan of a workflow, a batch parent fans out into its
/// sub-task count and any other node into none, so the instance list holds one
/// root per node plus the sub-task counts of the batch parents.
pub proof fn lemma_instance_count(w: WorkflowInstanceSpec, k: nat)
    requires
        k <= w.node_specs@.len(),
        children_plan(w, k) is Ok,
    ensures
        children_plan(w, k)->Ok_0.len() == k,
        forall|j: int|
            0 <= j < k ==> if w.node_specs@[j].batch_strategies@.len() > 0 {
                node_sub_count(w, w.node_specs@[j].id) == Ok::<nat, KernelError>(
                    (#[trigger] children_plan(w, k)->Ok_0[j]),
                )
            } else {
                children_plan(w, k)->Ok_0[j] == 0
            },
        block_start(children_plan(w, k)->Ok_0, k as int) == k + sum_counts(
            children_plan(w, k)->Ok_0,
            k as int,
        ),
    decreases k,
{
    if k > 0 {
        lemma_instance_count(w, (k - 1) as nat);
        let prev = children_plan(w, (k - 1) as nat)->Ok_0;
        let c = child_count(w, k - 1)->Ok_0;
        lemma_block_start_prefix(prev, c, (k - 1) as int);
        assert forall|j: int| 0 <= j < k - 1 implies prev.push(c)[j] == prev[j] by {}
    }
}

/// Along a ranking, the upstream node of a batch strategy ranks lower, so a
/// count resolved with more fuel than the node's rank never runs out.
proof fn lemma_sub_count_not_cyclic(w: WorkflowInstanceSpec, rank: spec_fn(int) -> nat, id: u128, fuel: nat)
    requires
        crate::graph::is_ranking(w, rank),
        0 <= node_index(w, id) < w.node_specs@.len() ==> rank(node_index(w, id)) < fuel,
    ensures
        sub_count(w, id, fuel) != Err::<nat, KernelError>(KernelError::WorkflowCyclic),
    decreases fuel, 2nat, 0nat,
{
    lemma_first_index_range(w.node_specs@, has_id(id));
    let i = node_index(w, id);
    if 0 <= i < w.node_specs@.len() {
        lemma_product_not_cyclic(w, rank, i, w.node_specs@[i].batch_strategies@.len(), fuel);
    }
}

proof fn lemma_product_not_cyclic(w: WorkflowInstanceSpec, rank: spec_fn(int) -> nat, i: int, k: nat, fuel: nat)
    requires
        crate::graph::is_ranking(w, rank),
        0 <= i < w.node_specs@.len(),
        rank(i) < fuel,
        k <= w.node_specs@[i].batch_strategies@.len(),
    ensures
        strategies_product(w, w.node_specs@[i], k, fuel) != Err::<nat, KernelError>(KernelError::WorkflowCyclic),
    decreases fuel, 1nat, k,
{
    if k > 0 {
        lemma_product_not_cyclic(w, rank, i, (k - 1) as nat, fuel);
        let node = w.node_specs@[i];
        let bs = node.batch_strategies@[k - 1];
        if bs.kind is FromBatchOutputs {
            let p = feeds_slot(node.id, bs.input_slot_descriptor@);
            lemma_first_index_range(w.node_relations@, p);
            let r = first_index(w.node_relations@, p);
            if 0 <= r < w.node_relations@.len() {
                let from = w.node_relations@[r].from_id;
                lemma_first_index_range(w.node_specs@, has_id(from));
                let j = node_index(w, from);
                if 0 <= j < w.node_specs@.len() {
                    assert(w.node_relations@[r].from_id == w.node_specs@[j].id && w.node_relations@[r].to_id == w.node_specs@[i].id);
                    assert(crate::graph::edge(w, j, i));
                }
                lemma_sub_count_not_cyclic(w, rank, from, (fuel - 1) as nat);
            }
        }
        assert(strategy_count(w, node, bs, fuel) != Err::<nat, KernelError>(KernelError::WorkflowCyclic));
    }
}

/// On an acyclic graph no node's sub-task count fails for a cycle.
pub proof fn lemma_acyclic_counts_not_cyclic(w: WorkflowInstanceSpec, id: u128)
    requires
        acyclic(w),
    ensures
        node_sub_count(w, id) != Err::<nat, KernelError>(KernelError::WorkflowCyclic),
{
    let rank = choose|rank: spec_fn(int) -> nat| crate::graph::is_ranking(w, rank) && crate::graph::ranks_below(w, rank);
    lemma_first_index_range(w.node_specs@, has_id(id));
    let i = node_index(w, id);
    if 0 <= i < w.node_specs@.len() {
        assert(rank(i) < w.node_specs@.len());
    }
    lemma_sub_count_not_cyclic(w, rank, id, w.node_specs@.len());
}

/// Cycle rejection is exact: on an acyclic graph the fan-out plan never
/// fails for a cycle.
pub proof fn lemma_acyclic_plan_not_cyclic(w: WorkflowInstanceSpec, k: nat)
    requires
        acyclic(w),
        k <= w.node_specs@.len(),
    ensures
        children_plan(w, k) != Err::<Seq<nat>, KernelError>(KernelError::WorkflowCyclic),
    decreases k,
{
    if k > 0 {
        lemma_acyclic_plan_not_cyclic(w, (k - 1) as nat);
        lemma_acyclic_counts_not_cyclic(w, w.node_specs@[k - 1].id);
    }
}

} // verus!
