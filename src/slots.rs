//! Slot propagation: filling a node's input slots from the outputs of the
//! nodes it depends on, and binding sub-task inputs.
use vstd::prelude::*;
use crate::error::KernelError;
use crate::expand::node_index;
use crate::model::{
    FileInput, Input, NodeInputSlot, NodeInputSlotKind, NodeSpec, NodeSpecOutputSlot,
    NodeSpecOutputSlotKind, WorkflowInstance, WorkflowInstanceSpec,
};
use crate::seqs::{first_index, lemma_first_index_found, lemma_first_index_none, lemma_first_index_range};

verus! {

/// Output slots with this descriptor.
pub open spec fn out_named(d: Seq<char>) -> spec_fn(NodeSpecOutputSlot) -> bool {
    |s: NodeSpecOutputSlot| s.descriptor@ == d
}

/// Input slots with this descriptor.
pub open spec fn in_named(d: Seq<char>) -> spec_fn(NodeInputSlot) -> bool {
    |s: NodeInputSlot| s.descriptor@ == d
}

/// The ids that an output slot holds, one per sub-task.
pub open spec fn prepared_ids(kind: NodeSpecOutputSlotKind) -> Seq<u128> {
    match kind {
        NodeSpecOutputSlotKind::Text { all_tasks_prepared_text_keys } => all_tasks_prepared_text_keys@,
        NodeSpecOutputSlotKind::File { all_tasks_prepared_content_ids, .. } => all_tasks_prepared_content_ids@,
    }
}

/// Whether an input slot of this kind can take values from that output slot.
pub open spec fn kinds_match(input: NodeInputSlotKind, output: NodeSpecOutputSlotKind) -> bool {
    match (input, output) {
        (NodeInputSlotKind::Text { .. }, NodeSpecOutputSlotKind::Text { .. }) => true,
        (NodeInputSlotKind::File { .. }, NodeSpecOutputSlotKind::File { .. }) => true,
        _ => false,
    }
}

/// The id that an input slot of kind `kind` takes from output slot `from_slot`
/// of node `from`, at sub-task position `nth`.
pub open spec fn pair_value(
    w: WorkflowInstanceSpec,
    kind: NodeInputSlotKind,
    from: u128,
    from_slot: Seq<char>,
    nth: nat,
) -> Result<u128, KernelError> {
    let ni = node_index(w, from);
    if ni < 0 || ni >= w.node_specs@.len() {
        Err(KernelError::NoSuchNode)
    } else {
        let up = w.node_specs@[ni];
        let oi = first_index(up.output_slots@, out_named(from_slot));
        if oi < 0 || oi >= up.output_slots@.len() {
            Err(KernelError::NoSuchSlot)
        } else {
            let out = up.output_slots@[oi];
            if kind is Unknown {
                Err(KernelError::UnknownSlotKind)
            } else if !kinds_match(kind, out.kind) {
                Err(KernelError::SlotKindMismatch)
            } else if nth < prepared_ids(out.kind).len() {
                Ok(prepared_ids(out.kind)[nth as int])
            } else {
                Err(KernelError::MissingOutput { nth: nth as usize })
            }
        }
    }
}

/// Whether slot relation `b` of relation `a` feeds input slot `d` of node `to`.
pub open spec fn is_feed(w: WorkflowInstanceSpec, to: u128, d: Seq<char>, a: int, b: int) -> bool {
    &&& 0 <= a < w.node_relations@.len()
    &&& w.node_relations@[a].to_id == to
    &&& 0 <= b < w.node_relations@[a].slot_relations@.len()
    &&& w.node_relations@[a].slot_relations@[b].to_slot@ == d
}

/// The value that feed `(a, b)` brings to a slot of kind `kind`.
pub open spec fn feed_value(
    w: WorkflowInstanceSpec,
    kind: NodeInputSlotKind,
    a: int,
    b: int,
    nth: nat,
) -> Result<u128, KernelError> {
    pair_value(
        w,
        kind,
        w.node_relations@[a].from_id,
        w.node_relations@[a].slot_relations@[b].from_slot@,
        nth,
    )
}

/// The last feed of slot `d` of node `to` among the first `a` relations
/// (relations in order, slot relations in order).
pub open spec fn last_feed(w: WorkflowInstanceSpec, to: u128, d: Seq<char>, a: int) -> Option<(int, int)>
    decreases a,
{
    if a <= 0 {
        None
    } else {
        let rel = w.node_relations@[a - 1];
        let b = last_slot_relation(rel.slot_relations@.map_values(|s: crate::model::SlotRelation| s.to_slot@), d);
        if rel.to_id == to && b >= 0 {
            Some((a - 1, b))
        } else {
            last_feed(w, to, d, a - 1)
        }
    }
}

/// The last position of `d` in `s`, or -1.
pub open spec fn last_slot_relation(s: Seq<Seq<char>>, d: Seq<char>) -> int
    decreases s.len(),
{
    if s.len() == 0 {
        -1
    } else if s.last() == d {
        s.len() - 1
    } else {
        last_slot_relation(s.drop_last(), d)
    }
}

/// The first failing feed among the first `b` slot relations of relation `a`.
pub open spec fn rel_feeds_err(w: WorkflowInstanceSpec, to: u128, slot: NodeInputSlot, nth: nat, a: int, b: int) -> Option<KernelError>
    decreases b,
{
    if b <= 0 {
        None
    } else {
        match rel_feeds_err(w, to, slot, nth, a, b - 1) {
            Some(e) => Some(e),
            None => if is_feed(w, to, slot.descriptor@, a, b - 1) {
                match feed_value(w, slot.kind, a, b - 1, nth) {
                    Err(e) => Some(e),
                    Ok(_) => None,
                }
            } else {
                None
            },
        }
    }
}

/// The first failing feed of `slot` among the first `a` relations.
pub open spec fn feeds_err(w: WorkflowInstanceSpec, to: u128, slot: NodeInputSlot, nth: nat, a: int) -> Option<KernelError>
    decreases a,
{
    if a <= 0 {
        None
    } else {
        match feeds_err(w, to, slot, nth, a - 1) {
            Some(e) => Some(e),
            None => rel_feeds_err(w, to, slot, nth, a - 1, w.node_relations@[a - 1].slot_relations@.len() as int),
        }
    }
}

/// The error of the first failing feed of `slot` (relations in order, then
/// slot relations in order), if any.
pub open spec fn slot_error(w: WorkflowInstanceSpec, to: u128, slot: NodeInputSlot, nth: nat) -> Option<KernelError> {
    feeds_err(w, to, slot, nth, w.node_relations@.len() as int)
}

/// The error of the first input slot of `slots` (among the first `i`) that
/// fails to propagate, if any.
pub open spec fn first_slot_error(w: WorkflowInstanceSpec, to: u128, slots: Seq<NodeInputSlot>, nth: nat, i: int) -> Option<KernelError>
    decreases i,
{
    if i <= 0 {
        None
    } else {
        match first_slot_error(w, to, slots, nth, i - 1) {
            Some(e) => Some(e),
            None => slot_error(w, to, slots[i - 1], nth),
        }
    }
}

proof fn lemma_rel_feeds_err_sticks(w: WorkflowInstanceSpec, to: u128, slot: NodeInputSlot, nth: nat, a: int, b: int, n: int)
    requires
        0 <= b <= n,
        rel_feeds_err(w, to, slot, nth, a, b) is Some,
    ensures
        rel_feeds_err(w, to, slot, nth, a, n) == rel_feeds_err(w, to, slot, nth, a, b),
    decreases n - b,
{
    if b < n {
        lemma_rel_feeds_err_sticks(w, to, slot, nth, a, b, n - 1);
    }
}

proof fn lemma_feeds_err_sticks(w: WorkflowInstanceSpec, to: u128, slot: NodeInputSlot, nth: nat, a: int, n: int)
    requires
        0 <= a <= n,
        feeds_err(w, to, slot, nth, a) is Some,
    ensures
        feeds_err(w, to, slot, nth, n) == feeds_err(w, to, slot, nth, a),
    decreases n - a,
{
    if a < n {
        lemma_feeds_err_sticks(w, to, slot, nth, a, n - 1);
    }
}

proof fn lemma_first_slot_error_sticks(w: WorkflowInstanceSpec, to: u128, slots: Seq<NodeInputSlot>, nth: nat, i: int, n: int)
    requires
        0 <= i <= n,
        first_slot_error(w, to, slots, nth, i) is Some,
    ensures
        first_slot_error(w, to, slots, nth, n) == first_slot_error(w, to, slots, nth, i),
    decreases n - i,
{
    if i < n {
        lemma_first_slot_error_sticks(w, to, slots, nth, i, n - 1);
    }
}

/// Whether every feed of `slot` in node `to` yields a value.
pub open spec fn slot_resolves(w: WorkflowInstanceSpec, to: u128, slot: NodeInputSlot, nth: nat) -> bool {
    forall|a: int, b: int|
        #[trigger] is_feed(w, to, slot.descriptor@, a, b) ==> feed_value(w, slot.kind, a, b, nth) is Ok
}

/// Whether `new` is the kind `old` filled with the single id `x`.
pub open spec fn is_filled(new: NodeInputSlotKind, old: NodeInputSlotKind, x: u128) -> bool {
    match (old, new) {
        (
            NodeInputSlotKind::Text { rule, .. },
            NodeInputSlotKind::Text { contents: Some(v), rule: r2 },
        ) => v@ == seq![x] && r2 == rule,
        (
            NodeInputSlotKind::File { expected_file_name, is_batch, .. },
            NodeInputSlotKind::File { contents: Some(v), expected_file_name: e2, is_batch: b2 },
        ) => {
            &&& e2 == expected_file_name
            &&& b2 == is_batch
            &&& v@.len() == 1
            &&& v@[0].file_metadata_id == x
            &&& v@[0].file_metadata_name@.len() == 0
            &&& v@[0].hash@.len() == 0
            &&& v@[0].size == 0
        },
        _ => false,
    }
}

/// The slot kind `old` with its contents replaced by the single id `x`.
fn fill_kind(old: NodeInputSlotKind, x: u128) -> (r: NodeInputSlotKind)
    requires
        !(old is Unknown),
    ensures
        is_filled(r, old, x),
{
    match old {
        NodeInputSlotKind::Text { rule, .. } => {
            let mut v: Vec<u128> = Vec::new();
            v.push(x);
            assert(v@ =~= seq![x]);
            NodeInputSlotKind::Text { contents: Some(v), rule }
        },
        NodeInputSlotKind::File { expected_file_name, is_batch, .. } => {
            let file = FileInput {
                file_metadata_id: x,
                file_metadata_name: String::new(),
                hash: String::new(),
                size: 0,
            };
            let mut v: Vec<FileInput> = Vec::new();
            v.push(file);
            NodeInputSlotKind::File { contents: Some(v), expected_file_name, is_batch }
        },
        NodeInputSlotKind::Unknown => NodeInputSlotKind::Unknown,
    }
}

impl NodeSpecOutputSlot {
    /// The ids of the files that each sub-task writes to this slot.
    pub fn all_tasks_file_outputs(&self) -> (r: Result<&Vec<u128>, KernelError>)
        ensures
            self.kind is File <==> r is Ok,
            r matches Ok(v) ==> v@ == prepared_ids(self.kind),
            r matches Err(e) ==> e == KernelError::SlotKindMismatch,
    {
        match &self.kind {
            NodeSpecOutputSlotKind::File { all_tasks_prepared_content_ids, .. } => Ok(all_tasks_prepared_content_ids),
            _ => Err(KernelError::SlotKindMismatch),
        }
    }

    /// The ids of the texts that each sub-task writes to this slot.
    pub fn all_tasks_text_outputs(&self) -> (r: Result<&Vec<u128>, KernelError>)
        ensures
            self.kind is Text <==> r is Ok,
            r matches Ok(v) ==> v@ == prepared_ids(self.kind),
            r matches Err(e) ==> e == KernelError::SlotKindMismatch,
    {
        match &self.kind {
            NodeSpecOutputSlotKind::Text { all_tasks_prepared_text_keys } => Ok(all_tasks_prepared_text_keys),
            _ => Err(KernelError::SlotKindMismatch),
        }
    }
}

impl NodeSpec {
    /// The first output slot with this descriptor.
    pub fn output_slot(&self, descriptor: &String) -> (r: Option<&NodeSpecOutputSlot>)
        ensures
            r is None <==> first_index(self.output_slots@, out_named(descriptor@)) < 0,
            r matches Some(s) ==> *s == self.output_slots@[first_index(
                self.output_slots@,
                out_named(descriptor@),
            )],
    {
        let mut i: usize = 0;
        while i < self.output_slots.len()
            invariant
                i <= self.output_slots@.len(),
                forall|j: int| 0 <= j < i ==> !out_named(descriptor@)(#[trigger] self.output_slots@[j]),
            decreases self.output_slots@.len() - i,
        {
            if self.output_slots[i].descriptor == *descriptor {
                proof {
                    lemma_first_index_found(self.output_slots@, out_named(descriptor@), i as int);
                }
                return Some(&self.output_slots[i]);
            }
            i += 1;
        }
        proof {
            lemma_first_index_none(self.output_slots@, out_named(descriptor@));
        }
        None
    }

    /// The first input slot with this descriptor.
    pub fn input_slot(&self, descriptor: &String) -> (r: Option<&NodeInputSlot>)
        ensures
            r is None <==> first_index(self.input_slots@, in_named(descriptor@)) < 0,
            r matches Some(s) ==> *s == self.input_slots@[first_index(
                self.input_slots@,
                in_named(descriptor@),
            )],
    {
        let mut i: usize = 0;
        while i < self.input_slots.len()
            invariant
                i <= self.input_slots@.len(),
                forall|j: int| 0 <= j < i ==> !in_named(descriptor@)(#[trigger] self.input_slots@[j]),
            decreases self.input_slots@.len() - i,
        {
            if self.input_slots[i].descriptor == *descriptor {
                proof {
                    lemma_first_index_found(self.input_slots@, in_named(descriptor@), i as int);
                }
                return Some(&self.input_slots[i]);
            }
            i += 1;
        }
        proof {
            lemma_first_index_none(self.input_slots@, in_named(descriptor@));
        }
        None
    }
}

impl WorkflowInstanceSpec {
    /// The value that feed `(a, b)` brings to a slot of kind `kind`.
    fn feed_value_at(&self, kind: &NodeInputSlotKind, a: usize, b: usize, nth: usize) -> (r: Result<u128, KernelError>)
        requires
            a < self.node_relations@.len(),
            b < self.node_relations@[a as int].slot_relations@.len(),
        ensures
            r == feed_value(*self, *kind, a as int, b as int, nth as nat),
    {
        let rel = &self.node_relations[a];
        proof {
            lemma_first_index_range(self.node_specs@, crate::expand::has_id(rel.from_id));
        }
        let up = match self.node(rel.from_id) {
            Some(n) => n,
            None => {
                return Err(KernelError::NoSuchNode);
            },
        };
        let out = match up.output_slot(&rel.slot_relations[b].from_slot) {
            Some(o) => o,
            None => {
                return Err(KernelError::NoSuchSlot);
            },
        };
        proof {
            lemma_first_index_range(up.output_slots@, out_named(rel.slot_relations@[b as int].from_slot@));
        }
        let ids = match kind {
            NodeInputSlotKind::Unknown => {
                return Err(KernelError::UnknownSlotKind);
            },
            NodeInputSlotKind::Text { .. } => out.all_tasks_text_outputs(),
            NodeInputSlotKind::File { .. } => out.all_tasks_file_outputs(),
        };
        match ids {
            Err(e) => Err(e),
            Ok(v) => {
                if nth < v.len() {
                    Ok(v[nth])
                } else {
                    Err(KernelError::MissingOutput { nth })
                }
            },
        }
    }

    /// The value of the last feed of `slot` in node `to`, checking every feed.
    fn resolve_slot(&self, to: u128, slot: &NodeInputSlot, nth: usize) -> (r: Result<Option<u128>, KernelError>)
        ensures
            r is Ok <==> slot_resolves(*self, to, *slot, nth as nat),
            r matches Err(e) ==> exists|a: int, b: int|
                #[trigger] is_feed(*self, to, slot.descriptor@, a, b) && feed_value(
                    *self,
                    slot.kind,
                    a,
                    b,
                    nth as nat,
                ) == Err::<u128, KernelError>(e),
            r matches Ok(o) ==> match last_feed(*self, to, slot.descriptor@, self.node_relations@.len() as int) {
                None => o is None,
                Some((a, b)) => o == Some(feed_value(*self, slot.kind, a, b, nth as nat)->Ok_0)
                    && is_feed(*self, to, slot.descriptor@, a, b),
            },
            r matches Err(e) ==> slot_error(*self, to, *slot, nth as nat) == Some(e),
            r is Ok ==> slot_error(*self, to, *slot, nth as nat) is None,
    {
        let mut last: Option<u128> = None;
        let mut a: usize = 0;
        while a < self.node_relations.len()
            invariant
                a <= self.node_relations@.len(),
                forall|aa: int, b: int|
                    #[trigger] is_feed(*self, to, slot.descriptor@, aa, b) && aa < a ==> feed_value(
                        *self,
                        slot.kind,
                        aa,
                        b,
                        nth as nat,
                    ) is Ok,
                match last_feed(*self, to, slot.descriptor@, a as int) {
                    None => last is None,
                    Some((aa, b)) => last == Some(feed_value(*self, slot.kind, aa, b, nth as nat)->Ok_0)
                        && is_feed(*self, to, slot.descriptor@, aa, b),
                },
                feeds_err(*self, to, *slot, nth as nat, a as int) is None,
            decreases self.node_relations@.len() - a,
        {
            let rel = &self.node_relations[a];
            let ghost names = rel.slot_relations@.map_values(|s: crate::model::SlotRelation| s.to_slot@);
            let mut here: Option<u128> = None;
            let ghost mut here_b: int = -1;
            let mut b: usize = 0;
            while b < rel.slot_relations.len()
                invariant
                    a < self.node_relations@.len(),
                    *rel == self.node_relations@[a as int],
                    names == rel.slot_relations@.map_values(|s: crate::model::SlotRelation| s.to_slot@),
                    b <= rel.slot_relations@.len(),
                    rel.to_id == to ==> forall|bb: int|
                        #[trigger] is_feed(*self, to, slot.descriptor@, a as int, bb) && bb < b ==> feed_value(
                            *self,
                            slot.kind,
                            a as int,
                            bb,
                            nth as nat,
                        ) is Ok,
                    here_b == last_slot_relation(names.subrange(0, b as int), slot.descriptor@),
                    here_b < 0 ==> here is None,
                    rel.to_id != to ==> here is None,
                    here_b >= 0 ==> rel.to_id == to ==> here == Some(
                        feed_value(*self, slot.kind, a as int, here_b, nth as nat)->Ok_0,
                    ) && is_feed(*self, to, slot.descriptor@, a as int, here_b),
                    -1 <= here_b < b,
                    feeds_err(*self, to, *slot, nth as nat, a as int) is None,
                    rel_feeds_err(*self, to, *slot, nth as nat, a as int, b as int) is None,
                decreases rel.slot_relations@.len() - b,
            {
                proof {
                    assert(names.subrange(0, b + 1).drop_last() == names.subrange(0, b as int));
                    assert(names.subrange(0, b + 1).last() == rel.slot_relations@[b as int].to_slot@);
                }
                if rel.slot_relations[b].to_slot == slot.descriptor {
                    proof {
                        here_b = b as int;
                    }
                    if rel.to_id == to {
                        match self.feed_value_at(&slot.kind, a, b, nth) {
                            Ok(x) => {
                                here = Some(x);
                            },
                            Err(e) => {
                                assert(is_feed(*self, to, slot.descriptor@, a as int, b as int));
                                proof {
                                    assert(rel_feeds_err(*self, to, *slot, nth as nat, a as int, b + 1) == Some(e));
                                    lemma_rel_feeds_err_sticks(*self, to, *slot, nth as nat, a as int, b + 1, rel.slot_relations@.len() as int);
                                    assert(feeds_err(*self, to, *slot, nth as nat, a + 1) == Some(e));
                                    lemma_feeds_err_sticks(*self, to, *slot, nth as nat, a + 1, self.node_relations@.len() as int);
                                }
                                return Err(e);
                            },
                        }
                    }
                }
                b += 1;
            }
            proof {
                assert(names.subrange(0, b as int) == names);
            }
            if rel.to_id == to && here.is_some() {
                last = here;
            }
            a += 1;
        }
        Ok(last)
    }
}

/// The sub-task position asked for: 0 when none is given.
pub open spec fn nth_or_zero(nth: Option<usize>) -> nat {
    match nth {
        Some(k) => k as nat,
        None => 0,
    }
}

/// Whether `new_slot` is `old_slot` of node `to` after propagation: unchanged
/// where no relation feeds it, else filled with the value of its last feed.
pub open spec fn is_propagated(
    w: WorkflowInstanceSpec,
    to: u128,
    old_slot: NodeInputSlot,
    new_slot: NodeInputSlot,
    nth: nat,
) -> bool {
    match last_feed(w, to, old_slot.descriptor@, w.node_relations@.len() as int) {
        None => new_slot == old_slot,
        Some((a, b)) => {
            &&& new_slot.descriptor == old_slot.descriptor
            &&& new_slot.optional == old_slot.optional
            &&& new_slot.description == old_slot.description
            &&& is_filled(new_slot.kind, old_slot.kind, feed_value(w, old_slot.kind, a, b, nth)->Ok_0)
        },
    }
}

/// Default position: a call without `nth` reads the same position as one with
/// `nth = 0`, so the two calls have the same success condition, errors and
/// filled slots.
pub proof fn lemma_nth_defaults_to_zero()
    ensures
        nth_or_zero(None) == nth_or_zero(Some(0usize)),
{
}

impl WorkflowInstance {
    /// Fills every input slot of `node` that some relation feeds with the
    /// value at position `nth` (0 when absent) of the feeding output slot; the
    /// last feed of a slot wins.
    pub fn produce_node_spec_by_complete_node_inputs(&self, node: NodeSpec, nth: Option<usize>) -> (r: Result<NodeSpec, KernelError>)
        ensures
            r is Ok <==> forall|i: int|
                0 <= i < node.input_slots@.len() ==> slot_resolves(
                    self.spec,
                    node.id,
                    #[trigger] node.input_slots@[i],
                    nth_or_zero(nth),
                ),
            r matches Err(e) ==> exists|i: int, a: int, b: int|
                0 <= i < node.input_slots@.len() && #[trigger] is_feed(
                    self.spec,
                    node.id,
                    node.input_slots@[i].descriptor@,
                    a,
                    b,
                ) && feed_value(self.spec, node.input_slots@[i].kind, a, b, nth_or_zero(nth))
                    == Err::<u128, KernelError>(e),
            r matches Err(e) ==> first_slot_error(self.spec, node.id, node.input_slots@, nth_or_zero(nth), node.input_slots@.len() as int) == Some(e),
            r matches Ok(out) ==> {
                &&& out.id == node.id
                &&& out.name == node.name
                &&& out.output_slots == node.output_slots
                &&& out.batch_strategies == node.batch_strategies
                &&& out.kind == node.kind
                &&& out.scheduling_strategy == node.scheduling_strategy
                &&& out.requirements == node.requirements
                &&& out.input_slots@.len() == node.input_slots@.len()
                &&& forall|i: int|
                    0 <= i < node.input_slots@.len() ==> is_propagated(
                        self.spec,
                        node.id,
                        #[trigger] node.input_slots@[i],
                        out.input_slots@[i],
                        nth_or_zero(nth),
                    )
            },
    {
        let n: usize = match nth {
            Some(k) => k,
            None => 0,
        };
        let ghost orig = node;
        let mut out = node;
        let mut i: usize = 0;
        while i < out.input_slots.len()
            invariant
                orig == node,
                nth matches Some(k) ==> n == k,
                nth is None ==> n == 0,
                out.id == orig.id,
                out.name == orig.name,
                out.output_slots == orig.output_slots,
                out.batch_strategies == orig.batch_strategies,
                out.kind == orig.kind,
                first_slot_error(self.spec, orig.id, orig.input_slots@, n as nat, i as int) is None,
                out.scheduling_strategy == orig.scheduling_strategy,
                out.requirements == orig.requirements,
                out.input_slots@.len() == orig.input_slots@.len(),
                i <= out.input_slots@.len(),
                forall|j: int| i <= j < out.input_slots@.len() ==> out.input_slots@[j] == orig.input_slots@[j],
                forall|j: int|
                    0 <= j < i ==> slot_resolves(self.spec, orig.id, #[trigger] orig.input_slots@[j], n as nat),
                forall|j: int|
                    0 <= j < i ==> is_propagated(
                        self.spec,
                        orig.id,
                        #[trigger] orig.input_slots@[j],
                        out.input_slots@[j],
                        n as nat,
                    ),
            decreases out.input_slots@.len() - i,
        {
            let found = self.spec.resolve_slot(out.id, &out.input_slots[i], n);
            match found {
                Err(e) => {
                    proof {
                        assert(out.input_slots@[i as int] == orig.input_slots@[i as int]);
                        assert(n as nat == nth_or_zero(nth));
                        let slot = orig.input_slots@[i as int];
                        let (a, b) = choose|a: int, b: int|
                            #[trigger] is_feed(self.spec, orig.id, slot.descriptor@, a, b) && feed_value(
                                self.spec,
                                slot.kind,
                                a,
                                b,
                                n as nat,
                            ) == Err::<u128, KernelError>(e);
                        assert(is_feed(self.spec, orig.id, orig.input_slots@[i as int].descriptor@, a, b));
                        assert(!slot_resolves(self.spec, orig.id, orig.input_slots@[i as int], n as nat));
                        lemma_first_slot_error_sticks(self.spec, orig.id, orig.input_slots@, n as nat, i + 1, orig.input_slots@.len() as int);
                        assert(exists|ii: int, a: int, b: int|
                            0 <= ii < orig.input_slots@.len() && #[trigger] is_feed(
                                self.spec,
                                orig.id,
                                orig.input_slots@[ii].descriptor@,
                                a,
                                b,
                            ) && feed_value(self.spec, orig.input_slots@[ii].kind, a, b, n as nat) == Err::<
                                u128,
                                KernelError,
                            >(e));
                    }
                    return Err(e);
                },
                Ok(None) => {},
                Ok(Some(x)) => {
                    let slot = out.input_slots.remove(i);
                    let NodeInputSlot { kind, optional, descriptor, description } = slot;
                    proof {
                        let last = last_feed(self.spec, orig.id, descriptor@, self.spec.node_relations@.len() as int);
                        let (a, b) = last->Some_0;
                        assert(is_feed(self.spec, orig.id, descriptor@, a, b));
                    }
                    let kind = fill_kind(kind, x);
                    out.input_slots.insert(i, NodeInputSlot { kind, optional, descriptor, description });
                },
            }
            i += 1;
        }
        Ok(out)
    }
}

/// Whether a binding fits a slot of this kind.
pub open spec fn binding_fits(kind: NodeInputSlotKind, input: Input) -> bool {
    match (kind, input) {
        (NodeInputSlotKind::Text { .. }, Input::Text(_)) => true,
        (NodeInputSlotKind::File { .. }, Input::File(_)) => true,
        _ => false,
    }
}

/// The position of the last binding of slot `d` among the first `n`, or -1.
pub open spec fn last_binding(inputs: Seq<(String, Input)>, d: Seq<char>, n: int) -> int
    decreases n,
{
    if n <= 0 {
        -1
    } else if inputs[n - 1].0@ == d {
        n - 1
    } else {
        last_binding(inputs, d, n - 1)
    }
}

proof fn lemma_last_binding(inputs: Seq<(String, Input)>, d: Seq<char>, n: int)
    requires
        0 <= n <= inputs.len(),
    ensures
        -1 <= last_binding(inputs, d, n) < n,
        last_binding(inputs, d, n) >= 0 ==> inputs[last_binding(inputs, d, n)].0@ == d,
    decreases n,
{
    if n > 0 {
        lemma_last_binding(inputs, d, n - 1);
    }
}

/// Whether every binding that names a slot of `slots` fits that slot.
pub open spec fn bindings_fit(slots: Seq<NodeInputSlot>, inputs: Seq<(String, Input)>) -> bool {
    forall|i: int, j: int|
        0 <= i < slots.len() && 0 <= j < inputs.len() && inputs[j].0@ == (#[trigger] slots[i]).descriptor@
            ==> #[trigger] binding_fits(slots[i].kind, inputs[j].1)
}

/// Whether every binding names some input slot of `slots`.
pub open spec fn bindings_named(slots: Seq<NodeInputSlot>, inputs: Seq<(String, Input)>) -> bool {
    forall|j: int| 0 <= j < inputs.len() ==> names_slot(slots, (#[trigger] inputs[j]).0@)
}

/// Whether some input slot of `slots` has descriptor `d`.
pub open spec fn names_slot(slots: Seq<NodeInputSlot>, d: Seq<char>) -> bool {
    exists|i: int| 0 <= i < slots.len() && (#[trigger] slots[i]).descriptor@ == d
}

/// Whether some input slot of `slots` has descriptor `d`.
fn names_some_slot(slots: &Vec<NodeInputSlot>, d: &String) -> (r: bool)
    ensures
        r == names_slot(slots@, d@),
{
    let mut i: usize = 0;
    while i < slots.len()
        invariant
            i <= slots@.len(),
            forall|k: int| 0 <= k < i ==> (#[trigger] slots@[k]).descriptor@ != d@,
        decreases slots@.len() - i,
    {
        if slots[i].descriptor == *d {
            return true;
        }
        i += 1;
    }
    false
}

/// Whether `new` is the kind `old` holding just the binding `input`.
pub open spec fn is_bound(new: NodeInputSlotKind, old: NodeInputSlotKind, input: Input) -> bool {
    match (old, new, input) {
        (
            NodeInputSlotKind::Text { rule, .. },
            NodeInputSlotKind::Text { contents: Some(v), rule: r2 },
            Input::Text(id),
        ) => v@ == seq![id] && r2 == rule,
        (
            NodeInputSlotKind::File { expected_file_name, is_batch, .. },
            NodeInputSlotKind::File { contents: Some(v), expected_file_name: e2, is_batch: b2 },
            Input::File(f),
        ) => {
            &&& e2 == expected_file_name
            &&& b2 == is_batch
            &&& v@.len() == 1
            &&& v@[0].file_metadata_id == f.file_metadata_id
            &&& v@[0].file_metadata_name@ == f.file_metadata_name@
            &&& v@[0].hash@ == f.hash@
            &&& v@[0].size == f.size
        },
        _ => false,
    }
}

/// Whether `new_slot` is `old_slot` after applying `inputs`: unchanged where
/// none names it, else holding the last binding that does.
pub open spec fn is_updated(old_slot: NodeInputSlot, new_slot: NodeInputSlot, inputs: Seq<(String, Input)>) -> bool {
    let j = last_binding(inputs, old_slot.descriptor@, inputs.len() as int);
    if j < 0 {
        new_slot == old_slot
    } else {
        &&& new_slot.descriptor == old_slot.descriptor
        &&& new_slot.optional == old_slot.optional
        &&& new_slot.description == old_slot.description
        &&& is_bound(new_slot.kind, old_slot.kind, inputs[j].1)
    }
}

/// The kind `old` holding just the binding `input`.
fn bind_kind(old: NodeInputSlotKind, input: &Input) -> (r: NodeInputSlotKind)
    requires
        binding_fits(old, *input),
    ensures
        is_bound(r, old, *input),
{
    match (old, input) {
        (NodeInputSlotKind::Text { rule, .. }, Input::Text(id)) => {
            let mut v: Vec<u128> = Vec::new();
            v.push(*id);
            assert(v@ =~= seq![*id]);
            NodeInputSlotKind::Text { contents: Some(v), rule }
        },
        (NodeInputSlotKind::File { expected_file_name, is_batch, .. }, Input::File(f)) => {
            let mut v: Vec<FileInput> = Vec::new();
            v.push(FileInput {
                file_metadata_id: f.file_metadata_id,
                file_metadata_name: f.file_metadata_name.clone(),
                hash: f.hash.clone(),
                size: f.size,
            });
            NodeInputSlotKind::File { contents: Some(v), expected_file_name, is_batch }
        },
        (old, _) => old,
    }
}

impl NodeSpec {
    /// Binds inputs to the input slots they name; the last binding of a slot
    /// wins. A binding of the wrong kind, or one naming an `Unknown` slot, is
    /// refused.
    pub fn update_with_inputs(&mut self, inputs: &Vec<(String, Input)>) -> (r: Result<(), KernelError>)
        ensures
            final(self).id == old(self).id,
            final(self).name == old(self).name,
            final(self).output_slots == old(self).output_slots,
            final(self).batch_strategies == old(self).batch_strategies,
            final(self).kind == old(self).kind,
            final(self).scheduling_strategy == old(self).scheduling_strategy,
            final(self).requirements == old(self).requirements,
            final(self).input_slots@.len() == old(self).input_slots@.len(),
            r is Ok <==> bindings_named(old(self).input_slots@, inputs@) && bindings_fit(old(self).input_slots@, inputs@),
            !bindings_named(old(self).input_slots@, inputs@) ==> r == Err::<(), KernelError>(KernelError::NoSuchSlot),
            r matches Err(e) ==> e == KernelError::MismatchedInputKind || e == KernelError::UnknownSlotKind
                || e == KernelError::NoSuchSlot,
            r is Ok ==> forall|i: int|
                0 <= i < old(self).input_slots@.len() ==> is_updated(
                    #[trigger] old(self).input_slots@[i],
                    final(self).input_slots@[i],
                    inputs@,
                ),
    {
        let ghost orig = *self;
        let mut b: usize = 0;
        while b < inputs.len()
            invariant
                *self == orig,
                b <= inputs@.len(),
                forall|j: int| 0 <= j < b ==> names_slot(self.input_slots@, (#[trigger] inputs@[j]).0@),
            decreases inputs@.len() - b,
        {
            if !names_some_slot(&self.input_slots, &inputs[b].0) {
                assert(!names_slot(self.input_slots@, inputs@[b as int].0@));
                return Err(KernelError::NoSuchSlot);
            }
            b += 1;
        }
        assert(bindings_named(orig.input_slots@, inputs@));
        let mut i: usize = 0;
        while i < self.input_slots.len()
            invariant
                bindings_named(orig.input_slots@, inputs@),
                orig == *old(self),
                self.id == orig.id,
                self.name == orig.name,
                self.output_slots == orig.output_slots,
                self.batch_strategies == orig.batch_strategies,
                self.kind == orig.kind,
                self.scheduling_strategy == orig.scheduling_strategy,
                self.requirements == orig.requirements,
                self.input_slots@.len() == orig.input_slots@.len(),
                i <= self.input_slots@.len(),
                forall|j: int| i <= j < self.input_slots@.len() ==> self.input_slots@[j] == orig.input_slots@[j],
                forall|ii: int, j: int|
                    0 <= ii < i && 0 <= j < inputs@.len() && inputs@[j].0@ == (#[trigger] orig.input_slots@[ii]).descriptor@
                        ==> #[trigger] binding_fits(orig.input_slots@[ii].kind, inputs@[j].1),
                forall|ii: int| 0 <= ii < i ==> is_updated(#[trigger] orig.input_slots@[ii], self.input_slots@[ii], inputs@),
            decreases self.input_slots@.len() - i,
        {
            let ghost slot = orig.input_slots@[i as int];
            let mut last: Option<usize> = None;
            let mut j: usize = 0;
            while j < inputs.len()
                invariant
                    slot == self.input_slots@[i as int],
                    slot == orig.input_slots@[i as int],
                    bindings_named(orig.input_slots@, inputs@),
                    orig == *old(self),
                    self.id == orig.id,
                    self.name == orig.name,
                    self.output_slots == orig.output_slots,
                    self.batch_strategies == orig.batch_strategies,
                    self.kind == orig.kind,
                    self.scheduling_strategy == orig.scheduling_strategy,
                    self.requirements == orig.requirements,
                    i < self.input_slots@.len(),
                    self.input_slots@.len() == orig.input_slots@.len(),
                    j <= inputs@.len(),
                    forall|jj: int| 0 <= jj < j && inputs@[jj].0@ == slot.descriptor@ ==> #[trigger] binding_fits(slot.kind, inputs@[jj].1),
                    match last {
                        None => last_binding(inputs@, slot.descriptor@, j as int) == -1,
                        Some(l) => last_binding(inputs@, slot.descriptor@, j as int) == l as int && l < j,
                    },
                decreases inputs@.len() - j,
            {
                if inputs[j].0 == self.input_slots[i].descriptor {
                    let fits = match (&self.input_slots[i].kind, &inputs[j].1) {
                        (NodeInputSlotKind::Text { .. }, Input::Text(_)) => true,
                        (NodeInputSlotKind::File { .. }, Input::File(_)) => true,
                        _ => false,
                    };
                    if !fits {
                        let e = match &self.input_slots[i].kind {
                            NodeInputSlotKind::Unknown => KernelError::UnknownSlotKind,
                            _ => KernelError::MismatchedInputKind,
                        };
                        assert(!bindings_fit(orig.input_slots@, inputs@)) by {
                            assert(!binding_fits(orig.input_slots@[i as int].kind, inputs@[j as int].1));
                        }
                        return Err(e);
                    }
                    last = Some(j);
                }
                j += 1;
            }
            if let Some(l) = last {
                proof {
                    lemma_last_binding(inputs@, slot.descriptor@, inputs@.len() as int);
                }
                let old_slot = self.input_slots.remove(i);
                let NodeInputSlot { kind, optional, descriptor, description } = old_slot;
                let kind = bind_kind(kind, &inputs[l].1);
                self.input_slots.insert(i, NodeInputSlot { kind, optional, descriptor, description });
            }
            i += 1;
        }
        Ok(())
    }

    /// Gives every output slot a single freshly made id.
    pub fn update_output_slots(&mut self)
        ensures
            final(self).id == old(self).id,
            final(self).name == old(self).name,
            final(self).input_slots == old(self).input_slots,
            final(self).output_slots@.len() == old(self).output_slots@.len(),
            forall|i: int|
                0 <= i < final(self).output_slots@.len() ==> {
                    let s = #[trigger] final(self).output_slots@[i];
                    &&& s.descriptor == old(self).output_slots@[i].descriptor
                    &&& s.optional == old(self).output_slots@[i].optional
                    &&& (s.kind is Text <==> old(self).output_slots@[i].kind is Text)
                    &&& (old(self).output_slots@[i].kind matches NodeSpecOutputSlotKind::File { origin, .. } ==> s.kind
                        matches NodeSpecOutputSlotKind::File { origin: o2, .. } && o2 == origin)
                    &&& prepared_ids(s.kind).len() == 1
                },
            final(self).kind == old(self).kind,
            final(self).batch_strategies == old(self).batch_strategies,
            final(self).scheduling_strategy == old(self).scheduling_strategy,
            final(self).requirements == old(self).requirements,
    {
        let ghost orig = *self;
        let mut i: usize = 0;
        while i < self.output_slots.len()
            invariant
                self.id == orig.id,
                self.name == orig.name,
                self.input_slots == orig.input_slots,
                self.output_slots@.len() == orig.output_slots@.len(),
                i <= self.output_slots@.len(),
                forall|j: int| i <= j < self.output_slots@.len() ==> self.output_slots@[j] == orig.output_slots@[j],
                forall|j: int|
                    0 <= j < i ==> {
                        let s = #[trigger] self.output_slots@[j];
                        &&& s.descriptor == orig.output_slots@[j].descriptor
                        &&& s.optional == orig.output_slots@[j].optional
                        &&& (s.kind is Text <==> orig.output_slots@[j].kind is Text)
                        &&& (orig.output_slots@[j].kind matches NodeSpecOutputSlotKind::File { origin, .. } ==> s.kind
                            matches NodeSpecOutputSlotKind::File { origin: o2, .. } && o2 == origin)
                        &&& prepared_ids(s.kind).len() == 1
                    },
                self.kind == orig.kind,
                self.batch_strategies == orig.batch_strategies,
                self.scheduling_strategy == orig.scheduling_strategy,
                self.requirements == orig.requirements,
            decreases self.output_slots@.len() - i,
        {
            let slot = self.output_slots.remove(i);
            let NodeSpecOutputSlot { kind, descriptor, optional } = slot;
            let mut ids: Vec<u128> = Vec::new();
            ids.push(crate::ids::fresh_id());
            let kind = match kind {
                NodeSpecOutputSlotKind::Text { .. } => NodeSpecOutputSlotKind::Text { all_tasks_prepared_text_keys: ids },
                NodeSpecOutputSlotKind::File { origin, .. } => NodeSpecOutputSlotKind::File { all_tasks_prepared_content_ids: ids, origin },
            };
            self.output_slots.insert(i, NodeSpecOutputSlot { kind, descriptor, optional });
            i += 1;
        }
    }

    /// The text ids bound on the node's text input slots, slot by slot.
    pub fn text_keys(&self) -> (r: Vec<u128>)
        ensures
            r@ == text_keys_of(self.input_slots@, self.input_slots@.len() as int),
    {
        let mut r: Vec<u128> = Vec::new();
        let mut i: usize = 0;
        while i < self.input_slots.len()
            invariant
                i <= self.input_slots@.len(),
                r@ == text_keys_of(self.input_slots@, i as int),
            decreases self.input_slots@.len() - i,
        {
            if let NodeInputSlotKind::Text { contents: Some(ids), .. } = &self.input_slots[i].kind {
                let mut k: usize = 0;
                let ghost before = r@;
                while k < ids.len()
                    invariant
                        k <= ids@.len(),
                        r@ == before + ids@.subrange(0, k as int),
                    decreases ids@.len() - k,
                {
                    r.push(ids[k]);
                    assert(r@ =~= before + ids@.subrange(0, k + 1));
                    k += 1;
                }
                assert(ids@.subrange(0, k as int) =~= ids@);
            }
            i += 1;
        }
        r
    }
}

/// The text ids bound on the first `n` input slots.
pub open spec fn text_keys_of(slots: Seq<NodeInputSlot>, n: int) -> Seq<u128>
    decreases n,
{
    if n <= 0 {
        Seq::empty()
    } else {
        text_keys_of(slots, n - 1) + match slots[n - 1].kind {
            NodeInputSlotKind::Text { contents: Some(v), .. } => v@,
            _ => Seq::empty(),
        }
    }
}

/// Whether two slot kinds are of the same variant.
pub open spec fn same_variant(a: NodeInputSlotKind, b: NodeInputSlotKind) -> bool {
    (a is Text <==> b is Text) && (a is File <==> b is File) && (a is Unknown <==> b is Unknown)
}

/// Whether `kind` holds just the binding `input`.
pub open spec fn holds_binding(kind: NodeInputSlotKind, input: Input) -> bool {
    match (kind, input) {
        (NodeInputSlotKind::Text { contents: Some(v), .. }, Input::Text(id)) => v@ == seq![id],
        (NodeInputSlotKind::File { contents: Some(v), .. }, Input::File(f)) => {
            &&& v@.len() == 1
            &&& v@[0].file_metadata_id == f.file_metadata_id
            &&& v@[0].file_metadata_name@ == f.file_metadata_name@
            &&& v@[0].hash@ == f.hash@
            &&& v@[0].size == f.size
        },
        _ => false,
    }
}

/// A copy of a slot kind of the same variant.
fn copy_kind(k: &NodeInputSlotKind) -> (r: NodeInputSlotKind)
    ensures
        same_variant(r, *k),
{
    match k {
        NodeInputSlotKind::Text { contents, rule } => NodeInputSlotKind::Text { contents: contents.clone(), rule: rule.clone() },
        NodeInputSlotKind::File { contents, expected_file_name, is_batch } => NodeInputSlotKind::File {
            contents: contents.clone(),
            expected_file_name: expected_file_name.clone(),
            is_batch: *is_batch,
        },
        NodeInputSlotKind::Unknown => NodeInputSlotKind::Unknown,
    }
}

impl NodeSpec {
    /// A copy of the node whose slots keep their descriptors and kinds.
    fn duplicate(&self) -> (r: NodeSpec)
        ensures
            r.id == self.id,
            r.name == self.name,
            r.input_slots@.len() == self.input_slots@.len(),
            forall|i: int|
                0 <= i < r.input_slots@.len() ==> (#[trigger] r.input_slots@[i]).descriptor == self.input_slots@[i].descriptor
                    && r.input_slots@[i].optional == self.input_slots@[i].optional && same_variant(
                    r.input_slots@[i].kind,
                    self.input_slots@[i].kind,
                ),
            r.output_slots@.len() == self.output_slots@.len(),
            forall|i: int|
                0 <= i < r.output_slots@.len() ==> (#[trigger] r.output_slots@[i]).descriptor == self.output_slots@[i].descriptor
                    && r.output_slots@[i].optional == self.output_slots@[i].optional
                    && (r.output_slots@[i].kind is Text <==> self.output_slots@[i].kind is Text),
    {
        let mut inputs: Vec<NodeInputSlot> = Vec::new();
        let mut i: usize = 0;
        while i < self.input_slots.len()
            invariant
                i <= self.input_slots@.len(),
                inputs@.len() == i,
                forall|j: int|
                    0 <= j < i ==> (#[trigger] inputs@[j]).descriptor == self.input_slots@[j].descriptor
                        && inputs@[j].optional == self.input_slots@[j].optional && same_variant(
                        inputs@[j].kind,
                        self.input_slots@[j].kind,
                    ),
            decreases self.input_slots@.len() - i,
        {
            let s = &self.input_slots[i];
            inputs.push(NodeInputSlot {
                kind: copy_kind(&s.kind),
                optional: s.optional,
                descriptor: s.descriptor.clone(),
                description: s.description.clone(),
            });
            i += 1;
        }
        let mut outputs: Vec<NodeSpecOutputSlot> = Vec::new();
        let mut i: usize = 0;
        while i < self.output_slots.len()
            invariant
                i <= self.output_slots@.len(),
                outputs@.len() == i,
                forall|j: int|
                    0 <= j < i ==> (#[trigger] outputs@[j]).descriptor == self.output_slots@[j].descriptor
                        && outputs@[j].optional == self.output_slots@[j].optional
                        && (outputs@[j].kind is Text <==> self.output_slots@[j].kind is Text),
            decreases self.output_slots@.len() - i,
        {
            let s = &self.output_slots[i];
            let kind = match &s.kind {
                NodeSpecOutputSlotKind::Text { all_tasks_prepared_text_keys } => NodeSpecOutputSlotKind::Text {
                    all_tasks_prepared_text_keys: all_tasks_prepared_text_keys.clone(),
                },
                NodeSpecOutputSlotKind::File { all_tasks_prepared_content_ids, origin } => NodeSpecOutputSlotKind::File {
                    all_tasks_prepared_content_ids: all_tasks_prepared_content_ids.clone(),
                    origin: *origin,
                },
            };
            outputs.push(NodeSpecOutputSlot { kind, descriptor: s.descriptor.clone(), optional: s.optional });
            i += 1;
        }
        NodeSpec {
            id: self.id,
            name: self.name.clone(),
            kind: self.kind.clone(),
            input_slots: inputs,
            output_slots: outputs,
            batch_strategies: self.batch_strategies.clone(),
            scheduling_strategy: self.scheduling_strategy.clone(),
            requirements: self.requirements,
        }
    }

    /// The sub-nodes of a batch parent, one per `(id, bindings)`: each is
    /// this node with that id, those bindings on its input slots, and one
    /// fresh id on each output slot.
    pub fn parse_sub_nodes(&self, tasks_inputs: &Vec<(u128, Vec<(String, Input)>)>) -> (r: Result<Vec<NodeSpec>, KernelError>)
        ensures
            r is Ok <==> forall|k: int| 0 <= k < tasks_inputs@.len() ==> bindings_named(self.input_slots@, (#[trigger] tasks_inputs@[k]).1@)
                && bindings_fit(self.input_slots@, tasks_inputs@[k].1@),
            r matches Ok(v) ==> {
                &&& v@.len() == tasks_inputs@.len()
                &&& forall|k: int| 0 <= k < v@.len() ==> is_sub_node(#[trigger] v@[k], *self, tasks_inputs@[k].0, tasks_inputs@[k].1@)
            },
    {
        let mut v: Vec<NodeSpec> = Vec::new();
        let mut k: usize = 0;
        while k < tasks_inputs.len()
            invariant
                k <= tasks_inputs@.len(),
                v@.len() == k,
                forall|kk: int| 0 <= kk < k ==> bindings_named(self.input_slots@, (#[trigger] tasks_inputs@[kk]).1@)
                    && bindings_fit(self.input_slots@, tasks_inputs@[kk].1@),
                forall|kk: int| 0 <= kk < k ==> is_sub_node(#[trigger] v@[kk], *self, tasks_inputs@[kk].0, tasks_inputs@[kk].1@),
            decreases tasks_inputs@.len() - k,
        {
            let mut sub = self.duplicate();
            sub.id = tasks_inputs[k].0;
            let ghost dup = sub;
            let ghost inputs = tasks_inputs@[k as int].1@;
            proof {
                assert(bindings_named(dup.input_slots@, inputs) == bindings_named(self.input_slots@, inputs)) by {
                    if bindings_named(dup.input_slots@, inputs) {
                        assert forall|j: int| 0 <= j < inputs.len() implies names_slot(self.input_slots@, (#[trigger] inputs[j]).0@) by {
                            assert(names_slot(dup.input_slots@, inputs[j].0@));
                            let i = choose|i: int| 0 <= i < dup.input_slots@.len() && (#[trigger] dup.input_slots@[i]).descriptor@ == inputs[j].0@;
                            assert(dup.input_slots@[i].descriptor == self.input_slots@[i].descriptor);
                            assert(0 <= i < self.input_slots@.len() && self.input_slots@[i].descriptor@ == inputs[j].0@);
                        }
                    }
                    if bindings_named(self.input_slots@, inputs) {
                        assert forall|j: int| 0 <= j < inputs.len() implies names_slot(dup.input_slots@, (#[trigger] inputs[j]).0@) by {
                            assert(names_slot(self.input_slots@, inputs[j].0@));
                            let i = choose|i: int| 0 <= i < self.input_slots@.len() && (#[trigger] self.input_slots@[i]).descriptor@ == inputs[j].0@;
                            assert(dup.input_slots@[i].descriptor == self.input_slots@[i].descriptor);
                            assert(0 <= i < dup.input_slots@.len() && dup.input_slots@[i].descriptor@ == inputs[j].0@);
                        }
                    }
                }
                assert(bindings_fit(dup.input_slots@, inputs) == bindings_fit(self.input_slots@, inputs)) by {
                    if bindings_fit(dup.input_slots@, inputs) {
                        assert forall|i: int, j: int|
                            0 <= i < self.input_slots@.len() && 0 <= j < inputs.len() && inputs[j].0@ == (#[trigger] self.input_slots@[i]).descriptor@
                                implies #[trigger] binding_fits(self.input_slots@[i].kind, inputs[j].1) by {
                            assert(dup.input_slots@[i].descriptor == self.input_slots@[i].descriptor);
                            assert(binding_fits(dup.input_slots@[i].kind, inputs[j].1));
                        }
                    }
                    if bindings_fit(self.input_slots@, inputs) {
                        assert forall|i: int, j: int|
                            0 <= i < dup.input_slots@.len() && 0 <= j < inputs.len() && inputs[j].0@ == (#[trigger] dup.input_slots@[i]).descriptor@
                                implies #[trigger] binding_fits(dup.input_slots@[i].kind, inputs[j].1) by {
                            assert(dup.input_slots@[i].descriptor == self.input_slots@[i].descriptor);
                            assert(binding_fits(self.input_slots@[i].kind, inputs[j].1));
                        }
                    }
                }
            }
            match sub.update_with_inputs(&tasks_inputs[k].1) {
                Ok(()) => {},
                Err(e) => {
                    return Err(e);
                },
            }
            let ghost bound = sub;
            sub.update_output_slots();
            proof {
                assert forall|i: int| 0 <= i < sub.input_slots@.len() implies is_sub_slot(
                    #[trigger] sub.input_slots@[i],
                    self.input_slots@[i],
                    inputs,
                ) by {
                    assert(is_updated(dup.input_slots@[i], bound.input_slots@[i], inputs));
                    crate::slots::lemma_last_binding(inputs, dup.input_slots@[i].descriptor@, inputs.len() as int);
                }
            }
            v.push(sub);
            k += 1;
        }
        Ok(v)
    }
}

/// Whether `new_slot` is `old_slot` of a parent after binding `inputs`:
/// same descriptor and variant, holding the last binding that names it.
pub open spec fn is_sub_slot(new_slot: NodeInputSlot, old_slot: NodeInputSlot, inputs: Seq<(String, Input)>) -> bool {
    let j = last_binding(inputs, old_slot.descriptor@, inputs.len() as int);
    &&& new_slot.descriptor == old_slot.descriptor
    &&& same_variant(new_slot.kind, old_slot.kind)
    &&& j >= 0 ==> holds_binding(new_slot.kind, inputs[j].1)
}

/// Whether `sub` is the sub-node of `parent` with id `id` and bindings
/// `inputs`.
pub open spec fn is_sub_node(sub: NodeSpec, parent: NodeSpec, id: u128, inputs: Seq<(String, Input)>) -> bool {
    &&& sub.id == id
    &&& sub.name == parent.name
    &&& sub.input_slots@.len() == parent.input_slots@.len()
    &&& forall|i: int| 0 <= i < sub.input_slots@.len() ==> is_sub_slot(#[trigger] sub.input_slots@[i], parent.input_slots@[i], inputs)
    &&& sub.output_slots@.len() == parent.output_slots@.len()
    &&& forall|i: int|
        0 <= i < sub.output_slots@.len() ==> (#[trigger] sub.output_slots@[i]).descriptor == parent.output_slots@[i].descriptor
            && prepared_ids(sub.output_slots@[i].kind).len() == 1
}

} // verus!
