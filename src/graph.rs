//! The relation graph of a workflow and its acyclicity check.
use vstd::prelude::*;
use crate::model::WorkflowInstanceSpec;

verus! {

/// Whether some relation leads from node `i` to node `j` (by position).
pub open spec fn edge(w: WorkflowInstanceSpec, i: int, j: int) -> bool {
    exists|r: int|
        0 <= r < w.node_relations@.len() && (#[trigger] w.node_relations@[r]).from_id
            == w.node_specs@[i].id && w.node_relations@[r].to_id == w.node_specs@[j].id
}

/// Whether `rank` grows along every relation between nodes of the workflow.
pub open spec fn is_ranking(w: WorkflowInstanceSpec, rank: spec_fn(int) -> nat) -> bool {
    forall|i: int, j: int|
        0 <= i < w.node_specs@.len() && 0 <= j < w.node_specs@.len() && #[trigger] edge(w, i, j)
            ==> rank(i) < rank(j)
}

/// The relation graph has no cycle: its nodes can be ranked below their
/// number so that every relation goes from a lower rank to a higher one.
pub open spec fn acyclic(w: WorkflowInstanceSpec) -> bool {
    exists|rank: spec_fn(int) -> nat| is_ranking(w, rank) && ranks_below(w, rank)
}

/// Whether every node's rank is below the number of nodes.
pub open spec fn ranks_below(w: WorkflowInstanceSpec, rank: spec_fn(int) -> nat) -> bool {
    forall|i: int| 0 <= i < w.node_specs@.len() ==> #[trigger] rank(i) < w.node_specs@.len()
}

/// How many entries of `s` are true.
pub open spec fn count_true(s: Seq<bool>) -> nat
    decreases s.len(),
{
    if s.len() == 0 {
        0
    } else {
        count_true(s.drop_last()) + if s.last() {
            1nat
        } else {
            0nat
        }
    }
}

proof fn lemma_count_true_bounds(s: Seq<bool>)
    ensures
        count_true(s) <= s.len(),
        count_true(s) < s.len() ==> exists|i: int| 0 <= i < s.len() && !s[i],
        count_true(s) == s.len() ==> forall|i: int| 0 <= i < s.len() ==> s[i],
    decreases s.len(),
{
    if s.len() > 0 {
        let t = s.drop_last();
        lemma_count_true_bounds(t);
        if count_true(s) < s.len() && s.last() {
            let i = choose|i: int| 0 <= i < t.len() && !t[i];
            assert(!s[i]);
        }
        if count_true(s) == s.len() {
            assert forall|i: int| 0 <= i < s.len() implies s[i] by {
                if i < t.len() {
                    assert(t[i] == s[i]);
                }
            }
        }
        if count_true(s) < s.len() && !s.last() {
            assert(!s[s.len() - 1]);
        }
    }
}

proof fn lemma_count_true_set(s: Seq<bool>, k: int)
    requires
        0 <= k < s.len(),
        !s[k],
    ensures
        count_true(s.update(k, true)) == count_true(s) + 1,
    decreases s.len(),
{
    let u = s.update(k, true);
    if k == s.len() - 1 {
        assert(u.drop_last() =~= s.drop_last());
    } else {
        assert(u.drop_last() =~= s.drop_last().update(k, true));
        lemma_count_true_set(s.drop_last(), k);
    }
}

/// A remaining node of least rank among those not yet removed.
proof fn lemma_least_remaining(removed: Seq<bool>, rank: spec_fn(int) -> nat, k: int) -> (m: int)
    requires
        0 <= k <= removed.len(),
    ensures
        m == -1 ==> forall|j: int| 0 <= j < k ==> removed[j],
        m != -1 ==> 0 <= m < k && !removed[m] && forall|j: int|
            0 <= j < k && !removed[j] ==> rank(m) <= rank(j),
    decreases k,
{
    if k == 0 {
        -1
    } else {
        let m = lemma_least_remaining(removed, rank, k - 1);
        if removed[k - 1] {
            m
        } else if m == -1 || rank(k - 1) < rank(m) {
            k - 1
        } else {
            m
        }
    }
}

/// Where every remaining node has a remaining predecessor, no ranking exists.
proof fn lemma_stuck_is_cyclic(w: WorkflowInstanceSpec, removed: Seq<bool>, k0: int)
    requires
        removed.len() == w.node_specs@.len(),
        0 <= k0 < removed.len(),
        !removed[k0],
        forall|k: int|
            0 <= k < removed.len() && !removed[k] ==> exists|j: int|
                0 <= j < removed.len() && !removed[j] && #[trigger] edge(w, j, k),
    ensures
        !acyclic(w),
{
    assert forall|rank: spec_fn(int) -> nat| !is_ranking(w, rank) by {
        let m = lemma_least_remaining(removed, rank, removed.len() as int);
        let j = choose|j: int| 0 <= j < removed.len() && !removed[j] && #[trigger] edge(w, j, m);
        assert(edge(w, j, m));
    }
}

impl WorkflowInstanceSpec {
    /// Whether some node not yet removed has a relation into node `i`.
    fn has_remaining_pred(&self, removed: &Vec<bool>, i: usize) -> (r: bool)
        requires
            removed@.len() == self.node_specs@.len(),
            i < self.node_specs@.len(),
        ensures
            r == exists|j: int|
                0 <= j < removed@.len() && !removed@[j] && #[trigger] edge(*self, j, i as int),
    {
        let n = self.node_specs.len();
        let target = self.node_specs[i].id;
        let mut a: usize = 0;
        while a < self.node_relations.len()
            invariant
                removed@.len() == n,
                n == self.node_specs@.len(),
                i < n,
                target == self.node_specs@[i as int].id,
                a <= self.node_relations@.len(),
                forall|b: int, j: int|
                    0 <= b < a && 0 <= j < n && !removed@[j] ==> !(
                    #[trigger] self.node_relations@[b].from_id == #[trigger] self.node_specs@[j].id
                        && self.node_relations@[b].to_id == target),
            decreases self.node_relations@.len() - a,
        {
            if self.node_relations[a].to_id == target {
                let from = self.node_relations[a].from_id;
                let mut j: usize = 0;
                while j < n
                    invariant
                        removed@.len() == n,
                        n == self.node_specs@.len(),
                        a < self.node_relations@.len(),
                        from == self.node_relations@[a as int].from_id,
                        self.node_relations@[a as int].to_id == target,
                        target == self.node_specs@[i as int].id,
                        i < n,
                        j <= n,
                        forall|jj: int|
                            0 <= jj < j && !removed@[jj] ==> self.node_specs@[jj].id != from,
                    decreases n - j,
                {
                    if !removed[j] && self.node_specs[j].id == from {
                        assert(edge(*self, j as int, i as int));
                        return true;
                    }
                    j += 1;
                }
            }
            a += 1;
        }
        assert forall|j: int|
            0 <= j < removed@.len() && !removed@[j] implies !#[trigger] edge(*self, j, i as int) by {
            if edge(*self, j, i as int) {
                let b = choose|b: int|
                    0 <= b < self.node_relations@.len() && (#[trigger] self.node_relations@[b]).from_id
                        == self.node_specs@[j].id && self.node_relations@[b].to_id
                        == self.node_specs@[i as int].id;
                assert(!(self.node_relations@[b].from_id == self.node_specs@[j].id
                    && self.node_relations@[b].to_id == target));
            }
        }
        false
    }

    /// Whether the relation graph has no cycle, found by repeatedly removing a
    /// node that no remaining node points to.
    pub fn is_acyclic(&self) -> (r: bool)
        ensures
            r == acyclic(*self),
    {
        let n = self.node_specs.len();
        let mut removed: Vec<bool> = Vec::new();
        let mut k: usize = 0;
        while k < n
            invariant
                k <= n,
                removed@.len() == k,
                forall|i: int| 0 <= i < k ==> !removed@[i],
            decreases n - k,
        {
            removed.push(false);
            k += 1;
        }
        proof {
            lemma_count_false(removed@);
        }
        let ghost mut pos: Seq<nat> = Seq::new(n as nat, |i: int| 0nat);
        for round in 0..n
            invariant
                n == self.node_specs@.len(),
                removed@.len() == n,
                pos.len() == n,
                count_true(removed@) == round,
                forall|i: int| 0 <= i < n && removed@[i] ==> pos[i] < round,
                forall|i: int, j: int|
                    0 <= i < n && 0 <= j < n && removed@[i] && removed@[j] && #[trigger] edge(
                        *self,
                        j,
                        i,
                    ) ==> pos[j] < pos[i],
                forall|i: int, j: int|
                    0 <= i < n && 0 <= j < n && removed@[i] && !removed@[j] ==> !#[trigger] edge(
                        *self,
                        j,
                        i,
                    ),
        {
            let mut found: Option<usize> = None;
            let mut k: usize = 0;
            while found.is_none() && k < n
                invariant
                    n == self.node_specs@.len(),
                    removed@.len() == n,
                    k <= n,
                    found matches Some(f) ==> f < n && !removed@[f as int] && !exists|j: int|
                        0 <= j < n && !removed@[j] && #[trigger] edge(*self, j, f as int),
                    found is None ==> forall|kk: int|
                        0 <= kk < k && !removed@[kk] ==> exists|j: int|
                            0 <= j < n && !removed@[j] && #[trigger] edge(*self, j, kk),
                decreases n - k + if found is None { 1int } else { 0int },
            {
                if !removed[k] && !self.has_remaining_pred(&removed, k) {
                    found = Some(k);
                } else {
                    k += 1;
                }
            }
            match found {
                None => {
                    proof {
                        lemma_count_true_bounds(removed@);
                        let k0 = choose|i: int| 0 <= i < removed@.len() && !removed@[i];
                        lemma_stuck_is_cyclic(*self, removed@, k0);
                    }
                    return false;
                },
                Some(f) => {
                    proof {
                        lemma_count_true_set(removed@, f as int);
                        pos = pos.update(f as int, round as nat);
                    }
                    removed.set(f, true);
                },
            }
        }
        proof {
            lemma_count_true_bounds(removed@);
            let rank = |i: int| pos[i];
            assert(is_ranking(*self, rank));
            assert forall|i: int| 0 <= i < self.node_specs@.len() implies #[trigger] rank(i) < self.node_specs@.len() by {
                assert(removed@[i]);
            }
            assert(ranks_below(*self, rank));
        }
        true
    }
}

proof fn lemma_count_false(s: Seq<bool>)
    requires
        forall|i: int| 0 <= i < s.len() ==> !s[i],
    ensures
        count_true(s) == 0,
    decreases s.len(),
{
    if s.len() > 0 {
        lemma_count_false(s.drop_last());
    }
}

} // verus!
