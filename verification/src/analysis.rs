use vstd::prelude::*;

use crate::node::{sum_sizes, Node, NodeKind};
use crate::strutil::{join_path, spec_join};
use vstd::string::StringExecFns;

verus! {

/// The absolute path that the first `n` stack levels denote: the root path
/// joined with the names of the levels below it.
pub open spec fn spec_stack_path(root_path: Seq<char>, stack: Seq<Node>, n: int) -> Seq<char>
    decreases n,
{
    if n <= 1 {
        root_path
    } else {
        spec_join(spec_stack_path(root_path, stack, n - 1), stack[n - 1].name@)
    }
}

/// The outcome of a scan: the scanned root path and the navigation stack.
///
/// Index 0 of `data_stack` is the scan root; the last element is the
/// directory currently displayed. Zooming moves whole nodes between a
/// parent's child collection and the stack, never duplicating one.
pub struct AnalysisResult {
    pub root_path: String,
    pub data_stack: Vec<Node>,
}

impl AnalysisResult {
    /// The navigation-stack invariant: the stack is never empty and every
    /// element except possibly the last is a directory.
    pub open spec fn wf(self) -> bool {
        &&& self.data_stack@.len() >= 1
        &&& forall|k: int|
            0 <= k < self.data_stack@.len() - 1 ==> (#[trigger] self.data_stack@[k]).is_dir()
    }

    /// A fresh result displays the scan root itself.
    pub fn new(root_path: String, root: Node) -> (r: AnalysisResult)
        requires
            root.is_dir(),
        ensures
            r.wf(),
            r.root_path == root_path,
            r.data_stack@ =~= seq![root],
    {
        let mut data_stack: Vec<Node> = Vec::new();
        data_stack.push(root);
        AnalysisResult { root_path, data_stack }
    }

    /// The absolute path of the displayed directory: the scanned root path
    /// joined with the names of every stack level below the root.
    pub fn displayed_path(&self) -> (r: String)
        ensures
            r@ == spec_stack_path(
                self.root_path@,
                self.data_stack@,
                self.data_stack@.len() as int,
            ),
    {
        let mut full_path = self.root_path.as_str().to_owned();
        let n = self.data_stack.len();
        let mut i: usize = 1;
        while i < n
            invariant
                1 <= i <= n || (n == 0 && i == 1),
                n == self.data_stack@.len(),
                full_path@ == spec_stack_path(
                    self.root_path@,
                    self.data_stack@,
                    if n == 0 {
                        0int
                    } else {
                        i as int
                    },
                ),
            decreases n - i,
        {
            let next = join_path(full_path.as_str(), self.data_stack[i].name.as_str());
            full_path = next;
            i = i + 1;
        }
        full_path
    }

    /// Ancestor re-select: make the stack element at `index` the displayed
    /// directory without restoring any node detached below it.
    pub fn selected_index(&mut self, index: usize)
        requires
            old(self).wf(),
            index < old(self).data_stack@.len(),
        ensures
            final(self).wf(),
            final(self).root_path == old(self).root_path,
            final(self).data_stack@ == old(self).data_stack@.subrange(0, index + 1),
    {
        let n = self.data_stack.len();
        assert(index < n);
        self.data_stack.truncate(index + 1);
    }

    /// Explicit pop: remove the displayed directory from the stack and
    /// restore it into its parent's child collection.
    pub fn zoom_out(&mut self)
        requires
            old(self).wf(),
            old(self).data_stack@.len() >= 2,
        ensures
            final(self).wf(),
            final(self).root_path == old(self).root_path,
            final(self).data_stack@.len() == old(self).data_stack@.len() - 1,
            forall|k: int|
                0 <= k < final(self).data_stack@.len() - 1 ==> final(self).data_stack@[k]
                    == old(self).data_stack@[k],
            final(self).data_stack@.last().is_dir(),
            final(self).data_stack@.last().bounds == old(self).data_stack@[old(
                self,
            ).data_stack@.len() - 2].bounds,
            final(self).data_stack@.last().name == old(self).data_stack@[old(
                self,
            ).data_stack@.len() - 2].name,
            final(self).data_stack@.last().size == old(self).data_stack@[old(
                self,
            ).data_stack@.len() - 2].size,
            final(self).data_stack@.last().children() == old(self).data_stack@[old(
                self,
            ).data_stack@.len() - 2].children().push(old(self).data_stack@.last()),
    {
        let popped_opt = self.data_stack.pop();
        let parent_opt = self.data_stack.pop();
        match (popped_opt, parent_opt) {
            (Some(popped), Some(parent)) => {
                let Node { name, size, bounds, kind } = parent;
                match kind {
                    NodeKind::Dir(mut children) => {
                        children.push(popped);
                        self.data_stack.push(
                            Node { name, size, bounds, kind: NodeKind::Dir(children) },
                        );
                    },
                    NodeKind::File => {
                        proof {
                            assert(false);
                        }
                    },
                }
            },
            _ => {
                proof {
                    assert(false);
                }
            },
        }
    }
}

pub proof fn lemma_sum_sizes_update(s: Seq<Node>, i: int, v: Node)
    requires
        0 <= i < s.len(),
    ensures
        sum_sizes(s.update(i, v)) == sum_sizes(s) - s[i].size + v.size,
    decreases s.len(),
{
    if i == s.len() - 1 {
        assert(s.update(i, v).drop_last() =~= s.drop_last());
        assert(s.update(i, v).last() == v);
    } else {
        assert(s.update(i, v).drop_last() =~= s.drop_last().update(i, v));
        lemma_sum_sizes_update(s.drop_last(), i, v);
        assert(s.update(i, v).last() == s.last());
        assert(s.drop_last()[i] == s[i]);
    }
}

/// Law: drilling into the child at `i` (a swap-with-last removal from its
/// parent's children) and then restoring the taken node by an explicit pop
/// gives back the same collection of children — position aside — and so
/// the same total child size: sizes are fixed at scan time, and zooming
/// never changes them.
pub proof fn lemma_zoom_round_trip(kids: Seq<Node>, i: int)
    requires
        0 <= i < kids.len(),
    ensures
        sum_sizes(kids.update(i, kids.last()).drop_last().push(kids[i])) == sum_sizes(kids),
        kids.update(i, kids.last()).drop_last().push(kids[i]).to_multiset()
            == kids.to_multiset(),
{
    broadcast use vstd::seq_lib::group_to_multiset_ensures;
    broadcast use vstd::multiset::group_multiset_axioms;

    let swapped = kids.update(i, kids.last());
    let removed = swapped.drop_last();
    crate::node::lemma_sum_sizes_push(removed, kids[i]);
    lemma_sum_sizes_update(kids, i, kids.last());
    assert(swapped.last() == kids.last());
    assert(sum_sizes(swapped) == sum_sizes(removed) + swapped.last().size);

    let n = kids.len() as int;
    vstd::seq_lib::to_multiset_update(kids, i, kids.last());
    vstd::seq_lib::to_multiset_remove(swapped, n - 1);
    assert(removed =~= swapped.remove(n - 1));
    vstd::seq_lib::to_multiset_build(removed, kids[i]);
    assert(kids.contains(kids[i]));
    assert(kids.to_multiset().count(kids[i]) > 0);
    assert(kids.contains(kids.last()));
    assert(kids.to_multiset().count(kids.last()) > 0);
    assert(removed.push(kids[i]).to_multiset() =~= kids.to_multiset());
}

} // verus!
