use vstd::prelude::*;

use crate::analysis::AnalysisResult;
use crate::node::{Node, NodeKind};

verus! {

/// The two results speak of the same path and hold the same stack.
pub open spec fn result_unchanged(pre: AnalysisResult, post: AnalysisResult) -> bool {
    &&& post.root_path == pre.root_path
    &&& post.data_stack@ == pre.data_stack@
}

/// What `zoom_in` must have done to the navigation stack: either nothing
/// (zooming is capped, the display is not a directory, or a file was
/// selected), or the selected child directory moved from its parent's
/// children to the top of the stack, the parent keeping the remaining
/// children after a swap-with-last removal.
pub open spec fn zoom_in_spec(
    pre: AnalysisResult,
    post: AnalysisResult,
    index: int,
    can_zoom_in: bool,
) -> bool {
    let stk = pre.data_stack@;
    let cur = stk.last();
    let kids = cur.children();
    if !can_zoom_in || !cur.is_dir() || !kids[index].is_dir() {
        result_unchanged(pre, post)
    } else {
        &&& post.root_path == pre.root_path
        &&& post.data_stack@.len() == stk.len() + 1
        &&& post.data_stack@.last() == kids[index]
        &&& post.data_stack@[stk.len() - 1].name == cur.name
        &&& post.data_stack@[stk.len() - 1].size == cur.size
        &&& post.data_stack@[stk.len() - 1].bounds == cur.bounds
        &&& post.data_stack@[stk.len() - 1].is_dir()
        &&& post.data_stack@[stk.len() - 1].children() == kids.update(
            index,
            kids.last(),
        ).drop_last()
        &&& forall|k: int| 0 <= k < stk.len() - 1 ==> post.data_stack@[k] == stk[k]
    }
}

/// The interactive treemap view's controller state: whether drill-down is
/// currently allowed (navigation can be capped at a maximum depth).
pub struct TreeMapPanel {
    pub can_zoom_in: bool,
}

impl TreeMapPanel {
    pub fn new(can_zoom_in: bool) -> (r: TreeMapPanel)
        ensures
            r.can_zoom_in == can_zoom_in,
    {
        TreeMapPanel { can_zoom_in }
    }

    /// Drill into the child at `index` of the displayed directory: a
    /// selected child directory is removed from its parent's live children
    /// by a swap-with-last removal and pushed as the new stack top; a
    /// selected file or a capped view leaves the stack exactly as it was.
    pub fn zoom_in(&self, analysis_result: &mut AnalysisResult, index: usize)
        requires
            old(analysis_result).wf(),
            old(analysis_result).data_stack@.last().is_dir() ==> index < old(
                analysis_result,
            ).data_stack@.last().children().len(),
        ensures
            final(analysis_result).wf(),
            zoom_in_spec(
                *old(analysis_result),
                *final(analysis_result),
                index as int,
                self.can_zoom_in,
            ),
    {
        if !self.can_zoom_in {
            return;
        }
        let top_opt = analysis_result.data_stack.pop();
        match top_opt {
            Some(top) => {
                let Node { name, size, bounds, kind } = top;
                match kind {
                    NodeKind::Dir(mut children) => {
                        let is_file = match &children[index].kind {
                            NodeKind::File => true,
                            NodeKind::Dir(_) => false,
                        };
                        if is_file {
                            analysis_result.data_stack.push(
                                Node { name, size, bounds, kind: NodeKind::Dir(children) },
                            );
                            proof {
                                assert(analysis_result.data_stack@ =~= old(
                                    analysis_result,
                                ).data_stack@);
                            }
                            return;
                        }
                        let taken = children.swap_remove(index);
                        analysis_result.data_stack.push(
                            Node { name, size, bounds, kind: NodeKind::Dir(children) },
                        );
                        analysis_result.data_stack.push(taken);
                    },
                    NodeKind::File => {
                        analysis_result.data_stack.push(
                            Node { name, size, bounds, kind: NodeKind::File },
                        );
                        proof {
                            assert(analysis_result.data_stack@ =~= old(
                                analysis_result,
                            ).data_stack@);
                        }
                    },
                }
            },
            None => {
                proof {
                    assert(false);
                }
            },
        }
    }

    /// Scroll-driven zoom: a positive step re-selects the parent level on
    /// the stack (without restoring detached nodes); a negative step drills
    /// into the hovered child, if any.
    pub fn zoom(
        &self,
        analysis_result: &mut AnalysisResult,
        hovered_data_index: Option<usize>,
        delta: i32,
    )
        requires
            old(analysis_result).wf(),
            old(analysis_result).data_stack@.last().is_dir() ==> (forall|i: usize|
                hovered_data_index == Some(i) ==> i < old(
                    analysis_result,
                ).data_stack@.last().children().len()),
        ensures
            final(analysis_result).wf(),
            delta > 0 && old(analysis_result).data_stack@.len() >= 2
                ==> final(analysis_result).root_path == old(analysis_result).root_path
                && final(analysis_result).data_stack@ == old(analysis_result).data_stack@.subrange(
                0,
                old(analysis_result).data_stack@.len() - 1,
            ),
            delta > 0 && old(analysis_result).data_stack@.len() < 2 ==> result_unchanged(
                *old(analysis_result),
                *final(analysis_result),
            ),
            delta < 0 ==> (forall|i: usize|
                hovered_data_index == Some(i) ==> zoom_in_spec(
                    *old(analysis_result),
                    *final(analysis_result),
                    i as int,
                    self.can_zoom_in,
                )),
            delta == 0 || (delta < 0 && hovered_data_index is None) ==> result_unchanged(
                *old(analysis_result),
                *final(analysis_result),
            ),
    {
        if delta > 0 {
            if analysis_result.data_stack.len() >= 2 {
                let index = analysis_result.data_stack.len() - 2;
                analysis_result.selected_index(index);
            }
        } else if delta < 0 {
            if let Some(hovered_index) = hovered_data_index {
                self.zoom_in(analysis_result, hovered_index);
            }
        }
    }
}

} // verus!
