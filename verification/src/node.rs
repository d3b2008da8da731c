use vstd::prelude::*;

verus! {

/// A rectangle in screen coordinates, the transient layout bounds of a node.
#[derive(Clone, Copy, PartialEq, Eq, Structural, Debug)]
pub struct Bounds {
    pub x: u32,
    pub y: u32,
    pub w: u32,
    pub h: u32,
}

impl Bounds {
    /// The empty rectangle anchored at a given corner.
    pub open spec fn spec_zero_at(x: u32, y: u32) -> Bounds {
        Bounds { x, y, w: 0, h: 0 }
    }

    pub fn zero_at(x: u32, y: u32) -> (r: Bounds)
        ensures
            r == Bounds::spec_zero_at(x, y),
    {
        Bounds { x, y, w: 0, h: 0 }
    }

    pub open spec fn area(self) -> int {
        self.w * self.h
    }

    /// `self` lies within `outer`'s footprint.
    pub open spec fn within(self, outer: Bounds) -> bool {
        &&& outer.x <= self.x
        &&& self.x + self.w <= outer.x + outer.w
        &&& outer.y <= self.y
        &&& self.y + self.h <= outer.y + outer.h
    }
}

/// What a node is: a plain file (or a symbolic link treated as a leaf),
/// or a directory with its ordered children.
pub enum NodeKind {
    File,
    Dir(Vec<Node>),
}

/// One entry of the size-annotated tree built by a scan.
pub struct Node {
    pub name: String,
    pub size: u64,
    pub bounds: Bounds,
    pub kind: NodeKind,
}

impl Node {
    pub open spec fn is_dir(self) -> bool {
        self.kind is Dir
    }

    pub open spec fn children(self) -> Seq<Node> {
        self.kind->Dir_0@
    }
}

/// Sum of the sizes of a sequence of nodes, as an unbounded integer.
pub open spec fn sum_sizes(s: Seq<Node>) -> int
    decreases s.len(),
{
    if s.len() == 0 {
        0
    } else {
        sum_sizes(s.drop_last()) + s.last().size
    }
}

/// Children are ordered by descending size.
pub open spec fn sorted_desc(s: Seq<Node>) -> bool {
    forall|i: int, j: int| 0 <= i <= j < s.len() ==> #[trigger] s[i].size >= #[trigger] s[j].size
}

/// The structural invariant of a completed scan: every directory's size
/// equals the sum of its children's sizes, recursively at every depth,
/// and each directory's children are sorted descending by size.
pub open spec fn well_formed(n: Node) -> bool
    decreases n,
{
    match n.kind {
        NodeKind::File => true,
        NodeKind::Dir(children) => {
            &&& n.size == sum_sizes(children@)
            &&& sorted_desc(children@)
            &&& forall|i: int|
                0 <= i < children@.len() ==> well_formed(#[trigger] children@[i])
        },
    }
}

pub proof fn lemma_sum_sizes_push(s: Seq<Node>, x: Node)
    ensures
        sum_sizes(s.push(x)) == sum_sizes(s) + x.size,
{
    assert(s.push(x).drop_last() =~= s);
}

pub proof fn lemma_sum_sizes_nonneg(s: Seq<Node>)
    ensures
        sum_sizes(s) >= 0,
    decreases s.len(),
{
    if s.len() > 0 {
        lemma_sum_sizes_nonneg(s.drop_last());
    }
}

pub proof fn lemma_sum_sizes_take_step(s: Seq<Node>, i: int)
    requires
        0 <= i < s.len(),
    ensures
        sum_sizes(s.take(i + 1)) == sum_sizes(s.take(i)) + s[i].size,
{
    assert(s.take(i + 1).drop_last() =~= s.take(i));
    assert(s.take(i + 1).last() == s[i]);
}

pub proof fn lemma_sum_sizes_take_monotone(s: Seq<Node>, i: int, j: int)
    requires
        0 <= i <= j <= s.len(),
    ensures
        sum_sizes(s.take(i)) <= sum_sizes(s.take(j)),
    decreases j - i,
{
    if i < j {
        lemma_sum_sizes_take_step(s, j - 1);
        lemma_sum_sizes_take_monotone(s, i, j - 1);
    }
}

pub proof fn lemma_sum_sizes_take_all(s: Seq<Node>)
    ensures
        sum_sizes(s.take(s.len() as int)) == sum_sizes(s),
{
    assert(s.take(s.len() as int) =~= s);
}

/// If every node from position `i` on has size zero, the prefix before `i`
/// already accounts for the whole sum.
pub proof fn lemma_sum_sizes_zero_suffix(s: Seq<Node>, i: int)
    requires
        0 <= i <= s.len(),
        forall|k: int| i <= k < s.len() ==> #[trigger] s[k].size == 0,
    ensures
        sum_sizes(s) == sum_sizes(s.take(i)),
    decreases s.len() - i,
{
    if i < s.len() {
        lemma_sum_sizes_take_step(s, i);
        lemma_sum_sizes_zero_suffix(s, i + 1);
    } else {
        lemma_sum_sizes_take_all(s);
    }
}

/// If two sequences agree pointwise on sizes, their size sums agree.
pub proof fn lemma_sum_sizes_congruence(a: Seq<Node>, b: Seq<Node>)
    requires
        a.len() == b.len(),
        forall|k: int| 0 <= k < a.len() ==> #[trigger] a[k].size == #[trigger] b[k].size,
    ensures
        sum_sizes(a) == sum_sizes(b),
    decreases a.len(),
{
    if a.len() > 0 {
        lemma_sum_sizes_congruence(a.drop_last(), b.drop_last());
    }
}

pub proof fn lemma_sum_sizes_insert(s: Seq<Node>, i: int, v: Node)
    requires
        0 <= i <= s.len(),
    ensures
        sum_sizes(s.insert(i, v)) == sum_sizes(s) + v.size,
    decreases s.len(),
{
    if i == s.len() {
        assert(s.insert(i, v) =~= s.push(v));
        lemma_sum_sizes_push(s, v);
    } else {
        assert(s.insert(i, v).drop_last() =~= s.drop_last().insert(i, v));
        assert(s.insert(i, v).last() == s.last());
        lemma_sum_sizes_insert(s.drop_last(), i, v);
    }
}

/// Sum of the areas of the layout bounds of a sequence of nodes.
pub open spec fn sum_areas(s: Seq<Node>) -> int
    decreases s.len(),
{
    if s.len() == 0 {
        0
    } else {
        sum_areas(s.drop_last()) + s.last().bounds.area()
    }
}

pub proof fn lemma_sum_areas_take_step(s: Seq<Node>, i: int)
    requires
        0 <= i < s.len(),
    ensures
        sum_areas(s.take(i + 1)) == sum_areas(s.take(i)) + s[i].bounds.area(),
{
    assert(s.take(i + 1).drop_last() =~= s.take(i));
    assert(s.take(i + 1).last() == s[i]);
}

/// If every node from position `i` on has zero-area bounds, the prefix
/// before `i` already accounts for the whole area sum.
pub proof fn lemma_sum_areas_zero_suffix(s: Seq<Node>, i: int)
    requires
        0 <= i <= s.len(),
        forall|k: int| i <= k < s.len() ==> (#[trigger] s[k]).bounds.area() == 0,
    ensures
        sum_areas(s) == sum_areas(s.take(i)),
    decreases s.len() - i,
{
    if i < s.len() {
        lemma_sum_areas_take_step(s, i);
        lemma_sum_areas_zero_suffix(s, i + 1);
    } else {
        lemma_sum_areas_take_all(s);
    }
}

pub proof fn lemma_sum_areas_take_all(s: Seq<Node>)
    ensures
        sum_areas(s.take(s.len() as int)) == sum_areas(s),
{
    assert(s.take(s.len() as int) =~= s);
}

/// Everything of a node except its transient layout bounds.
pub open spec fn same_content(a: Node, b: Node) -> bool {
    &&& a.name == b.name
    &&& a.size == b.size
    &&& a.kind == b.kind
}

} // verus!
