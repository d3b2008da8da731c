use vstd::prelude::*;

use crate::node::{sorted_desc, sum_sizes, well_formed, Bounds, Node, NodeKind};
use crate::pathutil::nfc_of;
use crate::settings::{opt_str_view, Settings};
use crate::spec_file_size;
use crate::strutil::{join_path, spec_join};
use vstd::multiset::Multiset;

verus! {

/// What the directory-entry source reports about one entry of a directory
/// being scanned: a leaf with its sizes (a plain file, or a symbolic link
/// treated as a leaf so cycles are never followed), a directory with its
/// own entries, or an entry whose metadata could not be read.
pub enum RawEntry {
    File { name: String, logical: u64, physical: Option<u64> },
    Dir { name: String, entries: Vec<RawEntry> },
    Inaccessible { name: String },
}

pub open spec fn entry_name(e: RawEntry) -> Seq<char> {
    match e {
        RawEntry::File { name, .. } => name@,
        RawEntry::Dir { name, .. } => name@,
        RawEntry::Inaccessible { name } => name@,
    }
}

/// Addition that sticks at the counter's ceiling.
pub open spec fn sat_add(a: u64, b: u64) -> u64 {
    if a + b <= u64::MAX {
        (a + b) as u64
    } else {
        u64::MAX
    }
}

pub fn sat_add_exec(a: u64, b: u64) -> (r: u64)
    ensures
        r == sat_add(a, b),
{
    if b <= u64::MAX - a {
        a + b
    } else {
        u64::MAX
    }
}

/// An entry enters the tree when it could be read and the filter does not
/// skip its absolute path.
pub open spec fn entry_kept(
    e: RawEntry,
    dir_abs: Seq<char>,
    f: Settings,
    home: Option<Seq<char>>,
) -> bool {
    match e {
        RawEntry::Inaccessible { .. } => false,
        _ => !f.spec_path_ignored(spec_join(dir_abs, entry_name(e)), home),
    }
}

/// The size a kept entry contributes: a leaf's sparse-aware on-disk size,
/// or a directory's aggregated total.
pub open spec fn scan_size(e: RawEntry, dir_abs: Seq<char>, f: Settings, home: Option<Seq<char>>) -> u64
    decreases e, 0int,
{
    match e {
        RawEntry::File { name, logical, physical } => spec_file_size(logical, physical),
        RawEntry::Dir { name, entries } => scan_fold(
            entries@,
            entries@.len() as int,
            spec_join(dir_abs, name@),
            f,
            home,
        ).1,
        RawEntry::Inaccessible { .. } => 0,
    }
}

/// The per-entry failures inside a kept entry's subtree.
pub open spec fn scan_errs(e: RawEntry, dir_abs: Seq<char>, f: Settings, home: Option<Seq<char>>) -> u64
    decreases e, 0int,
{
    match e {
        RawEntry::File { .. } => 0,
        RawEntry::Dir { name, entries } => scan_fold(
            entries@,
            entries@.len() as int,
            spec_join(dir_abs, name@),
            f,
            home,
        ).2,
        RawEntry::Inaccessible { .. } => 0,
    }
}

/// Scanning the first `n` entries of a directory at `dir_abs`: the kept
/// children as `(name, size, is directory)` descriptors in entry order,
/// the directory's size so far, and the failures counted so far.
///
/// A child that could not be read is dropped and counted; a child the
/// filter skips is dropped silently; a child whose size no longer fits the
/// counter is dropped and counted, so the totals always stay exact.
pub open spec fn scan_fold(
    es: Seq<RawEntry>,
    n: int,
    dir_abs: Seq<char>,
    f: Settings,
    home: Option<Seq<char>>,
) -> (Seq<(Seq<char>, u64, bool)>, u64, u64)
    decreases es, n,
{
    if n <= 0 || n > es.len() {
        (Seq::<(Seq<char>, u64, bool)>::empty(), 0u64, 0u64)
    } else {
        let prev = scan_fold(es, n - 1, dir_abs, f, home);
        let e = es[n - 1];
        if !entry_kept(e, dir_abs, f, home) {
            if e is Inaccessible {
                (prev.0, prev.1, sat_add(prev.2, 1))
            } else {
                prev
            }
        } else {
            let s = scan_size(e, dir_abs, f, home);
            let errs = sat_add(prev.2, scan_errs(e, dir_abs, f, home));
            if prev.1 + s <= u64::MAX {
                (prev.0.push((nfc_of(entry_name(e)), s, e is Dir)), (prev.1 + s) as u64, errs)
            } else {
                (prev.0, prev.1, sat_add(errs, 1))
            }
        }
    }
}

/// `n` is exactly the node that scanning the kept entry `e` inside the
/// directory at `dir_abs` yields: same normalized name, same aggregated
/// size, same kind, and — for a directory — children that are, as a
/// collection, exactly the kept entries' nodes, recursively.
pub open spec fn node_matches(
    e: RawEntry,
    dir_abs: Seq<char>,
    f: Settings,
    home: Option<Seq<char>>,
    n: Node,
) -> bool
    decreases e, 1int,
{
    &&& n.name@ == nfc_of(entry_name(e))
    &&& n.size == scan_size(e, dir_abs, f, home)
    &&& n.is_dir() == (e is Dir)
    &&& (e is Dir ==> exists|perm: Seq<Node>|
        {
            &&& children_match_inorder(
                e->Dir_entries@,
                e->Dir_entries@.len() as int,
                spec_join(dir_abs, entry_name(e)),
                f,
                home,
                perm,
            )
            &&& n.children().to_multiset() == #[trigger] perm.to_multiset()
        })
}

/// `kids` are exactly the nodes of the kept entries among the first `n` of
/// `es`, in entry order.
pub open spec fn children_match_inorder(
    es: Seq<RawEntry>,
    n: int,
    dir_abs: Seq<char>,
    f: Settings,
    home: Option<Seq<char>>,
    kids: Seq<Node>,
) -> bool
    decreases es, n,
{
    if n <= 0 || n > es.len() {
        kids.len() == 0
    } else {
        let e = es[n - 1];
        let fits = scan_fold(es, n - 1, dir_abs, f, home).1 + scan_size(e, dir_abs, f, home)
            <= u64::MAX;
        if entry_kept(e, dir_abs, f, home) && fits {
            &&& kids.len() >= 1
            &&& children_match_inorder(es, n - 1, dir_abs, f, home, kids.drop_last())
            &&& node_matches(e, dir_abs, f, home, kids.last())
        } else {
            children_match_inorder(es, n - 1, dir_abs, f, home, kids)
        }
    }
}

/// The `(name, size, is directory)` descriptors of a sequence of nodes.
pub open spec fn node_descs(s: Seq<Node>) -> Seq<(Seq<char>, u64, bool)> {
    s.map(|i: int, n: Node| (n.name@, n.size, n.is_dir()))
}

/// Sort nodes descending by size (stably, by insertion), for deterministic
/// downstream layout.
fn sort_desc(v: Vec<Node>) -> (r: Vec<Node>)
    ensures
        sorted_desc(r@),
        r@.len() == v@.len(),
        sum_sizes(r@) == sum_sizes(v@),
        r@.to_multiset() == v@.to_multiset(),
        node_descs(r@).to_multiset() == node_descs(v@).to_multiset(),
{
    broadcast use vstd::seq_lib::group_to_multiset_ensures;
    broadcast use vstd::multiset::group_multiset_axioms;

    let ghost orig = v@;
    let mut v = v;
    let mut out: Vec<Node> = Vec::new();
    proof {
        assert(out@.to_multiset() =~= Multiset::<Node>::empty());
        assert(node_descs(out@) =~= Seq::<(Seq<char>, u64, bool)>::empty());
        assert(node_descs(out@).to_multiset() =~= Multiset::<(Seq<char>, u64, bool)>::empty());
    }
    while v.len() > 0
        invariant
            sorted_desc(out@),
            out@.len() + v@.len() == orig.len(),
            sum_sizes(out@) + sum_sizes(v@) == sum_sizes(orig),
            orig.to_multiset() == v@.to_multiset().add(out@.to_multiset()),
            node_descs(orig).to_multiset() == node_descs(v@).to_multiset().add(
                node_descs(out@).to_multiset(),
            ),
        decreases v@.len(),
    {
        let ghost pre_v = v@;
        let node = match v.pop() {
            Some(node) => node,
            None => {
                proof {
                    assert(false);
                }
                unreached()
            },
        };
        proof {
            assert(pre_v =~= v@.push(node));
            assert(node_descs(pre_v) =~= node_descs(v@).push((node.name@, node.size, node.is_dir())));
        }
        let mut p: usize = 0;
        let olen = out.len();
        while p < olen && out[p].size >= node.size
            invariant
                p <= olen,
                olen == out@.len(),
                forall|k: int| 0 <= k < p ==> #[trigger] out@[k].size >= node.size,
                sorted_desc(out@),
            decreases olen - p,
        {
            p = p + 1;
        }
        let ghost pre_out = out@;
        out.insert(p, node);
        proof {
            crate::node::lemma_sum_sizes_insert(pre_out, p as int, node);
            let ghost d = (node.name@, node.size, node.is_dir());
            vstd::seq_lib::to_multiset_build::<Node>(v@, node);
            vstd::seq_lib::to_multiset_insert::<Node>(pre_out, p as int, node);
            vstd::seq_lib::to_multiset_build::<(Seq<char>, u64, bool)>(node_descs(v@), d);
            vstd::seq_lib::to_multiset_insert::<(Seq<char>, u64, bool)>(
                node_descs(pre_out),
                p as int,
                d,
            );
            assert(pre_v.to_multiset() == v@.push(node).to_multiset());
            assert(out@.to_multiset() == pre_out.insert(p as int, node).to_multiset());
            assert(node_descs(pre_v).to_multiset() == node_descs(v@).push(d).to_multiset());
            assert(node_descs(pre_out.insert(p as int, node)) =~= node_descs(pre_out).insert(
                p as int,
                d,
            ));
            assert(node_descs(out@).to_multiset() == node_descs(pre_out).insert(
                p as int,
                d,
            ).to_multiset());
            assert(v@.to_multiset().insert(node).add(pre_out.to_multiset()) =~= v@.to_multiset().add(
                pre_out.to_multiset().insert(node),
            ));
            assert(node_descs(v@).to_multiset().insert(
                (node.name@, node.size, node.is_dir()),
            ).add(node_descs(pre_out).to_multiset()) =~= node_descs(v@).to_multiset().add(
                node_descs(pre_out).to_multiset().insert((node.name@, node.size, node.is_dir())),
            ));
            assert(node_descs(out@) =~= node_descs(pre_out).insert(
                p as int,
                (node.name@, node.size, node.is_dir()),
            ));
            assert(sorted_desc(out@)) by {
                assert(forall|k: int|
                    0 <= k < p ==> #[trigger] pre_out[k].size >= node.size);
                assert(forall|k: int|
                    p <= k < pre_out.len() ==> #[trigger] pre_out[k].size <= node.size) by {
                    if p < pre_out.len() {
                        assert(pre_out[p as int].size < node.size);
                    }
                }
                assert(forall|i: int, j: int|
                    0 <= i <= j < out@.len() ==> #[trigger] out@[i].size >= #[trigger] out@[j].size)
                    by {
                    assert forall|i: int, j: int|
                        0 <= i <= j < out@.len() implies #[trigger] out@[i].size
                        >= #[trigger] out@[j].size by {
                        if i < p {
                            assert(out@[i] == pre_out[i]);
                        }
                        if j < p {
                            assert(out@[j] == pre_out[j]);
                        }
                        if i > p {
                            assert(out@[i] == pre_out[i - 1]);
                        }
                        if j > p {
                            assert(out@[j] == pre_out[j - 1]);
                        }
                    }
                }
            }
        }
    }
    proof {
        assert(v@.to_multiset() =~= Multiset::<Node>::empty());
        assert(node_descs(v@) =~= Seq::<(Seq<char>, u64, bool)>::empty());
        assert(node_descs(v@).to_multiset() =~= Multiset::<(Seq<char>, u64, bool)>::empty());
        assert(orig.to_multiset() =~= out@.to_multiset());
        assert(node_descs(orig).to_multiset() =~= node_descs(out@).to_multiset());
    }
    out
}

/// Scan one directory entry. `None` when the entry is skipped: unreadable,
/// or excluded by the filter snapshot. Otherwise the entry's completed
/// subtree and the per-entry failures counted inside it.
pub fn scan_entry(e: &RawEntry, dir_abs: &str, settings: &Settings, home: Option<&String>) -> (r:
    Option<(Node, u64)>)
    ensures
        (r is Some) == entry_kept(*e, dir_abs@, *settings, opt_str_view(home)),
        r is Some ==> ({
            let (node, cerrs) = r->0;
            &&& well_formed(node)
            &&& node.name@ == nfc_of(entry_name(*e))
            &&& node.size == scan_size(*e, dir_abs@, *settings, opt_str_view(home))
            &&& node.is_dir() == (*e is Dir)
            &&& cerrs == scan_errs(*e, dir_abs@, *settings, opt_str_view(home))
            &&& (*e is Dir ==> node_descs(node.children()).to_multiset() == scan_fold(
                e->Dir_entries@,
                e->Dir_entries@.len() as int,
                spec_join(dir_abs@, entry_name(*e)),
                *settings,
                opt_str_view(home),
            ).0.to_multiset())
            &&& node_matches(*e, dir_abs@, *settings, opt_str_view(home), node)
        }),
    decreases *e, 1int,
{
    match e {
        RawEntry::Inaccessible { .. } => None,
        RawEntry::File { name, logical, physical } => {
            let abs = join_path(dir_abs, name.as_str());
            if settings.is_path_ignored_with_home(abs.as_str(), home) {
                None
            } else {
                let nm = crate::pathutil::nfc_normalize(name.as_str());
                let sz = crate::effective_file_size(*logical, *physical);
                let node = Node {
                    name: nm,
                    size: sz,
                    bounds: Bounds::zero_at(0, 0),
                    kind: NodeKind::File,
                };
                proof {
                    assert(node_matches(*e, dir_abs@, *settings, opt_str_view(home), node));
                }
                Some((node, 0))
            }
        },
        RawEntry::Dir { name, entries } => {
            let abs = join_path(dir_abs, name.as_str());
            if settings.is_path_ignored_with_home(abs.as_str(), home) {
                None
            } else {
                let (children, size, errs) = scan_dir_entries(entries, abs.as_str(), settings, home);
                let ghost kept_seq = children@;
                let sorted = sort_desc(children);
                let nm = crate::pathutil::nfc_normalize(name.as_str());
                proof {
                    assert forall|k: int| 0 <= k < sorted@.len() implies well_formed(
                        #[trigger] sorted@[k],
                    ) by {
                        broadcast use vstd::seq_lib::group_to_multiset_ensures;
                        broadcast use vstd::multiset::group_multiset_axioms;

                        assert(sorted@.to_multiset().contains(sorted@[k]));
                    }
                }
                let node = Node {
                    name: nm,
                    size,
                    bounds: Bounds::zero_at(0, 0),
                    kind: NodeKind::Dir(sorted),
                };
                proof {
                    assert(node.children().to_multiset() == kept_seq.to_multiset());
                    assert(children_match_inorder(
                        e->Dir_entries@,
                        e->Dir_entries@.len() as int,
                        spec_join(dir_abs@, entry_name(*e)),
                        *settings,
                        opt_str_view(home),
                        kept_seq,
                    ));
                    assert(node_matches(*e, dir_abs@, *settings, opt_str_view(home), node));
                }
                Some((node, errs))
            }
        },
    }
}

/// Scan the entries of one directory at `dir_abs`, in order: the kept
/// children (unsorted), the directory's aggregated size, and the failure
/// count.
fn scan_dir_entries(entries: &Vec<RawEntry>, dir_abs: &str, settings: &Settings, home: Option<
    &String,
>) -> (r: (Vec<Node>, u64, u64))
    ensures
        ({
            let fold = scan_fold(
                entries@,
                entries@.len() as int,
                dir_abs@,
                *settings,
                opt_str_view(home),
            );
            &&& node_descs(r.0@) == fold.0
            &&& r.1 == fold.1
            &&& r.2 == fold.2
            &&& sum_sizes(r.0@) == r.1
            &&& forall|k: int| 0 <= k < r.0@.len() ==> well_formed(#[trigger] r.0@[k])
            &&& children_match_inorder(
                entries@,
                entries@.len() as int,
                dir_abs@,
                *settings,
                opt_str_view(home),
                r.0@,
            )
        }),
    decreases entries@, 0int,
{
    let ghost f = *settings;
    let ghost h = opt_str_view(home);
    let mut kept: Vec<Node> = Vec::new();
    let mut size: u64 = 0;
    let mut errs: u64 = 0;
    let n = entries.len();
    let mut i: usize = 0;
    proof {
        assert(node_descs(kept@) =~= scan_fold(entries@, 0int, dir_abs@, f, h).0);
    }
    while i < n
        invariant
            i <= n,
            n == entries@.len(),
            f == *settings,
            h == opt_str_view(home),
            node_descs(kept@) == scan_fold(entries@, i as int, dir_abs@, f, h).0,
            size == scan_fold(entries@, i as int, dir_abs@, f, h).1,
            errs == scan_fold(entries@, i as int, dir_abs@, f, h).2,
            sum_sizes(kept@) == size,
            forall|k: int| 0 <= k < kept@.len() ==> well_formed(#[trigger] kept@[k]),
            children_match_inorder(entries@, i as int, dir_abs@, f, h, kept@),
        decreases n - i,
    {
        let ghost pre_kept = kept@;
        let entry = &entries[i];
        let outcome = scan_entry(entry, dir_abs, settings, home);
        match outcome {
            None => {
                if matches!(entry, RawEntry::Inaccessible { .. }) {
                    errs = sat_add_exec(errs, 1);
                }
            },
            Some((node, cerrs)) => {
                errs = sat_add_exec(errs, cerrs);
                if node.size <= u64::MAX - size {
                    proof {
                        crate::node::lemma_sum_sizes_push(kept@, node);
                        assert(node_descs(pre_kept.push(node)) =~= node_descs(pre_kept).push(
                            (node.name@, node.size, node.is_dir()),
                        ));
                        assert(pre_kept.push(node).drop_last() =~= pre_kept);
                    }
                    size = size + node.size;
                    kept.push(node);
                } else {
                    errs = sat_add_exec(errs, 1);
                }
            },
        }
        i = i + 1;
    }
    (kept, size, errs)
}

#[derive(Debug, Clone, Copy, PartialEq, Eq, Structural)]
pub enum ScanError {
    /// The root path itself could not be read: fatal, no tree is produced.
    RootUnreadable,
    /// The root path is not a directory.
    RootNotDirectory,
}

/// Scan a whole subtree rooted at the directory `root_path`, whose raw
/// entries the directory-entry source reported as `root`. The filter
/// snapshot is consulted once per entry; the root itself is never
/// filtered, since scanning it was requested explicitly.
///
/// Returns the completed, sorted, size-annotated tree and the count of
/// entries that had to be skipped over, or the fatal error when the root
/// itself could not be read.
pub fn scan_tree(root: &RawEntry, root_path: &str, settings: &Settings, home: Option<&String>)
    -> (r: Result<(Node, u64), ScanError>)
    ensures
        (r is Ok) == (*root is Dir),
        *root is Inaccessible ==> r == Result::<(Node, u64), ScanError>::Err(
            ScanError::RootUnreadable,
        ),
        *root is File ==> r == Result::<(Node, u64), ScanError>::Err(ScanError::RootNotDirectory),
        r is Ok ==> ({
            let fold = scan_fold(
                root->Dir_entries@,
                root->Dir_entries@.len() as int,
                root_path@,
                *settings,
                opt_str_view(home),
            );
            let (node, errors) = r->Ok_0;
            &&& well_formed(node)
            &&& node.is_dir()
            &&& node.name@ == nfc_of(root_path@.skip(crate::pathutil::basename_start(root_path@)))
            &&& node.size == fold.1
            &&& sorted_desc(node.children())
            &&& node_descs(node.children()).to_multiset() == fold.0.to_multiset()
            &&& errors == fold.2
            &&& exists|perm: Seq<Node>|
                {
                    &&& children_match_inorder(
                        root->Dir_entries@,
                        root->Dir_entries@.len() as int,
                        root_path@,
                        *settings,
                        opt_str_view(home),
                        perm,
                    )
                    &&& node.children().to_multiset() == #[trigger] perm.to_multiset()
                }
        }),
{
    match root {
        RawEntry::Inaccessible { .. } => Err(ScanError::RootUnreadable),
        RawEntry::File { .. } => Err(ScanError::RootNotDirectory),
        RawEntry::Dir { name, entries } => {
            let (children, size, errs) = scan_dir_entries(entries, root_path, settings, home);
            let ghost kept_seq = children@;
            let sorted = sort_desc(children);
            let nm = crate::pathutil::name(root_path);
            proof {
                assert forall|k: int| 0 <= k < sorted@.len() implies well_formed(
                    #[trigger] sorted@[k],
                ) by {
                    broadcast use vstd::seq_lib::group_to_multiset_ensures;
                    broadcast use vstd::multiset::group_multiset_axioms;

                    assert(sorted@.to_multiset().contains(sorted@[k]));
                }
            }
            let node = Node {
                name: nm,
                size,
                bounds: Bounds::zero_at(0, 0),
                kind: NodeKind::Dir(sorted),
            };
            proof {
                assert(children_match_inorder(
                    entries@,
                    entries@.len() as int,
                    root_path@,
                    *settings,
                    opt_str_view(home),
                    kept_seq,
                ));
                assert(node.children().to_multiset() == kept_seq.to_multiset());
            }
            Ok((node, errs))
        },
    }
}

/// Law: in a completed scan every directory's size equals the sum of its
/// children's sizes — and, by `well_formed` holding of every child in
/// turn, this holds recursively at every depth.
pub proof fn lemma_dir_size_is_sum_of_children(n: Node)
    requires
        well_formed(n),
        n.is_dir(),
    ensures
        n.size == sum_sizes(n.children()),
        sorted_desc(n.children()),
        forall|k: int| 0 <= k < n.children().len() ==> well_formed(#[trigger] n.children()[k]),
{
    match n.kind {
        NodeKind::Dir(children) => {
            assert forall|k: int| 0 <= k < n.children().len() implies well_formed(
                #[trigger] n.children()[k],
            ) by {
                assert(n.children() == children@);
                assert(well_formed(children@[k]));
            }
        },
        NodeKind::File => {},
    }
}

/// Law: scanning an empty directory yields size zero, no children and no
/// failures, whatever the path and the filter.
pub proof fn lemma_scan_empty_dir(
    es: Seq<RawEntry>,
    dir_abs: Seq<char>,
    f: Settings,
    home: Option<Seq<char>>,
)
    requires
        es.len() == 0,
    ensures
        scan_fold(es, es.len() as int, dir_abs, f, home).0 =~= Seq::<(
            Seq<char>,
            u64,
            bool,
        )>::empty(),
        scan_fold(es, es.len() as int, dir_abs, f, home).1 == 0,
        scan_fold(es, es.len() as int, dir_abs, f, home).2 == 0,
{
}

/// Law: a file whose physical allocation is smaller than its logical
/// length is sparse and contributes size zero to its parent.
pub proof fn lemma_sparse_file_contributes_zero(
    name: String,
    logical: u64,
    physical: u64,
    dir_abs: Seq<char>,
    f: Settings,
    home: Option<Seq<char>>,
)
    requires
        physical < logical,
    ensures
        scan_size(
            (RawEntry::File { name, logical, physical: Some(physical) }),
            dir_abs,
            f,
            home,
        ) == 0,
{
}

/// What the scanning worker sends the consumer over the channel: progress,
/// a completed tree, a cancellation, or a fatal failure at the root.
pub enum ScanEvent {
    Progress { entries_seen: u64 },
    Completed { root: Node, errors: u64 },
    Cancelled,
    Failed,
}

#[derive(Debug, Clone, Copy, PartialEq, Eq, Structural)]
pub enum ScanStatus {
    Running,
    Completed,
    Cancelled,
    Failed,
}

/// The consumer's side of a scan session: it polls the worker's events
/// without ever blocking, and holds a tree only once the scan completed.
pub struct ScanConsumer {
    pub status: ScanStatus,
    pub result: Option<crate::analysis::AnalysisResult>,
    pub errors: u64,
}

impl ScanConsumer {
    /// A tree is held exactly in the completed state, and is then a
    /// well-formed navigation stack.
    pub open spec fn inv(self) -> bool {
        &&& (self.status is Completed) == (self.result is Some)
        &&& (self.result is Some ==> self.result->0.wf())
    }

    pub fn new() -> (r: ScanConsumer)
        ensures
            r.inv(),
            r.status is Running,
            r.result is None,
            r.errors == 0,
    {
        ScanConsumer { status: ScanStatus::Running, result: None, errors: 0 }
    }

    /// Feed one worker event. Terminal states absorb everything; while
    /// running, a completed tree is taken over, a cancellation or a
    /// failure discards all partial work — a cancelled scan never
    /// delivers a tree.
    pub fn on_event(&mut self, event: ScanEvent, root_path: String)
        requires
            old(self).inv(),
        ensures
            final(self).inv(),
            !(old(self).status is Running) ==> final(self).status == old(self).status
                && final(self).result == old(self).result && final(self).errors == old(
                self,
            ).errors,
            old(self).status is Running && event is Progress ==> final(self).status
                is Running && final(self).result is None,
            old(self).status is Running && event is Cancelled ==> final(self).status
                is Cancelled && final(self).result is None,
            old(self).status is Running && event is Failed ==> final(self).status is Failed
                && final(self).result is None,
            old(self).status is Running && event is Completed && event->Completed_root.is_dir()
                ==> final(self).status is Completed && final(self).result is Some
                && final(self).result->0.data_stack@ == seq![event->Completed_root]
                && final(self).result->0.root_path == root_path
                && final(self).errors == event->Completed_errors,
            old(self).status is Running && event is Completed && !event->Completed_root.is_dir()
                ==> final(self).status is Failed && final(self).result is None,
    {
        let running = matches!(self.status, ScanStatus::Running);
        if !running {
            return;
        }
        match event {
            ScanEvent::Progress { .. } => {},
            ScanEvent::Cancelled => {
                self.status = ScanStatus::Cancelled;
                self.result = None;
            },
            ScanEvent::Failed => {
                self.status = ScanStatus::Failed;
                self.result = None;
            },
            ScanEvent::Completed { root, errors } => {
                let is_dir = matches!(root.kind, NodeKind::Dir(_));
                if is_dir {
                    self.status = ScanStatus::Completed;
                    self.result = Some(crate::analysis::AnalysisResult::new(root_path, root));
                    self.errors = errors;
                } else {
                    self.status = ScanStatus::Failed;
                    self.result = None;
                }
            },
        }
    }
}

} // verus!
