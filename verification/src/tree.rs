//! The process-tree builder: turns one snapshot plus a freshly
//! enumerated process listing into a rooted hierarchy.
//!
//! Construction is a worklist recursion: a pool of candidate pids (the
//! listed pids that are in the snapshot, deduplicated) is threaded
//! through the build; a node claims from the pool every pid whose
//! recorded parent pid is its own, removes them, and builds each child
//! from what is left. A pid is therefore attached at most once, cycles
//! among orphans are never entered, and orphans whose parents are
//! unreachable stay out. The recursion carries a fuel bound of one more
//! than the pool's size, which the pool consumption can never exhaust.

use vstd::prelude::*;

use crate::system::{
    find_index, lemma_lookup_key, models, spec_model_index, ProcModel, Process, System,
};

verus! {

/// A node of the hierarchy: one sampled process and its children, in
/// claim order.
pub struct ProcessTreeNode {
    pub proc_info: Process,
    pub children: Vec<ProcessTreeNode>,
}

/// A whole hierarchy: the synthetic root holding every reachable node.
pub struct ProcessTree {
    pub root: ProcessTreeNode,
}

/// The mathematical value of a [`ProcessTreeNode`].
pub ghost struct NodeModel {
    pub proc: ProcModel,
    pub children: Seq<NodeModel>,
}

/// The models of a sequence of sibling nodes, in order.
pub open spec fn forest_models(s: Seq<ProcessTreeNode>) -> Seq<NodeModel>
    decreases s,
{
    if s.len() == 0 {
        Seq::empty()
    } else {
        seq![node_model(s[0])] + forest_models(s.drop_first())
    }
}

/// The mathematical value of a node.
pub open spec fn node_model(n: ProcessTreeNode) -> NodeModel
    decreases n,
{
    NodeModel { proc: n.proc_info.model(), children: forest_models(n.children@) }
}

impl ProcessTreeNode {
    /// A childless node for the given process record.
    pub fn new(proc_info: &Process) -> (r: ProcessTreeNode)
        ensures
            node_model(r) == (NodeModel { proc: proc_info.model(), children: Seq::<
                NodeModel,
            >::empty() }),
    {
        let r = ProcessTreeNode { proc_info: proc_info.duplicate(), children: Vec::new() };
        proof {
            assert(forest_models(r.children@) =~= Seq::<NodeModel>::empty());
        }
        r
    }
}

/// The recorded parent pid of `q` in the snapshot; 0 where `q` is not
/// in the snapshot (such a pid never becomes a candidate).
pub open spec fn spec_ppid_of(procs: Seq<ProcModel>, q: u32) -> u32 {
    match spec_model_index(procs, q, 0) {
        Some(j) => procs[j].ppid,
        None => 0,
    }
}

/// The snapshot record of `q`; a zeroed placeholder carrying `q` where
/// the snapshot has none (candidates always have one).
pub open spec fn spec_proc_of(procs: Seq<ProcModel>, q: u32) -> ProcModel {
    match spec_model_index(procs, q, 0) {
        Some(j) => procs[j],
        None => ProcModel {
            pid: q,
            name: Seq::empty(),
            cpu_used: 0,
            mem_used: 0,
            path: Seq::empty(),
            user: Seq::empty(),
            ppid: 0,
        },
    }
}

fn ppid_of(procs: &Vec<Process>, q: u32) -> (r: u32)
    ensures
        r == spec_ppid_of(models(procs@), q),
{
    proof {
        lemma_lookup_key(models(procs@), q, 0);
    }
    match find_index(procs, q, 0) {
        Some(j) => procs[j].ppid,
        None => 0,
    }
}

fn proc_of(procs: &Vec<Process>, q: u32) -> (r: Process)
    ensures
        r.model() == spec_proc_of(models(procs@), q),
{
    proof {
        lemma_lookup_key(models(procs@), q, 0);
    }
    match find_index(procs, q, 0) {
        Some(j) => {
            proof {
                assert(models(procs@)[j as int] == procs@[j as int].model());
            }
            procs[j].duplicate()
        },
        None => {
            let r = Process {
                pid: q,
                name: Vec::new(),
                cpu_used: 0,
                mem_used: 0,
                path: Vec::new(),
                user: Vec::new(),
                ppid: 0,
            };
            proof {
                assert(r.name@ =~= Seq::<u8>::empty());
                assert(r.path@ =~= Seq::<u8>::empty());
                assert(r.user@ =~= Seq::<u8>::empty());
            }
            r
        },
    }
}

/// Splits a candidate pool: the pids whose recorded parent is `pid`
/// (in pool order) and the remaining pool (in pool order).
pub open spec fn spec_extract(avail: Seq<u32>, procs: Seq<ProcModel>, pid: u32) -> (
    Seq<u32>,
    Seq<u32>,
)
    decreases avail.len(),
{
    if avail.len() == 0 {
        (Seq::empty(), Seq::empty())
    } else {
        let rec = spec_extract(avail.drop_first(), procs, pid);
        if spec_ppid_of(procs, avail[0]) == pid {
            (seq![avail[0]] + rec.0, rec.1)
        } else {
            (rec.0, seq![avail[0]] + rec.1)
        }
    }
}

fn extract_from(avail: &Vec<u32>, k: usize, procs: &Vec<Process>, pid: u32) -> (r: (
    Vec<u32>,
    Vec<u32>,
))
    requires
        k <= avail@.len(),
    ensures
        r.0@ == spec_extract(avail@.skip(k as int), models(procs@), pid).0,
        r.1@ == spec_extract(avail@.skip(k as int), models(procs@), pid).1,
    decreases avail@.len() - k,
{
    if k >= avail.len() {
        let v0: Vec<u32> = Vec::new();
        let v1: Vec<u32> = Vec::new();
        proof {
            assert(avail@.skip(k as int) =~= Seq::<u32>::empty());
            assert(v0@ =~= Seq::<u32>::empty());
            assert(v1@ =~= Seq::<u32>::empty());
        }
        (v0, v1)
    } else {
        let (mut m, mut rst) = extract_from(avail, k + 1, procs, pid);
        let q = avail[k];
        proof {
            assert(avail@.skip(k as int).drop_first() =~= avail@.skip(k as int + 1));
            assert(avail@.skip(k as int)[0] == avail@[k as int]);
        }
        if ppid_of(procs, q) == pid {
            let ghost mprev = m@;
            m.insert(0, q);
            proof {
                assert(m@ =~= seq![q] + mprev);
            }
            (m, rst)
        } else {
            let ghost rprev = rst@;
            rst.insert(0, q);
            proof {
                assert(rst@ =~= seq![q] + rprev);
            }
            (m, rst)
        }
    }
}

/// The node built for the process `p` from the pool `avail`: its
/// children are the pool pids whose recorded parent is `p`'s pid, each
/// child built in turn from the pool that is left. The second component
/// is the pool left over. `fuel` bounds the recursion depth; the
/// builders always pass one more than the pool size, which cannot run
/// out, so the bound never cuts a tree short.
pub open spec fn spec_build_node(
    p: ProcModel,
    procs: Seq<ProcModel>,
    avail: Seq<u32>,
    fuel: nat,
) -> (NodeModel, Seq<u32>)
    decreases fuel, 0nat, 0nat,
{
    if fuel == 0 {
        (NodeModel { proc: p, children: Seq::empty() }, avail)
    } else {
        let mr = spec_extract(avail, procs, p.pid);
        let fr = spec_build_forest(mr.0, procs, mr.1, (fuel - 1) as nat);
        (NodeModel { proc: p, children: fr.0 }, fr.1)
    }
}

/// The sibling nodes built for the pids of `pids`, threading the pool
/// through from left to right; the second component is the pool left
/// over.
pub open spec fn spec_build_forest(
    pids: Seq<u32>,
    procs: Seq<ProcModel>,
    avail: Seq<u32>,
    fuel: nat,
) -> (Seq<NodeModel>, Seq<u32>)
    decreases fuel, 1nat, pids.len(),
{
    if pids.len() == 0 {
        (Seq::empty(), avail)
    } else {
        let n0 = spec_build_node(spec_proc_of(procs, pids[0]), procs, avail, fuel);
        let rest = spec_build_forest(pids.drop_first(), procs, n0.1, fuel);
        (seq![n0.0] + rest.0, rest.1)
    }
}

fn build_node(p: Process, procs: &Vec<Process>, avail: Vec<u32>, fuel: usize) -> (r: (
    ProcessTreeNode,
    Vec<u32>,
))
    ensures
        node_model(r.0) == spec_build_node(p.model(), models(procs@), avail@, fuel as nat).0,
        r.1@ == spec_build_node(p.model(), models(procs@), avail@, fuel as nat).1,
    decreases fuel, 0int, 0int,
{
    if fuel == 0 {
        let node = ProcessTreeNode { proc_info: p, children: Vec::new() };
        proof {
            assert(forest_models(node.children@) =~= Seq::<NodeModel>::empty());
        }
        (node, avail)
    } else {
        let pid = p.get_pid();
        let (mine, rest) = extract_from(&avail, 0, procs, pid);
        proof {
            assert(avail@.skip(0) =~= avail@);
        }
        let (kids, rest2) = build_forest(&mine, 0, procs, rest, fuel - 1);
        proof {
            assert(mine@.skip(0) =~= mine@);
        }
        let node = ProcessTreeNode { proc_info: p, children: kids };
        (node, rest2)
    }
}

fn build_forest(
    pids: &Vec<u32>,
    k: usize,
    procs: &Vec<Process>,
    avail: Vec<u32>,
    fuel: usize,
) -> (r: (Vec<ProcessTreeNode>, Vec<u32>))
    requires
        k <= pids@.len(),
    ensures
        forest_models(r.0@) == spec_build_forest(
            pids@.skip(k as int),
            models(procs@),
            avail@,
            fuel as nat,
        ).0,
        r.1@ == spec_build_forest(pids@.skip(k as int), models(procs@), avail@, fuel as nat).1,
    decreases fuel, 1int, pids@.len() - k,
{
    if k >= pids.len() {
        let v: Vec<ProcessTreeNode> = Vec::new();
        proof {
            assert(pids@.skip(k as int) =~= Seq::<u32>::empty());
            assert(forest_models(v@) =~= Seq::<NodeModel>::empty());
        }
        (v, avail)
    } else {
        let p = proc_of(procs, pids[k]);
        let (n0, a1) = build_node(p, procs, avail, fuel);
        let (mut ns, a2) = build_forest(pids, k + 1, procs, a1, fuel);
        let ghost nsprev = ns@;
        ns.insert(0, n0);
        proof {
            assert(pids@.skip(k as int).drop_first() =~= pids@.skip(k as int + 1));
            assert(pids@.skip(k as int)[0] == pids@[k as int]);
            assert(ns@ =~= seq![n0] + nsprev);
            assert(ns@.drop_first() =~= nsprev);
            assert(forest_models(ns@) =~= seq![node_model(n0)] + forest_models(nsprev));
        }
        (ns, a2)
    }
}

/// The candidate pool drawn from a process listing: the listed pids
/// that are in the snapshot, each at most once, without the synthetic
/// root's pid 0, in listing order; `acc` holds what is drawn so far.
pub open spec fn spec_candidates_from(
    live: Seq<u32>,
    i: int,
    acc: Seq<u32>,
    procs: Seq<ProcModel>,
) -> Seq<u32>
    decreases live.len() - i,
{
    if i < 0 || i >= live.len() {
        acc
    } else {
        let q = live[i];
        if q != 0 && spec_model_index(procs, q, 0) is Some && !acc.contains(q) {
            spec_candidates_from(live, i + 1, acc.push(q), procs)
        } else {
            spec_candidates_from(live, i + 1, acc, procs)
        }
    }
}

/// The candidate pool for a listing, from an empty start.
pub open spec fn spec_candidates(live: Seq<u32>, procs: Seq<ProcModel>) -> Seq<u32> {
    spec_candidates_from(live, 0, Seq::empty(), procs)
}

fn contains_u32(v: &Vec<u32>, x: u32) -> (r: bool)
    ensures
        r == v@.contains(x),
{
    let mut i: usize = 0;
    while i < v.len()
        invariant
            i <= v@.len(),
            forall|k: int| 0 <= k < i ==> v@[k] != x,
        decreases v@.len() - i,
    {
        if v[i] == x {
            return true;
        }
        i += 1;
    }
    false
}

fn candidates(live: &Vec<u32>, procs: &Vec<Process>) -> (r: Vec<u32>)
    ensures
        r@ == spec_candidates(live@, models(procs@)),
        r@.len() <= live@.len(),
    decreases live@.len(),
{
    let mut acc: Vec<u32> = Vec::new();
    proof {
        assert(acc@ =~= Seq::<u32>::empty());
    }
    let mut i: usize = 0;
    while i < live.len()
        invariant
            i <= live@.len(),
            acc@.len() <= i,
            spec_candidates(live@, models(procs@)) == spec_candidates_from(
                live@,
                i as int,
                acc@,
                models(procs@),
            ),
        decreases live@.len() - i,
    {
        let q = live[i];
        let present = match find_index(procs, q, 0) {
            Some(_) => true,
            None => false,
        };
        if q != 0 && present && !contains_u32(&acc, q) {
            acc.push(q);
        }
        i += 1;
    }
    acc
}

/// The synthetic root's placeholder name.
pub open spec fn root_name() -> Seq<u8> {
    seq![
        83u8, 121u8, 115u8, 116u8, 101u8, 109u8, 32u8, 72u8, 105u8, 101u8, 114u8, 97u8, 114u8,
        99u8, 104u8, 121u8,
    ]
}

/// The synthetic root's record: pid 0, a placeholder name, no real
/// process behind it.
pub open spec fn root_model() -> ProcModel {
    ProcModel {
        pid: 0,
        name: root_name(),
        cpu_used: 0,
        mem_used: 0,
        path: Seq::empty(),
        user: Seq::empty(),
        ppid: 0,
    }
}

fn root_process() -> (r: Process)
    ensures
        r.model() == root_model(),
{
    let mut name: Vec<u8> = Vec::new();
    name.push(83);
    name.push(121);
    name.push(115);
    name.push(116);
    name.push(101);
    name.push(109);
    name.push(32);
    name.push(72);
    name.push(105);
    name.push(101);
    name.push(114);
    name.push(97);
    name.push(114);
    name.push(99);
    name.push(104);
    name.push(121);
    let r = Process {
        pid: 0,
        name,
        cpu_used: 0,
        mem_used: 0,
        path: Vec::new(),
        user: Vec::new(),
        ppid: 0,
    };
    proof {
        assert(r.name@ =~= root_name());
        assert(r.path@ =~= Seq::<u8>::empty());
        assert(r.user@ =~= Seq::<u8>::empty());
    }
    r
}

/// The tree built for a snapshot and a listing: the synthetic root,
/// with the whole candidate pool offered and fuel that cannot run out.
pub open spec fn spec_build_tree(procs: Seq<ProcModel>, live: Seq<u32>) -> NodeModel {
    let cands = spec_candidates(live, procs);
    spec_build_node(root_model(), procs, cands, (cands.len() + 1) as nat).0
}

/// Builds the process hierarchy for the snapshot held by `system`.
/// `live_pids` is a freshly enumerated process listing; only pids that
/// are both listed and present in the snapshot become nodes, each under
/// the node carrying its recorded parent pid, rooted at the synthetic
/// pid 0. Orphans whose recorded parent is absent or unreachable are
/// left out.
pub fn build_process_tree(system: &System, live_pids: &Vec<u32>) -> (t: ProcessTree)
    requires
        live_pids@.len() < usize::MAX,
    ensures
        node_model(t.root) == spec_build_tree(models(system.procs@), live_pids@),
{
    let cands = candidates(live_pids, &system.procs);
    let fuel = cands.len() + 1;
    let root = root_process();
    let (node, _leftover) = build_node(root, &system.procs, cands, fuel);
    ProcessTree { root: node }
}

/// Every pid in a node's subtree: the node's own pid, then its
/// descendants', depth-first.
pub open spec fn tree_pids(n: NodeModel) -> Seq<u32>
    decreases n,
{
    seq![n.proc.pid] + forest_pids(n.children)
}

/// Every pid in a forest, left to right.
pub open spec fn forest_pids(s: Seq<NodeModel>) -> Seq<u32>
    decreases s,
{
    if s.len() == 0 {
        Seq::empty()
    } else {
        tree_pids(s[0]) + forest_pids(s.drop_first())
    }
}

/// Whether every child link points back: each child's record carries
/// its parent node's pid, recursively.
pub open spec fn parent_linked(n: NodeModel) -> bool
    decreases n,
{
    forall|i: int|
        0 <= i < n.children.len() ==> ((#[trigger] n.children[i]).proc.ppid == n.proc.pid
            && parent_linked(n.children[i]))
}

proof fn lemma_concat_contains(a: Seq<u32>, b: Seq<u32>)
    ensures
        forall|x: u32| #[trigger] (a + b).contains(x) <==> (a.contains(x) || b.contains(x)),
{
    assert forall|x: u32| #[trigger] (a + b).contains(x) <==> (a.contains(x) || b.contains(
        x,
    )) by {
        if (a + b).contains(x) {
            let i = choose|i: int| 0 <= i < (a + b).len() && (a + b)[i] == x;
            if i < a.len() {
                assert(a[i] == x);
            } else {
                assert(b[i - a.len()] == x);
            }
        }
        if a.contains(x) {
            let i = choose|i: int| 0 <= i < a.len() && a[i] == x;
            assert((a + b)[i] == x);
        }
        if b.contains(x) {
            let i = choose|i: int| 0 <= i < b.len() && b[i] == x;
            assert((a + b)[a.len() + i] == x);
        }
    }
}

proof fn lemma_concat_no_dup(a: Seq<u32>, b: Seq<u32>)
    requires
        a.no_duplicates(),
        b.no_duplicates(),
        forall|x: u32| !(#[trigger] a.contains(x) && b.contains(x)),
    ensures
        (a + b).no_duplicates(),
{
    assert forall|i: int, j: int|
        0 <= i < j < (a + b).len() implies (a + b)[i] != (a + b)[j] by {
        if i < a.len() && j >= a.len() {
            if (a + b)[i] == (a + b)[j] {
                assert(a.contains(a[i]));
                assert(b.contains(b[j - a.len()]));
            }
        }
    }
}

/// The claimed pids all carry the claiming parent's pid.
proof fn lemma_extract_ppid(avail: Seq<u32>, procs: Seq<ProcModel>, pid: u32)
    ensures
        forall|k: int|
            0 <= k < spec_extract(avail, procs, pid).0.len() ==> spec_ppid_of(
                procs,
                #[trigger] spec_extract(avail, procs, pid).0[k],
            ) == pid,
    decreases avail.len(),
{
    if avail.len() > 0 {
        lemma_extract_ppid(avail.drop_first(), procs, pid);
        let m0 = spec_extract(avail.drop_first(), procs, pid).0;
        if spec_ppid_of(procs, avail[0]) == pid {
            let m = seq![avail[0]] + m0;
            assert forall|k: int|
                0 <= k < m.len() implies spec_ppid_of(procs, #[trigger] m[k]) == pid by {
                if k > 0 {
                    assert(m[k] == m0[k - 1]);
                }
            }
        }
    }
}

/// What the split preserves: each part's pids come from the pool; with
/// a duplicate-free pool the parts are duplicate-free and disjoint.
proof fn lemma_extract_sets(avail: Seq<u32>, procs: Seq<ProcModel>, pid: u32)
    ensures
        forall|x: u32|
            #[trigger] spec_extract(avail, procs, pid).0.contains(x) ==> avail.contains(x),
        forall|x: u32|
            #[trigger] spec_extract(avail, procs, pid).1.contains(x) ==> avail.contains(x),
        avail.no_duplicates() ==> spec_extract(avail, procs, pid).0.no_duplicates(),
        avail.no_duplicates() ==> spec_extract(avail, procs, pid).1.no_duplicates(),
        avail.no_duplicates() ==> forall|x: u32|
            !(#[trigger] spec_extract(avail, procs, pid).0.contains(x) && spec_extract(
                avail,
                procs,
                pid,
            ).1.contains(x)),
    decreases avail.len(),
{
    if avail.len() > 0 {
        let tail = avail.drop_first();
        let q = avail[0];
        lemma_extract_sets(tail, procs, pid);
        let m0 = spec_extract(tail, procs, pid).0;
        let r0 = spec_extract(tail, procs, pid).1;
        assert(forall|x: u32| #[trigger] tail.contains(x) ==> avail.contains(x)) by {
            assert forall|x: u32| #[trigger] tail.contains(x) implies avail.contains(x) by {
                let i = choose|i: int| 0 <= i < tail.len() && tail[i] == x;
                assert(avail[i + 1] == x);
            }
        }
        if avail.no_duplicates() {
            assert(tail.no_duplicates()) by {
                assert forall|i: int, j: int|
                    0 <= i < j < tail.len() implies tail[i] != tail[j] by {
                    assert(tail[i] == avail[i + 1]);
                    assert(tail[j] == avail[j + 1]);
                }
            }
            assert(!tail.contains(q)) by {
                if tail.contains(q) {
                    let i = choose|i: int| 0 <= i < tail.len() && tail[i] == q;
                    assert(avail[i + 1] == avail[0]);
                }
            }
        }
        lemma_concat_contains(seq![q], m0);
        lemma_concat_contains(seq![q], r0);
        assert(seq![q].contains(q)) by {
            assert(seq![q][0] == q);
        }
        assert(forall|x: u32| #[trigger] seq![q].contains(x) ==> x == q);
        assert(avail.contains(q)) by {
            assert(avail[0] == q);
        }
        if avail.no_duplicates() {
            if spec_ppid_of(procs, q) == pid {
                lemma_concat_no_dup(seq![q], m0);
            } else {
                lemma_concat_no_dup(seq![q], r0);
            }
        }
    }
}

/// Parent links in a built node: its children carry its pid, and are
/// linked in turn.
proof fn lemma_build_node_linked(p: ProcModel, procs: Seq<ProcModel>, avail: Seq<u32>, fuel: nat)
    ensures
        parent_linked(spec_build_node(p, procs, avail, fuel).0),
        spec_build_node(p, procs, avail, fuel).0.proc == p,
    decreases fuel, 0nat, 0nat,
{
    if fuel != 0 {
        let mr = spec_extract(avail, procs, p.pid);
        lemma_extract_ppid(avail, procs, p.pid);
        lemma_build_forest_linked(mr.0, procs, mr.1, (fuel - 1) as nat, p.pid);
        let fr = spec_build_forest(mr.0, procs, mr.1, (fuel - 1) as nat);
        let br = spec_build_node(p, procs, avail, fuel);
        assert(br.0.children == fr.0);
        assert forall|i: int|
            0 <= i < br.0.children.len() implies ((#[trigger] br.0.children[i]).proc.ppid
            == br.0.proc.pid && parent_linked(br.0.children[i])) by {
            assert(br.0.children[i] == fr.0[i]);
        }
        assert(parent_linked(br.0));
    }
}

proof fn lemma_build_forest_linked(
    pids: Seq<u32>,
    procs: Seq<ProcModel>,
    avail: Seq<u32>,
    fuel: nat,
    parent: u32,
)
    requires
        forall|k: int|
            0 <= k < pids.len() ==> spec_ppid_of(procs, #[trigger] pids[k]) == parent,
    ensures
        ({
            let fr = spec_build_forest(pids, procs, avail, fuel);
            forall|j: int|
                0 <= j < fr.0.len() ==> ((#[trigger] fr.0[j]).proc.ppid == parent
                    && parent_linked(fr.0[j]))
        }),
    decreases fuel, 1nat, pids.len(),
{
    if pids.len() > 0 {
        let q = pids[0];
        let pm = spec_proc_of(procs, q);
        assert(pm.ppid == spec_ppid_of(procs, q));
        lemma_build_node_linked(pm, procs, avail, fuel);
        let n0 = spec_build_node(pm, procs, avail, fuel);
        assert forall|k: int|
            0 <= k < pids.drop_first().len() implies spec_ppid_of(
            procs,
            #[trigger] pids.drop_first()[k],
        ) == parent by {
            assert(pids.drop_first()[k] == pids[k + 1]);
        }
        lemma_build_forest_linked(pids.drop_first(), procs, n0.1, fuel, parent);
        let rest = spec_build_forest(pids.drop_first(), procs, n0.1, fuel);
        let fr = spec_build_forest(pids, procs, avail, fuel);
        assert forall|j: int|
            0 <= j < fr.0.len() implies ((#[trigger] fr.0[j]).proc.ppid == parent
            && parent_linked(fr.0[j])) by {
            if j == 0 {
                assert(fr.0[0] == n0.0);
            } else {
                assert(fr.0[j] == rest.0[j - 1]);
            }
        }
    }
}

/// Pid accounting of a built node: given a duplicate-free pool that
/// does not hold the builder's own pid, the subtree's pids are
/// duplicate-free, drawn from the builder's pid and the pool, and
/// disjoint from the pool left over, itself duplicate-free and drawn
/// from the pool.
proof fn lemma_build_node_pids(p: ProcModel, procs: Seq<ProcModel>, avail: Seq<u32>, fuel: nat)
    requires
        avail.no_duplicates(),
        !avail.contains(p.pid),
    ensures
        ({
            let br = spec_build_node(p, procs, avail, fuel);
            &&& tree_pids(br.0).no_duplicates()
            &&& br.1.no_duplicates()
            &&& forall|x: u32| #[trigger] br.1.contains(x) ==> avail.contains(x)
            &&& forall|x: u32|
                #[trigger] tree_pids(br.0).contains(x) ==> (x == p.pid || avail.contains(x))
            &&& forall|x: u32| !(#[trigger] tree_pids(br.0).contains(x) && br.1.contains(x))
        }),
    decreases fuel, 0nat, 0nat,
{
    let br = spec_build_node(p, procs, avail, fuel);
    if fuel == 0 {
        assert(forest_pids(br.0.children) =~= Seq::<u32>::empty());
        assert(tree_pids(br.0) =~= seq![p.pid]);
        assert forall|x: u32| #[trigger] tree_pids(br.0).contains(x) implies x == p.pid by {
            let i = choose|i: int| 0 <= i < tree_pids(br.0).len() && tree_pids(br.0)[i] == x;
        }
        assert(tree_pids(br.0).no_duplicates());
    } else {
        let mr = spec_extract(avail, procs, p.pid);
        lemma_extract_sets(avail, procs, p.pid);
        assert(!mr.0.contains(p.pid));
        assert(!mr.1.contains(p.pid));
        lemma_build_forest_pids(mr.0, procs, mr.1, (fuel - 1) as nat);
        let fr = spec_build_forest(mr.0, procs, mr.1, (fuel - 1) as nat);
        lemma_concat_contains(seq![p.pid], forest_pids(fr.0));
        assert(seq![p.pid].contains(p.pid)) by {
            assert(seq![p.pid][0] == p.pid);
        }
        assert(forall|x: u32| #[trigger] seq![p.pid].contains(x) ==> x == p.pid);
        assert(seq![p.pid].no_duplicates());
        assert(!forest_pids(fr.0).contains(p.pid));
        lemma_concat_no_dup(seq![p.pid], forest_pids(fr.0));
        assert(tree_pids(br.0) == seq![p.pid] + forest_pids(fr.0));
    }
}

/// Pid accounting of a built forest, threading the pool left to right:
/// with sibling pids and pool duplicate-free and disjoint, the forest's
/// pids are duplicate-free, drawn from the siblings and the pool, and
/// disjoint from the pool left over.
proof fn lemma_build_forest_pids(pids: Seq<u32>, procs: Seq<ProcModel>, avail: Seq<u32>, fuel: nat)
    requires
        pids.no_duplicates(),
        avail.no_duplicates(),
        forall|x: u32| !(#[trigger] pids.contains(x) && avail.contains(x)),
    ensures
        ({
            let fr = spec_build_forest(pids, procs, avail, fuel);
            &&& forest_pids(fr.0).no_duplicates()
            &&& fr.1.no_duplicates()
            &&& forall|x: u32| #[trigger] fr.1.contains(x) ==> avail.contains(x)
            &&& forall|x: u32|
                #[trigger] forest_pids(fr.0).contains(x) ==> (pids.contains(x)
                    || avail.contains(x))
            &&& forall|x: u32| !(#[trigger] forest_pids(fr.0).contains(x) && fr.1.contains(x))
        }),
    decreases fuel, 1nat, pids.len(),
{
    if pids.len() > 0 {
        let q = pids[0];
        let pm = spec_proc_of(procs, q);
        lemma_lookup_key(procs, q, 0);
        assert(pm.pid == q);
        assert(pids.contains(q)) by {
            assert(pids[0] == q);
        }
        lemma_build_node_pids(pm, procs, avail, fuel);
        let n0 = spec_build_node(pm, procs, avail, fuel);
        let tail = pids.drop_first();
        assert(tail.no_duplicates()) by {
            assert forall|i: int, j: int|
                0 <= i < j < tail.len() implies tail[i] != tail[j] by {
                assert(tail[i] == pids[i + 1]);
                assert(tail[j] == pids[j + 1]);
            }
        }
        assert(forall|x: u32| #[trigger] tail.contains(x) ==> pids.contains(x)) by {
            assert forall|x: u32| #[trigger] tail.contains(x) implies pids.contains(x) by {
                let i = choose|i: int| 0 <= i < tail.len() && tail[i] == x;
                assert(pids[i + 1] == x);
            }
        }
        assert(!tail.contains(q)) by {
            if tail.contains(q) {
                let i = choose|i: int| 0 <= i < tail.len() && tail[i] == q;
                assert(pids[i + 1] == pids[0]);
            }
        }
        lemma_build_forest_pids(tail, procs, n0.1, fuel);
        let rest = spec_build_forest(tail, procs, n0.1, fuel);
        let fr = spec_build_forest(pids, procs, avail, fuel);
        assert(forest_pids(fr.0) == tree_pids(n0.0) + forest_pids(rest.0)) by {
            assert(fr.0 == seq![n0.0] + rest.0);
            assert((seq![n0.0] + rest.0)[0] == n0.0);
            assert((seq![n0.0] + rest.0).drop_first() =~= rest.0);
        }
        lemma_concat_contains(tree_pids(n0.0), forest_pids(rest.0));
        assert forall|x: u32|
            !(#[trigger] tree_pids(n0.0).contains(x) && forest_pids(rest.0).contains(x)) by {
            if tree_pids(n0.0).contains(x) && forest_pids(rest.0).contains(x) {
                if n0.1.contains(x) {
                } else {
                    assert(tail.contains(x));
                    assert(x == q || avail.contains(x));
                }
            }
        }
        lemma_concat_no_dup(tree_pids(n0.0), forest_pids(rest.0));
    }
}

/// The candidate pool is duplicate-free and never offers the synthetic
/// root's pid 0.
proof fn lemma_candidates_wf(live: Seq<u32>, i: int, acc: Seq<u32>, procs: Seq<ProcModel>)
    requires
        acc.no_duplicates(),
        !acc.contains(0u32),
    ensures
        spec_candidates_from(live, i, acc, procs).no_duplicates(),
        !spec_candidates_from(live, i, acc, procs).contains(0u32),
    decreases live.len() - i,
{
    if 0 <= i && i < live.len() {
        let q = live[i];
        if q != 0 && spec_model_index(procs, q, 0) is Some && !acc.contains(q) {
            let acc2 = acc.push(q);
            assert(acc2.no_duplicates()) by {
                assert forall|a: int, b: int|
                    0 <= a < b < acc2.len() implies acc2[a] != acc2[b] by {
                    if b == acc.len() {
                        if acc2[a] == acc2[b] {
                            assert(acc.contains(acc[a]));
                        }
                    }
                }
            }
            assert(!acc2.contains(0u32)) by {
                if acc2.contains(0u32) {
                    let j = choose|j: int| 0 <= j < acc2.len() && acc2[j] == 0u32;
                    if j < acc.len() {
                        assert(acc.contains(acc[j]));
                    }
                }
            }
            lemma_candidates_wf(live, i + 1, acc2, procs);
        } else {
            lemma_candidates_wf(live, i + 1, acc, procs);
        }
    }
}

/// Law: tree construction is a pure function of the snapshot and the
/// listing — two trees built from the same inputs have the same model,
/// nodes and edges alike (the builders claim children in pool order, so
/// even the sibling order agrees).
pub proof fn lemma_tree_deterministic(
    t1: ProcessTree,
    t2: ProcessTree,
    procs: Seq<ProcModel>,
    live: Seq<u32>,
)
    requires
        node_model(t1.root) == spec_build_tree(procs, live),
        node_model(t2.root) == spec_build_tree(procs, live),
    ensures
        node_model(t1.root) == node_model(t2.root),
{
}

/// Law: in a built tree every node's children carry that node's pid as
/// their recorded parent pid, down to the leaves (the synthetic root's
/// own pid being 0, its direct children are exactly the pids recorded
/// as parented by 0).
pub proof fn lemma_tree_parent_linked(procs: Seq<ProcModel>, live: Seq<u32>)
    ensures
        parent_linked(spec_build_tree(procs, live)),
{
    let cands = spec_candidates(live, procs);
    lemma_build_node_linked(root_model(), procs, cands, (cands.len() + 1) as nat);
}

/// Law: no pid appears twice in a built tree, the synthetic root
/// included.
pub proof fn lemma_tree_no_duplicate_pids(procs: Seq<ProcModel>, live: Seq<u32>)
    ensures
        tree_pids(spec_build_tree(procs, live)).no_duplicates(),
{
    let cands = spec_candidates(live, procs);
    assert(Seq::<u32>::empty().no_duplicates());
    assert(!Seq::<u32>::empty().contains(0u32));
    lemma_candidates_wf(live, 0, Seq::empty(), procs);
    lemma_build_node_pids(root_model(), procs, cands, (cands.len() + 1) as nat);
}

} // verus!
