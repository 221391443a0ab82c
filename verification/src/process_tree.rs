//! The tree of processes: each thread under the process it belongs to, each
//! other process under its parent.
use vstd::prelude::*;
use vstd::std_specs::hash::group_hash_axioms;
use std::collections::HashMap;
use crate::process::{
    file_get_stat, file_get_tgid, name_of, stat_files_panic, stat_files_would_panic,
    stat_of_files, tgid_of_files, ProcFiles, ProcessType, TaskFiles,
};

verus! {

broadcast use group_hash_axioms;

/// One entry of the tree: a process or a thread.
#[derive(Debug, Default)]
pub struct ProcessData {
    pub pid: u32,
    pub ppid: u32,
    pub tgid: u32,
    pub name: String,
    pub process_type: ProcessType,
}

/// The value of a [`ProcessData`].
pub struct DataModel {
    pub pid: u32,
    pub ppid: u32,
    pub tgid: u32,
    pub name: Seq<char>,
    pub process_type: ProcessType,
}

impl View for ProcessData {
    type V = DataModel;

    open spec fn view(&self) -> DataModel {
        DataModel {
            pid: self.pid,
            ppid: self.ppid,
            tgid: self.tgid,
            name: self.name@,
            process_type: self.process_type,
        }
    }
}

/// A node of the tree: an entry and the positions of its children.
#[derive(Debug, Default)]
pub struct TreeNode {
    pub data: ProcessData,
    pub children: Vec<usize>,
}

/// The value of a [`TreeNode`].
pub struct NodeModel {
    pub data: DataModel,
    pub children: Seq<usize>,
}

impl View for TreeNode {
    type V = NodeModel;

    open spec fn view(&self) -> NodeModel {
        NodeModel { data: self.data@, children: self.children@ }
    }
}

/// The tree of processes, as a list of nodes that refer to their children
/// by position.
#[derive(Debug, Default)]
pub struct ProcessTree(pub Vec<TreeNode>);

/// The value of each node of a tree.
pub open spec fn nodes_view(v: Seq<TreeNode>) -> Seq<NodeModel> {
    v.map_values(|n: TreeNode| n@)
}

impl core::ops::Deref for ProcessTree {
    type Target = Vec<TreeNode>;

    fn deref(&self) -> (r: &Vec<TreeNode>)
        ensures
            *r == self.0,
    {
        &self.0
    }
}

impl View for ProcessTree {
    type V = Seq<NodeModel>;

    open spec fn view(&self) -> Seq<NodeModel> {
        nodes_view(self.0@)
    }
}

/// The entry of a process, from its `stat` record and thread group id.
pub open spec fn own_entry(p: ProcFiles) -> DataModel {
    let st = stat_of_files(p)->0;
    DataModel {
        pid: p.pid,
        ppid: st.ppid,
        tgid: tgid_of_files(p)->0,
        name: st.comm,
        process_type: if st.is_kernel_thread {
            ProcessType::Kernel
        } else {
            ProcessType::Regular
        },
    }
}

/// The entry of thread `t` of the process `p`: the process's parent and
/// thread group, the name of `/proc/<pid>/task/<tid>/comm`.
pub open spec fn thread_entry(p: ProcFiles, t: TaskFiles) -> DataModel {
    DataModel {
        pid: t.tid,
        ppid: stat_of_files(p)->0.ppid,
        tgid: tgid_of_files(p)->0,
        name: name_of(t.task_comm),
        process_type: ProcessType::Thread,
    }
}

/// All threads listed but the first.
pub open spec fn listed_after_first(ts: Seq<TaskFiles>) -> Seq<TaskFiles> {
    if ts.len() == 0 {
        ts
    } else {
        ts.subrange(1, ts.len() as int)
    }
}

/// The entries of one process: its own, then (where threads are shown) one
/// for each thread listed after the first. `None` where its `stat` or
/// `status` gives nothing, or its threads are to be shown and could not be
/// listed.
pub open spec fn entries_of(p: ProcFiles, toggle_threads: bool) -> Option<Seq<DataModel>> {
    if stat_of_files(p) is Some && tgid_of_files(p) is Some {
        if !toggle_threads {
            Some(seq![own_entry(p)])
        } else {
            match p.tasks {
                Some(ts) => Some(
                    seq![own_entry(p)] + listed_after_first(ts@).map_values(
                        |t: TaskFiles| thread_entry(p, t),
                    ),
                ),
                None => None,
            }
        }
    } else {
        None
    }
}

/// The entries of all processes, in order; `None` as soon as one process
/// gives none.
pub open spec fn entries_of_all(ps: Seq<ProcFiles>, toggle_threads: bool) -> Option<
    Seq<DataModel>,
>
    decreases ps.len(),
{
    if ps.len() == 0 {
        Some(Seq::empty())
    } else {
        match (entries_of_all(ps.drop_last(), toggle_threads), entries_of(ps.last(), toggle_threads)) {
            (Some(a), Some(b)) => Some(a + b),
            _ => None,
        }
    }
}

/// Whether gathering the entries reaches (all processes before it gave their
/// entries) a process whose `stat` file would be sliced out of bounds.
pub open spec fn entries_panic(ps: Seq<ProcFiles>, toggle_threads: bool) -> bool {
    exists|i: int|
        0 <= i < ps.len() && entries_of_all(ps.take(i), toggle_threads) is Some
            && #[trigger] stat_files_panic(ps[i])
}

/// Whether the snapshot `procs` is fatal to `ProcessTree::update`: gathering
/// reaches a `stat` file that would be sliced out of bounds.
pub open spec fn tree_update_panics(procs: Option<Vec<ProcFiles>>, toggle_threads: bool) -> bool {
    match procs {
        Some(ps) => entries_panic(ps@, toggle_threads),
        None => false,
    }
}

proof fn lemma_entries_none_stays(ps: Seq<ProcFiles>, toggle_threads: bool, k: int)
    requires
        0 <= k <= ps.len(),
        entries_of_all(ps.take(k), toggle_threads) is None,
    ensures
        entries_of_all(ps, toggle_threads) is None,
    decreases ps.len(),
{
    if k < ps.len() {
        assert(ps.drop_last().take(k) =~= ps.take(k));
        lemma_entries_none_stays(ps.drop_last(), toggle_threads, k);
    } else {
        assert(ps.take(k) =~= ps);
    }
}

/// The entries of the nodes, without their children.
pub open spec fn data_view(v: Seq<TreeNode>) -> Seq<DataModel> {
    v.map_values(|n: TreeNode| n.data@)
}

/// Whether no node has a child yet.
pub open spec fn no_children(v: Seq<TreeNode>) -> bool {
    forall|q: int| 0 <= q < v.len() ==> (#[trigger] v[q]).children@.len() == 0
}

/// Appends to `nodes` the entries of the process `p`, with no children.
fn push_entries_of(nodes: &mut Vec<TreeNode>, p: &ProcFiles, toggle_threads: bool) -> (ok: bool)
    requires
        !stat_files_panic(*p),
        no_children(old(nodes)@),
    ensures
        ok == (entries_of(*p, toggle_threads) is Some),
        ok ==> data_view(final(nodes)@) == data_view(old(nodes)@) + entries_of(
            *p,
            toggle_threads,
        )->0,
        no_children(final(nodes)@),
{
    let st = match &p.stat {
        Some(b) => file_get_stat(b.as_slice()),
        None => None,
    };
    let st = match st {
        Some(s) => s,
        None => return false,
    };
    let tgid = match &p.status {
        Some(b) => file_get_tgid(b.as_slice()),
        None => None,
    };
    let tgid = match tgid {
        Some(t) => t,
        None => return false,
    };
    if toggle_threads && p.tasks.is_none() {
        return false;
    }
    let ppid = st.ppid;
    let process_type = if st.is_kernel_thread {
        ProcessType::Kernel
    } else {
        ProcessType::Regular
    };
    let own = TreeNode {
        data: ProcessData { pid: p.pid, ppid, tgid, name: st.comm, process_type },
        children: Vec::new(),
    };
    let ghost before = nodes@;
    nodes.push(own);
    assert(data_view(nodes@) =~= data_view(before) + seq![own_entry(*p)]);
    if !toggle_threads {
        return true;
    }
    let ts = match &p.tasks {
        Some(ts) => ts,
        None => return false,
    };
    let ghost e = listed_after_first(ts@).map_values(|t: TaskFiles| thread_entry(*p, t));
    let mut k: usize = 1;
    while k < ts.len()
        invariant
            1 <= k,
            ts.len() > 0 ==> k <= ts.len(),
            ts.len() == 0 ==> k == 1,
            p.tasks == Some(*ts),
            e == listed_after_first(ts@).map_values(|t: TaskFiles| thread_entry(*p, t)),
            stat_of_files(*p) is Some,
            tgid_of_files(*p) == Some(tgid),
            ppid == stat_of_files(*p)->0.ppid,
            data_view(nodes@) == data_view(before) + seq![own_entry(*p)] + e.take(k - 1),
            no_children(nodes@),
        decreases ts.len() - k,
    {
        let t = &ts[k];
        let name = match &t.task_comm {
            Some(s) => s.clone(),
            None => String::new(),
        };
        let node = TreeNode {
            data: ProcessData { pid: t.tid, ppid, tgid, name, process_type: ProcessType::Thread },
            children: Vec::new(),
        };
        let ghost mid = nodes@;
        nodes.push(node);
        assert(e[k - 1] == thread_entry(*p, ts@[k as int]));
        assert(e.take(k as int) =~= e.take(k - 1).push(e[k - 1]));
        assert(data_view(nodes@) =~= data_view(mid).push(node.data@));
        k = k + 1;
    }
    proof {
        if ts.len() > 0 {
            assert(listed_after_first(ts@).len() == ts.len() - 1);
            assert(e.len() == ts.len() - 1);
            assert(k == ts.len());
            assert(e.take(k - 1) =~= e);
        } else {
            assert(listed_after_first(ts@).len() == 0);
            assert(e.len() == 0);
            assert(k == 1);
            assert(e.take(k - 1) =~= e);
        }
    }
    true
}

/// The position of the last entry with PID `pid` (the one that a map from PID
/// to position, filled in order, keeps).
pub open spec fn last_index_of(ds: Seq<DataModel>, pid: u32) -> Option<int>
    decreases ds.len(),
{
    if ds.len() == 0 {
        None
    } else if ds.last().pid == pid {
        Some(ds.len() - 1)
    } else {
        last_index_of(ds.drop_last(), pid)
    }
}

/// Whose child an entry is: a thread (PID not its thread group id) the
/// child of its thread group leader, any other entry the child of its
/// parent.
pub open spec fn parent_key(d: DataModel) -> u32 {
    if d.pid != d.tgid {
        d.tgid
    } else {
        d.ppid
    }
}

/// The position of the parent of entry `i`, if that is listed.
pub open spec fn parent_of(ds: Seq<DataModel>, i: int) -> Option<int> {
    last_index_of(ds, parent_key(ds[i]))
}

/// The positions among the first `k` entries whose parent is at `p`, in
/// increasing order.
pub open spec fn children_upto(ds: Seq<DataModel>, p: int, k: nat) -> Seq<usize>
    decreases k,
{
    if k == 0 {
        Seq::empty()
    } else {
        let before = children_upto(ds, p, (k - 1) as nat);
        if parent_of(ds, k - 1) == Some(p) {
            before.push((k - 1) as usize)
        } else {
            before
        }
    }
}

/// The tree of the entries `ds`: the same entries in the same order, each
/// with the positions of its children.
pub open spec fn build_tree(ds: Seq<DataModel>) -> Seq<NodeModel> {
    Seq::new(ds.len(), |i: int| NodeModel { data: ds[i], children: children_upto(ds, i, ds.len()) })
}

/// What `ProcessTree::update` leaves in the tree for the snapshot `procs`.
pub open spec fn tree_of(procs: Option<Vec<ProcFiles>>, toggle_threads: bool) -> Seq<NodeModel> {
    match procs {
        Some(ps) => match entries_of_all(ps@, toggle_threads) {
            Some(es) => build_tree(es),
            None => Seq::empty(),
        },
        None => Seq::empty(),
    }
}

proof fn lemma_last_index_of(ds: Seq<DataModel>, pid: u32)
    ensures
        last_index_of(ds, pid) matches Some(j) ==> 0 <= j < ds.len() && ds[j].pid == pid,
        last_index_of(ds, pid) is None ==> forall|j: int| 0 <= j < ds.len() ==> ds[j].pid != pid,
    decreases ds.len(),
{
    if ds.len() > 0 {
        lemma_last_index_of(ds.drop_last(), pid);
        assert forall|j: int| 0 <= j < ds.len() - 1 implies ds[j] == ds.drop_last()[j] by {}
    }
}

/// Sets the children of every node: for each node in order, its position is
/// appended to the children of the last node whose PID is its parent key.
fn link_children(nodes: &mut Vec<TreeNode>)
    requires
        no_children(old(nodes)@),
    ensures
        nodes_view(final(nodes)@) == build_tree(data_view(old(nodes)@)),
{
    let ghost ds = data_view(nodes@);
    let n = nodes.len();
    let mut pid_to_idx: HashMap<u32, usize> = HashMap::new();
    let mut i: usize = 0;
    while i < n
        invariant
            n == nodes.len(),
            i <= n,
            ds == data_view(nodes@),
            no_children(nodes@),
            forall|k: u32|
                #![trigger pid_to_idx@.contains_key(k)]
                pid_to_idx@.contains_key(k) == (last_index_of(ds.take(i as int), k) is Some),
            forall|k: u32|
                #![trigger pid_to_idx@[k]]
                pid_to_idx@.contains_key(k) ==> pid_to_idx@[k] as int == last_index_of(
                    ds.take(i as int),
                    k,
                )->0,
        decreases n - i,
    {
        let pid = nodes[i].data.pid;
        assert(ds.take(i + 1).drop_last() =~= ds.take(i as int));
        assert(ds.take(i + 1).last() == ds[i as int]);
        pid_to_idx.insert(pid, i);
        i = i + 1;
    }
    assert(ds.take(n as int) =~= ds);
    i = 0;
    while i < n
        invariant
            n == nodes.len(),
            i <= n,
            ds == data_view(nodes@),
            forall|k: u32|
                #![trigger pid_to_idx@.contains_key(k)]
                pid_to_idx@.contains_key(k) == (last_index_of(ds, k) is Some),
            forall|k: u32|
                #![trigger pid_to_idx@[k]]
                pid_to_idx@.contains_key(k) ==> pid_to_idx@[k] as int == last_index_of(ds, k)->0,
            forall|q: int|
                #![trigger nodes@[q]]
                0 <= q < n ==> nodes@[q].children@ == children_upto(ds, q, i as nat),
        decreases n - i,
    {
        let key = if nodes[i].data.pid != nodes[i].data.tgid {
            nodes[i].data.tgid
        } else {
            nodes[i].data.ppid
        };
        assert(key == parent_key(ds[i as int]));
        proof {
            lemma_last_index_of(ds, key);
        }
        let ghost before = nodes@;
        match pid_to_idx.get(&key) {
            Some(pp) => {
                let p = *pp;
                nodes[p].children.push(i);
                assert forall|q: int| 0 <= q < n implies #[trigger] nodes@[q].children@
                    == children_upto(ds, q, (i + 1) as nat) by {
                    if q != p {
                        assert(nodes@[q] == before[q]);
                    }
                }
                assert(data_view(nodes@) =~= data_view(before));
            },
            None => {},
        }
        i = i + 1;
    }
    assert(nodes_view(nodes@) =~= build_tree(ds));
}

proof fn lemma_no_panic_after_stop(ps: Seq<ProcFiles>, toggle_threads: bool, i: int)
    requires
        0 <= i < ps.len(),
        forall|j: int|
            #![trigger ps[j]]
            0 <= j < i ==> !(entries_of_all(ps.take(j), toggle_threads) is Some && stat_files_panic(
                ps[j],
            )),
        !stat_files_panic(ps[i]),
        entries_of_all(ps.take(i + 1), toggle_threads) is None,
    ensures
        !entries_panic(ps, toggle_threads),
        entries_of_all(ps, toggle_threads) is None,
{
    lemma_entries_none_stays(ps, toggle_threads, i + 1);
    assert forall|j: int| 0 <= j < ps.len() implies !(entries_of_all(ps.take(j), toggle_threads) is Some
        && #[trigger] stat_files_panic(ps[j])) by {
        if j > i {
            assert(ps.take(j).take(i + 1) =~= ps.take(i + 1));
            lemma_entries_none_stays(ps.take(j), toggle_threads, i + 1);
        }
    }
}

proof fn lemma_children_upto(ds: Seq<DataModel>, p: int, k: nat)
    requires
        k <= ds.len(),
        ds.len() <= usize::MAX,
    ensures
        forall|j: int|
            #![trigger children_upto(ds, p, k)[j]]
            0 <= j < children_upto(ds, p, k).len() ==> children_upto(ds, p, k)[j] < k
                && parent_of(ds, children_upto(ds, p, k)[j] as int) == Some(p),
        forall|a: int, b: int|
            0 <= a < b < children_upto(ds, p, k).len() ==> children_upto(ds, p, k)[a]
                < children_upto(ds, p, k)[b],
        forall|c: int|
            0 <= c < k && parent_of(ds, c) == Some(p) ==> children_upto(ds, p, k).contains(
                c as usize,
            ),
    decreases k,
{
    if k > 0 {
        lemma_children_upto(ds, p, (k - 1) as nat);
        let before = children_upto(ds, p, (k - 1) as nat);
        if parent_of(ds, k - 1) == Some(p) {
            let after = before.push((k - 1) as usize);
            assert(after[after.len() - 1] == (k - 1) as usize);
            assert forall|c: int| 0 <= c < k && parent_of(ds, c) == Some(p) implies after.contains(
                c as usize,
            ) by {
                if c < k - 1 {
                    let w = choose|w: int| 0 <= w < before.len() && before[w] == c as usize;
                    assert(after[w] == c as usize);
                } else {
                    assert(after[after.len() - 1] == c as usize);
                }
            }
        }
    }
}

/// Law: in the tree of entries `ds`, entry `i` is a child of node `p`
/// exactly when `p` is the last entry whose PID is `i`'s parent key (its
/// thread group id if it is a thread, else its parent's PID).
pub proof fn law_child_iff_parent(ds: Seq<DataModel>, p: int, i: int)
    requires
        ds.len() <= usize::MAX,
        0 <= p < ds.len(),
        0 <= i < ds.len(),
    ensures
        build_tree(ds)[p].children.contains(i as usize) <==> parent_of(ds, i) == Some(p),
{
    lemma_children_upto(ds, p, ds.len());
    let ch = children_upto(ds, p, ds.len());
    if ch.contains(i as usize) {
        let w = choose|w: int| 0 <= w < ch.len() && ch[w] == i as usize;
        assert(parent_of(ds, ch[w] as int) == Some(p));
    }
}

/// Law: every entry of the tree of `ds` is a child of at most one node.
pub proof fn law_single_parent(ds: Seq<DataModel>, p: int, q: int, i: int)
    requires
        ds.len() <= usize::MAX,
        0 <= p < ds.len(),
        0 <= q < ds.len(),
        0 <= i < ds.len(),
        build_tree(ds)[p].children.contains(i as usize),
        build_tree(ds)[q].children.contains(i as usize),
    ensures
        p == q,
{
    law_child_iff_parent(ds, p, i);
    law_child_iff_parent(ds, q, i);
}

/// Law: the children of every node of the tree of `ds` are positions of
/// entries, in strictly increasing order.
pub proof fn law_children_ordered(ds: Seq<DataModel>, p: int)
    requires
        ds.len() <= usize::MAX,
        0 <= p < ds.len(),
    ensures
        forall|j: int|
            0 <= j < build_tree(ds)[p].children.len() ==> #[trigger] build_tree(ds)[p].children[j]
                < ds.len(),
        forall|a: int, b: int|
            0 <= a < b < build_tree(ds)[p].children.len() ==> build_tree(ds)[p].children[a]
                < build_tree(ds)[p].children[b],
{
    lemma_children_upto(ds, p, ds.len());
    assert(build_tree(ds)[p].children == children_upto(ds, p, ds.len()));
    assert forall|j: int| 0 <= j < build_tree(ds)[p].children.len() implies #[trigger] build_tree(
        ds,
    )[p].children[j] < ds.len() by {
        assert(children_upto(ds, p, ds.len())[j] < ds.len());
    }
}

/// Law: a thread whose thread group leader is listed is a child of (the
/// last listed entry with) the leader's PID; a process whose parent is
/// listed is a child of its parent.
pub proof fn law_listed_under_leader_or_parent(ds: Seq<DataModel>, i: int, j: int)
    requires
        ds.len() <= usize::MAX,
        0 <= i < ds.len(),
        0 <= j < ds.len(),
        ds[j].pid == parent_key(ds[i]),
    ensures
        last_index_of(ds, parent_key(ds[i])) is Some,
        build_tree(ds)[last_index_of(ds, parent_key(ds[i]))->0].children.contains(i as usize),
{
    lemma_last_index_of(ds, parent_key(ds[i]));
    let p = last_index_of(ds, parent_key(ds[i]))->0;
    law_child_iff_parent(ds, p, i);
}

/// Law: `ProcessTree::update` forgets what the tree held. Whatever two trees
/// held before, once each is updated from the same snapshot with the same
/// `toggle_threads` they hold the same nodes; so updating a tree a second
/// time from the snapshot it was built from leaves it as it was. Here `a`
/// and `b` are what `update` left in the two trees (its `ensures`), and the
/// snapshot is one that `update` may be called on, for either tree alike.
pub proof fn law_update_ignores_prior(
    procs: Option<Vec<ProcFiles>>,
    toggle_threads: bool,
    a: Seq<NodeModel>,
    b: Seq<NodeModel>,
)
    requires
        !tree_update_panics(procs, toggle_threads),
        a == tree_of(procs, toggle_threads),
        b == tree_of(procs, toggle_threads),
    ensures
        a == b,
        a.len() == b.len(),
        forall|i: int| 0 <= i < a.len() ==> #[trigger] a[i] == b[i],
{
}

/// Decides `tree_update_panics`: whether `ProcessTree::update` may not be
/// called on the snapshot `procs` (a caller fails there instead).
pub fn tree_update_would_panic(procs: &Option<Vec<ProcFiles>>, toggle_threads: bool) -> (r: bool)
    ensures
        r == tree_update_panics(*procs, toggle_threads),
{
    let ps = match procs {
        Some(ps) => ps,
        None => return false,
    };
    let mut nodes: Vec<TreeNode> = Vec::new();
    let mut i: usize = 0;
    assert(ps@.take(0) =~= Seq::<ProcFiles>::empty());
    while i < ps.len()
        invariant
            *procs == Some(*ps),
            i <= ps.len(),
            entries_of_all(ps@.take(i as int), toggle_threads) == Some(data_view(nodes@)),
            no_children(nodes@),
            forall|j: int|
                #![trigger ps@[j]]
                0 <= j < i ==> !(entries_of_all(ps@.take(j), toggle_threads) is Some
                    && stat_files_panic(ps@[j])),
        decreases ps.len() - i,
    {
        assert(ps@.take(i + 1).drop_last() =~= ps@.take(i as int));
        assert(ps@.take(i + 1).last() == ps@[i as int]);
        if stat_files_would_panic(&ps[i]) {
            assert(entries_of_all(ps@.take(i as int), toggle_threads) is Some && stat_files_panic(
                ps@[i as int],
            ));
            return true;
        }
        if !push_entries_of(&mut nodes, &ps[i], toggle_threads) {
            proof {
                lemma_no_panic_after_stop(ps@, toggle_threads, i as int);
            }
            return false;
        }
        i = i + 1;
    }
    assert(ps@.take(i as int) =~= ps@);
    assert(!entries_panic(ps@, toggle_threads));
    false
}

impl ProcessTree {
    /// An empty tree.
    pub fn new() -> (r: Self)
        ensures
            r@ == Seq::<NodeModel>::empty(),
    {
        ProcessTree(Vec::new())
    }

    /// Rebuilds the tree from a snapshot of `/proc` (`None` where `/proc`
    /// could not be listed). The tree is emptied first; if some process gives
    /// no entries it stays empty. Always answers `None`.
    pub fn update(&mut self, toggle_threads: bool, procs: &Option<Vec<ProcFiles>>) -> (r: Option<()>)
        requires
            !tree_update_panics(*procs, toggle_threads),
        ensures
            r is None,
            final(self)@ == tree_of(*procs, toggle_threads),
    {
        self.0.clear();
        let ps = match procs {
            Some(ps) => ps,
            None => {
                assert(self@ =~= Seq::<NodeModel>::empty());
                return None;
            },
        };
        let mut nodes: Vec<TreeNode> = Vec::new();
        let mut i: usize = 0;
        assert(ps@.take(0) =~= Seq::<ProcFiles>::empty());
        while i < ps.len()
            invariant
                *procs == Some(*ps),
                i <= ps.len(),
                !tree_update_panics(*procs, toggle_threads),
                self.0@.len() == 0,
                entries_of_all(ps@.take(i as int), toggle_threads) == Some(data_view(nodes@)),
                no_children(nodes@),
            decreases ps.len() - i,
        {
            assert(!(entries_of_all(ps@.take(i as int), toggle_threads) is Some && stat_files_panic(
                ps@[i as int],
            )));
            assert(ps@.take(i + 1).drop_last() =~= ps@.take(i as int));
            assert(ps@.take(i + 1).last() == ps@[i as int]);
            let ghost before = nodes@;
            if !push_entries_of(&mut nodes, &ps[i], toggle_threads) {
                proof {
                    lemma_entries_none_stays(ps@, toggle_threads, i + 1);
                }
                assert(self@ =~= Seq::<NodeModel>::empty());
                return None;
            }
            i = i + 1;
        }
        assert(ps@.take(i as int) =~= ps@);
        link_children(&mut nodes);
        self.0 = nodes;
        None
    }
}

} // verus!
