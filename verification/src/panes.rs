//! The panes that show the processes: as a list or as a tree.
use vstd::prelude::*;
use crate::process::{name_of, ProcFiles};
use crate::process_list::{list_of, list_scan, LineModel, ProcessList};
use crate::process_tree::{tree_of, tree_update_panics, NodeModel, ProcessTree};
use crate::table::{SelectableTable, SelectionState};

verus! {

/// A table selection with the first row and first column selected.
pub open spec fn fresh_selection() -> SelectionState {
    SelectionState { selected: Some(0), selected_column: Some(0), offset: 0 }
}

/// The pane of the process list.
#[derive(Debug, Default)]
pub struct ProcessListPane {
    pub process_list: SelectableTable<ProcessList>,
}

impl ProcessListPane {
    /// An empty list, its first row selected.
    pub fn new() -> (r: Self)
        ensures
            r.process_list.items@ == Seq::<LineModel>::empty(),
            r.process_list.state == fresh_selection(),
    {
        ProcessListPane { process_list: SelectableTable::new(ProcessList::new()) }
    }

    /// Refills the list from a snapshot of `/proc`; the selection stays.
    pub fn update(&mut self, toggle_threads: bool, procs: &Option<Vec<ProcFiles>>)
        ensures
            final(self).process_list.items@ == list_of(*procs, toggle_threads),
            final(self).process_list.state == old(self).process_list.state,
    {
        let _ = self.process_list.items.update(toggle_threads, procs);
    }
}

/// The pane of the process tree.
#[derive(Debug, Default)]
pub struct ProcessTreePane {
    pub process_tree: SelectableTable<ProcessTree>,
}

impl ProcessTreePane {
    /// An empty tree, its first row selected.
    pub fn new() -> (r: Self)
        ensures
            r.process_tree.items@ == Seq::<NodeModel>::empty(),
            r.process_tree.state == fresh_selection(),
    {
        ProcessTreePane { process_tree: SelectableTable::new(ProcessTree::new()) }
    }
}

/// The processes, shown as a list or as a tree.
#[derive(Debug)]
pub enum ProcessListOrTree {
    List(ProcessListPane),
    Tree(ProcessTreePane),
}

/// The value of a [`ProcessListOrTree`]: which pane, its rows and selection.
pub enum PanesModel {
    List(Seq<LineModel>, SelectionState),
    Tree(Seq<NodeModel>, SelectionState),
}

impl View for ProcessListOrTree {
    type V = PanesModel;

    open spec fn view(&self) -> PanesModel {
        match self {
            ProcessListOrTree::List(p) => PanesModel::List(
                p.process_list.items@,
                p.process_list.state,
            ),
            ProcessListOrTree::Tree(p) => PanesModel::Tree(
                p.process_tree.items@,
                p.process_tree.state,
            ),
        }
    }
}

impl Default for ProcessListOrTree {
    fn default() -> (r: Self)
        ensures
            r@ == PanesModel::List(Seq::empty(), fresh_selection()),
    {
        ProcessListOrTree::List(ProcessListPane::new())
    }
}

/// What refilling the shown pane from the snapshot `procs` makes of `m`.
pub open spec fn reloaded(m: PanesModel, procs: Option<Vec<ProcFiles>>, toggle_threads: bool) -> PanesModel {
    match m {
        PanesModel::List(_, s) => PanesModel::List(list_of(procs, toggle_threads), s),
        PanesModel::Tree(_, s) => PanesModel::Tree(tree_of(procs, toggle_threads), s),
    }
}

/// Whether refilling the shown pane of `m` from `procs` is fatal: the tree is
/// shown and the snapshot is fatal to `ProcessTree::update`.
pub open spec fn reload_panics(m: PanesModel, procs: Option<Vec<ProcFiles>>, toggle_threads: bool) -> bool {
    m is Tree && tree_update_panics(procs, toggle_threads)
}

impl ProcessListOrTree {
    /// Refills the shown pane from a snapshot of `/proc`.
    pub fn reload(&mut self, toggle_threads: bool, procs: &Option<Vec<ProcFiles>>)
        requires
            !reload_panics(old(self)@, *procs, toggle_threads),
        ensures
            final(self)@ == reloaded(old(self)@, *procs, toggle_threads),
    {
        match self {
            ProcessListOrTree::List(p) => {
                p.update(toggle_threads, procs);
            },
            ProcessListOrTree::Tree(p) => {
                let _ = p.process_tree.items.update(toggle_threads, procs);
            },
        }
    }
}

/// Whether every process of `ps` had its threads listed, at least one each.
pub open spec fn threads_listed(ps: Seq<ProcFiles>) -> bool {
    forall|i: int| 0 <= i < ps.len() ==> ((#[trigger] ps[i]).tasks matches Some(ts) && ts.len() > 0)
}

proof fn lemma_one_line_each(ps: Seq<ProcFiles>)
    requires
        threads_listed(ps),
    ensures
        !list_scan(ps, false).1,
        list_scan(ps, false).0.len() == ps.len(),
        forall|i: int|
            0 <= i < ps.len() ==> #[trigger] list_scan(ps, false).0[i].pid == ps[i].tasks->0@[0].tid
                && list_scan(ps, false).0[i].name == name_of(ps[i].tasks->0@[0].comm)
                && list_scan(ps, false).0[i].rss == 0 && list_scan(ps, false).0[i].pss == 0,
    decreases ps.len(),
{
    if ps.len() > 0 {
        let q = ps.drop_last();
        assert forall|i: int| 0 <= i < q.len() implies ((#[trigger] q[i]).tasks matches Some(ts)
            && ts.len() > 0) by {
            assert(q[i] == ps[i]);
        }
        lemma_one_line_each(q);
        assert(ps.last() == ps[ps.len() - 1]);
        let before = list_scan(q, false).0;
        assert forall|i: int| 0 <= i < ps.len() implies #[trigger] list_scan(ps, false).0[i].pid
            == ps[i].tasks->0@[0].tid && list_scan(ps, false).0[i].name == name_of(
            ps[i].tasks->0@[0].comm,
        ) && list_scan(ps, false).0[i].rss == 0 && list_scan(ps, false).0[i].pss == 0 by {
            if i < ps.len() - 1 {
                assert(q[i] == ps[i]);
                assert(list_scan(ps, false).0[i] == before[i]);
            }
        }
    }
}

/// Law: without threads, refilling the list pane from a snapshot in which
/// every process had its threads listed gives one line per process, in the
/// order of the snapshot: the first listed thread (the process itself) with
/// its name. The pane stays a list and keeps its selection.
pub proof fn law_reload_list_one_line_per_process(m: PanesModel, ps: Vec<ProcFiles>)
    requires
        m is List,
        threads_listed(ps@),
    ensures
        reloaded(m, Some(ps), false) matches PanesModel::List(rows, s) && s == m->List_1
            && rows.len() == ps.len() && forall|i: int|
            0 <= i < ps.len() ==> #[trigger] rows[i].pid == ps@[i].tasks->0@[0].tid && rows[i].name
                == name_of(ps@[i].tasks->0@[0].comm) && rows[i].rss == 0 && rows[i].pss == 0,
{
    lemma_one_line_each(ps@);
}

/// Law: with threads, refilling the list pane from a snapshot of one process
/// gives one line for each of its listed threads, in their order.
pub proof fn law_reload_list_every_thread(m: PanesModel, ps: Vec<ProcFiles>)
    requires
        m is List,
        ps.len() == 1,
        ps@[0].tasks is Some,
    ensures
        ({
            let ts = ps@[0].tasks->0@;
            reloaded(m, Some(ps), true) matches PanesModel::List(rows, s) && s == m->List_1
                && rows.len() == ts.len() && forall|i: int|
                0 <= i < ts.len() ==> #[trigger] rows[i].pid == ts[i].tid && rows[i].name
                    == name_of(ts[i].comm)
        }),
{
    let q = ps@;
    assert(q.drop_last() =~= Seq::<ProcFiles>::empty());
    assert(q.last() == q[0]);
    assert(list_scan(q.drop_last(), true).0 =~= Seq::<LineModel>::empty());
    assert(list_scan(q, true).0 =~= q[0].tasks->0@.map_values(
        |t: crate::process::TaskFiles| crate::process_list::line_of(t),
    ));
}

} // verus!
