//! The flat list of processes (or of all their threads).
use vstd::prelude::*;
use crate::process::{name_of, ProcFiles, TaskFiles};

verus! {

/// One line of the process list.
#[derive(Debug, Default)]
pub struct ProcessInfoLine {
    pub pid: u32,
    pub name: String,
    pub pss: u64,
    pub rss: u64,
}

/// The value of a [`ProcessInfoLine`].
pub struct LineModel {
    pub pid: u32,
    pub name: Seq<char>,
    pub pss: u64,
    pub rss: u64,
}

impl View for ProcessInfoLine {
    type V = LineModel;

    open spec fn view(&self) -> LineModel {
        LineModel { pid: self.pid, name: self.name@, pss: self.pss, rss: self.rss }
    }
}

/// The list of processes.
#[derive(Debug, Default)]
pub struct ProcessList(pub Vec<ProcessInfoLine>);

/// The value of each line of a list.
pub open spec fn lines_view(v: Seq<ProcessInfoLine>) -> Seq<LineModel> {
    v.map_values(|l: ProcessInfoLine| l@)
}

impl core::ops::Deref for ProcessList {
    type Target = Vec<ProcessInfoLine>;

    fn deref(&self) -> (r: &Vec<ProcessInfoLine>)
        ensures
            *r == self.0,
    {
        &self.0
    }
}

impl View for ProcessList {
    type V = Seq<LineModel>;

    open spec fn view(&self) -> Seq<LineModel> {
        lines_view(self.0@)
    }
}

/// The line of a thread: its id and the name of `/proc/<tid>/comm`, sizes 0.
pub open spec fn line_of(t: TaskFiles) -> LineModel {
    LineModel { pid: t.tid, name: name_of(t.comm), pss: 0, rss: 0 }
}

/// The lines of one process: a line for each listed thread where threads are
/// shown, else one for the first listed thread only. `None` where its
/// threads could not be listed.
pub open spec fn lines_of(p: ProcFiles, toggle_threads: bool) -> Option<Seq<LineModel>> {
    match p.tasks {
        Some(ts) => Some(
            if toggle_threads {
                ts@.map_values(|t: TaskFiles| line_of(t))
            } else if ts.len() > 0 {
                seq![line_of(ts@[0])]
            } else {
                Seq::empty()
            },
        ),
        None => None,
    }
}

/// The lines of the processes `ps` in order, and whether the listing stopped
/// at a process whose threads could not be listed (the lines before it stay).
pub open spec fn list_scan(ps: Seq<ProcFiles>, toggle_threads: bool) -> (Seq<LineModel>, bool)
    decreases ps.len(),
{
    if ps.len() == 0 {
        (Seq::empty(), false)
    } else {
        let (before, stopped) = list_scan(ps.drop_last(), toggle_threads);
        if stopped {
            (before, true)
        } else {
            match lines_of(ps.last(), toggle_threads) {
                Some(l) => (before + l, false),
                None => (before, true),
            }
        }
    }
}

/// What `ProcessList::update` leaves in the list for the snapshot `procs`.
pub open spec fn list_of(procs: Option<Vec<ProcFiles>>, toggle_threads: bool) -> Seq<LineModel> {
    match procs {
        Some(ps) => list_scan(ps@, toggle_threads).0,
        None => Seq::empty(),
    }
}

proof fn lemma_stopped_stays(ps: Seq<ProcFiles>, toggle_threads: bool, k: int)
    requires
        0 <= k <= ps.len(),
        list_scan(ps.take(k), toggle_threads).1,
    ensures
        list_scan(ps, toggle_threads) == list_scan(ps.take(k), toggle_threads),
    decreases ps.len(),
{
    if k < ps.len() {
        assert(ps.drop_last().take(k) =~= ps.take(k));
        lemma_stopped_stays(ps.drop_last(), toggle_threads, k);
    } else {
        assert(ps.take(k) =~= ps);
    }
}

/// Law: `ProcessList::update` forgets what the list held. Whatever two lists
/// held before, once each is updated from the same snapshot with the same
/// `toggle_threads` they hold the same lines; so updating a list a second
/// time from the snapshot it was built from leaves it as it was. Here `a`
/// and `b` are what `update` left in the two lists (its `ensures`).
pub proof fn law_list_update_ignores_prior(
    procs: Option<Vec<ProcFiles>>,
    toggle_threads: bool,
    a: Seq<LineModel>,
    b: Seq<LineModel>,
)
    requires
        a == list_of(procs, toggle_threads),
        b == list_of(procs, toggle_threads),
    ensures
        a == b,
{
}

impl ProcessList {
    /// An empty list.
    pub fn new() -> (r: Self)
        ensures
            r@ == Seq::<LineModel>::empty(),
    {
        ProcessList(Vec::new())
    }

    /// Refills the list from a snapshot of `/proc` (`None` where `/proc` could
    /// not be listed). The list is emptied first; the processes are taken in
    /// order until one whose threads could not be listed. Always answers
    /// `None`.
    pub fn update(&mut self, toggle_threads: bool, procs: &Option<Vec<ProcFiles>>) -> (r: Option<()>)
        ensures
            r is None,
            final(self)@ == list_of(*procs, toggle_threads),
    {
        self.build_process_list(toggle_threads, procs)
    }

    fn build_process_list(&mut self, toggle_threads: bool, procs: &Option<Vec<ProcFiles>>) -> (r:
        Option<()>)
        ensures
            r is None,
            final(self)@ == list_of(*procs, toggle_threads),
    {
        self.0.clear();
        let ps = match procs {
            Some(ps) => ps,
            None => {
                assert(self@ =~= Seq::<LineModel>::empty());
                return None;
            },
        };
        let mut i: usize = 0;
        assert(ps@.take(0) =~= Seq::<ProcFiles>::empty());
        assert(self@ =~= Seq::<LineModel>::empty());
        while i < ps.len()
            invariant
                *procs == Some(*ps),
                i <= ps.len(),
                list_scan(ps@.take(i as int), toggle_threads) == (self@, false),
            decreases ps.len() - i,
        {
            assert(ps@.take(i + 1).drop_last() =~= ps@.take(i as int));
            assert(ps@.take(i + 1).last() == ps@[i as int]);
            let ts = match &ps[i].tasks {
                Some(ts) => ts,
                None => {
                    proof {
                        lemma_stopped_stays(ps@, toggle_threads, i + 1);
                    }
                    return None;
                },
            };
            let ghost start = self@;
            assert(ps@[i as int].tasks == Some(*ts));
            let ghost all = lines_of(ps@[i as int], toggle_threads)->0;
            if toggle_threads {
                assert(all == ts@.map_values(|t: TaskFiles| line_of(t)));
                let mut k: usize = 0;
                while k < ts.len()
                    invariant
                        all == ts@.map_values(|t: TaskFiles| line_of(t)),
                        k <= ts.len(),
                        self@ == start + all.take(k as int),
                    decreases ts.len() - k,
                {
                    let t = &ts[k];
                    let name = match &t.comm {
                        Some(s) => s.clone(),
                        None => String::new(),
                    };
                    let line = ProcessInfoLine { pid: t.tid, name, pss: 0, rss: 0 };
                    let ghost before = self@;
                    self.0.push(line);
                    assert(self@ =~= before.push(line_of(ts@[k as int])));
                    assert(all[k as int] == line_of(ts@[k as int]));
                    assert(all.take(k + 1) =~= all.take(k as int).push(all[k as int]));
                    k = k + 1;
                }
                assert(all.take(k as int) =~= all);
            } else if ts.len() > 0 {
                let t = &ts[0];
                let name = match &t.comm {
                    Some(s) => s.clone(),
                    None => String::new(),
                };
                let line = ProcessInfoLine { pid: t.tid, name, pss: 0, rss: 0 };
                self.0.push(line);
                assert(all =~= seq![line_of(ts@[0])]);
                assert(self@ =~= start + all);
            } else {
                assert(all =~= Seq::<LineModel>::empty());
                assert(self@ =~= start + all);
            }
            i = i + 1;
        }
        assert(ps@.take(i as int) =~= ps@);
        None
    }
}

} // verus!
