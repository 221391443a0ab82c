//! The decisions of the event loop: what a key press does to the state of
//! the interface, what a fresh snapshot does, and when to redraw. Reading
//! keys, reading `/proc` and drawing are done by the caller.
use vstd::prelude::*;
use crate::panes::{
    fresh_selection, reload_panics, reloaded, PanesModel, ProcessListOrTree, ProcessListPane,
    ProcessTreePane,
};
use crate::process::ProcFiles;
use crate::process_list::{LineModel, ProcessList};
use crate::process_tree::{NodeModel, ProcessTree};
use crate::table::{next_index, previous_index, select_spec, SelectionState};
use crate::tabs::{next_tab, previous_tab, TabsPane};

verus! {

/// A key press, as far as the interface tells keys apart.
#[derive(Debug, Clone, Copy, PartialEq, Eq, Structural)]
pub enum Key {
    Char(char),
    Up,
    Down,
    Esc,
    Other,
}

/// What the caller has to do after a key press.
#[derive(Debug, Clone, Copy, PartialEq, Eq, Structural)]
pub enum KeyAction {
    /// Nothing more.
    Continue,
    /// Read `/proc` and hand the snapshot to `reload_processes` (the list is
    /// now shown).
    ReloadList,
    /// Read `/proc` and hand the snapshot to `reload_processes` (the tree is
    /// now shown).
    ReloadTree,
}

/// The state of the interface.
#[derive(Debug)]
pub struct AppState {
    pub tabs: TabsPane,
    pub processes: ProcessListOrTree,
    /// Whether the system usage pane is shown.
    pub show_system_usage: bool,
    /// Whether the threads of each process are listed.
    pub toggle_threads: bool,
    /// The time between two snapshots, in milliseconds.
    pub update_period_ms: u64,
    pub should_quit: bool,
    pub needs_redraw: bool,
}

/// The value of an [`AppState`].
pub struct AppModel {
    pub tabs: TabsPane,
    pub processes: PanesModel,
    pub show_system_usage: bool,
    pub toggle_threads: bool,
    pub update_period_ms: u64,
    pub should_quit: bool,
    pub needs_redraw: bool,
}

impl View for AppState {
    type V = AppModel;

    open spec fn view(&self) -> AppModel {
        AppModel {
            tabs: self.tabs,
            processes: self.processes@,
            show_system_usage: self.show_system_usage,
            toggle_threads: self.toggle_threads,
            update_period_ms: self.update_period_ms,
            should_quit: self.should_quit,
            needs_redraw: self.needs_redraw,
        }
    }
}

/// The shortest update period, in milliseconds.
pub const MIN_UPDATE_PERIOD_MS: u64 = 100;

/// The longest update period, in milliseconds.
pub const MAX_UPDATE_PERIOD_MS: u64 = 5000;

/// How much `+` and `-` change the update period, in milliseconds.
pub const UPDATE_PERIOD_STEP_MS: u64 = 100;

/// The shown pane after moving its selection down one row.
pub open spec fn move_down(m: PanesModel) -> PanesModel {
    match m {
        PanesModel::List(rows, s) => PanesModel::List(
            rows,
            select_spec(s, Some(next_index(s.selected, 1, rows.len() as usize))),
        ),
        PanesModel::Tree(rows, s) => PanesModel::Tree(
            rows,
            select_spec(s, Some(next_index(s.selected, 1, rows.len() as usize))),
        ),
    }
}

/// The shown pane after moving its selection up one row.
pub open spec fn move_up(m: PanesModel) -> PanesModel {
    match m {
        PanesModel::List(rows, s) => PanesModel::List(
            rows,
            select_spec(s, Some(previous_index(s.selected, 1, rows.len() as usize))),
        ),
        PanesModel::Tree(rows, s) => PanesModel::Tree(
            rows,
            select_spec(s, Some(previous_index(s.selected, 1, rows.len() as usize))),
        ),
    }
}

/// What a key press does: `+` and `-` lengthen and shorten the update period
/// by 100 ms within [100, 5000]; `1` shows or hides the system usage pane;
/// `c` switches between an empty list and an empty tree (to be reloaded);
/// `j`/down and `k`/up move the selection; `d` and `a` select the next and
/// previous tab; `q`/escape quit. A key that changes what is shown asks for
/// a redraw; any other key does nothing.
pub open spec fn key_step(m: AppModel, key: Key) -> (AppModel, KeyAction) {
    match key {
        Key::Char(c) => if c == '+' {
            (
                AppModel {
                    update_period_ms: if m.update_period_ms + 100 <= 5000 {
                        (m.update_period_ms + 100) as u64
                    } else {
                        5000
                    },
                    ..m
                },
                KeyAction::Continue,
            )
        } else if c == '-' {
            (
                AppModel {
                    update_period_ms: if m.update_period_ms >= 200 {
                        (m.update_period_ms - 100) as u64
                    } else {
                        100
                    },
                    ..m
                },
                KeyAction::Continue,
            )
        } else if c == '1' {
            (
                AppModel { show_system_usage: !m.show_system_usage, needs_redraw: true, ..m },
                KeyAction::Continue,
            )
        } else if c == 'c' {
            match m.processes {
                PanesModel::List(..) => (
                    AppModel {
                        processes: PanesModel::Tree(Seq::empty(), fresh_selection()),
                        needs_redraw: true,
                        ..m
                    },
                    KeyAction::ReloadTree,
                ),
                PanesModel::Tree(..) => (
                    AppModel {
                        processes: PanesModel::List(Seq::empty(), fresh_selection()),
                        needs_redraw: true,
                        ..m
                    },
                    KeyAction::ReloadList,
                ),
            }
        } else if c == 'j' {
            (
                AppModel { processes: move_down(m.processes), needs_redraw: true, ..m },
                KeyAction::Continue,
            )
        } else if c == 'k' {
            (
                AppModel { processes: move_up(m.processes), needs_redraw: true, ..m },
                KeyAction::Continue,
            )
        } else if c == 'd' {
            (
                AppModel {
                    tabs: TabsPane { selected_tab: next_tab(m.tabs.selected_tab, 2), ..m.tabs },
                    needs_redraw: true,
                    ..m
                },
                KeyAction::Continue,
            )
        } else if c == 'a' {
            (
                AppModel {
                    tabs: TabsPane { selected_tab: previous_tab(m.tabs.selected_tab, 2), ..m.tabs },
                    needs_redraw: true,
                    ..m
                },
                KeyAction::Continue,
            )
        } else if c == 'q' {
            (AppModel { should_quit: true, ..m }, KeyAction::Continue)
        } else {
            (m, KeyAction::Continue)
        },
        Key::Down => (
            AppModel { processes: move_down(m.processes), needs_redraw: true, ..m },
            KeyAction::Continue,
        ),
        Key::Up => (
            AppModel { processes: move_up(m.processes), needs_redraw: true, ..m },
            KeyAction::Continue,
        ),
        Key::Esc => (AppModel { should_quit: true, ..m }, KeyAction::Continue),
        Key::Other => (m, KeyAction::Continue),
    }
}

/// Whether a key press would overflow: `+` on a period whose sum with 100
/// does not fit, or `d` on the largest tab index. Such a press is fatal.
pub open spec fn key_panics(m: AppModel, key: Key) -> bool {
    ||| key == Key::Char('+') && m.update_period_ms + 100 > u64::MAX
    ||| key == Key::Char('d') && m.tabs.selected_tab == usize::MAX
}

impl AppState {
    /// The state at start: the list shown with its first row selected, the
    /// first tab, the system usage pane shown, threads not listed, a period
    /// of 500 ms, a redraw due.
    pub fn new() -> (r: Self)
        ensures
            r@ == (AppModel {
                tabs: TabsPane { titles: ["Process List", "Process"], selected_tab: 0 },
                processes: PanesModel::List(Seq::empty(), fresh_selection()),
                show_system_usage: true,
                toggle_threads: false,
                update_period_ms: 500,
                should_quit: false,
                needs_redraw: true,
            }),
    {
        AppState {
            tabs: TabsPane { titles: ["Process List", "Process"], selected_tab: 0 },
            processes: ProcessListOrTree::List(ProcessListPane::new()),
            show_system_usage: true,
            toggle_threads: false,
            update_period_ms: 500,
            should_quit: false,
            needs_redraw: true,
        }
    }

    fn move_selection(&mut self, down: bool)
        ensures
            final(self)@ == (AppModel {
                processes: if down {
                    move_down(old(self)@.processes)
                } else {
                    move_up(old(self)@.processes)
                },
                needs_redraw: true,
                ..old(self)@
            }),
    {
        match &mut self.processes {
            ProcessListOrTree::List(p) => {
                if down {
                    p.process_list.select_next(1);
                } else {
                    p.process_list.select_previous(1);
                }
            },
            ProcessListOrTree::Tree(p) => {
                if down {
                    p.process_tree.select_next(1);
                } else {
                    p.process_tree.select_previous(1);
                }
            },
        }
        self.needs_redraw = true;
    }

    /// Applies a key press (see `key_step`).
    pub fn handle_key(&mut self, key: Key) -> (r: KeyAction)
        requires
            !key_panics(old(self)@, key),
        ensures
            (final(self)@, r) == key_step(old(self)@, key),
    {
        match key {
            Key::Char(c) => {
                if c == '+' {
                    let current = self.update_period_ms;
                    let next = current + UPDATE_PERIOD_STEP_MS;
                    self.update_period_ms = if next <= MAX_UPDATE_PERIOD_MS {
                        next
                    } else {
                        MAX_UPDATE_PERIOD_MS
                    };
                    KeyAction::Continue
                } else if c == '-' {
                    let current = self.update_period_ms;
                    let next = current.saturating_sub(UPDATE_PERIOD_STEP_MS);
                    self.update_period_ms = if next >= MIN_UPDATE_PERIOD_MS {
                        next
                    } else {
                        MIN_UPDATE_PERIOD_MS
                    };
                    KeyAction::Continue
                } else if c == '1' {
                    self.show_system_usage = !self.show_system_usage;
                    self.needs_redraw = true;
                    KeyAction::Continue
                } else if c == 'c' {
                    let action = match self.processes {
                        ProcessListOrTree::List(_) => {
                            self.processes = ProcessListOrTree::Tree(ProcessTreePane::new());
                            KeyAction::ReloadTree
                        },
                        ProcessListOrTree::Tree(_) => {
                            self.processes = ProcessListOrTree::List(ProcessListPane::new());
                            KeyAction::ReloadList
                        },
                    };
                    self.needs_redraw = true;
                    action
                } else if c == 'j' {
                    self.move_selection(true);
                    KeyAction::Continue
                } else if c == 'k' {
                    self.move_selection(false);
                    KeyAction::Continue
                } else if c == 'd' {
                    self.tabs.next();
                    self.needs_redraw = true;
                    KeyAction::Continue
                } else if c == 'a' {
                    self.tabs.previous();
                    self.needs_redraw = true;
                    KeyAction::Continue
                } else if c == 'q' {
                    self.should_quit = true;
                    KeyAction::Continue
                } else {
                    KeyAction::Continue
                }
            },
            Key::Down => {
                self.move_selection(true);
                KeyAction::Continue
            },
            Key::Up => {
                self.move_selection(false);
                KeyAction::Continue
            },
            Key::Esc => {
                self.should_quit = true;
                KeyAction::Continue
            },
            Key::Other => KeyAction::Continue,
        }
    }

    /// Refills the shown pane from a snapshot of `/proc` (after a key asked
    /// for it).
    pub fn reload_processes(&mut self, procs: &Option<Vec<ProcFiles>>)
        requires
            !reload_panics(old(self)@.processes, *procs, old(self)@.toggle_threads),
        ensures
            final(self)@ == (AppModel {
                processes: reloaded(old(self)@.processes, *procs, old(self)@.toggle_threads),
                ..old(self)@
            }),
    {
        let toggle = self.toggle_threads;
        self.processes.reload(toggle, procs);
    }

    /// Takes a fresh list and tree (made in the background): the shown pane
    /// gets its rows, its selection stays; a redraw is due.
    pub fn apply_update(&mut self, process_list: ProcessList, process_tree: ProcessTree)
        ensures
            final(self)@ == (AppModel {
                processes: match old(self)@.processes {
                    PanesModel::List(_, s) => PanesModel::List(process_list@, s),
                    PanesModel::Tree(_, s) => PanesModel::Tree(process_tree@, s),
                },
                needs_redraw: true,
                ..old(self)@
            }),
    {
        match &mut self.processes {
            ProcessListOrTree::List(p) => {
                p.process_list.items = process_list;
            },
            ProcessListOrTree::Tree(p) => {
                p.process_tree.items = process_tree;
            },
        }
        self.needs_redraw = true;
    }

    /// Whether a redraw is due; it is due no more afterwards.
    pub fn take_redraw(&mut self) -> (r: bool)
        ensures
            r == old(self)@.needs_redraw,
            final(self)@ == (AppModel { needs_redraw: false, ..old(self)@ }),
    {
        let r = self.needs_redraw;
        self.needs_redraw = false;
        r
    }

    /// The height of the system usage pane: 3 rows when shown, else none.
    pub fn system_usage_pane_height(&self) -> (r: u16)
        ensures
            r == if self.show_system_usage {
                3u16
            } else {
                0u16
            },
    {
        if self.show_system_usage {
            3
        } else {
            0
        }
    }

    /// Whether the selected tab is the one that shows the processes.
    pub fn shows_processes(&self) -> (r: bool)
        ensures
            r == (self.tabs.selected_tab == 0),
    {
        self.tabs.selected_tab == 0
    }
}

/// Law: the update period stays within [100, 5000] ms whatever key is
/// pressed.
pub proof fn law_period_bounded(m: AppModel, key: Key)
    requires
        100 <= m.update_period_ms <= 5000,
    ensures
        100 <= key_step(m, key).0.update_period_ms <= 5000,
{
}

/// Law: once quitting is decided, no key undoes it.
pub proof fn law_quit_is_final(m: AppModel, key: Key)
    requires
        m.should_quit,
    ensures
        key_step(m, key).0.should_quit,
{
}

/// Law: pressing `c` twice shows the same kind of pane again (empty, first
/// row selected), and asks for a reload each time.
pub proof fn law_switch_twice(m: AppModel)
    ensures
        ({
            let (m1, a1) = key_step(m, Key::Char('c'));
            let (m2, a2) = key_step(m1, Key::Char('c'));
            &&& a1 != KeyAction::Continue
            &&& a2 != KeyAction::Continue
            &&& (m.processes is List <==> m2.processes is List)
            &&& m2.processes == match m.processes {
                PanesModel::List(..) => PanesModel::List(Seq::<LineModel>::empty(), fresh_selection()),
                PanesModel::Tree(..) => PanesModel::Tree(Seq::<NodeModel>::empty(), fresh_selection()),
            }
        }),
{
}

/// Law: pressing `1` twice shows or hides the system usage pane as before.
pub proof fn law_toggle_usage_twice(m: AppModel)
    ensures
        key_step(key_step(m, Key::Char('1')).0, Key::Char('1')).0.show_system_usage
            == m.show_system_usage,
{
}

/// The selected row of the shown pane.
pub open spec fn selected_row(m: PanesModel) -> Option<usize> {
    match m {
        PanesModel::List(_, s) => s.selected,
        PanesModel::Tree(_, s) => s.selected,
    }
}

/// The number of rows of the shown pane.
pub open spec fn row_count(m: PanesModel) -> nat {
    match m {
        PanesModel::List(rows, _) => rows.len(),
        PanesModel::Tree(rows, _) => rows.len(),
    }
}

/// Law: on a pane with rows and a selected row, down then up (and up then
/// down) selects the same row again.
pub proof fn law_down_up_returns(m: AppModel)
    requires
        row_count(m.processes) > 0,
        row_count(m.processes) <= usize::MAX,
        selected_row(m.processes) matches Some(i) && i < row_count(m.processes),
    ensures
        selected_row(key_step(key_step(m, Key::Down).0, Key::Up).0.processes) == selected_row(
            m.processes,
        ),
        selected_row(key_step(key_step(m, Key::Up).0, Key::Down).0.processes) == selected_row(
            m.processes,
        ),
{
    let i = selected_row(m.processes)->0;
    let n = row_count(m.processes) as usize;
    crate::table::law_next_then_previous(i, n);
    crate::table::law_previous_then_next(i, n);
}

/// Law: within [100, 5000] ms, `+` lengthens the update period by one step
/// of 100 ms, up to 5000, and `-` shortens it by one step, down to 100;
/// nothing else of the state changes and nothing has to be reloaded.
pub proof fn law_period_steps(m: AppModel)
    requires
        100 <= m.update_period_ms <= 5000,
    ensures
        key_step(m, Key::Char('+')).1 == KeyAction::Continue,
        key_step(m, Key::Char('-')).1 == KeyAction::Continue,
        key_step(m, Key::Char('+')).0.update_period_ms == (if m.update_period_ms + 100 <= 5000 {
            m.update_period_ms + 100
        } else {
            5000
        }),
        key_step(m, Key::Char('-')).0.update_period_ms == (if m.update_period_ms >= 200 {
            m.update_period_ms - 100
        } else {
            100
        }),
        key_step(m, Key::Char('+')).0 == (AppModel {
            update_period_ms: key_step(m, Key::Char('+')).0.update_period_ms,
            ..m
        }),
        key_step(m, Key::Char('-')).0 == (AppModel {
            update_period_ms: key_step(m, Key::Char('-')).0.update_period_ms,
            ..m
        }),
{
}

/// Law: on a shown pane (list or tree alike) with `n > 0` rows and row `i`
/// selected, down and `j` select the next row (the first after the last),
/// up and `k` select the previous row (the last before the first). The pane
/// keeps its kind and its rows.
pub proof fn law_moves_one_row(m: AppModel)
    requires
        0 < row_count(m.processes) <= usize::MAX,
        selected_row(m.processes) matches Some(i) && i < row_count(m.processes),
    ensures
        ({
            let i = selected_row(m.processes)->0;
            let n = row_count(m.processes);
            let down = if i + 1 < n {
                (i + 1) as usize
            } else {
                0usize
            };
            let up = if i > 0 {
                (i - 1) as usize
            } else {
                (n - 1) as usize
            };
            &&& selected_row(key_step(m, Key::Down).0.processes) == Some(down)
            &&& selected_row(key_step(m, Key::Char('j')).0.processes) == Some(down)
            &&& selected_row(key_step(m, Key::Up).0.processes) == Some(up)
            &&& selected_row(key_step(m, Key::Char('k')).0.processes) == Some(up)
            &&& forall|key: Key|
                #![trigger key_step(m, key)]
                (key == Key::Down || key == Key::Up || key == Key::Char('j') || key == Key::Char('k'))
                    ==> {
                    &&& (key_step(m, key).0.processes is List <==> m.processes is List)
                    &&& rows_of(key_step(m, key).0.processes) == rows_of(m.processes)
                }
        }),
{
}

/// The rows of the shown pane, each given by its PID.
pub open spec fn rows_of(m: PanesModel) -> Seq<u32> {
    match m {
        PanesModel::List(rows, _) => rows.map_values(|l: LineModel| l.pid),
        PanesModel::Tree(rows, _) => rows.map_values(|r: NodeModel| r.data.pid),
    }
}

} // verus!
