//! The row of tabs and which of them is selected.
use vstd::prelude::*;
use vstd::arithmetic::div_mod::{lemma_mod_self_0, lemma_small_mod};

verus! {

/// The tabs: their titles and the selected one.
#[derive(Debug, Default, Clone, Copy)]
pub struct TabsPane {
    pub titles: [&'static str; 2],
    pub selected_tab: usize,
}

/// The tab after tab `t` of `n`, wrapping to the first.
pub open spec fn next_tab(t: usize, n: usize) -> usize {
    ((t + 1) % (n as int)) as usize
}

/// The tab before tab `t` of `n`, wrapping to the last.
pub open spec fn previous_tab(t: usize, n: usize) -> usize {
    if t > 0 {
        (t - 1) as usize
    } else {
        (n - 1) as usize
    }
}

impl TabsPane {
    /// Selects the next tab, from the last to the first.
    pub fn next(&mut self)
        requires
            old(self).selected_tab < usize::MAX,
        ensures
            final(self).titles == old(self).titles,
            final(self).selected_tab == next_tab(old(self).selected_tab, 2),
    {
        self.selected_tab = (self.selected_tab + 1) % self.titles.len()
    }

    /// Selects the previous tab, from the first to the last.
    pub fn previous(&mut self)
        ensures
            final(self).titles == old(self).titles,
            final(self).selected_tab == previous_tab(old(self).selected_tab, 2),
    {
        if self.selected_tab > 0 {
            self.selected_tab -= 1;
        } else {
            self.selected_tab = self.titles.len() - 1;
        }
    }
}

proof fn lemma_next_tab(t: usize, n: usize)
    requires
        0 < n,
        t < n,
    ensures
        t + 1 < n ==> next_tab(t, n) == t + 1,
        t + 1 == n ==> next_tab(t, n) == 0,
{
    if t + 1 < n {
        lemma_small_mod((t + 1) as nat, n as nat);
    } else {
        lemma_mod_self_0(n as int);
    }
}

/// Law: of `n` tabs, going to the next and then to the previous tab comes
/// back to the tab selected before.
pub proof fn law_next_then_previous_tab(t: usize, n: usize)
    requires
        0 < n,
        t < n,
    ensures
        previous_tab(next_tab(t, n), n) == t,
{
    lemma_next_tab(t, n);
}

/// Law: of `n` tabs, going to the previous and then to the next tab comes
/// back to the tab selected before.
pub proof fn law_previous_then_next_tab(t: usize, n: usize)
    requires
        0 < n,
        t < n,
    ensures
        next_tab(previous_tab(t, n), n) == t,
{
    lemma_next_tab(previous_tab(t, n), n);
}

/// Law: going to the next or the previous of `n` tabs from a tab selects a
/// tab.
pub proof fn law_tab_stays_in_range(t: usize, n: usize)
    requires
        0 < n,
        t < n,
    ensures
        next_tab(t, n) < n,
        previous_tab(t, n) < n,
{
    lemma_next_tab(t, n);
}

} // verus!
