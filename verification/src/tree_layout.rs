//! How the process tree is laid out in rows: the roots, the depth-first
//! order of the rows, and the text of each row.
use vstd::prelude::*;
use crate::process_tree::{nodes_view, NodeModel, ProcessTree, TreeNode};
use crate::text::{decimal, decimal_string};

verus! {

/// Whether entry `i` is a root: no entry has its parent's PID as PID.
pub open spec fn is_root(t: Seq<NodeModel>, i: int) -> bool {
    forall|j: int| 0 <= j < t.len() ==> #[trigger] t[j].data.pid != t[i].data.ppid
}

/// The positions of the roots among the first `k` entries, in order.
pub open spec fn roots_upto(t: Seq<NodeModel>, k: nat) -> Seq<usize>
    decreases k,
{
    if k == 0 {
        Seq::empty()
    } else if is_root(t, k - 1) {
        roots_upto(t, (k - 1) as nat).push((k - 1) as usize)
    } else {
        roots_upto(t, (k - 1) as nat)
    }
}

/// The positions of the roots of the tree `t`, in order.
pub open spec fn roots(t: Seq<NodeModel>) -> Seq<usize> {
    roots_upto(t, t.len())
}

proof fn lemma_roots_upto(t: Seq<NodeModel>, k: nat, x: usize)
    requires
        k <= t.len() <= usize::MAX,
    ensures
        roots_upto(t, k).contains(x) <==> (x < k && is_root(t, x as int)),
    decreases k,
{
    if k > 0 {
        lemma_roots_upto(t, (k - 1) as nat, x);
        let before = roots_upto(t, (k - 1) as nat);
        if is_root(t, k - 1) {
            let after = before.push((k - 1) as usize);
            assert(after[after.len() - 1] == (k - 1) as usize);
            if before.contains(x) {
                let w = choose|w: int| 0 <= w < before.len() && before[w] == x;
                assert(after[w] == x);
            }
            if after.contains(x) && x != (k - 1) as usize {
                let w = choose|w: int| 0 <= w < after.len() && after[w] == x;
                assert(w < before.len());
                assert(before[w] == x);
            }
        }
    }
}

/// Law: an entry whose parent's PID is the PID of some entry of the tree,
/// listed before or after it, is not a root.
pub proof fn law_parented_is_no_root(t: Seq<NodeModel>, i: int, j: int)
    requires
        t.len() <= usize::MAX,
        0 <= i < t.len(),
        0 <= j < t.len(),
        t[j].data.pid == t[i].data.ppid,
    ensures
        !roots(t).contains(i as usize),
{
    lemma_roots_upto(t, t.len(), i as usize);
}

/// Law: an entry whose parent's PID is the PID of no entry of the tree is a
/// root, and the roots are positions of entries.
pub proof fn law_unparented_is_root(t: Seq<NodeModel>, i: int)
    requires
        t.len() <= usize::MAX,
        0 <= i < t.len(),
        forall|j: int| 0 <= j < t.len() ==> t[i].data.ppid != #[trigger] t[j].data.pid,
    ensures
        roots(t).contains(i as usize),
        forall|k: int| 0 <= k < roots(t).len() ==> #[trigger] roots(t)[k] < t.len(),
{
    lemma_roots_upto(t, t.len(), i as usize);
    assert forall|k: int| 0 <= k < roots(t).len() implies #[trigger] roots(t)[k] < t.len() by {
        lemma_roots_upto(t, t.len(), roots(t)[k]);
        assert(roots(t).contains(roots(t)[k]));
    }
}

/// The rows of the subtrees at the positions `list`, depth first: each
/// position with its depth, then the rows of its children one deeper. At
/// most `fuel` levels below `list` are expanded.
pub open spec fn flat_rows(t: Seq<NodeModel>, list: Seq<usize>, depth: nat, fuel: nat) -> Seq<
    (usize, nat),
>
    decreases fuel, list.len(),
{
    if list.len() == 0 {
        Seq::empty()
    } else {
        let idx = list[0];
        let below = if fuel == 0 || idx >= t.len() {
            Seq::empty()
        } else {
            flat_rows(t, t[idx as int].children, depth + 1, (fuel - 1) as nat)
        };
        seq![(idx, depth)] + below + flat_rows(t, list.drop_first(), depth, fuel)
    }
}

/// Whether the subtrees at `list` can be walked: every position is an entry,
/// and no entry with children lies more than `fuel` levels below `list`
/// (there is no cycle below `list` when `fuel` is the number of entries).
pub open spec fn subtrees_fit(t: Seq<NodeModel>, list: Seq<usize>, fuel: nat) -> bool
    decreases fuel, list.len(),
{
    if list.len() == 0 {
        true
    } else {
        let idx = list[0];
        &&& idx < t.len()
        &&& (t[idx as int].children.len() == 0 || (fuel > 0 && subtrees_fit(
            t,
            t[idx as int].children,
            (fuel - 1) as nat,
        )))
        &&& subtrees_fit(t, list.drop_first(), fuel)
    }
}

proof fn lemma_flat_rows_concat(
    t: Seq<NodeModel>,
    a: Seq<usize>,
    b: Seq<usize>,
    depth: nat,
    fuel: nat,
)
    ensures
        flat_rows(t, a + b, depth, fuel) == flat_rows(t, a, depth, fuel) + flat_rows(
            t,
            b,
            depth,
            fuel,
        ),
        subtrees_fit(t, a + b, fuel) == (subtrees_fit(t, a, fuel) && subtrees_fit(t, b, fuel)),
    decreases a.len(),
{
    if a.len() == 0 {
        assert(a + b =~= b);
    } else {
        assert((a + b).drop_first() =~= a.drop_first() + b);
        assert((a + b)[0] == a[0]);
        lemma_flat_rows_concat(t, a.drop_first(), b, depth, fuel);
        let idx = a[0];
        let below = if fuel == 0 || idx >= t.len() {
            Seq::empty()
        } else {
            flat_rows(t, t[idx as int].children, depth + 1, (fuel - 1) as nat)
        };
        assert(flat_rows(t, a + b, depth, fuel) == seq![(idx, depth)] + below + flat_rows(
            t,
            a.drop_first() + b,
            depth,
            fuel,
        ));
        assert(seq![(idx, depth)] + below + (flat_rows(t, a.drop_first(), depth, fuel)
            + flat_rows(t, b, depth, fuel)) =~= (seq![(idx, depth)] + below + flat_rows(
            t,
            a.drop_first(),
            depth,
            fuel,
        )) + flat_rows(t, b, depth, fuel));
    }
}

proof fn lemma_single(t: Seq<NodeModel>, idx: usize, depth: nat, fuel: nat)
    ensures
        flat_rows(t, seq![idx], depth, fuel) == seq![(idx, depth)] + (if fuel == 0 || idx
            >= t.len() {
            Seq::<(usize, nat)>::empty()
        } else {
            flat_rows(t, t[idx as int].children, depth + 1, (fuel - 1) as nat)
        }),
        subtrees_fit(t, seq![idx], fuel) == (idx < t.len() && (t[idx as int].children.len() == 0
            || (fuel > 0 && subtrees_fit(t, t[idx as int].children, (fuel - 1) as nat)))),
{
    let l = seq![idx];
    assert(l.drop_first() =~= Seq::<usize>::empty());
    assert(flat_rows(t, l.drop_first(), depth, fuel) =~= Seq::<(usize, nat)>::empty());
    assert(subtrees_fit(t, l.drop_first(), fuel));
    let below = if fuel == 0 || idx >= t.len() {
        Seq::<(usize, nat)>::empty()
    } else {
        flat_rows(t, t[idx as int].children, depth + 1, (fuel - 1) as nat)
    };
    assert(seq![(idx, depth)] + below + Seq::<(usize, nat)>::empty() =~= seq![(idx, depth)]
        + below);
}

/// The rows with their depths as natural numbers.
pub open spec fn rows_view(v: Seq<(usize, usize)>) -> Seq<(usize, nat)> {
    v.map_values(|r: (usize, usize)| (r.0, r.1 as nat))
}

fn push_subtree(
    nodes: &Vec<TreeNode>,
    idx: usize,
    depth: usize,
    fuel: usize,
    rows: &mut Vec<(usize, usize)>,
)
    requires
        subtrees_fit(nodes_view(nodes@), seq![idx], fuel as nat),
        depth + fuel <= usize::MAX,
    ensures
        rows_view(final(rows)@) == rows_view(old(rows)@) + flat_rows(
            nodes_view(nodes@),
            seq![idx],
            depth as nat,
            fuel as nat,
        ),
    decreases fuel,
{
    let ghost t = nodes_view(nodes@);
    proof {
        lemma_single(t, idx, depth as nat, fuel as nat);
    }
    let ghost start = rows@;
    rows.push((idx, depth));
    assert(rows_view(rows@) =~= rows_view(start) + seq![(idx, depth as nat)]);
    if fuel > 0 {
        let ch = &nodes[idx].children;
        assert(ch@ == t[idx as int].children);
        let mut k: usize = 0;
        while k < ch.len()
            invariant
                t == nodes_view(nodes@),
                ch@ == t[idx as int].children,
                idx < t.len(),
                fuel > 0,
                depth + fuel <= usize::MAX,
                ch.len() == 0 || subtrees_fit(t, ch@, (fuel - 1) as nat),
                k <= ch.len(),
                rows_view(rows@) == rows_view(start) + seq![(idx, depth as nat)] + flat_rows(
                    t,
                    ch@.take(k as int),
                    (depth + 1) as nat,
                    (fuel - 1) as nat,
                ),
            decreases ch.len() - k,
        {
            proof {
                assert(ch@ =~= ch@.take(k as int) + seq![ch@[k as int]] + ch@.skip(k + 1));
                lemma_flat_rows_concat(
                    t,
                    ch@.take(k as int) + seq![ch@[k as int]],
                    ch@.skip(k + 1),
                    (depth + 1) as nat,
                    (fuel - 1) as nat,
                );
                lemma_flat_rows_concat(
                    t,
                    ch@.take(k as int),
                    seq![ch@[k as int]],
                    (depth + 1) as nat,
                    (fuel - 1) as nat,
                );
                assert(ch@.take(k + 1) =~= ch@.take(k as int) + seq![ch@[k as int]]);
            }
            push_subtree(nodes, ch[k], depth + 1, fuel - 1, rows);
            k = k + 1;
        }
        proof {
            assert(ch@.take(k as int) =~= ch@);
        }
    } else {
        assert(rows_view(rows@) =~= rows_view(start) + flat_rows(t, seq![idx], depth as nat, fuel as nat));
    }
}

/// Decides `subtrees_fit` for one position.
fn subtree_fits(nodes: &Vec<TreeNode>, idx: usize, fuel: usize) -> (r: bool)
    ensures
        r == subtrees_fit(nodes_view(nodes@), seq![idx], fuel as nat),
    decreases fuel,
{
    let ghost t = nodes_view(nodes@);
    proof {
        lemma_single(t, idx, 0, fuel as nat);
    }
    if idx >= nodes.len() {
        return false;
    }
    let ch = &nodes[idx].children;
    assert(ch@ == t[idx as int].children);
    if ch.len() == 0 {
        return true;
    }
    if fuel == 0 {
        return false;
    }
    let mut k: usize = 0;
    while k < ch.len()
        invariant
            t == nodes_view(nodes@),
            ch@ == t[idx as int].children,
            k <= ch.len(),
            fuel > 0,
            subtrees_fit(t, ch@.take(k as int), (fuel - 1) as nat),
        decreases ch.len() - k,
    {
        proof {
            lemma_flat_rows_concat(t, ch@.take(k as int), seq![ch@[k as int]], 0, (fuel - 1) as nat);
            assert(ch@.take(k + 1) =~= ch@.take(k as int) + seq![ch@[k as int]]);
            assert(ch@ =~= ch@.take(k + 1) + ch@.skip(k + 1));
            lemma_flat_rows_concat(t, ch@.take(k + 1), ch@.skip(k + 1), 0, (fuel - 1) as nat);
        }
        if !subtree_fits(nodes, ch[k], fuel - 1) {
            return false;
        }
        k = k + 1;
    }
    assert(ch@.take(k as int) =~= ch@);
    true
}

impl ProcessTree {
    /// The positions of the roots: the entries whose parent's PID is no
    /// entry's PID.
    pub fn root_indices(&self) -> (r: Vec<usize>)
        ensures
            r@ == roots(self@),
    {
        let ghost t = self@;
        let n = self.0.len();
        let mut r: Vec<usize> = Vec::new();
        let mut i: usize = 0;
        while i < n
            invariant
                t == self@,
                n == self.0.len(),
                t.len() == n,
                i <= n,
                r@ == roots_upto(t, i as nat),
            decreases n - i,
        {
            let ppid = self.0[i].data.ppid;
            let mut found = false;
            let mut j: usize = 0;
            while j < n
                invariant
                    t == self@,
                    n == self.0.len(),
                    t.len() == n,
                    i < n,
                    j <= n,
                    ppid == t[i as int].data.ppid,
                    found == exists|k: int| 0 <= k < j && #[trigger] t[k].data.pid == ppid,
                decreases n - j,
            {
                assert(t[j as int] == self.0@[j as int]@);
                let ghost old_found = found;
                if self.0[j].data.pid == ppid {
                    found = true;
                }
                proof {
                    if found {
                        if old_found {
                            let w = choose|w: int| 0 <= w < j && #[trigger] t[w].data.pid == ppid;
                            assert(0 <= w < j + 1 && t[w].data.pid == ppid);
                        } else {
                            assert(t[j as int].data.pid == ppid);
                        }
                    } else {
                        assert forall|w: int| 0 <= w < j + 1 implies #[trigger] t[w].data.pid
                            != ppid by {}
                    }
                }
                j = j + 1;
            }
            assert(t[i as int] == self.0@[i as int]@);
            assert(found == !is_root(t, i as int));
            if !found {
                r.push(i);
            }
            i = i + 1;
        }
        r
    }

    /// Whether the subtrees at `roots` can be walked (see `subtrees_fit`),
    /// with as many levels as there are entries.
    pub fn fits_roots(&self, roots: &Vec<usize>) -> (r: bool)
        ensures
            r == subtrees_fit(self@, roots@, self@.len()),
    {
        let ghost t = self@;
        let n = self.0.len();
        let mut k: usize = 0;
        assert(roots@.take(0) =~= Seq::<usize>::empty());
        while k < roots.len()
            invariant
                t == self@,
                n == t.len(),
                k <= roots.len(),
                subtrees_fit(t, roots@.take(k as int), n as nat),
            decreases roots.len() - k,
        {
            proof {
                lemma_flat_rows_concat(t, roots@.take(k as int), seq![roots@[k as int]], 0, n as nat);
                assert(roots@.take(k + 1) =~= roots@.take(k as int) + seq![roots@[k as int]]);
                assert(roots@ =~= roots@.take(k + 1) + roots@.skip(k + 1));
                lemma_flat_rows_concat(t, roots@.take(k + 1), roots@.skip(k + 1), 0, n as nat);
            }
            if !subtree_fits(&self.0, roots[k], n) {
                return false;
            }
            k = k + 1;
        }
        assert(roots@.take(k as int) =~= roots@);
        true
    }

    /// The rows of the subtrees at `roots`, depth first: the position of each
    /// entry and its depth below its root.
    pub fn flatten(&self, roots: &Vec<usize>) -> (r: Vec<(usize, usize)>)
        requires
            subtrees_fit(self@, roots@, self@.len()),
        ensures
            rows_view(r@) == flat_rows(self@, roots@, 0, self@.len()),
    {
        let ghost t = self@;
        let n = self.0.len();
        let mut rows: Vec<(usize, usize)> = Vec::new();
        let mut k: usize = 0;
        assert(roots@.take(0) =~= Seq::<usize>::empty());
        assert(rows_view(rows@) =~= Seq::<(usize, nat)>::empty());
        while k < roots.len()
            invariant
                t == self@,
                n == t.len(),
                k <= roots.len(),
                subtrees_fit(t, roots@, n as nat),
                rows_view(rows@) == flat_rows(t, roots@.take(k as int), 0, n as nat),
            decreases roots.len() - k,
        {
            proof {
                assert(roots@ =~= roots@.take(k as int) + seq![roots@[k as int]] + roots@.skip(
                    k + 1,
                ));
                lemma_flat_rows_concat(
                    t,
                    roots@.take(k as int) + seq![roots@[k as int]],
                    roots@.skip(k + 1),
                    0,
                    n as nat,
                );
                lemma_flat_rows_concat(t, roots@.take(k as int), seq![roots@[k as int]], 0, n as nat);
                assert(roots@.take(k + 1) =~= roots@.take(k as int) + seq![roots@[k as int]]);
            }
            push_subtree(&self.0, roots[k], 0, n, &mut rows);
            k = k + 1;
        }
        assert(roots@.take(k as int) =~= roots@);
        rows
    }
}

/// `s` written `n` times.
pub open spec fn repeat(s: Seq<char>, n: nat) -> Seq<char>
    decreases n,
{
    if n == 0 {
        Seq::empty()
    } else {
        repeat(s, (n - 1) as nat) + s
    }
}

fn repeat_str(s: &str, n: usize) -> (r: String)
    ensures
        r@ == repeat(s@, n as nat),
{
    let mut r = String::new();
    let mut i: usize = 0;
    while i < n
        invariant
            i <= n,
            r@ == repeat(s@, i as nat),
        decreases n - i,
    {
        r.append(s);
        i = i + 1;
    }
    r
}

/// The text of a row of the tree pane: a bar and two spaces for each level
/// of depth, a branch, then the name.
pub fn tree_display_name(depth: usize, name: &str) -> (r: String)
    ensures
        r@ == repeat("│  "@, depth as nat) + "├─ "@ + name@,
{
    let mut r = repeat_str("│  ", depth);
    r.append("├─ ");
    r.append(name);
    r
}

/// The text of a printed line of the tree: two spaces for each level of
/// depth, a branch, the name, then the PID in parentheses.
pub fn tree_print_line(depth: usize, name: &str, pid: u32) -> (r: String)
    ensures
        r@ == repeat("  "@, depth as nat) + "├─ "@ + name@ + " (PID "@ + decimal(pid as nat)
            + ")"@,
{
    let mut r = repeat_str("  ", depth);
    r.append("├─ ");
    r.append(name);
    r.append(" (PID ");
    let d = decimal_string(pid as u64);
    r.append(d.as_str());
    r.append(")");
    r
}

/// Whether `line` is the printed line of the row `row` of the tree `t`.
pub open spec fn print_line_of(t: Seq<NodeModel>, row: (usize, nat), line: Seq<char>) -> bool {
    &&& row.0 < t.len()
    &&& line == repeat("  "@, row.1) + "├─ "@ + t[row.0 as int].data.name + " (PID "@ + decimal(
        t[row.0 as int].data.pid as nat,
    ) + ")"@
}

impl ProcessTree {
    /// The lines that printing the subtrees at `roots` writes, one per entry,
    /// depth first.
    pub fn print_lines(&self, roots: &Vec<usize>) -> (r: Vec<String>)
        requires
            subtrees_fit(self@, roots@, self@.len()),
        ensures
            r.len() == flat_rows(self@, roots@, 0, self@.len()).len(),
            forall|k: int|
                #![trigger r@[k]]
                0 <= k < r.len() ==> print_line_of(
                    self@,
                    flat_rows(self@, roots@, 0, self@.len())[k],
                    r@[k]@,
                ),
    {
        let rows = self.flatten(roots);
        let ghost fr = flat_rows(self@, roots@, 0, self@.len());
        let mut out: Vec<String> = Vec::new();
        let mut k: usize = 0;
        while k < rows.len()
            invariant
                rows_view(rows@) == fr,
                fr == flat_rows(self@, roots@, 0, self@.len()),
                subtrees_fit(self@, roots@, self@.len()),
                k <= rows.len(),
                out.len() == k,
                forall|j: int|
                    #![trigger out@[j]]
                    0 <= j < k ==> print_line_of(self@, fr[j], out@[j]@),
            decreases rows.len() - k,
        {
            let (idx, depth) = rows[k];
            assert(fr[k as int] == (idx, depth as nat));
            proof {
                lemma_rows_are_entries(self@, roots@, 0, self@.len(), k as int);
            }
            let node = &self.0[idx];
            assert(self@[idx as int] == self.0@[idx as int]@);
            let line = tree_print_line(depth, node.data.name.as_str(), node.data.pid);
            let ghost before = out@;
            out.push(line);
            assert(print_line_of(self@, fr[k as int], out@[k as int]@));
            assert(forall|j: int| 0 <= j < k ==> out@[j] == before[j]);
            k = k + 1;
        }
        out
    }
}

proof fn lemma_rows_are_entries(t: Seq<NodeModel>, list: Seq<usize>, depth: nat, fuel: nat, k: int)
    requires
        subtrees_fit(t, list, fuel),
        0 <= k < flat_rows(t, list, depth, fuel).len(),
    ensures
        flat_rows(t, list, depth, fuel)[k].0 < t.len(),
    decreases fuel, list.len(),
{
    if list.len() > 0 {
        let idx = list[0];
        let below = if fuel == 0 || idx >= t.len() {
            Seq::<(usize, nat)>::empty()
        } else {
            flat_rows(t, t[idx as int].children, depth + 1, (fuel - 1) as nat)
        };
        let rest = flat_rows(t, list.drop_first(), depth, fuel);
        assert(flat_rows(t, list, depth, fuel) == seq![(idx, depth)] + below + rest);
        if k == 0 {
        } else if k < 1 + below.len() {
            if t[idx as int].children.len() == 0 {
                assert(t[idx as int].children =~= Seq::<usize>::empty());
                assert(below.len() == 0);
            } else {
                lemma_rows_are_entries(t, t[idx as int].children, depth + 1, (fuel - 1) as nat, k - 1);
            }
        } else {
            lemma_rows_are_entries(t, list.drop_first(), depth, fuel, k - 1 - below.len());
        }
    }
}

} // verus!
