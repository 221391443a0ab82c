//! The records of `/proc`: the files that are read, how they are parsed, and
//! the snapshot of them from which the process list and tree are built.
use vstd::prelude::*;
use vstd::utf8::{decode_utf8, valid_utf8};
use crate::text::{
    copy_range, decimal, decimal_string, decode_chars, line_spans, line_spans_of, lines, opt_int,
    parse_i32, parse_i32_spec, parse_u32, parse_u32_spec, parse_u64, parse_u64_spec, span_ints,
    str_chars, string_of_chars, token_spans, token_spans_of, tokens,
};

verus! {

/// Everything known of one process.
#[derive(Debug, Default)]
pub struct ProcessFullInfo {
    pub pid: u32,
    pub ppid: u32,
    pub tgid: u32,
    pub name: String,
    pub pss: u64,
    pub rss: u64,
}

/// What kind of task an entry of the process tree is.
#[derive(Debug, Default, Clone, Copy, PartialEq, Eq, Structural)]
pub enum ProcessType {
    #[default]
    Regular,
    Kernel,
    Thread,
}

/// The fields of `/proc/<pid>/stat` that are used.
pub struct ProcessStat {
    /// The file name of the executable, without the parentheses.
    pub comm: String,
    /// The process state.
    pub state: char,
    /// The parent's PID.
    pub ppid: u32,
    /// Whether the process is a kernel thread.
    pub is_kernel_thread: bool,
    /// Time scheduled in user mode, in clock ticks.
    pub utime: u64,
    /// Time scheduled in kernel mode, in clock ticks.
    pub stime: u64,
    /// Resident set size, in pages.
    pub rss: u64,
    /// Virtual memory size, in bytes.
    pub vsize: u64,
    /// Start time, in clock ticks.
    pub start_time: u64,
    /// Kernel scheduling priority.
    pub priority: i32,
    /// Nice value.
    pub nice: i32,
}

/// The value of a [`ProcessStat`].
pub struct StatModel {
    pub comm: Seq<char>,
    pub state: char,
    pub ppid: u32,
    pub is_kernel_thread: bool,
    pub utime: u64,
    pub stime: u64,
    pub rss: u64,
    pub vsize: u64,
    pub start_time: u64,
    pub priority: i32,
    pub nice: i32,
}

impl View for ProcessStat {
    type V = StatModel;

    open spec fn view(&self) -> StatModel {
        StatModel {
            comm: self.comm@,
            state: self.state,
            ppid: self.ppid,
            is_kernel_thread: self.is_kernel_thread,
            utime: self.utime,
            stime: self.stime,
            rss: self.rss,
            vsize: self.vsize,
            start_time: self.start_time,
            priority: self.priority,
            nice: self.nice,
        }
    }
}

/// The flag of a kernel thread in the `flags` field of `stat`.
pub const PF_KTHREAD: u32 = 0x0020_0000;

/// Whether `flags` marks a kernel thread.
pub open spec fn is_kernel_flags(flags: u32) -> bool {
    flags & PF_KTHREAD != 0
}

/// Whether the `flags` of a `stat` record mark a kernel thread.
pub fn is_kernel_thread(flags: u32) -> (r: bool)
    ensures
        r == is_kernel_flags(flags),
{
    flags & PF_KTHREAD != 0
}

/// Law: a `stat` record marks a kernel thread exactly by the bit
/// 0x0020_0000 of its flags, whatever the other bits hold: with that bit set
/// the flags mark a kernel thread, with it clear they do not.
pub proof fn law_kernel_flag_bit(flags: u32)
    ensures
        is_kernel_flags(flags | 0x0020_0000u32),
        !is_kernel_flags(flags & !0x0020_0000u32),
        is_kernel_flags(flags) == (flags & 0x0020_0000u32 == 0x0020_0000u32),
        is_kernel_flags(flags) == is_kernel_flags(flags & 0x0020_0000u32),
{
    assert((flags | 0x0020_0000u32) & 0x0020_0000u32 != 0) by (bit_vector);
    assert((flags & !0x0020_0000u32) & 0x0020_0000u32 == 0) by (bit_vector);
    assert((flags & 0x0020_0000u32 != 0) == (flags & 0x0020_0000u32 == 0x0020_0000u32))
        by (bit_vector);
    assert((flags & 0x0020_0000u32) & 0x0020_0000u32 == flags & 0x0020_0000u32) by (bit_vector);
}

/// The position of the first `c` in `s`.
pub open spec fn first_index(s: Seq<char>, c: char) -> Option<int>
    decreases s.len(),
{
    if s.len() == 0 {
        None
    } else {
        match first_index(s.drop_last(), c) {
            Some(k) => Some(k),
            None => if s.last() == c {
                Some(s.len() - 1)
            } else {
                None
            },
        }
    }
}

proof fn lemma_first_index_prefix(s: Seq<char>, c: char, k: int)
    requires
        0 <= k <= s.len(),
        first_index(s.take(k), c) is Some,
    ensures
        first_index(s, c) == first_index(s.take(k), c),
    decreases s.len(),
{
    if k < s.len() {
        assert(s.drop_last().take(k) =~= s.take(k));
        lemma_first_index_prefix(s.drop_last(), c, k);
    } else {
        assert(s.take(k) =~= s);
    }
}

/// The position of the first `c` in `s` (what `str::find` locates).
pub fn find_char(s: &[char], c: char) -> (r: Option<usize>)
    ensures
        opt_int(r) == first_index(s@, c),
        r matches Some(k) ==> k < s.len() && s[k as int] == c,
{
    let mut i: usize = 0;
    while i < s.len()
        invariant
            i <= s.len(),
            first_index(s@.take(i as int), c) is None,
        decreases s.len() - i,
    {
        assert(s@.take(i + 1).drop_last() =~= s@.take(i as int));
        if s[i] == c {
            proof {
                lemma_first_index_prefix(s@, c, i + 1);
            }
            return Some(i);
        }
        i = i + 1;
    }
    assert(s@.take(i as int) =~= s@);
    None
}

/// The position of the last `c` in `s`.
pub open spec fn last_index(s: Seq<char>, c: char) -> Option<int>
    decreases s.len(),
{
    if s.len() == 0 {
        None
    } else if s.last() == c {
        Some(s.len() - 1)
    } else {
        last_index(s.drop_last(), c)
    }
}

/// The position of the last `c` in `s` (what `str::rfind` locates).
pub fn rfind_char(s: &[char], c: char) -> (r: Option<usize>)
    ensures
        opt_int(r) == last_index(s@, c),
        r matches Some(k) ==> k < s.len() && s[k as int] == c,
{
    let mut i: usize = s.len();
    assert(s@.take(i as int) =~= s@);
    while i > 0
        invariant
            i <= s.len(),
            last_index(s@, c) == last_index(s@.take(i as int), c),
        decreases i,
    {
        assert(s@.take(i as int).last() == s@[i - 1]);
        if s[i - 1] == c {
            return Some(i - 1);
        }
        assert(s@.take(i as int).drop_last() =~= s@.take(i - 1));
        i = i - 1;
    }
    None
}

/// Whether the parser of `stat` would slice its text out of bounds: the
/// last `)` comes before the first `(`, or nothing follows it, or what
/// follows it takes more than one byte.
pub open spec fn stat_slices_badly(s: Seq<char>) -> bool {
    match (first_index(s, '('), last_index(s, ')')) {
        (Some(o), Some(c)) => c < o || c + 1 >= s.len() || (s[c + 1] as u32) >= 0x80,
        _ => false,
    }
}

/// Whether `file_get_stat` would slice the text of the bytes `b` out of
/// bounds (so that they may not be given to it).
pub open spec fn stat_bytes_panic(b: Seq<u8>) -> bool {
    valid_utf8(b) && stat_slices_badly(decode_utf8(b))
}

/// The record that the text `s` of a `stat` file holds: the name between
/// the first `(` and the last `)` (so that a name may itself hold `)`, as
/// proc(5) allows); after that `)` and the one character
/// that follows it, the whitespace-separated fields state, ppid, four fields
/// skipped, flags, four skipped, utime, stime, cutime, cstime, priority, nice,
/// num_threads, itrealvalue, starttime, vsize, rss (22 fields, each of which
/// must parse as its type).
pub open spec fn stat_of_chars(s: Seq<char>) -> Option<StatModel> {
    match (first_index(s, '('), last_index(s, ')')) {
        (Some(o), Some(c)) => {
            let t = tokens(s.subrange(c + 2, s.len() as int));
            if t.len() >= 22 && parse_u32_spec(t[1]) is Some && parse_u32_spec(t[6]) is Some
                && parse_u64_spec(t[11]) is Some && parse_u64_spec(t[12]) is Some
                && parse_i32_spec(t[13]) is Some && parse_i32_spec(t[14]) is Some
                && parse_i32_spec(t[15]) is Some && parse_i32_spec(t[16]) is Some
                && parse_i32_spec(t[17]) is Some && parse_i32_spec(t[18]) is Some
                && parse_u64_spec(t[19]) is Some && parse_u64_spec(t[20]) is Some
                && parse_u64_spec(t[21]) is Some {
                Some(
                    StatModel {
                        comm: s.subrange(o + 1, c),
                        state: t[0][0],
                        ppid: parse_u32_spec(t[1])->0,
                        is_kernel_thread: is_kernel_flags(parse_u32_spec(t[6])->0),
                        utime: parse_u64_spec(t[11])->0,
                        stime: parse_u64_spec(t[12])->0,
                        rss: parse_u64_spec(t[21])->0,
                        vsize: parse_u64_spec(t[20])->0,
                        start_time: parse_u64_spec(t[19])->0,
                        priority: parse_i32_spec(t[15])->0,
                        nice: parse_i32_spec(t[16])->0,
                    },
                )
            } else {
                None
            }
        },
        _ => None,
    }
}

/// The record that the bytes of a `stat` file hold: none unless they are
/// UTF-8.
pub open spec fn stat_of_bytes(b: Seq<u8>) -> Option<StatModel> {
    if valid_utf8(b) {
        stat_of_chars(decode_utf8(b))
    } else {
        None
    }
}

proof fn lemma_token_at(s: Seq<char>, sp: Seq<(usize, usize)>, j: int)
    requires
        span_ints(sp) == token_spans(s),
        0 <= j < sp.len(),
    ensures
        tokens(s).len() == sp.len(),
        tokens(s)[j] == s.subrange(sp[j].0 as int, sp[j].1 as int),
{
    assert(token_spans(s)[j] == span_ints(sp)[j]);
}

/// Parses the bytes of a `/proc/<pid>/stat` file (as one read gets them).
/// `None` where they are not UTF-8, lack the parentheses, or lack a field.
pub fn file_get_stat(content: &[u8]) -> (r: Option<ProcessStat>)
    requires
        !stat_bytes_panic(content@),
    ensures
        match stat_of_bytes(content@) {
            Some(m) => r matches Some(st) && st@ == m,
            None => r is None,
        },
{
    let s = match decode_chars(content) {
        Some(v) => v,
        None => return None,
    };
    let o = match find_char(s.as_slice(), '(') {
        Some(k) => k,
        None => return None,
    };
    let c = match rfind_char(s.as_slice(), ')') {
        Some(k) => k,
        None => return None,
    };
    let comm_chars = copy_range(s.as_slice(), o + 1, c);
    let comm = string_of_chars(comm_chars.as_slice());
    let f = copy_range(s.as_slice(), c + 2, s.len());
    let sp = token_spans_of(f.as_slice());
    let ghost t = tokens(f@);
    if sp.len() < 22 {
        proof {
            if sp.len() > 0 {
                lemma_token_at(f@, sp@, 0);
            } else {
                assert(t.len() == 0);
            }
        }
        return None;
    }
    proof {
        assert forall|j: int| 0 <= j < sp.len() implies t[j] == f@.subrange(
            sp@[j].0 as int,
            sp@[j].1 as int,
        ) by {
            lemma_token_at(f@, sp@, j);
        }
        lemma_token_at(f@, sp@, 0);
    }
    let state = f[sp[0].0];
    let ppid = match parse_u32(f.as_slice(), sp[1].0, sp[1].1) {
        Some(v) => v,
        None => return None,
    };
    let flags = match parse_u32(f.as_slice(), sp[6].0, sp[6].1) {
        Some(v) => v,
        None => return None,
    };
    let utime = match parse_u64(f.as_slice(), sp[11].0, sp[11].1) {
        Some(v) => v,
        None => return None,
    };
    let stime = match parse_u64(f.as_slice(), sp[12].0, sp[12].1) {
        Some(v) => v,
        None => return None,
    };
    if parse_i32(f.as_slice(), sp[13].0, sp[13].1).is_none() {
        return None;
    }
    if parse_i32(f.as_slice(), sp[14].0, sp[14].1).is_none() {
        return None;
    }
    let priority = match parse_i32(f.as_slice(), sp[15].0, sp[15].1) {
        Some(v) => v,
        None => return None,
    };
    let nice = match parse_i32(f.as_slice(), sp[16].0, sp[16].1) {
        Some(v) => v,
        None => return None,
    };
    if parse_i32(f.as_slice(), sp[17].0, sp[17].1).is_none() {
        return None;
    }
    if parse_i32(f.as_slice(), sp[18].0, sp[18].1).is_none() {
        return None;
    }
    let start_time = match parse_u64(f.as_slice(), sp[19].0, sp[19].1) {
        Some(v) => v,
        None => return None,
    };
    let vsize = match parse_u64(f.as_slice(), sp[20].0, sp[20].1) {
        Some(v) => v,
        None => return None,
    };
    let rss = match parse_u64(f.as_slice(), sp[21].0, sp[21].1) {
        Some(v) => v,
        None => return None,
    };
    let is_kernel = is_kernel_thread(flags);
    Some(
        ProcessStat {
            comm,
            state,
            ppid,
            is_kernel_thread: is_kernel,
            utime,
            stime,
            rss,
            vsize,
            start_time,
            priority,
            nice,
        },
    )
}

proof fn lemma_line_at(s: Seq<char>, sp: Seq<(usize, usize)>, j: int)
    requires
        span_ints(sp) == line_spans(s),
        0 <= j < sp.len(),
    ensures
        lines(s).len() == sp.len(),
        lines(s)[j] == s.subrange(sp[j].0 as int, sp[j].1 as int),
{
    assert(line_spans(s)[j] == span_ints(sp)[j]);
}

/// Whether `s` begins with `p`.
pub open spec fn starts_with(s: Seq<char>, p: Seq<char>) -> bool {
    p.len() <= s.len() && s.subrange(0, p.len() as int) == p
}

/// Decides `starts_with`.
pub fn has_prefix(s: &[char], p: &[char]) -> (r: bool)
    ensures
        r == starts_with(s@, p@),
{
    if p.len() > s.len() {
        return false;
    }
    let mut i: usize = 0;
    while i < p.len()
        invariant
            p.len() <= s.len(),
            i <= p.len(),
            s@.subrange(0, i as int) == p@.take(i as int),
        decreases p.len() - i,
    {
        if s[i] != p[i] {
            assert(s@.subrange(0, p.len() as int)[i as int] != p@[i as int]);
            return false;
        }
        i = i + 1;
        assert(s@.subrange(0, i as int) =~= p@.take(i as int));
    }
    assert(p@.take(i as int) =~= p@);
    true
}

/// Whether the token `t` equals `w`.
pub fn same_chars(s: &[char], from: usize, to: usize, w: &[char]) -> (r: bool)
    requires
        from <= to <= s.len(),
    ensures
        r == (s@.subrange(from as int, to as int) == w@),
{
    if to - from != w.len() {
        return false;
    }
    let mut i: usize = 0;
    while i < w.len()
        invariant
            to - from == w.len(),
            from <= to <= s.len(),
            i <= w.len(),
            s@.subrange(from as int, from + i) == w@.take(i as int),
        decreases w.len() - i,
    {
        if s[from + i] != w[i] {
            assert(s@.subrange(from as int, to as int)[i as int] != w@[i as int]);
            return false;
        }
        i = i + 1;
        assert(s@.subrange(from as int, from + i) =~= w@.take(i as int));
    }
    assert(w@.take(i as int) =~= w@);
    true
}

/// The label of the thread group id line of a `status` file.
pub open spec fn tgid_key() -> Seq<char> {
    seq!['T', 'g', 'i', 'd', ':']
}

/// The thread group id that the lines of a `status` file give: on the first
/// line that begins with `Tgid:`, the second whitespace-separated field as a
/// `u32`.
pub open spec fn tgid_of_lines(ls: Seq<Seq<char>>) -> Option<u32>
    decreases ls.len(),
{
    if ls.len() == 0 {
        None
    } else if starts_with(ls[0], tgid_key()) {
        let t = tokens(ls[0]);
        if t.len() >= 2 {
            parse_u32_spec(t[1])
        } else {
            None
        }
    } else {
        tgid_of_lines(ls.drop_first())
    }
}

/// The thread group id that the bytes of a `status` file give.
pub open spec fn tgid_of_bytes(b: Seq<u8>) -> Option<u32> {
    if valid_utf8(b) {
        tgid_of_lines(lines(decode_utf8(b)))
    } else {
        None
    }
}

/// Parses the thread group id out of the bytes of a `/proc/<pid>/status`
/// file (as one read gets them).
pub fn file_get_tgid(content: &[u8]) -> (r: Option<u32>)
    ensures
        r == tgid_of_bytes(content@),
{
    let s = match decode_chars(content) {
        Some(v) => v,
        None => return None,
    };
    let key = vec!['T', 'g', 'i', 'd', ':'];
    assert(key@ == tgid_key());
    let sp = line_spans_of(s.as_slice());
    let ghost ls = lines(s@);
    proof {
        assert(ls.skip(0) =~= ls);
        if sp.len() > 0 {
            lemma_line_at(s@, sp@, 0);
        } else {
            assert(ls.len() == 0);
        }
    }
    let mut j: usize = 0;
    while j < sp.len()
        invariant
            tgid_of_bytes(content@) == tgid_of_lines(ls),
            span_ints(sp@) == line_spans(s@),
            ls == lines(s@),
            key@ == tgid_key(),
            forall|k: int| #![trigger sp@[k]] 0 <= k < sp.len() ==> sp@[k].0 <= sp@[k].1 <= s.len(),
            j <= sp.len(),
            ls.len() == sp.len(),
            tgid_of_lines(ls) == tgid_of_lines(ls.skip(j as int)),
        decreases sp.len() - j,
    {
        proof {
            lemma_line_at(s@, sp@, j as int);
            assert(ls.skip(j as int)[0] == ls[j as int]);
            assert(ls.skip(j as int).drop_first() =~= ls.skip(j + 1));
        }
        let line = copy_range(s.as_slice(), sp[j].0, sp[j].1);
        assert(line@ == ls.skip(j as int)[0]);
        if has_prefix(line.as_slice(), key.as_slice()) {
            let tsp = token_spans_of(line.as_slice());
            if tsp.len() >= 2 {
                proof {
                    lemma_token_at(line@, tsp@, 1);
                }
                return parse_u32(line.as_slice(), tsp[1].0, tsp[1].1);
            } else {
                proof {
                    if tsp.len() > 0 {
                        lemma_token_at(line@, tsp@, 0);
                    }
                }
                return None;
            }
        }
        j = j + 1;
    }
    None
}

/// The label of the resident set size line of a `smaps_rollup` file.
pub open spec fn rss_key() -> Seq<char> {
    seq!['R', 's', 's', ':']
}

/// The label of the proportional set size line of a `smaps_rollup` file.
pub open spec fn pss_key() -> Seq<char> {
    seq!['P', 's', 's', ':']
}

/// The resident and proportional set sizes found in the lines `ls`, starting
/// from `rss` and `pss`: a line whose first field is `Rss:` (or `Pss:`) sets
/// that size to its second field parsed as a `u64` (`None` if it has none or
/// it does not parse); the scan stops after such a line when both are set.
pub open spec fn rss_pss_scan(ls: Seq<Seq<char>>, rss: Option<u64>, pss: Option<u64>) -> (
    Option<u64>,
    Option<u64>,
)
    decreases ls.len(),
{
    if ls.len() == 0 {
        (rss, pss)
    } else {
        let t = tokens(ls[0]);
        let v = if t.len() >= 2 {
            parse_u64_spec(t[1])
        } else {
            None
        };
        if t.len() >= 1 && t[0] == rss_key() {
            if v is Some && pss is Some {
                (v, pss)
            } else {
                rss_pss_scan(ls.drop_first(), v, pss)
            }
        } else if t.len() >= 1 && t[0] == pss_key() {
            if rss is Some && v is Some {
                (rss, v)
            } else {
                rss_pss_scan(ls.drop_first(), rss, v)
            }
        } else {
            rss_pss_scan(ls.drop_first(), rss, pss)
        }
    }
}

/// The `Rss:` and `Pss:` values of the text of a `smaps_rollup` file, in
/// that order.
pub fn parse_rss_and_pss(text: &[char]) -> (r: (Option<u64>, Option<u64>))
    ensures
        r == rss_pss_scan(lines(text@), None, None),
{
    let rk = vec!['R', 's', 's', ':'];
    let pk = vec!['P', 's', 's', ':'];
    assert(rk@ == rss_key());
    assert(pk@ == pss_key());
    let sp = line_spans_of(text);
    let ghost ls = lines(text@);
    proof {
        assert(ls.skip(0) =~= ls);
        if sp.len() > 0 {
            lemma_line_at(text@, sp@, 0);
        } else {
            assert(ls.len() == 0);
        }
    }
    let mut rss: Option<u64> = None;
    let mut pss: Option<u64> = None;
    let mut j: usize = 0;
    while j < sp.len()
        invariant
            span_ints(sp@) == line_spans(text@),
            ls == lines(text@),
            rk@ == rss_key(),
            pk@ == pss_key(),
            forall|k: int| #![trigger sp@[k]] 0 <= k < sp.len() ==> sp@[k].0 <= sp@[k].1 <= text.len(),
            j <= sp.len(),
            ls.len() == sp.len(),
            rss_pss_scan(ls, None, None) == rss_pss_scan(ls.skip(j as int), rss, pss),
        decreases sp.len() - j,
    {
        proof {
            lemma_line_at(text@, sp@, j as int);
            assert(ls.skip(j as int)[0] == ls[j as int]);
            assert(ls.skip(j as int).drop_first() =~= ls.skip(j + 1));
        }
        let line = copy_range(text, sp[j].0, sp[j].1);
        let tsp = token_spans_of(line.as_slice());
        let ghost t = tokens(line@);
        proof {
            if tsp.len() >= 1 {
                lemma_token_at(line@, tsp@, 0);
            }
            if tsp.len() >= 2 {
                lemma_token_at(line@, tsp@, 1);
            }
        }
        if tsp.len() >= 1 {
            let v = if tsp.len() >= 2 {
                parse_u64(line.as_slice(), tsp[1].0, tsp[1].1)
            } else {
                None
            };
            if same_chars(line.as_slice(), tsp[0].0, tsp[0].1, rk.as_slice()) {
                rss = v;
                if rss.is_some() && pss.is_some() {
                    return (rss, pss);
                }
            } else if same_chars(line.as_slice(), tsp[0].0, tsp[0].1, pk.as_slice()) {
                pss = v;
                if rss.is_some() && pss.is_some() {
                    return (rss, pss);
                }
            }
        }
        j = j + 1;
    }
    assert(ls.skip(j as int).len() == 0);
    (rss, pss)
}

/// The `Rss:` and `Pss:` values of the bytes of a `smaps_rollup` file (as one
/// read gets them); neither if they are not UTF-8.
pub fn parse_smaps_rollup(content: &[u8]) -> (r: (Option<u64>, Option<u64>))
    ensures
        r == (if valid_utf8(content@) {
            rss_pss_scan(lines(decode_utf8(content@)), None, None)
        } else {
            (None, None)
        }),
{
    match decode_chars(content) {
        Some(s) => parse_rss_and_pss(s.as_slice()),
        None => (None, None),
    }
}

/// The name read from a `comm` file: its whole text, or the empty string
/// where it could not be read.
pub fn file_get_name(content: Option<String>) -> (r: String)
    ensures
        r@ == match content {
            Some(s) => s@,
            None => Seq::<char>::empty(),
        },
{
    match content {
        Some(s) => s,
        None => String::new(),
    }
}

/// The text of each optional name.
pub open spec fn name_views(v: Seq<Option<String>>) -> Seq<Option<Seq<char>>> {
    v.map_values(
        |o: Option<String>|
            match o {
                Some(s) => Some(s@),
                None => None,
            },
    )
}

/// The numbers among the entry names `names`, in order: the names that
/// parse as a `u32`; an entry without a name (unreadable, or not UTF-8) is
/// passed over.
pub open spec fn ids_of_names(names: Seq<Option<Seq<char>>>) -> Seq<u32>
    decreases names.len(),
{
    if names.len() == 0 {
        Seq::empty()
    } else {
        let rest = ids_of_names(names.drop_last());
        match names.last() {
            Some(n) => match parse_u32_spec(n) {
                Some(v) => rest.push(v),
                None => rest,
            },
            None => rest,
        }
    }
}

/// The ids among the names of the entries of a `/proc` directory.
pub fn ids_from_names(names: &Vec<Option<String>>) -> (r: Vec<u32>)
    ensures
        r@ == ids_of_names(name_views(names@)),
{
    let mut r: Vec<u32> = Vec::new();
    let mut i: usize = 0;
    while i < names.len()
        invariant
            i <= names.len(),
            r@ == ids_of_names(name_views(names@).take(i as int)),
        decreases names.len() - i,
    {
        let ghost nv = name_views(names@);
        assert(nv.take(i + 1).drop_last() =~= nv.take(i as int));
        assert(nv.take(i + 1).last() == nv[i as int]);
        match &names[i] {
            Some(n) => {
                let cs = str_chars(n.as_str());
                match parse_u32(cs.as_slice(), 0, cs.len()) {
                    Some(v) => {
                        assert(cs@.subrange(0, cs.len() as int) =~= cs@);
                        r.push(v);
                    },
                    None => {
                        assert(cs@.subrange(0, cs.len() as int) =~= cs@);
                    },
                }
            },
            None => {},
        }
        i = i + 1;
    }
    assert(name_views(names@).take(i as int) =~= name_views(names@));
    r
}

/// The PIDs listed in `/proc`, from the names of its entries; `None` where the
/// directory could not be read.
pub fn get_pids_of_all_processes(entries: Option<Vec<Option<String>>>) -> (r: Option<Vec<u32>>)
    ensures
        match entries {
            Some(e) => r matches Some(v) && v@ == ids_of_names(name_views(e@)),
            None => r is None,
        },
{
    match entries {
        Some(e) => Some(ids_from_names(&e)),
        None => None,
    }
}

/// The thread ids listed in `/proc/<pid>/task`, from the names of its
/// entries; `None` where the directory could not be read.
pub fn proc_get_threads_ids(entries: Option<Vec<Option<String>>>) -> (r: Option<Vec<u32>>)
    ensures
        match entries {
            Some(e) => r matches Some(v) && v@ == ids_of_names(name_views(e@)),
            None => r is None,
        },
{
    match entries {
        Some(e) => Some(ids_from_names(&e)),
        None => None,
    }
}

/// The path of the file `file` of process `pid`.
pub open spec fn proc_path_spec(pid: u32, file: Seq<char>) -> Seq<char> {
    "/proc/"@ + decimal(pid as nat) + "/"@ + file
}

/// The path of the file `file` of thread `tid` of process `pid`.
pub open spec fn thread_path_spec(pid: u32, tid: u32, file: Seq<char>) -> Seq<char> {
    "/proc/"@ + decimal(pid as nat) + "/task/"@ + decimal(tid as nat) + "/"@ + file
}

/// `/proc/<pid>/<file>`.
pub fn proc_file_path(pid: u32, file: &str) -> (r: String)
    ensures
        r@ == proc_path_spec(pid, file@),
{
    let mut r = String::from_str("/proc/");
    let d = decimal_string(pid as u64);
    r.append(d.as_str());
    r.append("/");
    r.append(file);
    r
}

/// `/proc/<pid>/task/<tid>/<file>`.
pub fn thread_file_path(pid: u32, tid: u32, file: &str) -> (r: String)
    ensures
        r@ == thread_path_spec(pid, tid, file@),
{
    let mut r = String::from_str("/proc/");
    let d = decimal_string(pid as u64);
    r.append(d.as_str());
    r.append("/task/");
    let t = decimal_string(tid as u64);
    r.append(t.as_str());
    r.append("/");
    r.append(file);
    r
}

/// What was read for one thread of a process.
pub struct TaskFiles {
    /// The thread id, as listed in `/proc/<pid>/task`.
    pub tid: u32,
    /// The text of `/proc/<tid>/comm`, or `None` if it could not be read.
    pub comm: Option<String>,
    /// The text of `/proc/<pid>/task/<tid>/comm`, or `None` if it could not
    /// be read.
    pub task_comm: Option<String>,
}

/// What was read for one process listed in `/proc`.
pub struct ProcFiles {
    /// The PID, as listed in `/proc`.
    pub pid: u32,
    /// The bytes that one read of `/proc/<pid>/stat` into a 512-byte buffer
    /// gave, or `None` if the file could not be opened or read.
    pub stat: Option<Vec<u8>>,
    /// The same for `/proc/<pid>/status`.
    pub status: Option<Vec<u8>>,
    /// The threads listed in `/proc/<pid>/task`, in the order of
    /// `proc_get_threads_ids`, or `None` if that directory could not be read.
    pub tasks: Option<Vec<TaskFiles>>,
}

/// The `stat` record of a process's files.
pub open spec fn stat_of_files(p: ProcFiles) -> Option<StatModel> {
    match p.stat {
        Some(b) => stat_of_bytes(b@),
        None => None,
    }
}

/// Whether the `stat` file of a process's files would be sliced out of
/// bounds by `file_get_stat`.
pub open spec fn stat_files_panic(p: ProcFiles) -> bool {
    match p.stat {
        Some(b) => stat_bytes_panic(b@),
        None => false,
    }
}

/// The thread group id of a process's files.
pub open spec fn tgid_of_files(p: ProcFiles) -> Option<u32> {
    match p.status {
        Some(b) => tgid_of_bytes(b@),
        None => None,
    }
}

/// The name that a `comm` text gives (empty where it was not read).
pub open spec fn name_of(o: Option<String>) -> Seq<char> {
    match o {
        Some(s) => s@,
        None => Seq::empty(),
    }
}

/// Decides `stat_bytes_panic`: whether `file_get_stat` may not be called on
/// `content` (parsing it would slice out of bounds; a caller fails there).
pub fn stat_would_panic(content: &[u8]) -> (r: bool)
    ensures
        r == stat_bytes_panic(content@),
{
    let s = match decode_chars(content) {
        Some(v) => v,
        None => return false,
    };
    let o = match find_char(s.as_slice(), '(') {
        Some(k) => k,
        None => return false,
    };
    let c = match rfind_char(s.as_slice(), ')') {
        Some(k) => k,
        None => return false,
    };
    c < o || c + 1 >= s.len() || (s[c + 1] as u32) >= 0x80
}

/// Decides `stat_files_panic`.
pub fn stat_files_would_panic(p: &ProcFiles) -> (r: bool)
    ensures
        r == stat_files_panic(*p),
{
    match &p.stat {
        Some(b) => stat_would_panic(b.as_slice()),
        None => false,
    }
}

} // verus!
