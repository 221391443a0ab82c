//! Text primitives over sequences of characters: Unicode white space,
//! whitespace-separated tokens, lines, and decimal numbers.
use vstd::prelude::*;
use vstd::utf8::{decode_utf8, valid_utf8};

verus! {

/// Unicode `White_Space` (what `char::is_whitespace` accepts).
pub open spec fn is_whitespace(c: char) -> bool {
    let v = c as u32;
    ||| 0x09 <= v <= 0x0D
    ||| v == 0x20
    ||| v == 0x85
    ||| v == 0xA0
    ||| v == 0x1680
    ||| 0x2000 <= v <= 0x200A
    ||| v == 0x2028
    ||| v == 0x2029
    ||| v == 0x202F
    ||| v == 0x205F
    ||| v == 0x3000
}

/// Decides `is_whitespace`.
pub fn char_is_whitespace(c: char) -> (r: bool)
    ensures
        r == is_whitespace(c),
{
    let v = c as u32;
    (0x09 <= v && v <= 0x0D) || v == 0x20 || v == 0x85 || v == 0xA0 || v == 0x1680 || (0x2000
        <= v && v <= 0x200A) || v == 0x2028 || v == 0x2029 || v == 0x202F || v == 0x205F || v
        == 0x3000
}

/// Scanning state after reading `s` from the left: the spans of the tokens
/// that are already closed, and the start of the token being read, if any.
pub open spec fn token_scan(s: Seq<char>) -> (Seq<(int, int)>, Option<int>)
    decreases s.len(),
{
    if s.len() == 0 {
        (Seq::empty(), None)
    } else {
        let (done, start) = token_scan(s.drop_last());
        let n = s.len() as int;
        if is_whitespace(s.last()) {
            match start {
                Some(k) => (done.push((k, n - 1)), None),
                None => (done, None),
            }
        } else {
            match start {
                Some(k) => (done, Some(k)),
                None => (done, Some(n - 1)),
            }
        }
    }
}

/// The spans `[start, end)` of the maximal runs of non-whitespace characters
/// of `s`, from left to right.
pub open spec fn token_spans(s: Seq<char>) -> Seq<(int, int)> {
    let (done, start) = token_scan(s);
    match start {
        Some(k) => done.push((k, s.len() as int)),
        None => done,
    }
}

/// The whitespace-separated tokens of `s` (what `str::split_whitespace`
/// yields).
pub open spec fn tokens(s: Seq<char>) -> Seq<Seq<char>> {
    token_spans(s).map_values(|p: (int, int)| s.subrange(p.0, p.1))
}

/// The spans as pairs of integers.
pub open spec fn span_ints(v: Seq<(usize, usize)>) -> Seq<(int, int)> {
    v.map_values(|p: (usize, usize)| (p.0 as int, p.1 as int))
}

/// The position as an integer.
pub open spec fn opt_int(o: Option<usize>) -> Option<int> {
    match o {
        Some(k) => Some(k as int),
        None => None,
    }
}

/// Spans of the whitespace-separated tokens of `s`.
pub fn token_spans_of(s: &[char]) -> (r: Vec<(usize, usize)>)
    ensures
        span_ints(r@) == token_spans(s@),
        forall|j: int| #![trigger r[j]] 0 <= j < r.len() ==> r[j].0 < r[j].1 <= s.len(),
{
    let mut done: Vec<(usize, usize)> = Vec::new();
    let mut start: Option<usize> = None;
    let mut i: usize = 0;
    while i < s.len()
        invariant
            i <= s.len(),
            (span_ints(done@), opt_int(start)) == token_scan(s@.take(i as int)),
            forall|j: int| #![trigger done[j]] 0 <= j < done.len() ==> done[j].0 < done[j].1 <= i,
            start matches Some(k) ==> k < i,
        decreases s.len() - i,
    {
        assert(s@.take(i + 1).drop_last() =~= s@.take(i as int));
        if char_is_whitespace(s[i]) {
            if let Some(k) = start {
                let ghost before = done@;
                done.push((k, i));
                assert(span_ints(done@) =~= span_ints(before).push((k as int, i as int)));
                start = None;
            }
        } else {
            if start.is_none() {
                start = Some(i);
            }
        }
        i = i + 1;
    }
    assert(s@.take(i as int) =~= s@);
    if let Some(k) = start {
        let ghost before = done@;
        done.push((k, s.len()));
        assert(span_ints(done@) =~= span_ints(before).push((k as int, s.len() as int)));
    }
    done
}

/// Copy of `s[from..to]`.
pub fn copy_range(s: &[char], from: usize, to: usize) -> (r: Vec<char>)
    requires
        from <= to <= s.len(),
    ensures
        r@ == s@.subrange(from as int, to as int),
{
    let mut r: Vec<char> = Vec::new();
    let mut i = from;
    while i < to
        invariant
            from <= i <= to <= s.len(),
            r@ == s@.subrange(from as int, i as int),
        decreases to - i,
    {
        r.push(s[i]);
        i = i + 1;
        assert(r@ =~= s@.subrange(from as int, i as int));
    }
    r
}

/// Scanning state of `str::lines` after reading `s` from the left: the spans
/// of the lines already ended by a line feed (a carriage return right before
/// it is not part of the line), and the start of the current line.
pub open spec fn line_scan(s: Seq<char>) -> (Seq<(int, int)>, int)
    decreases s.len(),
{
    if s.len() == 0 {
        (Seq::empty(), 0)
    } else {
        let (done, start) = line_scan(s.drop_last());
        let n = s.len() as int;
        if s.last() == '\n' {
            let end = if n - 1 > start && s[n - 2] == '\r' {
                n - 2
            } else {
                n - 1
            };
            (done.push((start, end)), n)
        } else {
            (done, start)
        }
    }
}

/// Spans of the lines of `s`; a last line without a line feed counts if it is
/// not empty.
pub open spec fn line_spans(s: Seq<char>) -> Seq<(int, int)> {
    let (done, start) = line_scan(s);
    if start < s.len() {
        done.push((start, s.len() as int))
    } else {
        done
    }
}

/// The lines of `s` (what `str::lines` yields).
pub open spec fn lines(s: Seq<char>) -> Seq<Seq<char>> {
    line_spans(s).map_values(|p: (int, int)| s.subrange(p.0, p.1))
}

/// Spans of the lines of `s`.
pub fn line_spans_of(s: &[char]) -> (r: Vec<(usize, usize)>)
    ensures
        span_ints(r@) == line_spans(s@),
        forall|j: int| #![trigger r[j]] 0 <= j < r.len() ==> r[j].0 <= r[j].1 <= s.len(),
{
    let mut done: Vec<(usize, usize)> = Vec::new();
    let mut start: usize = 0;
    let mut i: usize = 0;
    while i < s.len()
        invariant
            i <= s.len(),
            start <= i,
            (span_ints(done@), start as int) == line_scan(s@.take(i as int)),
            forall|j: int| #![trigger done[j]] 0 <= j < done.len() ==> done[j].0 <= done[j].1 <= i,
        decreases s.len() - i,
    {
        assert(s@.take(i + 1).drop_last() =~= s@.take(i as int));
        if s[i] == '\n' {
            let end = if i > start && s[i - 1] == '\r' {
                i - 1
            } else {
                i
            };
            let ghost before = done@;
            done.push((start, end));
            assert(span_ints(done@) =~= span_ints(before).push((start as int, end as int)));
            assert(forall|j: int| #![trigger done[j]] 0 <= j < done.len() ==> done[j].0 <= done[j].1 <= i + 1);
            start = i + 1;
        }
        i = i + 1;
    }
    assert(s@.take(i as int) =~= s@);
    assert(i == s.len());
    if start < s.len() {
        let ghost before = done@;
        done.push((start, s.len()));
        assert(span_ints(done@) =~= span_ints(before).push((start as int, s.len() as int)));
        assert(forall|j: int| #![trigger done[j]] 0 <= j < done.len() ==> done[j].0 <= done[j].1 <= s.len());
    }
    done
}

/// An ASCII decimal digit.
pub open spec fn is_digit(c: char) -> bool {
    48 <= (c as u32) <= 57
}

/// The value of the decimal digit `c`.
pub open spec fn digit_value(c: char) -> nat {
    ((c as u32) - 48) as nat
}

/// Whether every character of `s` is a decimal digit.
pub open spec fn all_digits(s: Seq<char>) -> bool {
    forall|i: int| 0 <= i < s.len() ==> is_digit(#[trigger] s[i])
}

/// The number that the decimal digits `s` write.
pub open spec fn digits_value(s: Seq<char>) -> nat
    decreases s.len(),
{
    if s.len() == 0 {
        0
    } else {
        digits_value(s.drop_last()) * 10 + digit_value(s.last())
    }
}

/// What `str::parse` gives for an unsigned integer type whose largest value is
/// `max`: an optional `+` (not alone), then decimal digits only, the number not
/// above `max`.
pub open spec fn parse_unsigned(s: Seq<char>, max: nat) -> Option<nat> {
    let digits = if s.len() > 1 && s[0] == '+' {
        s.drop_first()
    } else {
        s
    };
    if s.len() > 0 && all_digits(digits) && digits_value(digits) <= max {
        Some(digits_value(digits))
    } else {
        None
    }
}

/// What `str::parse::<u32>` gives for `s`.
pub open spec fn parse_u32_spec(s: Seq<char>) -> Option<u32> {
    match parse_unsigned(s, u32::MAX as nat) {
        Some(v) => Some(v as u32),
        None => None,
    }
}

/// What `str::parse::<u64>` gives for `s`.
pub open spec fn parse_u64_spec(s: Seq<char>) -> Option<u64> {
    match parse_unsigned(s, u64::MAX as nat) {
        Some(v) => Some(v as u64),
        None => None,
    }
}

/// What `str::parse::<i32>` gives: a `-` (not alone) and digits whose number is
/// at most 2^31, or what the unsigned rule gives with the largest value
/// 2^31 - 1.
pub open spec fn parse_i32_spec(s: Seq<char>) -> Option<i32> {
    if s.len() > 1 && s[0] == '-' {
        let d = s.drop_first();
        if all_digits(d) && digits_value(d) <= 0x8000_0000 {
            Some((0 - digits_value(d)) as i32)
        } else {
            None
        }
    } else {
        match parse_unsigned(s, 0x7fff_ffff) {
            Some(v) => Some(v as i32),
            None => None,
        }
    }
}

proof fn lemma_digits_value_prefix(s: Seq<char>, k: int)
    requires
        all_digits(s),
        0 <= k <= s.len(),
    ensures
        digits_value(s.take(k)) <= digits_value(s),
    decreases s.len(),
{
    if k < s.len() {
        let t = s.drop_last();
        assert(t.take(k) =~= s.take(k));
        assert(all_digits(t));
        lemma_digits_value_prefix(t, k);
    } else {
        assert(s.take(k) =~= s);
    }
}

/// Decides whether `c` is an ASCII decimal digit.
pub fn char_is_digit(c: char) -> (r: bool)
    ensures
        r == is_digit(c),
{
    let v = c as u32;
    48 <= v && v <= 57
}

/// The number written by the decimal digits `s[from..to]`, if they are all
/// digits and the number fits in a `u64`.
pub fn digits_value_of(s: &[char], from: usize, to: usize) -> (r: Option<u64>)
    requires
        from <= to <= s.len(),
    ensures
        r == (if all_digits(s@.subrange(from as int, to as int)) && digits_value(
            s@.subrange(from as int, to as int),
        ) <= u64::MAX {
            Some(digits_value(s@.subrange(from as int, to as int)) as u64)
        } else {
            None
        }),
{
    let ghost whole = s@.subrange(from as int, to as int);
    let mut acc: u64 = 0;
    let mut i = from;
    while i < to
        invariant
            from <= i <= to <= s.len(),
            whole == s@.subrange(from as int, to as int),
            all_digits(s@.subrange(from as int, i as int)),
            acc as nat == digits_value(s@.subrange(from as int, i as int)),
        decreases to - i,
    {
        let c = s[i];
        let ghost next = s@.subrange(from as int, i + 1);
        assert(next.drop_last() =~= s@.subrange(from as int, i as int));
        assert(next.last() == c);
        assert(next =~= whole.take(i + 1 - from));
        if !char_is_digit(c) {
            assert(whole[i - from] == c);
            return None;
        }
        let d = (c as u32 - 48) as u64;
        match acc.checked_mul(10) {
            Some(m) => match m.checked_add(d) {
                Some(v) => {
                    acc = v;
                },
                None => {
                    proof {
                        if all_digits(whole) {
                            lemma_digits_value_prefix(whole, i + 1 - from);
                        }
                    }
                    return None;
                },
            },
            None => {
                proof {
                    if all_digits(whole) {
                        lemma_digits_value_prefix(whole, i + 1 - from);
                    }
                }
                return None;
            },
        }
        i = i + 1;
    }
    Some(acc)
}

/// `s[from..to].parse::<u64>()`, as an `Option`.
pub fn parse_u64(s: &[char], from: usize, to: usize) -> (r: Option<u64>)
    requires
        from <= to <= s.len(),
    ensures
        r == parse_u64_spec(s@.subrange(from as int, to as int)),
{
    let ghost t = s@.subrange(from as int, to as int);
    if from == to {
        return None;
    }
    let start = if to - from > 1 && s[from] == '+' {
        assert(t.drop_first() =~= s@.subrange(from + 1, to as int));
        from + 1
    } else {
        from
    };
    digits_value_of(s, start, to)
}

/// `s[from..to].parse::<u32>()`, as an `Option`.
pub fn parse_u32(s: &[char], from: usize, to: usize) -> (r: Option<u32>)
    requires
        from <= to <= s.len(),
    ensures
        r == parse_u32_spec(s@.subrange(from as int, to as int)),
{
    let ghost t = s@.subrange(from as int, to as int);
    if from == to {
        return None;
    }
    let start = if to - from > 1 && s[from] == '+' {
        assert(t.drop_first() =~= s@.subrange(from + 1, to as int));
        from + 1
    } else {
        from
    };
    match digits_value_of(s, start, to) {
        Some(v) => {
            if v <= 0xffff_ffff {
                Some(v as u32)
            } else {
                None
            }
        },
        None => None,
    }
}

/// `s[from..to].parse::<i32>()`, as an `Option`.
pub fn parse_i32(s: &[char], from: usize, to: usize) -> (r: Option<i32>)
    requires
        from <= to <= s.len(),
    ensures
        r == parse_i32_spec(s@.subrange(from as int, to as int)),
{
    let ghost t = s@.subrange(from as int, to as int);
    if from == to {
        return None;
    }
    if to - from > 1 && s[from] == '-' {
        assert(t.drop_first() =~= s@.subrange(from + 1, to as int));
        match digits_value_of(s, from + 1, to) {
            Some(v) => {
                if v <= 0x8000_0000 {
                    let x: i64 = 0 - (v as i64);
                    Some(x as i32)
                } else {
                    None
                }
            },
            None => None,
        }
    } else {
        let start = if to - from > 1 && s[from] == '+' {
            assert(t.drop_first() =~= s@.subrange(from + 1, to as int));
            from + 1
        } else {
            from
        };
        match digits_value_of(s, start, to) {
            Some(v) => {
                if v <= 0x7fff_ffff {
                    Some(v as i32)
                } else {
                    None
                }
            },
            None => None,
        }
    }
}

/// `std::str::from_utf8`, with the error dropped. Its documentation: the call
/// fails exactly when the bytes are not valid UTF-8, and otherwise gives the
/// string whose encoding they are. The contract states this over vstd's
/// `valid_utf8` and `decode_utf8`.
#[verifier::external_body]
fn str_from_utf8(bytes: &[u8]) -> (r: Option<&str>)
    ensures
        r is Some <==> valid_utf8(bytes@),
        r matches Some(s) ==> s@ == decode_utf8(bytes@),
{
    std::str::from_utf8(bytes).ok()
}

/// The characters of `s`.
pub fn str_chars(s: &str) -> (r: Vec<char>)
    ensures
        r@ == s@,
{
    let mut r: Vec<char> = Vec::new();
    for c in it: s.chars()
        invariant
            r@ == it.seq().take(it.index() as int),
    {
        r.push(c);
    }
    r
}

/// The characters that `bytes` encode, if they are valid UTF-8.
pub fn decode_chars(bytes: &[u8]) -> (r: Option<Vec<char>>)
    ensures
        r is Some <==> valid_utf8(bytes@),
        r matches Some(v) ==> v@ == decode_utf8(bytes@),
{
    match str_from_utf8(bytes) {
        Some(s) => Some(str_chars(s)),
        None => None,
    }
}

/// `String::push`: appends the character (std's documentation).
#[verifier::external_body]
pub(crate) fn string_push(s: &mut String, c: char)
    ensures
        final(s)@ == old(s)@.push(c),
{
    s.push(c)
}

/// The string made of the characters `s`.
pub fn string_of_chars(s: &[char]) -> (r: String)
    ensures
        r@ == s@,
{
    let mut r = String::new();
    let mut i: usize = 0;
    while i < s.len()
        invariant
            i <= s.len(),
            r@ == s@.take(i as int),
        decreases s.len() - i,
    {
        string_push(&mut r, s[i]);
        i = i + 1;
        assert(r@ =~= s@.take(i as int));
    }
    assert(s@.take(i as int) =~= s@);
    r
}

/// The decimal digit character for `d < 10`.
pub open spec fn digit_char(d: nat) -> char {
    (d + 48) as char
}

/// The decimal notation of `n`, without leading zeros (`0` for zero).
pub open spec fn decimal(n: nat) -> Seq<char>
    decreases n,
{
    if n < 10 {
        seq![digit_char(n)]
    } else {
        decimal(n / 10).push(digit_char(n % 10))
    }
}

proof fn lemma_decimal(n: nat)
    ensures
        decimal(n).len() >= 1,
        all_digits(decimal(n)),
        digits_value(decimal(n)) == n,
    decreases n,
{
    if n < 10 {
        assert(digit_char(n) as u32 == n + 48);
        assert(decimal(n).drop_last() =~= Seq::<char>::empty());
        assert(decimal(n).last() == digit_char(n));
        assert(digit_value(digit_char(n)) == n);
        assert(digits_value(Seq::<char>::empty()) == 0);
    } else {
        lemma_decimal(n / 10);
        let d = decimal(n / 10);
        let c = digit_char(n % 10);
        assert(c as u32 == n % 10 + 48);
        assert(d.push(c).drop_last() =~= d);
        assert(d.push(c).last() == c);
        assert(digit_value(c) == n % 10);
        assert(decimal(n) == d.push(c));
        assert(digits_value(d.push(c)) == (n / 10) * 10 + n % 10);
        assert((n / 10) * 10 + n % 10 == n) by (nonlinear_arith);
    }
}

/// Law: the decimal notation of a `u32` parses back to it (a PID written
/// into a path is read back from a directory name unchanged).
pub proof fn law_decimal_reads_back(n: u32)
    ensures
        parse_u32_spec(decimal(n as nat)) == Some(n),
{
    lemma_decimal(n as nat);
    let s = decimal(n as nat);
    assert(is_digit(s[0]));
}

/// The decimal digits of `n` (what `u64::to_string` writes).
pub fn decimal_chars(n: u64) -> (r: Vec<char>)
    ensures
        r@ == decimal(n as nat),
    decreases n,
{
    if n < 10 {
        let c = ((n as u8) + 48) as char;
        let mut r: Vec<char> = Vec::new();
        r.push(c);
        assert(r@ =~= seq![digit_char(n as nat)]);
        r
    } else {
        let mut r = decimal_chars(n / 10);
        let d = ((n % 10) as u8 + 48) as char;
        r.push(d);
        r
    }
}

/// `n.to_string()`.
pub fn decimal_string(n: u64) -> (r: String)
    ensures
        r@ == decimal(n as nat),
{
    let v = decimal_chars(n);
    string_of_chars(v.as_slice())
}

} // verus!
