//! Reading pass/fail counts out of the text that `pytest -q` prints.
//!
//! Every line that mentions `passed`, `failed` or `error` loses the runs of
//! `=` that pytest may frame its summary with, and is cut at commas;
//! each piece loses anything from ` in ` on, and its first word, read as a
//! `u32`, is the count of the piece. A piece that mentions `passed` sets the
//! passed count (the last such piece wins); one that mentions `failed` or
//! `error` adds to the failed count (both, if it mentions both).
use vstd::prelude::*;
use crate::text::{
    char_code,
    chars_of, contains, contains_chars, decimal, digit_char, lemma_contains_subrange,
    lemma_find_from_finds, lemma_find_from_occurs, trim_end, trim_start, word_len, lemma_contains_trim,
    lemma_split_concat, lemma_split_nonempty, lemma_split_single, find, find_chars, first_word, first_word_chars, split,
    is_whitespace, is_ws, split_chars, sub_vec, trim, trim_chars,
};

verus! {

broadcast use vstd::seq_lib::group_seq_properties;

/// The largest value the failed counter can take before it is known to
/// exceed `u32::MAX`.
pub open spec fn count_cap() -> int {
    0x1_0000_0000
}

/// `x`, capped at [`count_cap`].
pub open spec fn capped(x: int) -> int {
    if x > count_cap() {
        count_cap()
    } else {
        x
    }
}

/// An ASCII decimal digit.
pub open spec fn is_digit(c: char) -> bool {
    48 <= c as int <= 57
}

/// Every char of `d` is an ASCII digit.
pub open spec fn all_digits(d: Seq<char>) -> bool {
    forall|i: int| 0 <= i < d.len() ==> is_digit(#[trigger] d[i])
}

/// The number that the decimal digits `d` denote.
pub open spec fn digits_value(d: Seq<char>) -> int
    decreases d.len(),
{
    if d.len() == 0 {
        0
    } else {
        digits_value(d.drop_last()) * 10 + (d.last() as int - 48)
    }
}

/// What `str::parse::<u32>` gives: an optional `+`, then one or more ASCII
/// digits whose value fits in a `u32`.
pub open spec fn parse_u32(t: Seq<char>) -> Option<u32> {
    let d = if t.len() > 0 && t[0] == '+' {
        t.drop_first()
    } else {
        t
    };
    if d.len() > 0 && all_digits(d) && digits_value(d) <= u32::MAX {
        Some(digits_value(d) as u32)
    } else {
        None
    }
}

pub open spec fn word_passed() -> Seq<char> {
    seq!['p', 'a', 's', 's', 'e', 'd']
}

pub open spec fn word_failed() -> Seq<char> {
    seq!['f', 'a', 'i', 'l', 'e', 'd']
}

pub open spec fn word_error() -> Seq<char> {
    seq!['e', 'r', 'r', 'o', 'r']
}

/// The separator before the duration: ` in `.
pub open spec fn duration_marker() -> Seq<char> {
    seq![' ', 'i', 'n', ' ']
}

/// A piece of a summary line, trimmed and cut before ` in `, trimmed again.
pub open spec fn clean_part(part: Seq<char>) -> Seq<char> {
    let p1 = trim(part);
    let p2 = match find(p1, duration_marker()) {
        Some(i) => p1.take(i),
        None => p1,
    };
    trim(p2)
}

/// The tally `(passed, failed)` after one comma-separated piece.
pub open spec fn part_effect(t: (int, int), part: Seq<char>) -> (int, int) {
    let p = clean_part(part);
    match first_word(p) {
        Some(w) => match parse_u32(w) {
            Some(n) => (
                if contains(p, word_passed()) {
                    n as int
                } else {
                    t.0
                },
                t.1 + (if contains(p, word_failed()) {
                    n as int
                } else {
                    0
                }) + (if contains(p, word_error()) {
                    n as int
                } else {
                    0
                }),
            ),
            None => t,
        },
        None => t,
    }
}

/// The tally after the pieces `parts`, in order.
pub open spec fn tally_parts(t: (int, int), parts: Seq<Seq<char>>) -> (int, int)
    decreases parts.len(),
{
    if parts.len() == 0 {
        t
    } else {
        part_effect(tally_parts(t, parts.drop_last()), parts.last())
    }
}

/// A line counts only when it mentions `passed`, `failed` or `error`.
pub open spec fn is_summary_line(l: Seq<char>) -> bool {
    contains(l, word_passed()) || contains(l, word_failed()) || contains(l, word_error())
}

/// A char of the frame that pytest draws round its summary line
/// (`==== 4 passed in 0.01s ====`): `=` or whitespace.
pub open spec fn is_frame(c: char) -> bool {
    c == '=' || is_ws(c)
}

/// `s` without its leading frame chars.
pub open spec fn unframe_start(s: Seq<char>) -> Seq<char>
    decreases s.len(),
{
    if s.len() > 0 && is_frame(s[0]) {
        unframe_start(s.drop_first())
    } else {
        s
    }
}

/// `s` without its trailing frame chars.
pub open spec fn unframe_end(s: Seq<char>) -> Seq<char>
    decreases s.len(),
{
    if s.len() > 0 && is_frame(s.last()) {
        unframe_end(s.drop_last())
    } else {
        s
    }
}

/// `s` without the runs of `=` and whitespace that frame it.
pub open spec fn unframe(s: Seq<char>) -> Seq<char> {
    unframe_end(unframe_start(s))
}

/// The tally after one line: a line that names a result is read without
/// its frame, piece by piece.
pub open spec fn line_effect(t: (int, int), line: Seq<char>) -> (int, int) {
    let l = trim(line);
    if is_summary_line(l) {
        tally_parts(t, split(unframe(l), ','))
    } else {
        t
    }
}

/// The tally after the lines `ls`, in order, starting from `(0, 0)`.
pub open spec fn tally_lines(ls: Seq<Seq<char>>) -> (int, int)
    decreases ls.len(),
{
    if ls.len() == 0 {
        (0, 0)
    } else {
        line_effect(tally_lines(ls.drop_last()), ls.last())
    }
}

/// A line without the `\r` of a `\r\n` ending.
pub open spec fn strip_cr(l: Seq<char>) -> Seq<char> {
    if l.len() > 0 && l.last() == '\r' {
        l.drop_last()
    } else {
        l
    }
}

/// The lines of `s` as `str::lines` yields them: split at `\n`, a `\r`
/// before a `\n` dropped, no final empty line after a trailing `\n`.
pub open spec fn lines(s: Seq<char>) -> Seq<Seq<char>> {
    let ps = split(s, '\n');
    let body = ps.drop_last().map_values(|l: Seq<char>| strip_cr(l));
    if ps.last().len() == 0 {
        body
    } else {
        body.push(ps.last())
    }
}

/// `(passed, failed)` as counted from the whole of `s`, in unbounded integers.
pub open spec fn summary_tally(s: Seq<char>) -> (int, int) {
    tally_lines(lines(s))
}

/// The counts of `s`, and their sum, fit in a `u32`.
pub open spec fn summary_fits(s: Seq<char>) -> bool {
    summary_tally(s).0 + summary_tally(s).1 <= u32::MAX
}

proof fn lemma_digits_prefix_le(d: Seq<char>, k: int)
    requires
        all_digits(d),
        0 <= k <= d.len(),
    ensures
        digits_value(d.take(k)) <= digits_value(d),
        0 <= digits_value(d),
    decreases d.len(),
{
    if d.len() == 0 {
        assert(d.take(k) =~= d);
    } else if k == d.len() {
        assert(d.take(k) =~= d);
        lemma_digits_prefix_le(d.drop_last(), k - 1);
    } else {
        lemma_digits_prefix_le(d.drop_last(), k);
        assert(d.drop_last().take(k) =~= d.take(k));
        assert(is_digit(d[d.len() - 1]));
    }
}

proof fn lemma_tally_parts_bounds(t: (int, int), parts: Seq<Seq<char>>)
    requires
        0 <= t.0 <= u32::MAX,
        0 <= t.1,
    ensures
        0 <= tally_parts(t, parts).0 <= u32::MAX,
        t.1 <= tally_parts(t, parts).1,
    decreases parts.len(),
{
    if parts.len() > 0 {
        lemma_tally_parts_bounds(t, parts.drop_last());
    }
}

proof fn lemma_tally_lines_bounds(ls: Seq<Seq<char>>)
    ensures
        0 <= tally_lines(ls).0 <= u32::MAX,
        0 <= tally_lines(ls).1,
    decreases ls.len(),
{
    if ls.len() > 0 {
        lemma_tally_lines_bounds(ls.drop_last());
        lemma_tally_parts_bounds(tally_lines(ls.drop_last()), split(unframe(trim(ls.last())), ','));
    }
}

fn word_passed_chars() -> (r: Vec<char>)
    ensures
        r@ == word_passed(),
{
    let mut r = Vec::new();
    r.push('p');
    r.push('a');
    r.push('s');
    r.push('s');
    r.push('e');
    r.push('d');
    assert(r@ =~= word_passed());
    r
}

fn word_failed_chars() -> (r: Vec<char>)
    ensures
        r@ == word_failed(),
{
    let mut r = Vec::new();
    r.push('f');
    r.push('a');
    r.push('i');
    r.push('l');
    r.push('e');
    r.push('d');
    assert(r@ =~= word_failed());
    r
}

fn word_error_chars() -> (r: Vec<char>)
    ensures
        r@ == word_error(),
{
    let mut r = Vec::new();
    r.push('e');
    r.push('r');
    r.push('r');
    r.push('o');
    r.push('r');
    assert(r@ =~= word_error());
    r
}

fn duration_marker_chars() -> (r: Vec<char>)
    ensures
        r@ == duration_marker(),
{
    let mut r = Vec::new();
    r.push(' ');
    r.push('i');
    r.push('n');
    r.push(' ');
    assert(r@ =~= duration_marker());
    r
}

/// `t` read as a `u32` the way `str::parse::<u32>` reads it.
pub fn parse_u32_chars(t: &Vec<char>) -> (r: Option<u32>)
    ensures
        r == parse_u32(t@),
{
    let n = t.len();
    let start: usize = if n > 0 && t[0] == '+' {
        1
    } else {
        0
    };
    let ghost d = if t@.len() > 0 && t@[0] == '+' {
        t@.drop_first()
    } else {
        t@
    };
    assert(d =~= t@.subrange(start as int, n as int));
    if start == n {
        return None;
    }
    let mut acc: u64 = 0;
    let mut i = start;
    assert(d.take(0) =~= Seq::<char>::empty());
    while i < n
        invariant
            start <= i <= n == t.len(),
            start < n,
            d =~= t@.subrange(start as int, n as int),
            d == (if t@.len() > 0 && t@[0] == '+' {
                t@.drop_first()
            } else {
                t@
            }),
            all_digits(d.take(i - start)),
            acc == digits_value(d.take(i - start)),
            acc <= u32::MAX,
        decreases n - i,
    {
        let c = t[i];
        let v = char_code(c);
        assert(d[i - start] == c);
        if !(48 <= v && v <= 57) {
            assert(!is_digit(d[i - start]));
            assert(!all_digits(d));
            return None;
        }
        let ghost k = i - start;
        assert(d.take(k + 1).drop_last() =~= d.take(k));
        assert(d.take(k + 1).last() == c);
        acc = acc * 10 + (v - 48) as u64;
        assert(acc == digits_value(d.take(k + 1)));
        assert(all_digits(d.take(k + 1))) by {
            assert forall|j: int| 0 <= j < k + 1 implies is_digit(#[trigger] d.take(k + 1)[j]) by {
                if j < k {
                    assert(d.take(k + 1)[j] == d.take(k)[j]);
                }
            }
        }
        if acc > 0xffff_ffff {
            proof {
                if all_digits(d) {
                    lemma_digits_prefix_le(d, k + 1);
                }
            }
            return None;
        }
        i += 1;
    }
    assert(d.take(n - start) =~= d);
    Some(acc as u32)
}

/// `x + n`, capped at [`count_cap`].
fn capped_add(x: u64, n: u32) -> (r: u64)
    requires
        x <= count_cap(),
    ensures
        r == capped(x + n),
{
    let s = x + n as u64;
    if s > 0x1_0000_0000 {
        0x1_0000_0000
    } else {
        s
    }
}

/// The tally after one piece, with the failed count held capped.
fn tally_part(passed: u32, failed: u64, part: &Vec<char>, Ghost(t): Ghost<(int, int)>) -> (r: (
    u32,
    u64,
))
    requires
        passed == t.0,
        0 <= t.1,
        failed == capped(t.1),
    ensures
        r.0 == part_effect(t, part@).0,
        r.1 == capped(part_effect(t, part@).1),
{
    let p1 = trim_chars(part);
    let marker = duration_marker_chars();
    let p2 = match find_chars(&p1, &marker) {
        Some(i) => {
            let c = sub_vec(&p1, 0, i);
            assert(c@ =~= p1@.take(i as int));
            c
        },
        None => p1,
    };
    let p = trim_chars(&p2);
    assert(p@ == clean_part(part@));
    match first_word_chars(&p) {
        None => (passed, failed),
        Some(w) => match parse_u32_chars(&w) {
            None => (passed, failed),
            Some(n) => {
                let np = if contains_chars(&p, &word_passed_chars()) {
                    n
                } else {
                    passed
                };
                let mut nf = failed;
                let ghost mut f = t.1;
                if contains_chars(&p, &word_failed_chars()) {
                    nf = capped_add(nf, n);
                    proof {
                        f = f + n;
                    }
                }
                if contains_chars(&p, &word_error_chars()) {
                    nf = capped_add(nf, n);
                    proof {
                        f = f + n;
                    }
                }
                (np, nf)
            },
        },
    }
}

/// The tally after one line, with the failed count held capped.
/// Whether `c` is `=` or whitespace.
fn is_frame_char(c: char) -> (r: bool)
    ensures
        r == is_frame(c),
{
    c == '=' || is_whitespace(c)
}

/// `v` without the runs of `=` and whitespace that frame it.
fn unframe_chars(v: &Vec<char>) -> (r: Vec<char>)
    ensures
        r@ == unframe(v@),
{
    let n = v.len();
    let mut i: usize = 0;
    assert(v@.subrange(0, n as int) =~= v@);
    while i < n && is_frame_char(v[i])
        invariant
            i <= n == v.len(),
            unframe_start(v@) == unframe_start(v@.subrange(i as int, n as int)),
        decreases n - i,
    {
        assert(v@.subrange(i as int, n as int).drop_first() =~= v@.subrange(i + 1, n as int));
        i += 1;
    }
    let t = sub_vec(v, i, n);
    let mut j: usize = t.len();
    assert(t@.take(j as int) =~= t@);
    while j > 0 && is_frame_char(t[j - 1])
        invariant
            j <= t.len(),
            unframe_end(t@) == unframe_end(t@.take(j as int)),
        decreases j,
    {
        assert(t@.take(j as int).drop_last() =~= t@.take(j - 1));
        j -= 1;
    }
    sub_vec(&t, 0, j)
}

fn tally_line(passed: u32, failed: u64, line: &Vec<char>, Ghost(t): Ghost<(int, int)>) -> (r: (
    u32,
    u64,
))
    requires
        passed == t.0,
        0 <= t.1,
        failed == capped(t.1),
    ensures
        r.0 == line_effect(t, line@).0,
        r.1 == capped(line_effect(t, line@).1),
{
    let l = trim_chars(line);
    if !(contains_chars(&l, &word_passed_chars()) || contains_chars(&l, &word_failed_chars())
        || contains_chars(&l, &word_error_chars())) {
        return (passed, failed);
    }
    let core = unframe_chars(&l);
    let parts = split_chars(&core, ',');
    let ghost ps = parts@.map_values(|x: Vec<char>| x@);
    let mut p = passed;
    let mut f = failed;
    assert(ps.take(0) =~= Seq::<Seq<char>>::empty());
    for j in 0..parts.len()
        invariant
            ps == parts@.map_values(|x: Vec<char>| x@),
            ps == split(unframe(l@), ','),
            0 <= t.0 <= u32::MAX,
            0 <= t.1,
            p == tally_parts(t, ps.take(j as int)).0,
            f == capped(tally_parts(t, ps.take(j as int)).1),
    {
        let ghost before = tally_parts(t, ps.take(j as int));
        proof {
            lemma_tally_parts_bounds(t, ps.take(j as int));
        }
        assert(ps.take(j + 1).drop_last() =~= ps.take(j as int));
        assert(ps.take(j + 1).last() == parts@[j as int]@);
        let r = tally_part(p, f, &parts[j], Ghost(before));
        p = r.0;
        f = r.1;
    }
    assert(ps.take(parts@.len() as int) =~= ps);
    (p, f)
}

/// `(passed, failed)` read from `output`, the failed count capped at
/// [`count_cap`].
fn tally_output(output: &str) -> (r: (u32, u64))
    ensures
        r.0 == summary_tally(output@).0,
        r.1 == capped(summary_tally(output@).1),
{
    let chars = chars_of(output);
    let pieces = split_chars(&chars, '\n');
    let ghost ps = pieces@.map_values(|x: Vec<char>| x@);
    assert(ps == split(output@, '\n'));
    proof {
        lemma_split_nonempty(output@, '\n');
    }
    let ghost body = ps.drop_last().map_values(|l: Seq<char>| strip_cr(l));
    let last = pieces.len() - 1;
    let mut p: u32 = 0;
    let mut f: u64 = 0;
    assert(body.take(0) =~= Seq::<Seq<char>>::empty());
    for k in 0..last
        invariant
            last + 1 == pieces.len(),
            ps == pieces@.map_values(|x: Vec<char>| x@),
            body == ps.drop_last().map_values(|l: Seq<char>| strip_cr(l)),
            p == tally_lines(body.take(k as int)).0,
            f == capped(tally_lines(body.take(k as int)).1),
    {
        let ghost before = tally_lines(body.take(k as int));
        proof {
            lemma_tally_lines_bounds(body.take(k as int));
        }
        assert(body.take(k + 1).drop_last() =~= body.take(k as int));
        let piece = &pieces[k];
        let n = piece.len();
        let line = if n > 0 && piece[n - 1] == '\r' {
            sub_vec(piece, 0, n - 1)
        } else {
            sub_vec(piece, 0, n)
        };
        assert(line@ =~= strip_cr(ps[k as int]));
        assert(body.take(k + 1).last() == line@);
        let r = tally_line(p, f, &line, Ghost(before));
        p = r.0;
        f = r.1;
    }
    assert(body.take(last as int) =~= body);
    if pieces[last].len() == 0 {
        (p, f)
    } else {
        proof {
            lemma_tally_lines_bounds(body);
        }
        let ghost all = body.push(ps.last());
        assert(all.drop_last() =~= body);
        tally_line(p, f, &pieces[last], Ghost(tally_lines(body)))
    }
}

/// A line that names no result leaves the tally of the lines around it as
/// it was.
proof fn lemma_tally_plain_line(ls1: Seq<Seq<char>>, n: Seq<char>, ls2: Seq<Seq<char>>)
    requires
        !is_summary_line(trim(n)),
    ensures
        tally_lines(ls1 + seq![n] + ls2) == tally_lines(ls1 + ls2),
    decreases ls2.len(),
{
    if ls2.len() == 0 {
        assert((ls1 + seq![n] + ls2).drop_last() =~= ls1);
        assert(ls1 + ls2 =~= ls1);
    } else {
        assert((ls1 + seq![n] + ls2).drop_last() =~= ls1 + seq![n] + ls2.drop_last());
        assert((ls1 + ls2).drop_last() =~= ls1 + ls2.drop_last());
        lemma_tally_plain_line(ls1, n, ls2.drop_last());
    }
}

/// Law: a line that mentions none of `passed`, `failed`, `error` changes
/// nothing: the counts read from `a`, that line and `b` are those read
/// from `a` and `b`.
pub proof fn lemma_plain_line_ignored(a: Seq<char>, n: Seq<char>, b: Seq<char>)
    requires
        forall|i: int| 0 <= i < n.len() ==> n[i] != '\n',
        !contains(n, word_passed()),
        !contains(n, word_failed()),
        !contains(n, word_error()),
    ensures
        summary_tally(a + seq!['\n'] + n + seq!['\n'] + b) == summary_tally(a + seq!['\n'] + b),
{
    let s1 = a + seq!['\n'] + n + seq!['\n'] + b;
    let s2 = a + seq!['\n'] + b;
    assert(s1 =~= a + seq!['\n'] + (n + seq!['\n'] + b));
    lemma_split_concat(a, n + seq!['\n'] + b, '\n');
    lemma_split_concat(n, b, '\n');
    lemma_split_single(n, '\n');
    lemma_split_concat(a, b, '\n');
    lemma_split_nonempty(b, '\n');
    let sa = split(a, '\n');
    let sb = split(b, '\n');
    let ps1 = split(s1, '\n');
    let ps2 = split(s2, '\n');
    assert(ps1 =~= sa + seq![n] + sb);
    assert(ps2 =~= sa + sb);
    let cr = |l: Seq<char>| strip_cr(l);
    let am = sa.map_values(cr);
    let bm = sb.drop_last().map_values(cr);
    assert(ps1.drop_last().map_values(cr) =~= am + seq![strip_cr(n)] + bm);
    assert(ps2.drop_last().map_values(cr) =~= am + bm);
    assert(ps1.last() == sb.last());
    assert(ps2.last() == sb.last());
    let rest = if sb.last().len() == 0 {
        bm
    } else {
        bm.push(sb.last())
    };
    assert(lines(s1) =~= am + seq![strip_cr(n)] + rest);
    assert(lines(s2) =~= am + rest);
    let c = strip_cr(n);
    let e: int = if n.len() > 0 && n.last() == '\r' {
        n.len() - 1
    } else {
        n.len() as int
    };
    assert(c =~= n.subrange(0, e));
    if is_summary_line(trim(c)) {
        if contains(trim(c), word_passed()) {
            lemma_contains_trim(c, word_passed());
            lemma_contains_subrange(n, 0, e, word_passed());
        } else if contains(trim(c), word_failed()) {
            lemma_contains_trim(c, word_failed());
            lemma_contains_subrange(n, 0, e, word_failed());
        } else {
            lemma_contains_trim(c, word_error());
            lemma_contains_subrange(n, 0, e, word_error());
        }
    }
    lemma_tally_plain_line(am, c, rest);
}

/// Law: `n` written in decimal is a non-empty run of digits that reads
/// back as `n`.
pub proof fn lemma_decimal_digits(n: nat)
    ensures
        decimal(n).len() > 0,
        all_digits(decimal(n)),
        digits_value(decimal(n)) == n,
    decreases n,
{
    let d = decimal(n);
    let r = n % 10;
    let c = digit_char(r as int);
    assert(c as int == 48 + r) by {
        if r == 0 {
        } else if r == 1 {
        } else if r == 2 {
        } else if r == 3 {
        } else if r == 4 {
        } else if r == 5 {
        } else if r == 6 {
        } else if r == 7 {
        } else if r == 8 {
        } else {
        }
    }
    if n < 10 {
        assert(r == n);
        assert(d =~= seq![c]);
        assert(d.drop_last() =~= Seq::<char>::empty());
        assert(d.last() == c);
        assert(digits_value(d.drop_last()) == 0);
        assert(digits_value(d) == digits_value(d.drop_last()) * 10 + (d.last() as int - 48));
        assert(is_digit(d[0]));
    } else {
        lemma_decimal_digits(n / 10);
        assert(d == decimal(n / 10).push(c));
        assert(d.drop_last() =~= decimal(n / 10));
        assert(d.last() == c);
        assert(n == (n / 10) * 10 + r);
        assert(digits_value(d) == digits_value(d.drop_last()) * 10 + (d.last() as int - 48));
        assert forall|i: int| 0 <= i < d.len() implies is_digit(#[trigger] d[i]) by {
            if i < d.len() - 1 {
                assert(d[i] == decimal(n / 10)[i]);
            }
        }
    }
}

/// No occurrence of `p` in `s` when some char of `p` occurs nowhere in `s`.
proof fn lemma_lacks(s: Seq<char>, p: Seq<char>, j: int)
    requires
        0 <= j < p.len(),
        forall|i: int| 0 <= i < s.len() ==> #[trigger] s[i] != p[j],
    ensures
        !contains(s, p),
{
    if contains(s, p) {
        lemma_find_from_occurs(s, p, 0);
        let k = find(s, p)->Some_0;
        assert(s.subrange(k, k + p.len())[j] == s[k + j]);
    }
}

/// The number of chars before the first whitespace, over a run of
/// non-whitespace chars followed by a whitespace char.
proof fn lemma_word_len_run(d: Seq<char>, r: Seq<char>)
    requires
        forall|i: int| 0 <= i < d.len() ==> !is_ws(#[trigger] d[i]),
        r.len() > 0,
        is_ws(r[0]),
    ensures
        word_len(d + r) == d.len(),
    decreases d.len(),
{
    if d.len() > 0 {
        assert((d + r).drop_first() =~= d.drop_first() + r);
        assert forall|i: int| 0 <= i < d.drop_first().len() implies !is_ws(
            #[trigger] d.drop_first()[i],
        ) by {
            assert(d.drop_first()[i] == d[i + 1]);
        }
        lemma_word_len_run(d.drop_first(), r);
        assert((d + r)[0] == d[0]);
    } else {
        assert(d + r =~= r);
    }
}

/// A lowercase ASCII letter other than `n`.
spec fn is_plain_letter(c: char) -> bool {
    97 <= c as int <= 122 && c != 'n'
}

/// A char of a count line: a digit, a space or a plain letter.
spec fn is_count_char(c: char) -> bool {
    is_digit(c) || c == ' ' || is_plain_letter(c)
}

/// The line `<n> <w>`.
spec fn count_line(n: nat, w: Seq<char>) -> Seq<char> {
    decimal(n) + seq![' '] + w
}

/// The chars of `<n> <w>`, place by place.
proof fn lemma_count_line_chars(n: nat, w: Seq<char>)
    requires
        w.len() > 0,
        forall|i: int| 0 <= i < w.len() ==> is_plain_letter(#[trigger] w[i]),
    ensures
        ({
            let t = count_line(n, w);
            let l = decimal(n).len() as int;
            &&& l > 0
            &&& t.len() == l + 1 + w.len()
            &&& forall|i: int| 0 <= i < l ==> is_digit(#[trigger] t[i])
            &&& t[l] == ' '
            &&& forall|i: int| l < i < t.len() ==> #[trigger] t[i] == w[i - l - 1]
            &&& forall|i: int| 0 <= i < t.len() ==> is_count_char(#[trigger] t[i])
            &&& t.take(l) == decimal(n)
            &&& t.subrange(l + 1, t.len() as int) == w
        }),
{
    let d = decimal(n);
    lemma_decimal_digits(n);
    let t = count_line(n, w);
    let l = d.len() as int;
    assert forall|i: int| 0 <= i < l implies is_digit(#[trigger] t[i]) by {
        assert(t[i] == d[i]);
    }
    assert forall|i: int| 0 <= i < t.len() implies is_count_char(#[trigger] t[i]) by {
        if i < l {
            assert(t[i] == d[i]);
        } else if i > l {
            assert(t[i] == w[i - l - 1]);
        }
    }
    assert(t.take(l) =~= d);
    assert(t.subrange(l + 1, t.len() as int) =~= w);
}

/// A one-line text of count chars that begins with a digit and ends with a
/// letter is read as one piece, itself.
proof fn lemma_one_piece(t: Seq<char>)
    requires
        t.len() > 0,
        forall|i: int| 0 <= i < t.len() ==> is_count_char(#[trigger] t[i]),
        is_digit(t[0]),
        is_plain_letter(t[t.len() - 1]),
    ensures
        summary_tally(t) == line_effect((0, 0), t),
        trim(t) == t,
        is_summary_line(t) ==> line_effect((0, 0), t) == part_effect((0, 0), t),
        clean_part(t) == t,
{
    assert forall|i: int| 0 <= i < t.len() implies #[trigger] t[i] != '\n' && t[i] != ','
        && t[i] != 'n' by {
        assert(is_count_char(t[i]));
    }
    lemma_split_single(t, '\n');
    assert(split(t, '\n').drop_last() =~= Seq::<Seq<char>>::empty());
    assert(lines(t) =~= seq![t]);
    assert(seq![t].drop_last() =~= Seq::<Seq<char>>::empty());
    assert(trim_start(t) == t);
    assert(trim_end(t) == t);
    assert(unframe_start(t) == t);
    assert(unframe_end(t) == t);
    lemma_split_single(t, ',');
    lemma_lacks(t, duration_marker(), 2);
    let one = seq![t];
    assert(one.drop_last() =~= Seq::<Seq<char>>::empty());
    assert(one.last() == t);
    assert(tally_lines(one.drop_last()) == (0int, 0int));
    assert(tally_lines(one) == line_effect((0, 0), t));
    assert(unframe(t) == t);
    assert(split(unframe(t), ',') == one);
    assert(tally_parts((0, 0), one.drop_last()) == (0int, 0int));
    assert(tally_parts((0, 0), one) == part_effect((0, 0), t));
}

/// The first word of `<n> <w>` is `n` written in decimal, which reads back
/// as `n`.
proof fn lemma_count_word(n: u32, w: Seq<char>)
    requires
        w.len() > 0,
        forall|i: int| 0 <= i < w.len() ==> is_plain_letter(#[trigger] w[i]),
    ensures
        first_word(count_line(n as nat, w)) == Some(decimal(n as nat)),
        parse_u32(decimal(n as nat)) == Some(n),
{
    let d = decimal(n as nat);
    lemma_decimal_digits(n as nat);
    lemma_count_line_chars(n as nat, w);
    let t = count_line(n as nat, w);
    assert(trim_start(t) == t) by {
        assert(is_digit(t[0]));
    }
    assert forall|i: int| 0 <= i < d.len() implies !is_ws(#[trigger] d[i]) by {
        assert(is_digit(d[i]));
    }
    assert(t =~= d + (seq![' '] + w));
    lemma_word_len_run(d, seq![' '] + w);
    assert(d[0] != '+') by {
        assert(is_digit(d[0]));
    }
}

/// The line `<n> <w>`, for a word `w` of plain letters, is read as one
/// piece whose count is `n`.
proof fn lemma_count_line(n: u32, w: Seq<char>)
    requires
        w.len() > 0,
        forall|i: int| 0 <= i < w.len() ==> is_plain_letter(#[trigger] w[i]),
        contains(count_line(n as nat, w), w),
    ensures
        summary_tally(count_line(n as nat, w)) == part_effect((0, 0), count_line(n as nat, w)),
        clean_part(count_line(n as nat, w)) == count_line(n as nat, w),
        first_word(count_line(n as nat, w)) == Some(decimal(n as nat)),
        parse_u32(decimal(n as nat)) == Some(n),
{
    let t = count_line(n as nat, w);
    lemma_count_line_chars(n as nat, w);
    assert(is_plain_letter(t[t.len() - 1])) by {
        assert(t[t.len() - 1] == w[w.len() - 1]);
    }
    lemma_one_piece(t);
    lemma_count_word(n, w);
}

/// Law: a run in which every test fails is read as no test passed out of
/// all of them: the line `<n> failed` gives passed `0`, total `n`.
pub proof fn lemma_all_failed(n: u32)
    ensures
        summary_tally(decimal(n as nat) + seq![' '] + word_failed()) == (0int, n as int),
{
    lemma_keyword_line(n, word_failed(), 'p', 'r');
    lemma_lacks(count_line(n as nat, word_failed()), word_passed(), 0);
    lemma_lacks(count_line(n as nat, word_failed()), word_error(), 1);
}

/// Law: a run in which every test passes is read as all of them passed:
/// the line `<n> passed` gives passed `n` and no failure, so a total of `n`.
pub proof fn lemma_all_passed(n: u32)
    ensures
        summary_tally(decimal(n as nat) + seq![' '] + word_passed()) == (n as int, 0int),
{
    lemma_keyword_line(n, word_passed(), 'f', 'r');
    lemma_lacks(count_line(n as nat, word_passed()), word_failed(), 0);
    lemma_lacks(count_line(n as nat, word_passed()), word_error(), 1);
}

/// Law: tests that error count toward the total and not as passed: the
/// line `<n> error` gives passed `0`, total `n`.
pub proof fn lemma_all_errored(n: u32)
    ensures
        summary_tally(decimal(n as nat) + seq![' '] + word_error()) == (0int, n as int),
{
    lemma_keyword_line(n, word_error(), 'p', 'f');
    lemma_lacks(count_line(n as nat, word_error()), word_passed(), 0);
    lemma_lacks(count_line(n as nat, word_error()), word_failed(), 0);
}

/// The line `<n> <w>` for a result word `w` is a summary line, read as one
/// piece with count `n`; the chars `a` and `b` occur nowhere in it.
proof fn lemma_keyword_line(n: u32, w: Seq<char>, a: char, b: char)
    requires
        w == word_passed() || w == word_failed() || w == word_error(),
        w == word_passed() ==> a == 'f' && b == 'r',
        w == word_failed() ==> a == 'p' && b == 'r',
        w == word_error() ==> a == 'p' && b == 'f',
    ensures
        summary_tally(count_line(n as nat, w)) == part_effect((0, 0), count_line(n as nat, w)),
        clean_part(count_line(n as nat, w)) == count_line(n as nat, w),
        first_word(count_line(n as nat, w)) == Some(decimal(n as nat)),
        parse_u32(decimal(n as nat)) == Some(n),
        contains(count_line(n as nat, w), w),
        forall|i: int|
            0 <= i < count_line(n as nat, w).len() ==> #[trigger] count_line(n as nat, w)[i] != a
                && count_line(n as nat, w)[i] != b,
{
    assert forall|i: int| 0 <= i < w.len() implies is_plain_letter(#[trigger] w[i]) && w[i] != a
        && w[i] != b by {
        if w == word_passed() {
            assert(w[i] == seq!['p', 'a', 's', 's', 'e', 'd'][i]);
        } else if w == word_failed() {
            assert(w[i] == seq!['f', 'a', 'i', 'l', 'e', 'd'][i]);
        } else {
            assert(w[i] == seq!['e', 'r', 'r', 'o', 'r'][i]);
        }
    }
    lemma_count_line_chars(n as nat, w);
    let t = count_line(n as nat, w);
    let l = decimal(n as nat).len() as int;
    lemma_find_from_finds(t, w, 0, l + 1);
    lemma_count_line(n, w);
    assert forall|i: int| 0 <= i < t.len() implies #[trigger] t[i] != a && t[i] != b by {
        if i < l {
            assert(is_digit(t[i]));
        } else if i > l {
            assert(t[i] == w[i - l - 1]);
        }
    }
}

/// `(passed, passed + failed)` as counted from pytest's output; `None`
/// exactly when the failed count or the total does not fit in a `u32`.
pub fn checked_pytest_summary(output: &str) -> (r: Option<(u32, u32)>)
    ensures
        match r {
            Some(c) => summary_fits(output@) && c.0 == summary_tally(output@).0 && c.1
                == summary_tally(output@).0 + summary_tally(output@).1,
            None => !summary_fits(output@),
        },
{
    let (p, f) = tally_output(output);
    proof {
        lemma_tally_lines_bounds(lines(output@));
    }
    if f > 0xffff_ffff {
        return None;
    }
    let total = p as u64 + f;
    if total > 0xffff_ffff {
        return None;
    }
    Some((p, total as u32))
}

/// `(passed, total)` read from the output of `pytest -q`: `passed` is the
/// count of the last piece that mentions `passed`, `total` adds the counts
/// of all pieces that mention `failed` or `error`.
pub fn parse_pytest_summary(output: &str) -> (r: (u32, u32))
    requires
        summary_fits(output@),
    ensures
        r.0 == summary_tally(output@).0,
        r.1 == summary_tally(output@).0 + summary_tally(output@).1,
        r.0 <= r.1,
{
    proof {
        lemma_tally_lines_bounds(lines(output@));
    }
    match checked_pytest_summary(output) {
        Some(c) => c,
        None => (0, 0),
    }
}

} // verus!
