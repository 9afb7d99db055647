//! Text primitives over sequences of `char`: whitespace trimming, splitting on
//! a separator, substring search and first-word extraction, each with the
//! meaning that the corresponding `str` method of std gives it.
use vstd::prelude::*;

verus! {

broadcast use vstd::seq_lib::group_seq_properties;

/// The Unicode `White_Space` property, which `char::is_whitespace` tests.
pub open spec fn is_ws(c: char) -> bool {
    let v = c as int;
    ||| 0x09 <= v <= 0x0d
    ||| v == 0x20
    ||| v == 0x85
    ||| v == 0xa0
    ||| v == 0x1680
    ||| 0x2000 <= v <= 0x200a
    ||| v == 0x2028
    ||| v == 0x2029
    ||| v == 0x202f
    ||| v == 0x205f
    ||| v == 0x3000
}

/// The code point of `c`.
pub fn char_code(c: char) -> (r: u32)
    ensures
        r == c as int,
{
    c as u32
}

/// Whether `c` is whitespace in the sense of `char::is_whitespace`.
pub fn is_whitespace(c: char) -> (r: bool)
    ensures
        r == is_ws(c),
{
    let v = char_code(c);
    (0x09 <= v && v <= 0x0d) || v == 0x20 || v == 0x85 || v == 0xa0 || v == 0x1680 || (0x2000
        <= v && v <= 0x200a) || v == 0x2028 || v == 0x2029 || v == 0x202f || v == 0x205f || v
        == 0x3000
}

/// `s` without its leading whitespace (`str::trim_start`).
pub open spec fn trim_start(s: Seq<char>) -> Seq<char>
    decreases s.len(),
{
    if s.len() > 0 && is_ws(s[0]) {
        trim_start(s.drop_first())
    } else {
        s
    }
}

/// `s` without its trailing whitespace (`str::trim_end`).
pub open spec fn trim_end(s: Seq<char>) -> Seq<char>
    decreases s.len(),
{
    if s.len() > 0 && is_ws(s.last()) {
        trim_end(s.drop_last())
    } else {
        s
    }
}

/// `s` without leading and trailing whitespace (`str::trim`).
pub open spec fn trim(s: Seq<char>) -> Seq<char> {
    trim_end(trim_start(s))
}

/// The pieces of `s` between occurrences of `sep`, empty pieces included
/// (`str::split` with a `char` pattern): one more piece than there are
/// separators.
pub open spec fn split(s: Seq<char>, sep: char) -> Seq<Seq<char>>
    decreases s.len(),
{
    if s.len() == 0 {
        seq![Seq::<char>::empty()]
    } else {
        let r = split(s.drop_last(), sep);
        if s.last() == sep {
            r.push(Seq::<char>::empty())
        } else {
            r.update(r.len() - 1, r.last().push(s.last()))
        }
    }
}

/// `p` occurs in `s` starting at index `i`.
pub open spec fn occurs_at(s: Seq<char>, p: Seq<char>, i: int) -> bool {
    0 <= i && i + p.len() <= s.len() && s.subrange(i, i + p.len()) == p
}

/// The first index at or after `i` where `p` occurs in `s`.
pub open spec fn find_from(s: Seq<char>, p: Seq<char>, i: int) -> Option<int>
    decreases s.len() + 1 - i,
{
    if i < 0 || i + p.len() > s.len() {
        None
    } else if occurs_at(s, p, i) {
        Some(i)
    } else {
        find_from(s, p, i + 1)
    }
}

/// The first index where `p` occurs in `s` (`str::find` counted in chars).
pub open spec fn find(s: Seq<char>, p: Seq<char>) -> Option<int> {
    find_from(s, p, 0)
}

/// `p` occurs somewhere in `s` (`str::contains`).
pub open spec fn contains(s: Seq<char>, p: Seq<char>) -> bool {
    find(s, p) is Some
}

/// The number of chars before the first whitespace char of `s`.
pub open spec fn word_len(s: Seq<char>) -> int
    decreases s.len(),
{
    if s.len() == 0 || is_ws(s[0]) {
        0
    } else {
        1 + word_len(s.drop_first())
    }
}

/// The first whitespace-separated word of `s`
/// (`str::split_whitespace().next()`).
pub open spec fn first_word(s: Seq<char>) -> Option<Seq<char>> {
    let t = trim_start(s);
    if t.len() == 0 {
        None
    } else {
        Some(t.take(word_len(t)))
    }
}

/// The first `n` chars of `s`, or all of it when it is shorter
/// (`s.chars().take(n).collect()`).
pub open spec fn prefix_of_len(s: Seq<char>, n: nat) -> Seq<char> {
    if s.len() <= n {
        s
    } else {
        s.take(n as int)
    }
}

/// Law: the first `n` chars of `s` are exactly that: as many chars as `s`
/// has, up to `n`, each the char of `s` at the same place.
pub proof fn lemma_prefix_of_len(s: Seq<char>, n: nat)
    ensures
        prefix_of_len(s, n).len() == if s.len() <= n {
            s.len()
        } else {
            n
        },
        forall|i: int| 0 <= i < prefix_of_len(s, n).len() ==> #[trigger] prefix_of_len(s, n)[i] == s[i],
{
}

proof fn lemma_word_len_bounds(s: Seq<char>)
    ensures
        0 <= word_len(s) <= s.len(),
    decreases s.len(),
{
    if s.len() > 0 && !is_ws(s[0]) {
        lemma_word_len_bounds(s.drop_first());
    }
}

pub proof fn lemma_split_nonempty(s: Seq<char>, sep: char)
    ensures
        split(s, sep).len() >= 1,
    decreases s.len(),
{
    if s.len() > 0 {
        lemma_split_nonempty(s.drop_last(), sep);
    }
}

/// An occurrence of `p` at or after `i` is found.
pub proof fn lemma_find_from_finds(s: Seq<char>, p: Seq<char>, i: int, k: int)
    requires
        0 <= i <= k,
        occurs_at(s, p, k),
    ensures
        find_from(s, p, i) is Some,
    decreases k - i,
{
    if !occurs_at(s, p, i) {
        lemma_find_from_finds(s, p, i + 1, k);
    }
}

/// What `find_from` finds is an occurrence.
pub proof fn lemma_find_from_occurs(s: Seq<char>, p: Seq<char>, i: int)
    requires
        find_from(s, p, i) is Some,
    ensures
        occurs_at(s, p, find_from(s, p, i)->Some_0),
    decreases s.len() + 1 - i,
{
    if !(i < 0 || i + p.len() > s.len()) && !occurs_at(s, p, i) {
        lemma_find_from_occurs(s, p, i + 1);
    }
}

/// What a piece of `s` contains, `s` contains.
pub proof fn lemma_contains_subrange(s: Seq<char>, a: int, b: int, p: Seq<char>)
    requires
        0 <= a <= b <= s.len(),
        contains(s.subrange(a, b), p),
    ensures
        contains(s, p),
{
    let t = s.subrange(a, b);
    lemma_find_from_occurs(t, p, 0);
    let j = find(t, p)->Some_0;
    assert(s.subrange(a + j, a + j + p.len()) =~= t.subrange(j, j + p.len()));
    lemma_find_from_finds(s, p, 0, a + j);
}

/// `trim_start(x)` is a tail of `x`.
pub proof fn lemma_trim_start_tail(x: Seq<char>) -> (a: int)
    ensures
        0 <= a <= x.len(),
        trim_start(x) == x.subrange(a, x.len() as int),
    decreases x.len(),
{
    if x.len() > 0 && is_ws(x[0]) {
        let a = lemma_trim_start_tail(x.drop_first());
        assert(x.drop_first().subrange(a, x.len() - 1) =~= x.subrange(a + 1, x.len() as int));
        a + 1
    } else {
        assert(x.subrange(0, x.len() as int) =~= x);
        0
    }
}

/// `trim_end(x)` is a head of `x`.
pub proof fn lemma_trim_end_head(x: Seq<char>) -> (e: int)
    ensures
        0 <= e <= x.len(),
        trim_end(x) == x.subrange(0, e),
    decreases x.len(),
{
    if x.len() > 0 && is_ws(x.last()) {
        let e = lemma_trim_end_head(x.drop_last());
        assert(x.drop_last().subrange(0, e) =~= x.subrange(0, e));
        e
    } else {
        assert(x.subrange(0, x.len() as int) =~= x);
        x.len() as int
    }
}

/// What the trimmed `x` contains, `x` contains.
pub proof fn lemma_contains_trim(x: Seq<char>, p: Seq<char>)
    requires
        contains(trim(x), p),
    ensures
        contains(x, p),
{
    let a = lemma_trim_start_tail(x);
    let y = trim_start(x);
    let e = lemma_trim_end_head(y);
    assert(trim(x) =~= x.subrange(a, a + e));
    lemma_contains_subrange(x, a, a + e, p);
}

/// Splitting `x`, a separator, then `y` gives the pieces of `x`, then
/// those of `y`.
pub proof fn lemma_split_concat(x: Seq<char>, y: Seq<char>, sep: char)
    ensures
        split(x + seq![sep] + y, sep) == split(x, sep) + split(y, sep),
    decreases y.len(),
{
    let s = x + seq![sep] + y;
    if y.len() == 0 {
        assert(s.drop_last() =~= x);
        assert(split(s, sep) =~= split(x, sep) + split(y, sep));
    } else {
        assert(s.drop_last() =~= x + seq![sep] + y.drop_last());
        lemma_split_concat(x, y.drop_last(), sep);
        lemma_split_nonempty(y.drop_last(), sep);
        lemma_split_nonempty(x, sep);
        let r = split(s.drop_last(), sep);
        if y.last() == sep {
            assert(split(s, sep) =~= split(x, sep) + split(y, sep));
        } else {
            assert(split(s, sep) =~= split(x, sep) + split(y, sep));
        }
    }
}

/// A text without the separator is one piece.
pub proof fn lemma_split_single(x: Seq<char>, sep: char)
    requires
        forall|i: int| 0 <= i < x.len() ==> x[i] != sep,
    ensures
        split(x, sep) == seq![x],
    decreases x.len(),
{
    if x.len() > 0 {
        lemma_split_single(x.drop_last(), sep);
        assert(x.drop_last().push(x.last()) =~= x);
    } else {
        assert(x =~= Seq::<char>::empty());
    }
}

/// The chars of `s`, in order.
pub fn chars_of(s: &str) -> (r: Vec<char>)
    ensures
        r@ == s@,
{
    broadcast use vstd::string::group_string_axioms;

    let mut r: Vec<char> = Vec::new();
    for c in it: s.chars()
        invariant
            it.seq() == s@,
            r@ == it.seq().take(it.index() as int),
    {
        r.push(c);
    }
    r
}

/// A copy of `v[lo..hi]`.
pub fn sub_vec(v: &Vec<char>, lo: usize, hi: usize) -> (r: Vec<char>)
    requires
        lo <= hi <= v.len(),
    ensures
        r@ == v@.subrange(lo as int, hi as int),
{
    let mut r: Vec<char> = Vec::new();
    let mut i = lo;
    while i < hi
        invariant
            lo <= i <= hi <= v.len(),
            r@ == v@.subrange(lo as int, i as int),
        decreases hi - i,
    {
        r.push(v[i]);
        i += 1;
    }
    r
}

/// `v` without leading whitespace.
pub fn trim_start_chars(v: &Vec<char>) -> (r: Vec<char>)
    ensures
        r@ == trim_start(v@),
{
    let n = v.len();
    let mut i: usize = 0;
    assert(v@.subrange(0, n as int) =~= v@);
    while i < n && is_whitespace(v[i])
        invariant
            i <= n == v.len(),
            trim_start(v@) == trim_start(v@.subrange(i as int, n as int)),
        decreases n - i,
    {
        assert(v@.subrange(i as int, n as int).drop_first() =~= v@.subrange(i + 1, n as int));
        i += 1;
    }
    sub_vec(v, i, n)
}

/// `v` without leading and trailing whitespace.
pub fn trim_chars(v: &Vec<char>) -> (r: Vec<char>)
    ensures
        r@ == trim(v@),
{
    let t = trim_start_chars(v);
    let mut j: usize = t.len();
    assert(t@.take(j as int) =~= t@);
    while j > 0 && is_whitespace(t[j - 1])
        invariant
            j <= t.len(),
            trim_end(t@) == trim_end(t@.take(j as int)),
        decreases j,
    {
        assert(t@.take(j as int).drop_last() =~= t@.take(j - 1));
        j -= 1;
    }
    sub_vec(&t, 0, j)
}

/// The pieces of `v` between occurrences of `sep`.
pub fn split_chars(v: &Vec<char>, sep: char) -> (r: Vec<Vec<char>>)
    ensures
        r@.map_values(|x: Vec<char>| x@) == split(v@, sep),
{
    let mut pieces: Vec<Vec<char>> = Vec::new();
    let mut cur: Vec<char> = Vec::new();
    let n = v.len();
    assert(v@.take(0) =~= Seq::<char>::empty());
    assert(pieces@.map_values(|x: Vec<char>| x@).push(cur@) =~= split(v@.take(0), sep));
    for i in 0..n
        invariant
            n == v.len(),
            pieces@.map_values(|x: Vec<char>| x@).push(cur@) =~= split(v@.take(i as int), sep),
    {
        let ghost before = pieces@.map_values(|x: Vec<char>| x@);
        let ghost cur0 = cur@;
        assert(v@.take(i + 1).drop_last() =~= v@.take(i as int));
        proof {
            lemma_split_nonempty(v@.take(i as int), sep);
        }
        if v[i] == sep {
            pieces.push(cur);
            cur = Vec::new();
            assert(pieces@.map_values(|x: Vec<char>| x@) =~= before.push(cur0));
        } else {
            cur.push(v[i]);
            assert(pieces@.map_values(|x: Vec<char>| x@) =~= before);
        }
    }
    assert(v@.take(n as int) =~= v@);
    let ghost before = pieces@.map_values(|x: Vec<char>| x@);
    let ghost cur0 = cur@;
    pieces.push(cur);
    assert(pieces@.map_values(|x: Vec<char>| x@) =~= before.push(cur0));
    pieces
}

/// Whether `p` occurs in `v` starting at index `i`.
fn occurs_at_exec(v: &Vec<char>, p: &Vec<char>, i: usize) -> (r: bool)
    requires
        i + p.len() <= v.len(),
    ensures
        r == occurs_at(v@, p@, i as int),
{
    let m = p.len();
    let mut k: usize = 0;
    while k < m
        invariant
            k <= m == p.len(),
            i + m <= v.len(),
            v@.subrange(i as int, i + k) =~= p@.take(k as int),
        decreases m - k,
    {
        if v[i + k] != p[k] {
            assert(v@.subrange(i as int, i + m)[k as int] != p@[k as int]);
            return false;
        }
        k += 1;
    }
    assert(p@.take(m as int) =~= p@);
    true
}

/// The first index where `p` occurs in `v`.
pub fn find_chars(v: &Vec<char>, p: &Vec<char>) -> (r: Option<usize>)
    ensures
        match r {
            Some(i) => find(v@, p@) == Some(i as int) && i + p@.len() <= v@.len(),
            None => find(v@, p@) is None,
        },
{
    let n = v.len();
    let m = p.len();
    if m > n {
        return None;
    }
    let mut i: usize = 0;
    while i <= n - m
        invariant
            n == v.len(),
            m == p.len(),
            m <= n,
            i <= n - m + 1,
            find(v@, p@) == find_from(v@, p@, i as int),
        decreases n - i,
    {
        if occurs_at_exec(v, p, i) {
            return Some(i);
        }
        if i == n - m {
            assert(find_from(v@, p@, i + 1) is None);
            return None;
        }
        i += 1;
    }
    None
}

/// Whether `p` occurs somewhere in `v`.
pub fn contains_chars(v: &Vec<char>, p: &Vec<char>) -> (r: bool)
    ensures
        r == contains(v@, p@),
{
    find_chars(v, p).is_some()
}

/// The first whitespace-separated word of `v`, if any.
pub fn first_word_chars(v: &Vec<char>) -> (r: Option<Vec<char>>)
    ensures
        match r {
            Some(w) => first_word(v@) == Some(w@),
            None => first_word(v@) is None,
        },
{
    let t = trim_start_chars(v);
    let n = t.len();
    if n == 0 {
        return None;
    }
    let mut k: usize = 0;
    assert(t@.subrange(0, n as int) =~= t@);
    while k < n && !is_whitespace(t[k])
        invariant
            k <= n == t.len(),
            word_len(t@) == k + word_len(t@.subrange(k as int, n as int)),
        decreases n - k,
    {
        assert(t@.subrange(k as int, n as int).drop_first() =~= t@.subrange(k + 1, n as int));
        k += 1;
    }
    Some(sub_vec(&t, 0, k))
}

/// The pieces `cs` with `sep` between each two of them (`[..].join(sep)`).
pub open spec fn join_with(cs: Seq<Seq<char>>, sep: Seq<char>) -> Seq<char>
    decreases cs.len(),
{
    if cs.len() == 0 {
        Seq::empty()
    } else if cs.len() == 1 {
        cs[0]
    } else {
        join_with(cs.drop_last(), sep) + sep + cs.last()
    }
}

/// The views of a vector of char vectors.
pub open spec fn views(v: Seq<Vec<char>>) -> Seq<Seq<char>> {
    v.map_values(|x: Vec<char>| x@)
}

/// The views of a vector of strings.
pub open spec fn string_views(v: Seq<String>) -> Seq<Seq<char>> {
    v.map_values(|x: String| x@)
}

/// `v` with the chars of `w` appended.
pub fn extend_chars(v: &mut Vec<char>, w: &Vec<char>)
    ensures
        final(v)@ == old(v)@ + w@,
{
    let ghost before = v@;
    for j in 0..w.len()
        invariant
            v@ == before + w@.take(j as int),
    {
        v.push(w[j]);
        assert(w@.take(j + 1) =~= w@.take(j as int).push(w@[j as int]));
    }
    assert(w@.take(w@.len() as int) =~= w@);
}

/// `cs[from..]` with `sep` between each two pieces.
pub fn join_chars(cs: &Vec<Vec<char>>, from: usize, sep: &Vec<char>) -> (r: Vec<char>)
    requires
        from <= cs.len(),
    ensures
        r@ == join_with(views(cs@).skip(from as int), sep@),
{
    let ghost ss = views(cs@).skip(from as int);
    let n = cs.len();
    let mut r: Vec<char> = Vec::new();
    let mut i = from;
    assert(ss.take(0) =~= Seq::<Seq<char>>::empty());
    while i < n
        invariant
            from <= i <= n == cs.len(),
            ss == views(cs@).skip(from as int),
            r@ == join_with(ss.take(i - from), sep@),
        decreases n - i,
    {
        let ghost k = i - from;
        let ghost t = ss.take(k + 1);
        assert(t.drop_last() =~= ss.take(k));
        assert(t.last() == cs@[i as int]@);
        let ghost r0 = r@;
        if i > from {
            extend_chars(&mut r, sep);
        }
        extend_chars(&mut r, &cs[i]);
        proof {
            if k == 0 {
                assert(r0 =~= Seq::<char>::empty());
                assert(r@ =~= t[0]);
            } else {
                assert(r@ =~= join_with(t.drop_last(), sep@) + sep@ + t.last());
            }
        }
        i += 1;
    }
    assert(ss.take(n - from) =~= ss);
    r
}

/// The decimal digit `d` as a char.
pub open spec fn digit_char(d: int) -> char {
    if d == 0 {
        '0'
    } else if d == 1 {
        '1'
    } else if d == 2 {
        '2'
    } else if d == 3 {
        '3'
    } else if d == 4 {
        '4'
    } else if d == 5 {
        '5'
    } else if d == 6 {
        '6'
    } else if d == 7 {
        '7'
    } else if d == 8 {
        '8'
    } else {
        '9'
    }
}

/// `n` written in decimal, without leading zeros (what `{}` prints).
pub open spec fn decimal(n: nat) -> Seq<char>
    decreases n,
{
    if n < 10 {
        seq![digit_char(n as int)]
    } else {
        decimal(n / 10).push(digit_char((n % 10) as int))
    }
}

fn digit_char_exec(d: u64) -> (c: char)
    requires
        d < 10,
    ensures
        c == digit_char(d as int),
{
    if d == 0 {
        '0'
    } else if d == 1 {
        '1'
    } else if d == 2 {
        '2'
    } else if d == 3 {
        '3'
    } else if d == 4 {
        '4'
    } else if d == 5 {
        '5'
    } else if d == 6 {
        '6'
    } else if d == 7 {
        '7'
    } else if d == 8 {
        '8'
    } else {
        '9'
    }
}

/// Appends `n` written in decimal to `s`.
pub fn push_decimal(s: &mut String, n: u64)
    ensures
        final(s)@ == old(s)@ + decimal(n as nat),
    decreases n,
{
    if n >= 10 {
        push_decimal(s, n / 10);
    }
    push_char(s, digit_char_exec(n % 10));
    proof {
        if n < 10 {
            assert(n % 10 == n);
        }
    }
}

/// The strings `v` with `sep` between each two of them.
pub fn join_strings(v: &Vec<String>, sep: &str) -> (r: String)
    ensures
        r@ == join_with(string_views(v@), sep@),
{
    let mut cs: Vec<Vec<char>> = Vec::new();
    for i in 0..v.len()
        invariant
            views(cs@) =~= string_views(v@).take(i as int),
    {
        let ghost before = views(cs@);
        cs.push(chars_of(v[i].as_str()));
        assert(views(cs@) =~= before.push(v@[i as int]@));
    }
    assert(string_views(v@).take(v@.len() as int) =~= string_views(v@));
    let sep_chars = chars_of(sep);
    let joined = join_chars(&cs, 0, &sep_chars);
    assert(views(cs@).skip(0) =~= views(cs@));
    string_of(&joined)
}

/// `s` begins with `p`.
pub open spec fn starts_with(s: Seq<char>, p: Seq<char>) -> bool {
    p.len() <= s.len() && s.take(p.len() as int) == p
}

/// Whether `s` begins with `p`.
pub fn starts_with_str(s: &str, p: &str) -> (r: bool)
    ensures
        r == starts_with(s@, p@),
{
    let sv = chars_of(s);
    let pv = chars_of(p);
    if pv.len() > sv.len() {
        return false;
    }
    let head = sub_vec(&sv, 0, pv.len());
    chars_eq(&head, &pv)
}

/// Whether `s` and `t` hold the same chars.
pub fn str_eq(s: &str, t: &str) -> (r: bool)
    ensures
        r == (s@ == t@),
{
    chars_eq(&chars_of(s), &chars_of(t))
}

/// `String::push`: appends `c` to `s`.
#[verifier::external_body]
pub(crate) fn push_char(s: &mut String, c: char)
    ensures
        final(s)@ == old(s)@.push(c),
{
    s.push(c);
}

/// The chars of `v` as a `String`.
pub fn string_of(v: &Vec<char>) -> (r: String)
    ensures
        r@ == v@,
{
    let mut r = String::new();
    for i in 0..v.len()
        invariant
            r@ == v@.take(i as int),
    {
        push_char(&mut r, v[i]);
        assert(v@.take(i + 1) =~= v@.take(i as int).push(v@[i as int]));
    }
    assert(v@.take(v@.len() as int) =~= v@);
    r
}

/// Whether `a` and `b` hold the same chars.
pub fn chars_eq(a: &Vec<char>, b: &Vec<char>) -> (r: bool)
    ensures
        r == (a@ == b@),
{
    if a.len() != b.len() {
        return false;
    }
    for i in 0..a.len()
        invariant
            a.len() == b.len(),
            forall|j: int| 0 <= j < i ==> a@[j] == b@[j],
    {
        if a[i] != b[i] {
            return false;
        }
    }
    assert(a@ =~= b@);
    true
}

/// The first `n` chars of `s`, or all of it when it is shorter.
pub fn prefix_chars(s: &str, n: usize) -> (r: String)
    ensures
        r@ == prefix_of_len(s@, n as nat),
{
    let v = chars_of(s);
    if v.len() <= n {
        string_of(&v)
    } else {
        let w = sub_vec(&v, 0, n);
        string_of(&w)
    }
}

} // verus!
