//! The order in which std sorts `String`s (byte-wise lexicographic, which
//! on UTF-8 is lexicographic by code point), and a sort that follows it.
use vstd::prelude::*;
use vstd::relations::{sorted_by, total_ordering};
use crate::text::{char_code, views};

verus! {

broadcast use vstd::seq_lib::group_seq_properties;

/// `a` comes before `b` or equals it, comparing char by char and a proper
/// prefix first.
pub open spec fn lex_le(a: Seq<char>, b: Seq<char>) -> bool
    decreases a.len(),
{
    if a.len() == 0 {
        true
    } else if b.len() == 0 {
        false
    } else if a[0] != b[0] {
        (a[0] as int) < (b[0] as int)
    } else {
        lex_le(a.drop_first(), b.drop_first())
    }
}

/// [`lex_le`] as a relation.
pub open spec fn lex_order() -> spec_fn(Seq<char>, Seq<char>) -> bool {
    |a: Seq<char>, b: Seq<char>| lex_le(a, b)
}

proof fn lemma_lex_reflexive(a: Seq<char>)
    ensures
        lex_le(a, a),
    decreases a.len(),
{
    if a.len() > 0 {
        lemma_lex_reflexive(a.drop_first());
    }
}

proof fn lemma_lex_antisymmetric(a: Seq<char>, b: Seq<char>)
    requires
        lex_le(a, b),
        lex_le(b, a),
    ensures
        a == b,
    decreases a.len(),
{
    if a.len() > 0 && b.len() > 0 {
        if a[0] == b[0] {
            lemma_lex_antisymmetric(a.drop_first(), b.drop_first());
            assert(a =~= seq![a[0]] + a.drop_first());
            assert(b =~= seq![b[0]] + b.drop_first());
        } else {
            assert((a[0] as int) != (b[0] as int));
        }
    }
}

proof fn lemma_lex_transitive(a: Seq<char>, b: Seq<char>, c: Seq<char>)
    requires
        lex_le(a, b),
        lex_le(b, c),
    ensures
        lex_le(a, c),
    decreases a.len(),
{
    if a.len() > 0 && b.len() > 0 && c.len() > 0 {
        if a[0] == b[0] && b[0] == c[0] {
            lemma_lex_transitive(a.drop_first(), b.drop_first(), c.drop_first());
        }
    }
}

proof fn lemma_lex_total(a: Seq<char>, b: Seq<char>)
    ensures
        lex_le(a, b) || lex_le(b, a),
    decreases a.len(),
{
    if a.len() > 0 && b.len() > 0 {
        if a[0] == b[0] {
            lemma_lex_total(a.drop_first(), b.drop_first());
        } else {
            assert((a[0] as int) != (b[0] as int));
        }
    }
}

/// [`lex_le`] is a total order.
pub proof fn lemma_lex_total_ordering()
    ensures
        total_ordering(lex_order()),
{
    let r = lex_order();
    assert forall|x: Seq<char>| #[trigger] r(x, x) by {
        lemma_lex_reflexive(x);
    }
    assert forall|x: Seq<char>, y: Seq<char>| #[trigger] r(x, y) && #[trigger] r(y, x) implies x
        == y by {
        lemma_lex_antisymmetric(x, y);
    }
    assert forall|x: Seq<char>, y: Seq<char>, z: Seq<char>| #[trigger]
        r(x, y) && #[trigger] r(y, z) implies r(x, z) by {
        lemma_lex_transitive(x, y, z);
    }
    assert forall|x: Seq<char>, y: Seq<char>| #[trigger] r(x, y) || #[trigger] r(y, x) by {
        lemma_lex_total(x, y);
    }
}

/// Whether `a` comes before `b` or equals it.
pub fn lex_le_exec(a: &Vec<char>, b: &Vec<char>) -> (r: bool)
    ensures
        r == lex_le(a@, b@),
{
    let mut i: usize = 0;
    assert(a@.skip(0) =~= a@ && b@.skip(0) =~= b@);
    while i < a.len() && i < b.len() && a[i] == b[i]
        invariant
            i <= a.len(),
            i <= b.len(),
            lex_le(a@, b@) == lex_le(a@.skip(i as int), b@.skip(i as int)),
        decreases a.len() - i,
    {
        assert(a@.skip(i as int).drop_first() =~= a@.skip(i + 1));
        assert(b@.skip(i as int).drop_first() =~= b@.skip(i + 1));
        i += 1;
    }
    if i == a.len() {
        true
    } else if i == b.len() {
        false
    } else {
        let x = char_code(a[i]);
        let y = char_code(b[i]);
        assert(x == a@[i as int] as int && y == b@[i as int] as int);
        assert(a@.skip(i as int)[0] == a@[i as int] && b@.skip(i as int)[0] == b@[i as int]);
        x < y
    }
}

/// `v` sorted by [`lex_le`], equal items kept in their order.
pub fn sort_lines(v: Vec<Vec<char>>) -> (r: Vec<Vec<char>>)
    ensures
        views(r@) == views(v@).sort_by(lex_order()),
{
    let ghost vs = views(v@);
    let mut r: Vec<Vec<char>> = Vec::new();
    let n = v.len();
    let mut src = v;
    assert(vs.take(0) =~= Seq::<Seq<char>>::empty());
    assert(views(r@) =~= Seq::<Seq<char>>::empty());
    for i in 0..n
        invariant
            n == src.len(),
            vs == views(src@),
            sorted_by(views(r@), lex_order()),
            views(r@).to_multiset() == vs.take(i as int).to_multiset(),
    {
        let x = src[i].clone();
        let ghost rs = views(r@);
        let mut j: usize = 0;
        while j < r.len() && lex_le_exec(&r[j], &x)
            invariant
                j <= r.len(),
                rs == views(r@),
                forall|k: int| 0 <= k < j ==> lex_le(#[trigger] rs[k], x@),
            decreases r.len() - j,
        {
            j += 1;
        }
        proof {
            if j < rs.len() {
                lemma_lex_total(rs[j as int], x@);
            }
        }
        r.insert(j, x);
        let ghost ns = views(r@);
        assert(ns =~= rs.insert(j as int, x@));
        assert(sorted_by(ns, lex_order())) by {
            assert forall|a: int, b: int| 0 <= a < b < ns.len() implies #[trigger] lex_order()(
                ns[a],
                ns[b],
            ) by {
                if b < j {
                    assert(lex_order()(rs[a], rs[b]));
                } else if b == j {
                } else if a < j {
                    assert(lex_le(rs[a], x@));
                    assert(lex_le(x@, rs[j as int]));
                    if j < b - 1 {
                        assert(lex_order()(rs[j as int], rs[b - 1]));
                        lemma_lex_transitive(x@, rs[j as int], rs[b - 1]);
                    }
                    lemma_lex_transitive(rs[a], x@, rs[b - 1]);
                } else if a == j {
                    if j < b - 1 {
                        assert(lex_order()(rs[j as int], rs[b - 1]));
                        lemma_lex_transitive(x@, rs[j as int], rs[b - 1]);
                    }
                } else {
                    assert(lex_order()(rs[a - 1], rs[b - 1]));
                }
            }
        }
        proof {
            vstd::seq_lib::to_multiset_insert(rs, j as int, x@);
            assert(vs.take(i + 1) =~= vs.take(i as int).push(vs[i as int]));
            vstd::seq_lib::to_multiset_build(vs.take(i as int), vs[i as int]);
        }
    }
    proof {
        assert(vs.take(n as int) =~= vs);
        lemma_lex_total_ordering();
        vs.lemma_sort_by_ensures(lex_order());
        vstd::seq_lib::lemma_sorted_unique(views(r@), vs.sort_by(lex_order()), lex_order());
    }
    r
}

} // verus!
