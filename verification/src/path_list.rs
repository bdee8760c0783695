use vstd::prelude::*;
use crate::path::{WallPath, same_path, path_lt, lemma_path_order};

verus! {

/// The predicate "is the same path as `k`".
pub open spec fn in_class(k: Seq<u8>) -> spec_fn(Seq<u8>) -> bool {
    |p: Seq<u8>| same_path(p, k)
}

/// The raw bytes of each path in `s`.
pub open spec fn views(s: Seq<WallPath>) -> Seq<Seq<u8>> {
    s.map_values(|p: WallPath| p@)
}

/// The entries of `s` that are the same path as `k`, in their order in `s`.
pub open spec fn class_of(s: Seq<Seq<u8>>, k: Seq<u8>) -> Seq<Seq<u8>> {
    s.filter(in_class(k))
}

/// No entry of `s` comes before an entry that precedes it.
pub open spec fn is_sorted(s: Seq<Seq<u8>>) -> bool {
    forall|i: int, j: int| 0 <= i < j < s.len() ==> !path_lt(#[trigger] s[j], #[trigger] s[i])
}

/// `out` is `inp` sorted stably: sorted, and for every path the entries that
/// are that path appear in `out` exactly as, and in the order, they appear in `inp`.
pub open spec fn stable_sort_of(out: Seq<Seq<u8>>, inp: Seq<Seq<u8>>) -> bool {
    &&& is_sorted(out)
    &&& forall|k: Seq<u8>| #[trigger] class_of(out, k) == class_of(inp, k)
}

/// Some entry of `s` is the same path as `p`.
pub open spec fn contains_path(s: Seq<Seq<u8>>, p: Seq<u8>) -> bool {
    exists|i: int| 0 <= i < s.len() && same_path(#[trigger] s[i], p)
}

pub proof fn lemma_filter_none<A>(s: Seq<A>, pred: spec_fn(A) -> bool)
    requires
        forall|i: int| 0 <= i < s.len() ==> !pred(#[trigger] s[i]),
    ensures
        s.filter(pred) == Seq::<A>::empty(),
    decreases s.len(),
{
    reveal(Seq::filter);
    if s.len() > 0 {
        lemma_filter_none(s.drop_last(), pred);
    }
}

pub proof fn lemma_filter_all<A>(s: Seq<A>, pred: spec_fn(A) -> bool)
    requires
        forall|i: int| 0 <= i < s.len() ==> pred(#[trigger] s[i]),
    ensures
        s.filter(pred) == s,
    decreases s.len(),
{
    reveal(Seq::filter);
    if s.len() > 0 {
        lemma_filter_all(s.drop_last(), pred);
        assert(s.drop_last().push(s.last()) =~= s);
    }
}

pub proof fn lemma_filter_single<A>(x: A, pred: spec_fn(A) -> bool)
    ensures
        seq![x].filter(pred) == (if pred(x) { seq![x] } else { Seq::<A>::empty() }),
{
    reveal(Seq::filter);
    assert(seq![x].drop_last() =~= Seq::<A>::empty());
    assert(Seq::<A>::empty().filter(pred) =~= Seq::<A>::empty());
    assert(Seq::<A>::empty().push(x) =~= seq![x]);
}

/// The class of `k` in `seq![x] + s`.
pub proof fn lemma_class_cons(x: Seq<u8>, s: Seq<Seq<u8>>, k: Seq<u8>)
    ensures
        class_of(seq![x] + s, k) == (if same_path(x, k) { seq![x] + class_of(s, k) } else {
            class_of(s, k)
        }),
{
    Seq::filter_distributes_over_add(seq![x], s, in_class(k));
    lemma_filter_single(x, in_class(k));
    if !same_path(x, k) {
        assert(Seq::<Seq<u8>>::empty() + class_of(s, k) =~= class_of(s, k));
    }
}

/// Inserting `x` into sorted `out` at `pos`, where everything before `pos`
/// comes before `x` and nothing from `pos` on does, keeps `out` sorted and
/// puts `x` first in its class.
pub proof fn lemma_insert_sorted(out: Seq<Seq<u8>>, x: Seq<u8>, pos: int)
    requires
        is_sorted(out),
        0 <= pos <= out.len(),
        forall|j: int| 0 <= j < pos ==> path_lt(#[trigger] out[j], x),
        pos < out.len() ==> !path_lt(out[pos], x),
    ensures
        is_sorted(out.insert(pos, x)),
        forall|k: Seq<u8>|
            #[trigger] class_of(out.insert(pos, x), k) == (if same_path(x, k) {
                seq![x] + class_of(out, k)
            } else {
                class_of(out, k)
            }),
{
    lemma_path_order();
    let n = out.insert(pos, x);
    assert forall|m: int| pos <= m < out.len() implies !path_lt(#[trigger] out[m], x) by {
        if m > pos {
            assert(!path_lt(out[m], out[pos]));
            if path_lt(out[m], x) {
                if !same_path(out[pos], out[m]) {
                    assert(path_lt(out[pos], out[m]));
                }
            }
        }
    }
    assert forall|i: int, j: int| 0 <= i < j < n.len() implies !path_lt(#[trigger] n[j], #[trigger] n[i]) by {
        if i < pos && j < pos {
            assert(n[i] == out[i] && n[j] == out[j]);
        } else if i < pos && j == pos {
            assert(n[i] == out[i] && n[j] == x);
            assert(path_lt(out[i], x));
        } else if i < pos {
            assert(n[i] == out[i] && n[j] == out[j - 1]);
            assert(!path_lt(out[j - 1], x));
            assert(path_lt(out[i], x));
            if path_lt(out[j - 1], out[i]) {
                assert(path_lt(out[j - 1], x));
            }
        } else if i == pos {
            assert(n[i] == x && n[j] == out[j - 1]);
        } else {
            assert(n[i] == out[i - 1] && n[j] == out[j - 1]);
        }
    }
    let front = out.take(pos);
    let back = out.skip(pos);
    assert(out =~= front + back);
    assert(n =~= front + (seq![x] + back));
    assert forall|k: Seq<u8>|
        #[trigger] class_of(n, k) == (if same_path(x, k) {
            seq![x] + class_of(out, k)
        } else {
            class_of(out, k)
        }) by {
        Seq::filter_distributes_over_add(front, seq![x] + back, in_class(k));
        Seq::filter_distributes_over_add(front, back, in_class(k));
        lemma_class_cons(x, back, k);
        if same_path(x, k) {
            assert forall|j: int| 0 <= j < front.len() implies !in_class(k)(#[trigger] front[j]) by {
                assert(front[j] == out[j]);
                assert(path_lt(out[j], x));
            }
            lemma_filter_none(front, in_class(k));
            assert(class_of(n, k) =~= seq![x] + class_of(back, k));
            assert(class_of(out, k) =~= class_of(back, k));
        } else {
            assert(class_of(n, k) =~= class_of(front, k) + class_of(back, k));
        }
    }
}

/// Sorts the paths by their components, keeping entries that are the same
/// path in the order they had.
pub fn sort_paths(list: &mut Vec<WallPath>)
    ensures
        stable_sort_of(views(final(list)@), views(old(list)@)),
{
    let ghost input = views(list@);
    let mut out: Vec<WallPath> = Vec::new();
    assert(input.skip(input.len() as int) =~= Seq::<Seq<u8>>::empty());
    assert(views(out@) =~= Seq::<Seq<u8>>::empty());
    assert forall|k: Seq<u8>| #[trigger] class_of(views(out@), k) == class_of(input.skip(input.len() as int), k) by {
        lemma_filter_none(views(out@), in_class(k));
    }
    while list.len() > 0
        invariant
            list@.len() <= input.len(),
            views(list@) == input.take(list@.len() as int),
            is_sorted(views(out@)),
            forall|k: Seq<u8>| #[trigger] class_of(views(out@), k) == class_of(input.skip(list@.len() as int), k),
        decreases list@.len(),
    {
        let ghost rest = list@.len() - 1;
        let ghost before_list = list@;
        let x = list.pop().unwrap();
        assert(views(before_list)[rest] == x@);
        assert(x@ == input[rest]);
        assert(views(list@) =~= input.take(rest));
        let mut pos: usize = 0;
        while pos < out.len() && out[pos].precedes(&x)
            invariant
                pos <= out@.len(),
                forall|j: int| 0 <= j < pos ==> path_lt(#[trigger] views(out@)[j], x@),
            decreases out@.len() - pos,
        {
            pos = pos + 1;
        }
        let ghost before = views(out@);
        let ghost xv = x@;
        out.insert(pos, x);
        proof {
            assert(views(out@) =~= before.insert(pos as int, xv));
            lemma_insert_sorted(before, xv, pos as int);
            assert(input.skip(rest) =~= seq![xv] + input.skip(rest + 1));
            assert forall|k: Seq<u8>| #[trigger] class_of(views(out@), k) == class_of(input.skip(rest), k) by {
                lemma_class_cons(xv, input.skip(rest + 1), k);
            }
        }
    }
    assert(input.skip(0) =~= input);
    *list = out;
}

/// Every entry of a filtered sequence is an entry of the sequence.
pub proof fn lemma_filter_member<A>(s: Seq<A>, pred: spec_fn(A) -> bool, j: int)
    requires
        0 <= j < s.filter(pred).len(),
    ensures
        exists|i: int| 0 <= i < s.len() && s[i] == s.filter(pred)[j],
    decreases s.len(),
{
    reveal(Seq::filter);
    if s.len() > 0 {
        let sub = s.drop_last().filter(pred);
        if j < sub.len() {
            lemma_filter_member(s.drop_last(), pred, j);
            let i = choose|i: int| 0 <= i < s.drop_last().len() && s.drop_last()[i] == sub[j];
            assert(s[i] == s.filter(pred)[j]);
        } else {
            assert(s[s.len() - 1] == s.filter(pred)[j]);
        }
    }
}

/// The class of the last entry's path ends with the last entry.
proof fn lemma_class_last(s: Seq<Seq<u8>>, k: Seq<u8>)
    requires
        s.len() > 0,
    ensures
        same_path(s.last(), k) ==> class_of(s, k) == class_of(s.drop_last(), k).push(s.last()),
        !same_path(s.last(), k) ==> class_of(s, k) == class_of(s.drop_last(), k),
{
    reveal(Seq::filter);
}

/// Two sorted sequences in which every path occurs in the same entries in the
/// same order are equal: a stable sort has exactly one result.
pub proof fn lemma_stable_sort_unique(a: Seq<Seq<u8>>, b: Seq<Seq<u8>>)
    requires
        is_sorted(a),
        is_sorted(b),
        forall|k: Seq<u8>| #[trigger] class_of(a, k) == class_of(b, k),
    ensures
        a == b,
    decreases a.len() + b.len(),
{
    lemma_path_order();
    if a.len() == 0 && b.len() == 0 {
        assert(a =~= b);
    } else if a.len() == 0 {
        lemma_class_last(b, b.last());
        lemma_filter_none(a, in_class(b.last()));
        assert(class_of(b, b.last()).len() > 0);
        assert(class_of(a, b.last()).len() == 0);
    } else if b.len() == 0 {
        lemma_class_last(a, a.last());
        lemma_filter_none(b, in_class(a.last()));
        assert(class_of(a, a.last()).len() > 0);
        assert(class_of(b, a.last()).len() == 0);
    } else {
        let x = a.last();
        let y = b.last();
        lemma_class_last(a, x);
        lemma_class_last(b, y);
        // some entry of b is the path x, and y is not before it
        let cb = class_of(b, x);
        assert(cb == class_of(a, x));
        assert(cb.len() > 0);
        lemma_filter_member(b, in_class(x), cb.len() - 1);
        let ib = choose|i: int| 0 <= i < b.len() && b[i] == cb[cb.len() - 1];
        b.lemma_filter_pred(in_class(x), cb.len() - 1);
        assert(same_path(b[ib], x));
        if ib < b.len() - 1 {
            assert(!path_lt(b[b.len() - 1], b[ib]));
        }
        assert(!path_lt(y, x));
        let ca = class_of(a, y);
        assert(ca == class_of(b, y));
        assert(ca.len() > 0);
        lemma_filter_member(a, in_class(y), ca.len() - 1);
        let ia = choose|i: int| 0 <= i < a.len() && a[i] == ca[ca.len() - 1];
        a.lemma_filter_pred(in_class(y), ca.len() - 1);
        assert(same_path(a[ia], y));
        if ia < a.len() - 1 {
            assert(!path_lt(a[a.len() - 1], a[ia]));
        }
        assert(!path_lt(x, y));
        assert(same_path(x, y));
        lemma_class_last(b, x);
        assert(class_of(a, x).last() == x);
        assert(class_of(b, x).last() == y);
        assert(x == y);
        let a2 = a.drop_last();
        let b2 = b.drop_last();
        assert forall|k: Seq<u8>| #[trigger] class_of(a2, k) == class_of(b2, k) by {
            lemma_class_last(a, k);
            lemma_class_last(b, k);
            if same_path(x, k) {
                assert(class_of(a2, k) =~= class_of(a, k).drop_last());
                assert(class_of(b2, k) =~= class_of(b, k).drop_last());
            }
        }
        assert forall|i: int, j: int| 0 <= i < j < a2.len() implies !path_lt(#[trigger] a2[j], #[trigger] a2[i]) by {
            assert(a2[i] == a[i] && a2[j] == a[j]);
        }
        assert forall|i: int, j: int| 0 <= i < j < b2.len() implies !path_lt(#[trigger] b2[j], #[trigger] b2[i]) by {
            assert(b2[i] == b[i] && b2[j] == b[j]);
        }
        lemma_stable_sort_unique(a2, b2);
        assert(a =~= a2.push(x));
        assert(b =~= b2.push(y));
    }
}

/// No two entries are the same path.
pub open spec fn distinct_paths(s: Seq<Seq<u8>>) -> bool {
    forall|i: int, j: int| 0 <= i < j < s.len() ==> !same_path(#[trigger] s[i], #[trigger] s[j])
}

/// Filtering keeps paths distinct.
pub proof fn lemma_filter_distinct(s: Seq<Seq<u8>>, pred: spec_fn(Seq<u8>) -> bool)
    requires
        distinct_paths(s),
    ensures
        distinct_paths(s.filter(pred)),
    decreases s.len(),
{
    reveal(Seq::filter);
    if s.len() > 0 {
        let d = s.drop_last();
        assert forall|i: int, j: int| 0 <= i < j < d.len() implies !same_path(#[trigger] d[i], #[trigger] d[j]) by {
            assert(d[i] == s[i] && d[j] == s[j]);
        }
        lemma_filter_distinct(d, pred);
        if pred(s.last()) {
            let f = d.filter(pred);
            let g = s.filter(pred);
            assert forall|i: int, j: int| 0 <= i < j < g.len() implies !same_path(#[trigger] g[i], #[trigger] g[j]) by {
                if j == g.len() - 1 {
                    lemma_filter_member(d, pred, i);
                    let m = choose|m: int| 0 <= m < d.len() && d[m] == f[i];
                    assert(g[i] == f[i]);
                    assert(s[m] == d[m]);
                    assert(!same_path(s[m], s[s.len() - 1]));
                } else {
                    assert(g[i] == f[i] && g[j] == f[j]);
                }
            }
        }
    }
}

/// Two entries of `s` that satisfy `pred` leave at least two entries in the filter.
proof fn lemma_filter_two<A>(s: Seq<A>, pred: spec_fn(A) -> bool, i: int, j: int)
    requires
        0 <= i < j < s.len(),
        pred(s[i]),
        pred(s[j]),
    ensures
        s.filter(pred).len() >= 2,
    decreases s.len(),
{
    reveal(Seq::filter);
    let d = s.drop_last();
    d.lemma_filter_len(pred);
    if j == s.len() - 1 {
        assert(d[i] == s[i]);
        d.lemma_filter_contains(pred, i);
    } else {
        assert(d[i] == s[i] && d[j] == s[j]);
        lemma_filter_two(d, pred, i, j);
    }
}

/// When no two entries satisfy `pred`, the filter holds at most one entry.
proof fn lemma_filter_at_most_one<A>(s: Seq<A>, pred: spec_fn(A) -> bool)
    requires
        forall|i: int, j: int| 0 <= i < j < s.len() ==> !(pred(#[trigger] s[i]) && pred(#[trigger] s[j])),
    ensures
        s.filter(pred).len() <= 1,
    decreases s.len(),
{
    reveal(Seq::filter);
    if s.len() > 0 {
        let d = s.drop_last();
        if pred(s.last()) {
            assert forall|i: int| 0 <= i < d.len() implies !pred(#[trigger] d[i]) by {
                assert(d[i] == s[i]);
                assert(!(pred(s[i]) && pred(s[s.len() - 1])));
            }
            lemma_filter_none(d, pred);
        } else {
            assert forall|i: int, j: int| 0 <= i < j < d.len() implies !(pred(#[trigger] d[i]) && pred(
                #[trigger] d[j],
            )) by {
                assert(d[i] == s[i] && d[j] == s[j]);
            }
            lemma_filter_at_most_one(d, pred);
        }
    }
}

/// Adding a path the favorites do not hold keeps them free of duplicates.
pub proof fn lemma_add_keeps_distinct(list: Seq<Seq<u8>>, p: Seq<u8>, added: Seq<Seq<u8>>)
    requires
        distinct_paths(list),
        !contains_path(list, p),
        stable_sort_of(added, list.push(p)),
    ensures
        distinct_paths(added),
{
    let full = list.push(p);
    assert forall|i: int, j: int| 0 <= i < j < added.len() implies !same_path(#[trigger] added[i], #[trigger] added[j]) by {
        if same_path(added[i], added[j]) {
            let k = added[i];
            lemma_filter_two(added, in_class(k), i, j);
            assert forall|a: int, b: int| 0 <= a < b < full.len() implies !(in_class(k)(#[trigger] full[a]) && in_class(k)(
                #[trigger] full[b],
            )) by {
                if in_class(k)(full[a]) && in_class(k)(full[b]) {
                    assert(same_path(full[a], full[b]));
                    if b == list.len() {
                        assert(full[a] == list[a]);
                        assert(same_path(list[a], p));
                    } else {
                        assert(full[a] == list[a] && full[b] == list[b]);
                    }
                }
            }
            lemma_filter_at_most_one(full, in_class(k));
            assert(class_of(added, k) == class_of(full, k));
        }
    }
}

} // verus!
