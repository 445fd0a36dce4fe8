//! Stable sorting.
use vstd::prelude::*;

verus! {

/// An order in which some items may tie: asymmetric, and an item that comes before
/// another comes before, or after, any third.
pub open spec fn strict_weak<T>(before: spec_fn(T, T) -> bool) -> bool {
    &&& forall|a: T, b: T| #[trigger] before(a, b) ==> !before(b, a)
    &&& forall|a: T, b: T, c: T| #![trigger before(a, c), before(a, b)]
        before(a, c) ==> before(a, b) || before(b, c)
}

/// `p` takes each place of `output` to the place of `input` that it came from, and
/// `output` is in order, with ties in the order that they had.
pub open spec fn arranges<T>(
    p: Seq<int>,
    input: Seq<T>,
    output: Seq<T>,
    before: spec_fn(T, T) -> bool,
) -> bool {
    &&& p.len() == input.len()
    &&& output.len() == input.len()
    &&& forall|i: int|
        0 <= i < p.len() ==> 0 <= #[trigger] p[i] < input.len() && output[i] == input[p[i]]
    &&& forall|i: int, j: int|
        0 <= i < j < p.len() ==> {
            &&& #[trigger] p[i] != #[trigger] p[j]
            &&& !before(output[j], output[i])
            &&& !before(output[i], output[j]) ==> p[i] < p[j]
        }
}

/// `output` holds the items of `input`, sorted, with ties in the order that they had.
pub open spec fn is_sorted_from<T>(
    input: Seq<T>,
    output: Seq<T>,
    before: spec_fn(T, T) -> bool,
) -> bool {
    exists|p: Seq<int>| #[trigger] arranges(p, input, output, before)
}

proof fn lemma_insert<T>(
    p: Seq<int>,
    input: Seq<T>,
    output: Seq<T>,
    before: spec_fn(T, T) -> bool,
    x: T,
    at: int,
)
    requires
        strict_weak(before),
        arranges(p, input, output, before),
        0 <= at <= output.len(),
        forall|i: int| 0 <= i < at ==> !before(x, #[trigger] output[i]),
        at < output.len() ==> before(x, output[at]),
    ensures
        arranges(p.insert(at, input.len() as int), input.push(x), output.insert(at, x), before),
{
    let n = input.len() as int;
    let q = p.insert(at, n);
    let out = output.insert(at, x);
    let all = input.push(x);
    assert(q.len() == n + 1 && out.len() == n + 1 && all.len() == n + 1);
    assert forall|i: int| 0 <= i < q.len() implies 0 <= #[trigger] q[i] < all.len() && out[i]
        == all[q[i]] by {
        if i < at {
            assert(q[i] == p[i]);
        } else if i > at {
            assert(q[i] == p[i - 1]);
        }
    }
    assert forall|j: int| at <= j < output.len() implies before(x, #[trigger] output[j]) by {
        if j > at {
            assert(p[at] != p[j]);
            assert(!before(output[j], output[at]));
            assert(before(x, output[at]) ==> before(x, output[j]) || before(output[j], output[at]));
        }
    }
    assert forall|i: int, j: int| 0 <= i < j < q.len() implies {
        &&& #[trigger] q[i] != #[trigger] q[j]
        &&& !before(out[j], out[i])
        &&& !before(out[i], out[j]) ==> q[i] < q[j]
    } by {
        let pi = if i < at {
            i
        } else {
            i - 1
        };
        let pj = if j < at {
            j
        } else {
            j - 1
        };
        if i == at {
            assert(q[j] == p[pj]);
            assert(out[j] == output[pj]);
            assert(before(x, output[pj]));
        } else if j == at {
            assert(q[i] == p[pi]);
            assert(out[i] == output[pi]);
        } else {
            assert(q[i] == p[pi] && q[j] == p[pj]);
            assert(out[i] == output[pi] && out[j] == output[pj]);
        }
    }
    assert(arranges(q, all, out, before));
}

/// Sorts `items` by `less`, with ties in the order that they had.
pub(crate) fn sort_stable<T, F: Fn(&T, &T) -> bool>(
    items: Vec<T>,
    less: F,
    Ghost(before): Ghost<spec_fn(T, T) -> bool>,
) -> (out: Vec<T>)
    requires
        strict_weak(before),
        forall|a: &T, b: &T| call_requires(less, (a, b)),
        forall|a: &T, b: &T, r: bool| call_ensures(less, (a, b), r) ==> r == before(*a, *b),
    ensures
        is_sorted_from(items@, out@, before),
{
    let ghost all = items@;
    let mut rest = items;
    let mut out: Vec<T> = Vec::new();
    let ghost mut p: Seq<int> = Seq::empty();
    assert(arranges(p, all.take(0), out@, before));
    while rest.len() > 0
        invariant
            strict_weak(before),
            forall|a: &T, b: &T| call_requires(less, (a, b)),
            forall|a: &T, b: &T, r: bool| call_ensures(less, (a, b), r) ==> r == before(*a, *b),
            rest@.len() <= all.len(),
            rest@ == all.skip(all.len() - rest@.len()),
            arranges(p, all.take(all.len() - rest@.len()), out@, before),
        decreases rest@.len(),
    {
        let ghost done = all.len() - rest@.len();
        let x = rest.remove(0);
        assert(x == all[done]);
        let mut at: usize = 0;
        while at < out.len() && !less(&x, &out[at])
            invariant
                at <= out@.len(),
                forall|a: &T, b: &T| call_requires(less, (a, b)),
                forall|a: &T, b: &T, r: bool| call_ensures(less, (a, b), r) ==> r == before(*a, *b),
                forall|i: int| 0 <= i < at ==> !before(x, #[trigger] out@[i]),
            ensures
                at <= out@.len(),
                forall|i: int| 0 <= i < at ==> !before(x, #[trigger] out@[i]),
                at < out@.len() ==> before(x, out@[at as int]),
            decreases out@.len() - at,
        {
            at += 1;
        }
        proof {
            lemma_insert(p, all.take(done), out@, before, x, at as int);
            p = p.insert(at as int, done);
            assert(all.take(done).push(x) =~= all.take(done + 1));
        }
        out.insert(at, x);
        assert(rest@ =~= all.skip(all.len() - rest@.len()));
    }
    assert(all.take(all.len() as int) =~= all);
    out
}

/// A sorted list holds the same items as the list that it came from.
pub proof fn sorting_keeps_the_items<T>(
    input: Seq<T>,
    output: Seq<T>,
    before: spec_fn(T, T) -> bool,
)
    requires
        is_sorted_from(input, output, before),
    ensures
        output.len() == input.len(),
        forall|x: T| output.contains(x) <==> input.contains(x),
{
    let p = choose|p: Seq<int>| #[trigger] arranges(p, input, output, before);
    assert forall|x: T| output.contains(x) implies input.contains(x) by {
        let i = choose|i: int| 0 <= i < output.len() && output[i] == x;
        assert(input[p[i]] == x);
    }
    assert forall|x: T| input.contains(x) implies output.contains(x) by {
        let k = choose|k: int| 0 <= k < input.len() && input[k] == x;
        lemma_permutation_hits(p, input.len() as int, k);
        let i = choose|i: int| 0 <= i < p.len() && p[i] == k;
        assert(output[i] == x);
    }
}

/// Items that stand one before another can be arranged in one way only.
pub proof fn items_in_order_have_one_arrangement<T>(
    a: Seq<T>,
    b: Seq<T>,
    before: spec_fn(T, T) -> bool,
)
    requires
        forall|x: T, y: T| #[trigger] before(x, y) ==> !before(y, x),
        forall|i: int, j: int| 0 <= i < j < a.len() ==> before(#[trigger] a[i], #[trigger] a[j]),
        forall|i: int, j: int| 0 <= i < j < b.len() ==> before(#[trigger] b[i], #[trigger] b[j]),
        forall|x: T| #[trigger] a.contains(x) <==> b.contains(x),
    ensures
        a == b,
    decreases a.len(),
{
    if a.len() == 0 {
        if b.len() > 0 {
            assert(b.contains(b[0]));
            assert(a.contains(b[0]));
        }
        assert(a =~= b);
    } else {
        assert(a.contains(a[0]));
        let j = choose|j: int| 0 <= j < b.len() && b[j] == a[0];
        assert(b.contains(b[0]));
        assert(a.contains(b[0]));
        let i = choose|i: int| 0 <= i < a.len() && a[i] == b[0];
        if j > 0 && i > 0 {
            assert(before(a[0], a[i]));
            assert(before(b[0], b[j]));
        }
        assert(a[0] == b[0]);
        let (c, d) = (a.drop_first(), b.drop_first());
        assert forall|x: T| #[trigger] c.contains(x) <==> d.contains(x) by {
            if c.contains(x) {
                let k = choose|k: int| 0 <= k < c.len() && c[k] == x;
                assert(a[k + 1] == x && before(a[0], a[k + 1]));
                assert(a.contains(x));
                let l = choose|l: int| 0 <= l < b.len() && b[l] == x;
                assert(l != 0);
                assert(d[l - 1] == x);
            }
            if d.contains(x) {
                let k = choose|k: int| 0 <= k < d.len() && d[k] == x;
                assert(b[k + 1] == x && before(b[0], b[k + 1]));
                assert(b.contains(x));
                assert(a.contains(x));
                let l = choose|l: int| 0 <= l < a.len() && a[l] == x;
                assert(l != 0);
                assert(c[l - 1] == x);
            }
        }
        assert forall|i: int, j: int| 0 <= i < j < c.len() implies before(
            #[trigger] c[i],
            #[trigger] c[j],
        ) by {
            assert(before(a[i + 1], a[j + 1]));
        }
        assert forall|i: int, j: int| 0 <= i < j < d.len() implies before(
            #[trigger] d[i],
            #[trigger] d[j],
        ) by {
            assert(before(b[i + 1], b[j + 1]));
        }
        items_in_order_have_one_arrangement(c, d, before);
        assert(a =~= seq![a[0]] + c);
        assert(b =~= seq![b[0]] + d);
    }
}

/// Distinct numbers below their count leave none out.
pub(crate) proof fn lemma_permutation_hits(p: Seq<int>, n: int, k: int)
    requires
        p.len() == n,
        forall|i: int| 0 <= i < n ==> 0 <= #[trigger] p[i] < n,
        forall|i: int, j: int| 0 <= i < j < n ==> #[trigger] p[i] != #[trigger] p[j],
        0 <= k < n,
    ensures
        exists|i: int| 0 <= i < n && p[i] == k,
{
    if forall|i: int| 0 <= i < n ==> #[trigger] p[i] != k {
        let all = vstd::set_lib::set_int_range(0, n);
        vstd::set_lib::lemma_int_range(0, n);
        assert(p.no_duplicates());
        p.unique_seq_to_set();
        assert(p.to_set().subset_of(all.remove(k))) by {
            assert forall|x: int| p.to_set().contains(x) implies all.remove(k).contains(x) by {
                let i = choose|i: int| 0 <= i < p.len() && p[i] == x;
                assert(p[i] == x);
            }
        }
        vstd::set_lib::lemma_len_subset(p.to_set(), all.remove(k));
        assert(false);
    }
}

proof fn lemma_places_rise<T>(
    p: Seq<int>,
    input: Seq<T>,
    output: Seq<T>,
    before: spec_fn(T, T) -> bool,
    i: int,
)
    requires
        arranges(p, input, output, before),
        forall|i: int, j: int|
            #![trigger input[i], input[j]]
            0 <= i < j < input.len() ==> !before(input[j], input[i]),
        0 <= i < p.len(),
    ensures
        p[i] >= i,
        i > 0 ==> p[i - 1] < p[i],
    decreases i,
{
    if i > 0 {
        lemma_places_rise(p, input, output, before, i - 1);
        let a = p[i - 1];
        let b = p[i];
        assert(a != b);
        assert(output[i - 1] == input[a] && output[i] == input[b]);
        if b < a {
            assert(!before(input[a], input[b]));
            assert(!before(output[i - 1], output[i]));
        }
    }
}

proof fn lemma_places_stay<T>(
    p: Seq<int>,
    input: Seq<T>,
    output: Seq<T>,
    before: spec_fn(T, T) -> bool,
    i: int,
)
    requires
        arranges(p, input, output, before),
        forall|i: int, j: int|
            #![trigger input[i], input[j]]
            0 <= i < j < input.len() ==> !before(input[j], input[i]),
        0 <= i < p.len(),
    ensures
        p[i] == i,
    decreases p.len() - i,
{
    lemma_places_rise(p, input, output, before, i);
    if i == p.len() - 1 {
        assert(p[i] < input.len());
    } else {
        lemma_places_stay(p, input, output, before, i + 1);
        lemma_places_rise(p, input, output, before, i + 1);
    }
}

/// A list that is in order already stays as it is, and so do items that tie.
pub proof fn lists_in_order_stay_as_they_are<T>(
    input: Seq<T>,
    output: Seq<T>,
    before: spec_fn(T, T) -> bool,
)
    requires
        is_sorted_from(input, output, before),
        forall|i: int, j: int|
            #![trigger input[i], input[j]]
            0 <= i < j < input.len() ==> !before(input[j], input[i]),
    ensures
        output == input,
{
    let p = choose|p: Seq<int>| #[trigger] arranges(p, input, output, before);
    assert forall|i: int| 0 <= i < input.len() implies output[i] == input[i] by {
        lemma_places_stay(p, input, output, before, i);
    }
    assert(output =~= input);
}

/// What comes out of sorting is in order: nothing stands before what it should follow.
pub proof fn sorted_lists_are_in_order<T>(
    input: Seq<T>,
    output: Seq<T>,
    before: spec_fn(T, T) -> bool,
    i: int,
    j: int,
)
    requires
        is_sorted_from(input, output, before),
        0 <= i < j < output.len(),
    ensures
        output.len() == input.len(),
        !before(output[j], output[i]),
{
    let p = choose|p: Seq<int>| #[trigger] arranges(p, input, output, before);
    assert(p[i] != p[j]);
}

} // verus!
