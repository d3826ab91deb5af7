//! A stable sort of positions by their keys.

use vstd::prelude::*;

verus! {

/// `a` comes before `b`: smaller at the first difference, or a proper prefix.
pub open spec fn less(a: Seq<u64>, b: Seq<u64>) -> bool
    decreases b.len(),
{
    if b.len() == 0 {
        false
    } else if a.len() == 0 {
        true
    } else if a[0] == b[0] {
        less(a.skip(1), b.skip(1))
    } else {
        a[0] < b[0]
    }
}

/// The position `x` comes before the position `y`: by their keys, and where the
/// keys are equal, by themselves.
pub open spec fn before(keys: Seq<Seq<u64>>, x: int, y: int) -> bool {
    less(keys[x], keys[y]) || (keys[x] == keys[y] && x < y)
}

/// Every position below `n` stands in `r` exactly once.
pub open spec fn arranges(r: Seq<usize>, n: nat) -> bool {
    &&& r.len() == n
    &&& r.no_duplicates()
    &&& forall|i: int| 0 <= i < r.len() ==> #[trigger] r[i] < n
}

pub open spec fn ascending(keys: Seq<Seq<u64>>, r: Seq<usize>) -> bool {
    forall|i: int, j: int|
        0 <= i < j < r.len() ==> #[trigger] before(keys, r[i] as int, r[j] as int)
}

pub open spec fn key_views(keys: Seq<Vec<u64>>) -> Seq<Seq<u64>> {
    keys.map_values(|k: Vec<u64>| k@)
}

/// The elements of `v` in the order that `r` gives their positions.
pub open spec fn arranged<A>(v: Seq<A>, r: Seq<usize>) -> Seq<A> {
    r.map_values(|i: usize| v[i as int])
}

proof fn lemma_less_irreflexive(a: Seq<u64>)
    ensures
        !less(a, a),
    decreases a.len(),
{
    if a.len() > 0 {
        lemma_less_irreflexive(a.skip(1));
    }
}

proof fn lemma_less_total(a: Seq<u64>, b: Seq<u64>)
    ensures
        less(a, b) || less(b, a) || a == b,
    decreases a.len(),
{
    if a.len() > 0 && b.len() > 0 {
        lemma_less_total(a.skip(1), b.skip(1));
        if a[0] == b[0] && a.skip(1) == b.skip(1) {
            assert(a =~= b) by {
                assert forall|i: int| 0 <= i < a.len() implies a[i] == b[i] by {
                    if i > 0 {
                        assert(a.skip(1)[i - 1] == b.skip(1)[i - 1]);
                    }
                }
                assert(a.skip(1).len() == b.skip(1).len());
            }
        }
    } else if a.len() == 0 && b.len() == 0 {
        assert(a =~= b);
    }
}

proof fn lemma_less_transitive(a: Seq<u64>, b: Seq<u64>, c: Seq<u64>)
    requires
        less(a, b),
        less(b, c),
    ensures
        less(a, c),
    decreases a.len(),
{
    if a.len() > 0 {
        if a[0] == b[0] && b[0] == c[0] {
            lemma_less_transitive(a.skip(1), b.skip(1), c.skip(1));
        }
    }
}

proof fn lemma_before_transitive(keys: Seq<Seq<u64>>, x: int, y: int, z: int)
    requires
        before(keys, x, y),
        before(keys, y, z),
    ensures
        before(keys, x, z),
{
    if less(keys[x], keys[y]) && less(keys[y], keys[z]) {
        lemma_less_transitive(keys[x], keys[y], keys[z]);
    }
}

/// Whether key `a` comes before key `b`.
fn key_less(a: &Vec<u64>, b: &Vec<u64>) -> (r: bool)
    ensures
        r == less(a@, b@),
{
    let mut i: usize = 0;
    assert(a@.skip(0) =~= a@);
    assert(b@.skip(0) =~= b@);
    while i < a.len() && i < b.len()
        invariant
            i <= a.len(),
            i <= b.len(),
            less(a@, b@) == less(a@.skip(i as int), b@.skip(i as int)),
        decreases a.len() - i,
    {
        let ghost x = a@.skip(i as int);
        let ghost y = b@.skip(i as int);
        assert(x[0] == a@[i as int] && y[0] == b@[i as int]);
        if a[i] != b[i] {
            return a[i] < b[i];
        }
        assert(x.skip(1) =~= a@.skip(i + 1));
        assert(y.skip(1) =~= b@.skip(i + 1));
        i += 1;
    }
    i < b.len()
}

/// Whether position `x` comes before the different position `y`.
fn is_before(keys: &Vec<Vec<u64>>, x: usize, y: usize) -> (r: bool)
    requires
        x < keys@.len(),
        y < keys@.len(),
    ensures
        r == before(key_views(keys@), x as int, y as int),
{
    if key_less(&keys[x], &keys[y]) {
        return true;
    }
    if key_less(&keys[y], &keys[x]) {
        proof {
            lemma_less_irreflexive(keys@[x as int]@);
        }
        return false;
    }
    proof {
        lemma_less_total(keys@[x as int]@, keys@[y as int]@);
    }
    x < y
}

/// The positions of two sorted runs, the first all below the second, as one.
fn merge(keys: &Vec<Vec<u64>>, a: &Vec<usize>, b: &Vec<usize>) -> (r: Vec<usize>)
    requires
        forall|i: int| 0 <= i < a@.len() ==> #[trigger] a@[i] < keys@.len(),
        forall|i: int| 0 <= i < b@.len() ==> #[trigger] b@[i] < keys@.len(),
        forall|i: int, j: int| 0 <= i < a@.len() && 0 <= j < b@.len() ==> a@[i] != b@[j],
        ascending(key_views(keys@), a@),
        ascending(key_views(keys@), b@),
    ensures
        r@.to_multiset() == a@.to_multiset().add(b@.to_multiset()),
        ascending(key_views(keys@), r@),
{
    broadcast use vstd::seq_lib::group_to_multiset_ensures;

    let ghost ks = key_views(keys@);
    let mut out: Vec<usize> = Vec::new();
    let mut i: usize = 0;
    let mut j: usize = 0;
    proof {
        assert(a@.take(0) =~= Seq::<usize>::empty());
        assert(b@.take(0) =~= Seq::<usize>::empty());
        assert(out@.to_multiset() =~= a@.take(0).to_multiset().add(b@.take(0).to_multiset()));
    }
    while i < a.len() || j < b.len()
        invariant
            i <= a.len(),
            j <= b.len(),
            ks == key_views(keys@),
            forall|i: int| 0 <= i < a@.len() ==> #[trigger] a@[i] < keys@.len(),
            forall|i: int| 0 <= i < b@.len() ==> #[trigger] b@[i] < keys@.len(),
            forall|i: int, j: int| 0 <= i < a@.len() && 0 <= j < b@.len() ==> a@[i] != b@[j],
            ascending(ks, a@),
            ascending(ks, b@),
            ascending(ks, out@),
            out@.to_multiset() == a@.take(i as int).to_multiset().add(
                b@.take(j as int).to_multiset(),
            ),
            forall|k: int, l: int|
                0 <= k < out@.len() && i <= l < a@.len() ==> #[trigger] before(
                    ks,
                    out@[k] as int,
                    a@[l] as int,
                ),
            forall|k: int, l: int|
                0 <= k < out@.len() && j <= l < b@.len() ==> #[trigger] before(
                    ks,
                    out@[k] as int,
                    b@[l] as int,
                ),
        decreases a.len() - i + b.len() - j,
    {
        broadcast use vstd::seq_lib::group_to_multiset_ensures;

        let from_a: bool = if i >= a.len() {
            false
        } else if j >= b.len() {
            true
        } else {
            is_before(keys, a[i], b[j])
        };
        let ghost prev = out@;
        if from_a {
            let x = a[i];
            proof {
                assert(a@.take(i + 1) =~= a@.take(i as int).push(x));
                assert forall|l: int| j <= l < b@.len() implies #[trigger] before(
                    ks,
                    x as int,
                    b@[l] as int,
                ) by {
                    if l > j {
                        assert(before(ks, b@[j as int] as int, b@[l] as int));
                        lemma_before_transitive(ks, x as int, b@[j as int] as int, b@[l] as int);
                    }
                }
            }
            out.push(x);
            i += 1;
        } else {
            let y = b[j];
            proof {
                assert(b@.take(j + 1) =~= b@.take(j as int).push(y));
                assert forall|l: int| i <= l < a@.len() implies #[trigger] before(
                    ks,
                    y as int,
                    a@[l] as int,
                ) by {
                    lemma_less_total(ks[a@[i as int] as int], ks[y as int]);
                    assert(before(ks, y as int, a@[i as int] as int));
                    if l > i {
                        assert(before(ks, a@[i as int] as int, a@[l] as int));
                        lemma_before_transitive(ks, y as int, a@[i as int] as int, a@[l] as int);
                    }
                }
            }
            out.push(y);
            j += 1;
        }
        proof {
            assert(out@.to_multiset() =~= a@.take(i as int).to_multiset().add(
                b@.take(j as int).to_multiset(),
            ));
        }
    }
    assert(a@.take(i as int) =~= a@);
    assert(b@.take(j as int) =~= b@);
    out
}

/// The positions from `from` up to `to`, sorted.
fn sort_range(keys: &Vec<Vec<u64>>, from: usize, to: usize) -> (r: Vec<usize>)
    requires
        from <= to <= keys@.len(),
    ensures
        r@.to_multiset() == Seq::new((to - from) as nat, |i: int| (from + i) as usize).to_multiset(),
        forall|i: int| 0 <= i < r@.len() ==> from <= #[trigger] r@[i] < to,
        ascending(key_views(keys@), r@),
    decreases to - from,
{
    broadcast use vstd::seq_lib::group_to_multiset_ensures;

    let ghost whole = Seq::new((to - from) as nat, |i: int| (from + i) as usize);
    if to - from == 0 {
        let out: Vec<usize> = Vec::new();
        assert(out@ =~= whole);
        return out;
    }
    if to - from == 1 {
        let mut out: Vec<usize> = Vec::new();
        out.push(from);
        assert(out@ =~= whole);
        return out;
    }
    let mid: usize = from + (to - from) / 2;
    let a = sort_range(keys, from, mid);
    let b = sort_range(keys, mid, to);
    let r = merge(keys, &a, &b);
    proof {
        let left = Seq::new((mid - from) as nat, |i: int| (from + i) as usize);
        let right = Seq::new((to - mid) as nat, |i: int| (mid + i) as usize);
        assert(whole =~= left + right);
        vstd::seq_lib::lemma_multiset_commutative(left, right);
        assert forall|i: int| 0 <= i < r@.len() implies from <= #[trigger] r@[i] < to by {
            assert(r@.contains(r@[i]));
            assert(r@.to_multiset().count(r@[i]) > 0);
            if a@.to_multiset().count(r@[i]) > 0 {
                assert(a@.contains(r@[i]));
            } else {
                assert(b@.contains(r@[i]));
            }
        }
    }
    r
}

/// All positions, sorted by their keys; equal keys keep their order.
pub fn sort_positions(keys: &Vec<Vec<u64>>) -> (r: Vec<usize>)
    ensures
        arranges(r@, keys@.len()),
        ascending(key_views(keys@), r@),
{
    broadcast use vstd::seq_lib::group_to_multiset_ensures;

    let r = sort_range(keys, 0, keys.len());
    proof {
        let whole = Seq::new(keys@.len(), |i: int| (0 + i) as usize);
        assert(whole.no_duplicates());
        whole.lemma_multiset_has_no_duplicates();
        r@.lemma_multiset_has_no_duplicates_conv();
        assert(r@.len() == r@.to_multiset().len());
        assert(whole.len() == whole.to_multiset().len());
    }
    r
}

/// An arrangement leaves nothing out: each of the `n` has a place in it.
pub proof fn nothing_is_left_out(r: Seq<usize>, n: nat, k: int) -> (p: int)
    requires
        arranges(r, n),
        0 <= k < n,
    ensures
        0 <= p < r.len(),
        r[p] == k,
{
    let v = r.map_values(|x: usize| x as int);
    assert(v.no_duplicates()) by {
        assert forall|i: int, j: int| 0 <= i < v.len() && 0 <= j < v.len() && i != j implies v[i]
            != v[j] by {
            assert(r[i] != r[j]);
        }
    }
    v.unique_seq_to_set();
    vstd::set_lib::lemma_int_range(0, n as int);
    let all = vstd::set_lib::set_int_range(0, n as int);
    assert(v.to_set().subset_of(all)) by {
        assert forall|x: int| v.to_set().contains(x) implies all.contains(x) by {
            let i = choose|i: int| 0 <= i < v.len() && v[i] == x;
            assert(r[i] < n);
        }
    }
    vstd::set_lib::lemma_subset_equality(v.to_set(), all);
    assert(v.to_set().contains(k));
    let p = choose|p: int| 0 <= p < v.len() && v[p] == k;
    assert(r[p] as int == v[p]);
    p
}

/// What comes first is told at the first place where two keys differ: the smaller
/// number there, or the end of the shorter key.
pub proof fn order_is_by_the_first_difference(a: Seq<u64>, b: Seq<u64>, k: int)
    requires
        0 <= k <= a.len(),
        k <= b.len(),
        a.take(k) == b.take(k),
    ensures
        k < a.len() && k < b.len() && a[k] != b[k] ==> less(a, b) == (a[k] < b[k]),
        k == a.len() && k < b.len() ==> less(a, b) && !less(b, a),
        a == b ==> !less(a, b),
    decreases k,
{
    if a == b {
        lemma_less_irreflexive(a);
    }
    if k > 0 {
        let c = a.skip(1);
        let d = b.skip(1);
        assert(a[0] == a.take(k)[0] && b[0] == b.take(k)[0]);
        assert(c.take(k - 1) =~= a.take(k).skip(1));
        assert(d.take(k - 1) =~= b.take(k).skip(1));
        order_is_by_the_first_difference(c, d, k - 1);
    }
}

} // verus!
