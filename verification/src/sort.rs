//! Stable ordering by keys made of byte strings, compared as Rust compares
//! `String`s (lexicographically by bytes), component by component.
use vstd::prelude::*;

verus! {

/// `a` sorts strictly before `b`, byte by byte.
pub open spec fn bytes_lt(a: Seq<u8>, b: Seq<u8>) -> bool
    decreases a.len(),
{
    if a.len() == 0 {
        b.len() > 0
    } else if b.len() == 0 {
        false
    } else if a[0] < b[0] {
        true
    } else if a[0] > b[0] {
        false
    } else {
        bytes_lt(a.drop_first(), b.drop_first())
    }
}

pub proof fn lemma_bytes_lt_order(a: Seq<u8>, b: Seq<u8>, c: Seq<u8>)
    ensures
        !bytes_lt(a, a),
        bytes_lt(a, b) ==> !bytes_lt(b, a),
        a != b ==> bytes_lt(a, b) || bytes_lt(b, a),
        bytes_lt(a, b) && bytes_lt(b, c) ==> bytes_lt(a, c),
    decreases a.len(),
{
    if a.len() > 0 {
        if b.len() > 0 && c.len() > 0 {
            lemma_bytes_lt_order(a.drop_first(), b.drop_first(), c.drop_first());
        } else if b.len() > 0 {
            lemma_bytes_lt_order(a.drop_first(), b.drop_first(), c);
        } else {
            lemma_bytes_lt_order(a.drop_first(), a.drop_first(), a.drop_first());
        }
        if a != b && b.len() > 0 && a[0] == b[0] {
            assert(a.drop_first() != b.drop_first()) by {
                if a.drop_first() == b.drop_first() {
                    assert(a =~= seq![a[0]] + a.drop_first());
                    assert(b =~= seq![b[0]] + b.drop_first());
                }
            }
        }
    } else {
        if b.len() == 0 {
            assert(a =~= b);
        }
    }
}

/// `a` sorts strictly before `b`, component by component.
pub open spec fn key_lt(a: Seq<Seq<u8>>, b: Seq<Seq<u8>>) -> bool
    decreases a.len(),
{
    if a.len() == 0 {
        b.len() > 0
    } else if b.len() == 0 {
        false
    } else if bytes_lt(a[0], b[0]) {
        true
    } else if a[0] != b[0] {
        false
    } else {
        key_lt(a.drop_first(), b.drop_first())
    }
}

pub proof fn lemma_key_lt_order(a: Seq<Seq<u8>>, b: Seq<Seq<u8>>, c: Seq<Seq<u8>>)
    ensures
        !key_lt(a, a),
        key_lt(a, b) ==> !key_lt(b, a),
        a != b ==> key_lt(a, b) || key_lt(b, a),
        key_lt(a, b) && key_lt(b, c) ==> key_lt(a, c),
    decreases a.len(),
{
    if a.len() > 0 {
        lemma_bytes_lt_order(a[0], a[0], a[0]);
        if b.len() > 0 {
            lemma_bytes_lt_order(a[0], b[0], a[0]);
            if c.len() > 0 {
                lemma_bytes_lt_order(a[0], b[0], c[0]);
                lemma_bytes_lt_order(b[0], a[0], c[0]);
                lemma_bytes_lt_order(a[0], c[0], b[0]);
                lemma_key_lt_order(a.drop_first(), b.drop_first(), c.drop_first());
            } else {
                lemma_key_lt_order(a.drop_first(), b.drop_first(), b.drop_first());
            }
            if a != b && a[0] == b[0] {
                assert(a.drop_first() != b.drop_first()) by {
                    if a.drop_first() == b.drop_first() {
                        assert(a =~= seq![a[0]] + a.drop_first());
                        assert(b =~= seq![b[0]] + b.drop_first());
                    }
                }
            }
        } else {
            lemma_key_lt_order(a.drop_first(), a.drop_first(), a.drop_first());
        }
    } else {
        if b.len() == 0 {
            assert(a =~= b);
        }
    }
}

/// Key `a` comes strictly before key `b` in the chosen direction.
pub open spec fn key_before(a: Seq<Seq<u8>>, b: Seq<Seq<u8>>, descending: bool) -> bool {
    if descending {
        key_lt(b, a)
    } else {
        key_lt(a, b)
    }
}

pub open spec fn keys_view(keys: Seq<Vec<Vec<u8>>>) -> Seq<Seq<Seq<u8>>> {
    keys.map_values(|k: Vec<Vec<u8>>| k@.map_values(|c: Vec<u8>| c@))
}

/// `order` lists each index below `n` once.
pub open spec fn is_permutation(order: Seq<usize>, n: nat) -> bool {
    &&& order.len() == n
    &&& forall|i: int| 0 <= i < order.len() ==> #[trigger] order[i] < n
    &&& forall|i: int, j: int| 0 <= i < j < order.len() ==> #[trigger] order[i] != #[trigger] order[j]
}

/// `order` arranges `keys` so that no key comes before an earlier one, and
/// equal keys keep their original order.
pub open spec fn is_stable_order(order: Seq<usize>, keys: Seq<Seq<Seq<u8>>>, descending: bool) -> bool {
    &&& is_permutation(order, keys.len())
    &&& forall|i: int, j: int|
        0 <= i < j < order.len() ==> !key_before(
            keys[#[trigger] order[j] as int],
            keys[#[trigger] order[i] as int],
            descending,
        )
    &&& forall|i: int, j: int|
        0 <= i < j < order.len() && keys[#[trigger] order[i] as int] == keys[#[trigger] order[j] as int]
            ==> order[i] < order[j]
}

/// Compares two byte strings: negative, zero or positive as `a` sorts
/// before, equal to or after `b`.
pub fn compare_bytes(a: &[u8], b: &[u8]) -> (r: i8)
    ensures
        (r < 0) == bytes_lt(a@, b@),
        (r == 0) == (a@ == b@),
        (r > 0) == bytes_lt(b@, a@),
{
    proof {
        lemma_bytes_lt_order(a@, b@, a@);
        assert(a@.skip(0) =~= a@);
        assert(b@.skip(0) =~= b@);
    }
    let mut k: usize = 0;
    while k < a.len() && k < b.len()
        invariant
            k <= a.len(),
            k <= b.len(),
            a@.subrange(0, k as int) == b@.subrange(0, k as int),
            bytes_lt(a@, b@) == bytes_lt(a@.skip(k as int), b@.skip(k as int)),
            bytes_lt(b@, a@) == bytes_lt(b@.skip(k as int), a@.skip(k as int)),
        decreases a.len() - k,
    {
        if a[k] != b[k] {
            proof {
                assert(a@.skip(k as int)[0] == a@[k as int]);
                assert(b@.skip(k as int)[0] == b@[k as int]);
                assert(a@[k as int] != b@[k as int]);
            }
            if a[k] < b[k] {
                return -1;
            } else {
                return 1;
            }
        }
        proof {
            assert(a@.skip(k as int).drop_first() =~= a@.skip(k + 1));
            assert(b@.skip(k as int).drop_first() =~= b@.skip(k + 1));
            assert(a@.subrange(0, k + 1) =~= a@.subrange(0, k as int).push(a@[k as int]));
            assert(b@.subrange(0, k + 1) =~= b@.subrange(0, k as int).push(b@[k as int]));
        }
        k += 1;
    }
    if a.len() == b.len() {
        assert(a@ =~= a@.subrange(0, k as int));
        assert(b@ =~= b@.subrange(0, k as int));
        0
    } else if a.len() < b.len() {
        assert(a@.skip(k as int).len() == 0);
        assert(a@.len() != b@.len());
        -1
    } else {
        assert(b@.skip(k as int).len() == 0);
        assert(a@.len() != b@.len());
        1
    }
}

/// Compares two keys component by component, as [`compare_bytes`] does.
pub fn compare_keys(a: &Vec<Vec<u8>>, b: &Vec<Vec<u8>>) -> (r: i8)
    ensures
        (r < 0) == key_lt(a@.map_values(|c: Vec<u8>| c@), b@.map_values(|c: Vec<u8>| c@)),
        (r == 0) == (a@.map_values(|c: Vec<u8>| c@) == b@.map_values(|c: Vec<u8>| c@)),
        (r > 0) == key_lt(b@.map_values(|c: Vec<u8>| c@), a@.map_values(|c: Vec<u8>| c@)),
{
    let ghost av = a@.map_values(|c: Vec<u8>| c@);
    let ghost bv = b@.map_values(|c: Vec<u8>| c@);
    proof {
        lemma_key_lt_order(av, bv, av);
        assert(av.skip(0) =~= av);
        assert(bv.skip(0) =~= bv);
    }
    let mut k: usize = 0;
    while k < a.len() && k < b.len()
        invariant
            k <= a.len(),
            k <= b.len(),
            av == a@.map_values(|c: Vec<u8>| c@),
            bv == b@.map_values(|c: Vec<u8>| c@),
            av.subrange(0, k as int) == bv.subrange(0, k as int),
            key_lt(av, bv) == key_lt(av.skip(k as int), bv.skip(k as int)),
            key_lt(bv, av) == key_lt(bv.skip(k as int), av.skip(k as int)),
        decreases a.len() - k,
    {
        let c = compare_bytes(a[k].as_slice(), b[k].as_slice());
        proof {
            assert(av.skip(k as int)[0] == av[k as int]);
            assert(bv.skip(k as int)[0] == bv[k as int]);
            lemma_bytes_lt_order(av[k as int], bv[k as int], av[k as int]);
        }
        if c != 0 {
            proof {
                if av == bv {
                    assert(av[k as int] == bv[k as int]);
                }
            }
            return c;
        }
        proof {
            assert(av.skip(k as int).drop_first() =~= av.skip(k + 1));
            assert(bv.skip(k as int).drop_first() =~= bv.skip(k + 1));
            assert(av.subrange(0, k + 1) =~= av.subrange(0, k as int).push(av[k as int]));
            assert(bv.subrange(0, k + 1) =~= bv.subrange(0, k as int).push(bv[k as int]));
        }
        k += 1;
    }
    if a.len() == b.len() {
        assert(av =~= av.subrange(0, k as int));
        assert(bv =~= bv.subrange(0, k as int));
        0
    } else if a.len() < b.len() {
        assert(av.skip(k as int).len() == 0);
        assert(av.len() != bv.len());
        -1
    } else {
        assert(bv.skip(k as int).len() == 0);
        assert(av.len() != bv.len());
        1
    }
}

/// The indices of `keys` in stable sorted order (descending if asked).
pub fn stable_order(keys: &Vec<Vec<Vec<u8>>>, descending: bool) -> (order: Vec<usize>)
    ensures
        is_stable_order(order@, keys_view(keys@), descending),
{
    let ghost ks = keys_view(keys@);
    let mut order: Vec<usize> = Vec::new();
    let mut k: usize = 0;
    while k < keys.len()
        invariant
            k <= keys.len(),
            ks == keys_view(keys@),
            order@.len() == k,
            forall|i: int| 0 <= i < order@.len() ==> #[trigger] order@[i] < k,
            forall|i: int, j: int| 0 <= i < j < order@.len() ==> #[trigger] order@[i] != #[trigger] order@[j],
            forall|i: int, j: int|
                0 <= i < j < order@.len() ==> !key_before(
                    ks[#[trigger] order@[j] as int],
                    ks[#[trigger] order@[i] as int],
                    descending,
                ),
            forall|i: int, j: int|
                0 <= i < j < order@.len() && ks[#[trigger] order@[i] as int] == ks[#[trigger] order@[j] as int]
                    ==> order@[i] < order@[j],
        decreases keys.len() - k,
    {
        let mut p = order.len();
        let mut stop = false;
        while p > 0 && !stop
            invariant
                p <= order@.len(),
                order@.len() == k,
                k < keys.len(),
                ks == keys_view(keys@),
                forall|i: int| 0 <= i < order@.len() ==> #[trigger] order@[i] < k,
                forall|i: int| p <= i < order@.len() ==> key_before(ks[k as int], ks[#[trigger] order@[i] as int], descending),
                stop ==> p > 0 && !key_before(ks[k as int], ks[order@[p - 1] as int], descending),
            decreases 2 * p + (if stop { 0int } else { 1int }),
        {
            let c = compare_keys(&keys[k], &keys[order[p - 1]]);
            let strictly_before = if descending { c > 0 } else { c < 0 };
            if strictly_before {
                p -= 1;
            } else {
                stop = true;
            }
        }
        let ghost old_order = order@;
        proof {
            assert forall|i: int| 0 <= i < p implies !key_before(ks[k as int], ks[#[trigger] old_order[i] as int], descending) by {
                lemma_key_lt_order(ks[k as int], ks[old_order[i] as int], ks[old_order[p - 1] as int]);
                lemma_key_lt_order(ks[old_order[p - 1] as int], ks[old_order[i] as int], ks[k as int]);
                lemma_key_lt_order(ks[old_order[i] as int], ks[old_order[p - 1] as int], ks[k as int]);
                lemma_key_lt_order(ks[k as int], ks[old_order[p - 1] as int], ks[old_order[i] as int]);
                if i < p - 1 {
                    assert(!key_before(ks[old_order[p - 1] as int], ks[old_order[i] as int], descending));
                }
            }
        }
        order.insert(p, k);
        proof {
            assert forall|i: int, j: int|
                0 <= i < j < order@.len() implies !key_before(
                    ks[#[trigger] order@[j] as int],
                    ks[#[trigger] order@[i] as int],
                    descending,
                ) by {
                if i == p as int {
                    lemma_key_lt_order(ks[k as int], ks[order@[j] as int], ks[k as int]);
                    assert(order@[j] == old_order[j - 1]);
                } else if j == p as int {
                    assert(order@[i] == old_order[i]);
                } else {
                    let oi = if i < p { i } else { i - 1 };
                    let oj = if j < p { j } else { j - 1 };
                    assert(order@[i] == old_order[oi] && order@[j] == old_order[oj]);
                }
            }
            assert forall|i: int, j: int|
                0 <= i < j < order@.len() && ks[#[trigger] order@[i] as int] == ks[#[trigger] order@[j] as int]
                    implies order@[i] < order@[j] by {
                if i == p as int {
                    lemma_key_lt_order(ks[k as int], ks[k as int], ks[k as int]);
                    assert(order@[j] == old_order[j - 1]);
                } else if j == p as int {
                    assert(order@[i] == old_order[i]);
                } else {
                    let oi = if i < p { i } else { i - 1 };
                    let oj = if j < p { j } else { j - 1 };
                    assert(order@[i] == old_order[oi] && order@[j] == old_order[oj]);
                }
            }
            assert forall|i: int, j: int| 0 <= i < j < order@.len() implies #[trigger] order@[i] != #[trigger] order@[j] by {
                if i != p as int && j != p as int {
                    let oi = if i < p { i } else { i - 1 };
                    let oj = if j < p { j } else { j - 1 };
                    assert(order@[i] == old_order[oi] && order@[j] == old_order[oj]);
                } else if i == p as int {
                    assert(order@[j] == old_order[j - 1]);
                } else {
                    assert(order@[i] == old_order[i]);
                }
            }
            assert forall|i: int| 0 <= i < order@.len() implies #[trigger] order@[i] < k + 1 by {
                if i < p {
                    assert(order@[i] == old_order[i]);
                } else if i > p {
                    assert(order@[i] == old_order[i - 1]);
                }
            }
        }
        k += 1;
    }
    order
}

/// The elements of `v` in the order that `order` lists their indices.
pub fn permute<T>(v: Vec<T>, order: &Vec<usize>) -> (r: Vec<T>)
    requires
        is_permutation(order@, v@.len()),
    ensures
        r@.len() == order@.len(),
        forall|k: int| 0 <= k < order@.len() ==> #[trigger] r@[k] == v@[order@[k] as int],
{
    let ghost original = v@;
    let mut v = v;
    let mut slots: Vec<Option<T>> = Vec::new();
    let n = v.len();
    while slots.len() < n
        invariant
            slots@.len() + v@.len() == n,
            n == original.len(),
            v@ == original.subrange(0, v@.len() as int),
            forall|i: int|
                0 <= i < slots@.len() ==> #[trigger] slots@[i] == Some(
                    original[n - 1 - i],
                ),
        decreases n - slots@.len(),
    {
        let x = v.pop().unwrap();
        slots.push(Some(x));
    }
    let mut r: Vec<T> = Vec::new();
    let mut k: usize = 0;
    while k < order.len()
        invariant
            k <= order@.len(),
            n == original.len(),
            slots@.len() == n,
            is_permutation(order@, n as nat),
            r@.len() == k,
            forall|i: int| 0 <= i < k ==> #[trigger] r@[i] == original[order@[i] as int],
            forall|i: int|
                0 <= i < n ==> (#[trigger] slots@[i] is None <==> exists|j: int|
                    0 <= j < k && order@[j] == n - 1 - i),
            forall|i: int| 0 <= i < n && slots@[i] is Some ==> #[trigger] slots@[i] == Some(
                original[n - 1 - i],
            ),
        decreases order@.len() - k,
    {
        let slot = n - 1 - order[k];
        let mut taken: Option<T> = None;
        proof {
            assert forall|j: int| 0 <= j < k implies order@[j] != n - 1 - slot by {
                assert(order@[j] != order@[k as int]);
            }
        }
        slots.set_and_swap(slot, &mut taken);
        let x = taken.unwrap();
        r.push(x);
        proof {
            assert forall|i: int| 0 <= i < n implies (#[trigger] slots@[i] is None <==> exists|j: int|
                0 <= j < k + 1 && order@[j] == n - 1 - i) by {
                if i == slot {
                    assert(order@[k as int] == n - 1 - i);
                } else {
                    if exists|j: int| 0 <= j < k + 1 && order@[j] == n - 1 - i {
                        let j = choose|j: int| 0 <= j < k + 1 && order@[j] == n - 1 - i;
                        if j == k {
                            assert(false);
                        }
                    }
                }
            }
        }
        k += 1;
    }
    r
}

/// `r` holds the elements of `v` in the order that `order` lists their indices.
pub open spec fn is_arranged<T>(r: Seq<T>, v: Seq<T>, order: Seq<usize>) -> bool {
    &&& r.len() == order.len()
    &&& forall|k: int| 0 <= k < order.len() ==> #[trigger] r[k] == v[order[k] as int]
}

/// The sequence without its first `n` elements (empty when it is shorter).
pub open spec fn drop_first_n<T>(s: Seq<T>, n: nat) -> Seq<T> {
    if n <= s.len() {
        s.skip(n as int)
    } else {
        Seq::empty()
    }
}

/// `r` is `v` sorted stably by `keys`, without its first `skip` elements.
pub open spec fn is_sorted_tail<T>(
    r: Seq<T>,
    v: Seq<T>,
    keys: Seq<Seq<Seq<u8>>>,
    descending: bool,
    skip: nat,
) -> bool {
    exists|order: Seq<usize>|
        #![trigger is_stable_order(order, keys, descending)]
        is_stable_order(order, keys, descending) && is_arranged(r, v, drop_first_n(order, skip))
}

/// `r` is `v` sorted stably by `keys`.
pub open spec fn is_stable_sort<T>(r: Seq<T>, v: Seq<T>, keys: Seq<Seq<Seq<u8>>>, descending: bool) -> bool {
    is_sorted_tail(r, v, keys, descending, 0)
}

/// Sorts `v` stably by `keys` (descending if asked) and drops the first
/// `skip` elements of the result.
pub fn sorted_tail<T>(v: Vec<T>, keys: &Vec<Vec<Vec<u8>>>, descending: bool, skip: usize) -> (r: Vec<T>)
    requires
        keys@.len() == v@.len(),
    ensures
        exists|order: Seq<usize>|
            #![trigger is_stable_order(order, keys_view(keys@), descending)]
            is_stable_order(order, keys_view(keys@), descending) && is_arranged(
                r@,
                v@,
                drop_first_n(order, skip as nat),
            ),
{
    let order = stable_order(keys, descending);
    let mut sorted = permute(v, &order);
    let ghost whole = sorted@;
    if skip <= sorted.len() {
        let tail = sorted.split_off(skip);
        proof {
            let o = drop_first_n(order@, skip as nat);
            assert forall|k: int| 0 <= k < o.len() implies #[trigger] tail@[k] == v@[o[k] as int] by {
                assert(tail@[k] == whole[k + skip]);
            }
            assert(is_arranged(tail@, v@, o));
        }
        tail
    } else {
        let empty: Vec<T> = Vec::new();
        proof {
            assert(is_arranged(empty@, v@, drop_first_n(order@, skip as nat)));
        }
        empty
    }
}

/// Every index below `n` occurs in a permutation of `n` indices.
pub proof fn lemma_permutation_covers(order: Seq<usize>, n: nat, p: int)
    requires
        is_permutation(order, n),
        0 <= p < n,
    ensures
        exists|k: int| 0 <= k < order.len() && order[k] == p,
{
    broadcast use vstd::seq_lib::seq_to_set_is_finite;

    let s = order.map_values(|x: usize| x as int);
    assert(s.no_duplicates()) by {
        assert forall|i: int, j: int| 0 <= i < s.len() && 0 <= j < s.len() && i != j implies s[i] != s[j] by {
            if i < j {
                assert(order[i] != order[j]);
            } else {
                assert(order[j] != order[i]);
            }
        }
    }
    s.unique_seq_to_set();
    vstd::set_lib::lemma_int_range(0, n as int);
    let range = vstd::set_lib::set_int_range(0, n as int);
    assert(s.to_set().subset_of(range)) by {
        assert forall|x: int| s.to_set().contains(x) implies range.contains(x) by {
            let k = choose|k: int| 0 <= k < s.len() && s[k] == x;
            assert(order[k] < n);
        }
    }
    vstd::set_lib::lemma_subset_equality(s.to_set(), range);
    assert(range.contains(p));
    assert(s.to_set().contains(p));
    let k = choose|k: int| 0 <= k < s.len() && s[k] == p;
    assert(order[k] == p);
}

/// A stable sort keeps every element: each element of `v` is in the sorted
/// sequence.
pub proof fn law_sort_keeps_every_element<T>(r: Seq<T>, v: Seq<T>, keys: Seq<Seq<Seq<u8>>>, descending: bool, p: int)
    requires
        keys.len() == v.len(),
        is_stable_sort(r, v, keys, descending),
        0 <= p < v.len(),
    ensures
        exists|k: int| 0 <= k < r.len() && r[k] == v[p],
{
    let order = choose|order: Seq<usize>|
        #![trigger is_stable_order(order, keys, descending)]
        is_stable_order(order, keys, descending) && is_arranged(r, v, drop_first_n(order, 0));
    assert(drop_first_n(order, 0) =~= order);
    lemma_permutation_covers(order, keys.len(), p);
    let k = choose|k: int| 0 <= k < order.len() && order[k] == p;
    assert(r[k] == v[p]);
}

/// Dropping the first `skip` of a sorted sequence leaves all but `skip`
/// elements, or none.
pub proof fn law_sorted_tail_length<T>(r: Seq<T>, v: Seq<T>, keys: Seq<Seq<Seq<u8>>>, descending: bool, skip: nat)
    requires
        keys.len() == v.len(),
        is_sorted_tail(r, v, keys, descending, skip),
    ensures
        r.len() == if skip <= v.len() {
            v.len() - skip
        } else {
            0
        },
{
    let order = choose|order: Seq<usize>|
        #![trigger is_stable_order(order, keys, descending)]
        is_stable_order(order, keys, descending) && is_arranged(r, v, drop_first_n(order, skip));
}

/// Index `a` goes before index `b`: its key comes first, or the keys are
/// equal and `a` is the smaller index.
pub open spec fn index_before(keys: Seq<Seq<Seq<u8>>>, descending: bool, a: int, b: int) -> bool {
    key_before(keys[a], keys[b], descending) || (keys[a] == keys[b] && a < b)
}

proof fn lemma_index_before_order(keys: Seq<Seq<Seq<u8>>>, descending: bool, a: int, b: int, c: int)
    ensures
        !index_before(keys, descending, a, a),
        index_before(keys, descending, a, b) && index_before(keys, descending, b, c) ==> index_before(
            keys,
            descending,
            a,
            c,
        ),
{
    lemma_key_lt_order(keys[a], keys[b], keys[c]);
    lemma_key_lt_order(keys[c], keys[b], keys[a]);
    lemma_key_lt_order(keys[a], keys[a], keys[a]);
    lemma_key_lt_order(keys[b], keys[a], keys[b]);
    lemma_key_lt_order(keys[b], keys[c], keys[b]);
}

/// In a stable order every index goes before the ones after it.
proof fn lemma_stable_order_increasing(order: Seq<usize>, keys: Seq<Seq<Seq<u8>>>, descending: bool)
    requires
        is_stable_order(order, keys, descending),
    ensures
        forall|i: int, j: int|
            0 <= i < j < order.len() ==> index_before(keys, descending, #[trigger] order[i] as int, #[trigger] order[j] as int),
{
    assert forall|i: int, j: int| 0 <= i < j < order.len() implies index_before(
        keys,
        descending,
        #[trigger] order[i] as int,
        #[trigger] order[j] as int,
    ) by {
        lemma_key_lt_order(keys[order[i] as int], keys[order[j] as int], keys[order[i] as int]);
    }
}

/// Two sequences of the same indices, each increasing in the order of
/// `index_before`, are equal.
proof fn lemma_increasing_unique(a: Seq<usize>, b: Seq<usize>, keys: Seq<Seq<Seq<u8>>>, descending: bool)
    requires
        a.len() == b.len(),
        forall|x: usize| a.contains(x) <==> b.contains(x),
        forall|i: int, j: int| 0 <= i < j < a.len() ==> index_before(keys, descending, #[trigger] a[i] as int, #[trigger] a[j] as int),
        forall|i: int, j: int| 0 <= i < j < b.len() ==> index_before(keys, descending, #[trigger] b[i] as int, #[trigger] b[j] as int),
    ensures
        a == b,
    decreases a.len(),
{
    if a.len() == 0 {
        assert(a =~= b);
    } else {
        assert(a.contains(a[0]));
        assert(b.contains(a[0]));
        let k = choose|k: int| 0 <= k < b.len() && b[k] == a[0];
        assert(b.contains(b[0]));
        assert(a.contains(b[0]));
        let m = choose|m: int| 0 <= m < a.len() && a[m] == b[0];
        if k > 0 {
            lemma_index_before_order(keys, descending, b[0] as int, a[0] as int, b[0] as int);
            if m > 0 {
                assert(index_before(keys, descending, b[0] as int, b[k] as int));
                assert(index_before(keys, descending, a[0] as int, a[m] as int));
            } else {
                assert(index_before(keys, descending, b[0] as int, b[k] as int));
            }
            assert(false);
        }
        let a2 = a.drop_first();
        let b2 = b.drop_first();
        assert forall|x: usize| a2.contains(x) <==> b2.contains(x) by {
            if a2.contains(x) {
                let i = choose|i: int| 0 <= i < a2.len() && a2[i] == x;
                assert(a.contains(x));
                assert(b.contains(x));
                let j = choose|j: int| 0 <= j < b.len() && b[j] == x;
                if j == 0 {
                    lemma_index_before_order(keys, descending, a[0] as int, a[0] as int, a[0] as int);
                    assert(index_before(keys, descending, a[0] as int, a[i + 1] as int));
                    assert(false);
                }
                assert(b2[j - 1] == x);
            }
            if b2.contains(x) {
                let i = choose|i: int| 0 <= i < b2.len() && b2[i] == x;
                assert(b.contains(x));
                assert(a.contains(x));
                let j = choose|j: int| 0 <= j < a.len() && a[j] == x;
                if j == 0 {
                    lemma_index_before_order(keys, descending, b[0] as int, b[0] as int, b[0] as int);
                    assert(index_before(keys, descending, b[0] as int, b[i + 1] as int));
                    assert(false);
                }
                assert(a2[j - 1] == x);
            }
        }
        assert forall|i: int, j: int| 0 <= i < j < a2.len() implies index_before(keys, descending, #[trigger] a2[i] as int, #[trigger] a2[j] as int) by {
            assert(a2[i] == a[i + 1] && a2[j] == a[j + 1]);
        }
        assert forall|i: int, j: int| 0 <= i < j < b2.len() implies index_before(keys, descending, #[trigger] b2[i] as int, #[trigger] b2[j] as int) by {
            assert(b2[i] == b[i + 1] && b2[j] == b[j + 1]);
        }
        lemma_increasing_unique(a2, b2, keys, descending);
        assert(a =~= b) by {
            assert forall|i: int| 0 <= i < a.len() implies a[i] == b[i] by {
                if i > 0 {
                    assert(a[i] == a2[i - 1] && b[i] == b2[i - 1]);
                }
            }
        }
    }
}

/// There is one stable order of a list of keys.
pub proof fn law_stable_order_is_unique(o1: Seq<usize>, o2: Seq<usize>, keys: Seq<Seq<Seq<u8>>>, descending: bool)
    requires
        is_stable_order(o1, keys, descending),
        is_stable_order(o2, keys, descending),
    ensures
        o1 == o2,
{
    lemma_stable_order_increasing(o1, keys, descending);
    lemma_stable_order_increasing(o2, keys, descending);
    assert forall|x: usize| o1.contains(x) <==> o2.contains(x) by {
        if o1.contains(x) {
            let i = choose|i: int| 0 <= i < o1.len() && o1[i] == x;
            lemma_permutation_covers(o2, keys.len(), x as int);
        }
        if o2.contains(x) {
            let i = choose|i: int| 0 <= i < o2.len() && o2[i] == x;
            lemma_permutation_covers(o1, keys.len(), x as int);
        }
    }
    lemma_increasing_unique(o1, o2, keys, descending);
}

/// Sorting stably and dropping the first `skip` elements has one result:
/// the contracts that say so pin the result down.
pub proof fn law_sorted_tail_is_unique<T>(
    r1: Seq<T>,
    r2: Seq<T>,
    v: Seq<T>,
    keys: Seq<Seq<Seq<u8>>>,
    descending: bool,
    skip: nat,
)
    requires
        is_sorted_tail(r1, v, keys, descending, skip),
        is_sorted_tail(r2, v, keys, descending, skip),
    ensures
        r1 == r2,
{
    let o1 = choose|order: Seq<usize>|
        #![trigger is_stable_order(order, keys, descending)]
        is_stable_order(order, keys, descending) && is_arranged(r1, v, drop_first_n(order, skip));
    let o2 = choose|order: Seq<usize>|
        #![trigger is_stable_order(order, keys, descending)]
        is_stable_order(order, keys, descending) && is_arranged(r2, v, drop_first_n(order, skip));
    law_stable_order_is_unique(o1, o2, keys, descending);
    assert(r1 =~= r2);
}

} // verus!
