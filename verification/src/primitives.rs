//! Small array utilities used by the scorers and the engine.
//!
//! The generic functions compare with the `==` of the item type. What they
//! return is stated for types whose `==` is specified (`obeys_eq_spec`).

use vstd::prelude::*;
use vstd::std_specs::cmp::PartialEqSpec;

verus! {

/// Whether some item of `s` equals `x`.
pub open spec fn holds<T: PartialEq>(s: Seq<T>, x: T) -> bool {
    exists|j: int| 0 <= j < s.len() && #[trigger] s[j].eq_spec(&x)
}

/// How many items of `s`, counted with their repetitions, `other` holds.
pub open spec fn count_held<T: PartialEq>(s: Seq<T>, other: Seq<T>) -> nat
    decreases s.len(),
{
    if s.len() == 0 {
        0
    } else {
        count_held(s.drop_last(), other) + if holds(other, s.last()) {
            1nat
        } else {
            0nat
        }
    }
}

/// The items of `s` in order, each kept unless an equal one was kept before.
pub open spec fn dedup<T: PartialEq>(s: Seq<T>) -> Seq<T>
    decreases s.len(),
{
    if s.len() == 0 {
        Seq::empty()
    } else if holds(dedup(s.drop_last()), s.last()) {
        dedup(s.drop_last())
    } else {
        dedup(s.drop_last()).push(s.last())
    }
}

/// Whether a clone of an item of this type is the item again.
pub open spec fn clones_are_copies<T: Clone>() -> bool {
    forall|a: T, b: T| cloned(a, b) ==> a == b
}

/// The absolute value of an integer.
pub open spec fn abs_spec(n: int) -> int {
    if n < 0 {
        -n
    } else {
        n
    }
}

/// No more items of a list are held than the list has.
pub proof fn lemma_count_held_len<T: PartialEq>(s: Seq<T>, other: Seq<T>)
    ensures
        count_held(s, other) <= s.len(),
    decreases s.len(),
{
    if s.len() > 0 {
        lemma_count_held_len(s.drop_last(), other);
    }
}

/// Whether `arr` has an item equal to `x`.
fn contains<T: PartialEq>(arr: &[T], x: &T) -> (r: bool)
    ensures
        T::obeys_eq_spec() ==> r == holds(arr@, *x),
{
    let mut i: usize = 0;
    while i < arr.len()
        invariant
            0 <= i <= arr.len(),
            T::obeys_eq_spec() ==> forall|j: int| 0 <= j < i ==> !(#[trigger] arr@[j]).eq_spec(x),
        decreases arr.len() - i,
    {
        if arr[i] == *x {
            return true;
        }
        i += 1;
    }
    false
}

/// The number of items of `arr1` that `arr2` holds. An item that occurs twice
/// in `arr1` counts twice.
pub fn intersection_len<T: PartialEq + Clone>(arr1: &[T], arr2: &[T]) -> (res: usize)
    ensures
        T::obeys_eq_spec() ==> res == count_held(arr1@, arr2@),
        res <= arr1.len(),
{
    let mut res: usize = 0;
    let mut i: usize = 0;
    assert(arr1@.take(0) =~= Seq::<T>::empty());
    while i < arr1.len()
        invariant
            0 <= i <= arr1.len(),
            res <= i,
            T::obeys_eq_spec() ==> res == count_held(arr1@.take(i as int), arr2@),
        decreases arr1.len() - i,
    {
        assert(arr1@.take(i + 1).drop_last() =~= arr1@.take(i as int));
        if contains(arr2, &arr1[i]) {
            res += 1;
        }
        i += 1;
    }
    assert(arr1@.take(arr1.len() as int) =~= arr1@);
    res
}

/// The length of `arr1` and the number of items of `arr2` that `arr1` does
/// not hold. The two lengths together must fit the machine.
pub fn union_len<T: PartialEq + Clone>(arr1: &[T], arr2: &[T]) -> (res: usize)
    requires
        arr1.len() + arr2.len() <= usize::MAX,
    ensures
        T::obeys_eq_spec() ==> res == arr1.len() + arr2.len() - count_held(arr2@, arr1@),
        arr1.len() <= res <= arr1.len() + arr2.len(),
{
    let mut res: usize = arr1.len();
    let mut i: usize = 0;
    assert(arr2@.take(0) =~= Seq::<T>::empty());
    while i < arr2.len()
        invariant
            0 <= i <= arr2.len(),
            arr1.len() + arr2.len() <= usize::MAX,
            arr1.len() <= res <= arr1.len() + i,
            T::obeys_eq_spec() ==> res == arr1.len() + i - count_held(arr2@.take(i as int), arr1@),
        decreases arr2.len() - i,
    {
        assert(arr2@.take(i + 1).drop_last() =~= arr2@.take(i as int));
        if !contains(arr1, &arr2[i]) {
            res += 1;
        }
        i += 1;
    }
    assert(arr2@.take(arr2.len() as int) =~= arr2@);
    res
}

/// The items of `arr` without repetitions, each where it first occurs.
pub fn uniq<T: PartialEq + Clone>(arr: &[T]) -> (res: Vec<T>)
    ensures
        T::obeys_eq_spec() && clones_are_copies::<T>() ==> res@ == dedup(arr@),
        res.len() <= arr.len(),
{
    let mut res: Vec<T> = Vec::new();
    let mut i: usize = 0;
    assert(arr@.take(0) =~= Seq::<T>::empty());
    while i < arr.len()
        invariant
            0 <= i <= arr.len(),
            res.len() <= i,
            T::obeys_eq_spec() && clones_are_copies::<T>() ==> res@ == dedup(arr@.take(i as int)),
        decreases arr.len() - i,
    {
        assert(arr@.take(i + 1).drop_last() =~= arr@.take(i as int));
        if !contains(res.as_slice(), &arr[i]) {
            let item = arr[i].clone();
            assert(cloned(arr@[i as int], item));
            res.push(item);
        }
        i += 1;
    }
    assert(arr@.take(arr.len() as int) =~= arr@);
    res
}

/// The least number of a list that is not empty.
pub fn min(arr: &[usize]) -> (m: usize)
    requires
        arr.len() > 0,
    ensures
        exists|i: int| 0 <= i < arr.len() && arr@[i] == m,
        forall|i: int| 0 <= i < arr.len() ==> m <= arr@[i],
{
    let mut m: usize = arr[0];
    let mut i: usize = 1;
    while i < arr.len()
        invariant
            1 <= i <= arr.len(),
            exists|k: int| 0 <= k < i && arr@[k] == m,
            forall|k: int| 0 <= k < i ==> m <= arr@[k],
        decreases arr.len() - i,
    {
        if arr[i] < m {
            m = arr[i];
        }
        i += 1;
    }
    m
}

/// The absolute value of `n`. The most negative number has none and is left out.
pub fn abs(n: i32) -> (r: i32)
    requires
        n > i32::MIN,
    ensures
        r == abs_spec(n as int),
{
    if n < 0 {
        -n
    } else {
        n
    }
}

/// The direction of a sort.
#[derive(Clone, Copy, Debug)]
pub enum SortOrder {
    Ascending,
    Descending,
}

/// Whether an item with key `x` must stand before one with key `y`.
pub open spec fn ranks_before(order: SortOrder, x: u64, y: u64) -> bool {
    match order {
        SortOrder::Ascending => x < y,
        SortOrder::Descending => x > y,
    }
}

/// Whether `p` lists each of the positions `0..n` once.
pub open spec fn is_arrangement(p: Seq<int>, n: nat) -> bool {
    &&& p.len() == n
    &&& forall|k: int| 0 <= k < n ==> 0 <= #[trigger] p[k] < n
    &&& forall|a: int, b: int| 0 <= a < b < n ==> #[trigger] p[a] != #[trigger] p[b]
    &&& forall|m: int| 0 <= m < n ==> #[trigger] p.contains(m)
}

/// Whether `after` is `before` sorted by `keys` in the given direction, items
/// with equal keys in the order they had: `p[k]` is the place in `before` of
/// the item at place `k` of `after`.
pub open spec fn sorted_as<T>(
    before: Seq<T>,
    keys: Seq<u64>,
    order: SortOrder,
    after: Seq<T>,
    p: Seq<int>,
) -> bool {
    &&& keys.len() == before.len()
    &&& after.len() == before.len()
    &&& is_arrangement(p, before.len())
    &&& forall|k: int| 0 <= k < after.len() ==> #[trigger] after[k] == before[p[k]]
    &&& forall|a: int, b: int|
        0 <= a < b < after.len() ==> ranks_before(order, keys[#[trigger] p[a]], keys[#[trigger] p[b]])
            || (keys[p[a]] == keys[p[b]] && p[a] < p[b])
}

fn goes_before(order: SortOrder, x: u64, y: u64) -> (r: bool)
    ensures
        r == ranks_before(order, x, y),
{
    match order {
        SortOrder::Ascending => x < y,
        SortOrder::Descending => x > y,
    }
}

/// Sorts `arr` by the key that `f` gives each item, in the given direction.
/// Items with equal keys keep their order. `f` is asked once for each item.
pub fn sort_by<T, F: Fn(&T) -> u64>(arr: &mut Vec<T>, f: F, order: SortOrder)
    requires
        forall|i: int| 0 <= i < old(arr).len() ==> f.requires((&#[trigger] old(arr)[i],)),
    ensures
        exists|keys: Seq<u64>, p: Seq<int>|
            {
                &&& keys.len() == old(arr).len()
                &&& forall|i: int| 0 <= i < old(arr).len() ==> f.ensures((&old(arr)[i],), #[trigger] keys[i])
                &&& sorted_as(old(arr)@, keys, order, final(arr)@, p)
            },
{
    let n = arr.len();
    let ghost before = arr@;
    let mut keys: Vec<u64> = Vec::new();
    let mut i: usize = 0;
    while i < n
        invariant
            0 <= i <= n,
            n == arr.len(),
            arr@ == before,
            keys.len() == i,
            forall|k: int| 0 <= k < n ==> f.requires((&#[trigger] before[k],)),
            forall|k: int| 0 <= k < i ==> f.ensures((&before[k],), #[trigger] keys@[k]),
        decreases n - i,
    {
        let key = f(&arr[i]);
        keys.push(key);
        i += 1;
    }
    let ghost keys0 = keys@;
    let ghost mut p: Seq<int> = Seq::new(n as nat, |k: int| k);
    assert forall|m: int| 0 <= m < n implies #[trigger] p.contains(m) by {
        assert(p[m] == m);
    }
    let mut i: usize = 0;
    while i < n
        invariant
            0 <= i <= n,
            n == arr.len(),
            n == keys.len(),
            keys0.len() == n,
            before.len() == n,
            is_arrangement(p, n as nat),
            forall|k: int| 0 <= k < n ==> #[trigger] arr@[k] == before[p[k]],
            forall|k: int| 0 <= k < n ==> #[trigger] keys@[k] == keys0[p[k]],
            forall|k: int| i <= k < n ==> #[trigger] p[k] == k,
            forall|k: int| 0 <= k < i ==> #[trigger] p[k] < i,
            forall|a: int, b: int|
                0 <= a < b < i ==> ranks_before(order, keys0[#[trigger] p[a]], keys0[#[trigger] p[b]]) || (
                keys0[p[a]] == keys0[p[b]] && p[a] < p[b]),
        decreases n - i,
    {
        let key = keys[i];
        let mut j: usize = 0;
        while j < i && !goes_before(order, key, keys[j])
            invariant
                0 <= j <= i < n,
                n == keys.len(),
                key == keys@[i as int],
                forall|k: int| 0 <= k < j ==> !ranks_before(order, key, #[trigger] keys@[k]),
            decreases i - j,
        {
            j += 1;
        }
        if j < i {
            let ghost old_p = p;
            let ghost old_arr = arr@;
            let ghost old_keys = keys@;
            let item = arr.remove(i);
            arr.insert(j, item);
            let k = keys.remove(i);
            keys.insert(j, k);
            proof {
                p = old_p.remove(i as int).insert(j as int, old_p[i as int]);
                assert forall|k: int| 0 <= k < n implies #[trigger] p[k] == (if k < j {
                    old_p[k]
                } else if k == j {
                    old_p[i as int]
                } else if k <= i {
                    old_p[k - 1]
                } else {
                    old_p[k]
                }) by {}
                assert forall|k: int| 0 <= k < n implies #[trigger] arr@[k] == (if k < j {
                    old_arr[k]
                } else if k == j {
                    old_arr[i as int]
                } else if k <= i {
                    old_arr[k - 1]
                } else {
                    old_arr[k]
                }) by {}
                assert forall|k: int| 0 <= k < n implies #[trigger] keys@[k] == (if k < j {
                    old_keys[k]
                } else if k == j {
                    old_keys[i as int]
                } else if k <= i {
                    old_keys[k - 1]
                } else {
                    old_keys[k]
                }) by {}
                assert forall|a: int, b: int| 0 <= a < b < n implies #[trigger] p[a] != #[trigger] p[b] by {
                    let a0 = if a < j { a } else if a == j { i as int } else if a <= i { a - 1 } else { a };
                    let b0 = if b < j { b } else if b == j { i as int } else if b <= i { b - 1 } else { b };
                    assert(p[a] == old_p[a0]);
                    assert(p[b] == old_p[b0]);
                    assert(a0 != b0);
                    if a0 < b0 {
                        assert(old_p[a0] != old_p[b0]);
                    } else {
                        assert(old_p[b0] != old_p[a0]);
                    }
                }
                assert forall|m: int| 0 <= m < n implies #[trigger] p.contains(m) by {
                    assert(old_p.contains(m));
                    let k0 = choose|k0: int| 0 <= k0 < old_p.len() && old_p[k0] == m;
                    let k = if k0 < j { k0 } else if k0 == i { j as int } else if k0 < i { k0 + 1 } else { k0 };
                    assert(p[k] == old_p[k0]);
                }
                assert forall|a: int, b: int| 0 <= a < b < i + 1 implies ranks_before(
                    order,
                    keys0[#[trigger] p[a]],
                    keys0[#[trigger] p[b]],
                ) || (keys0[p[a]] == keys0[p[b]] && p[a] < p[b]) by {
                    let a0 = if a < j { a } else if a == j { i as int } else { a - 1 };
                    let b0 = if b < j { b } else if b == j { i as int } else { b - 1 };
                    assert(p[a] == old_p[a0]);
                    assert(p[b] == old_p[b0]);
                    assert(old_keys[a0] == keys0[old_p[a0]]);
                    assert(old_keys[b0] == keys0[old_p[b0]]);
                    assert(old_keys[j as int] == keys0[old_p[j as int]]);
                    if a == j {
                        // the moved item against one that it passed
                        assert(ranks_before(order, key, old_keys[j as int]));
                        if b0 > j {
                            assert(ranks_before(order, keys0[old_p[j as int]], keys0[old_p[b0]]) || (
                            keys0[old_p[j as int]] == keys0[old_p[b0]] && old_p[j as int] < old_p[b0]));
                        }
                    } else if b == j {
                        // an item that stays before the moved one
                        assert(!ranks_before(order, key, old_keys[a0]));
                        assert(old_p[a0] < i);
                    } else {
                        assert(a0 < b0);
                    }
                }
            }
        } else {
            proof {
                assert forall|a: int, b: int| 0 <= a < b < i + 1 implies ranks_before(
                    order,
                    keys0[#[trigger] p[a]],
                    keys0[#[trigger] p[b]],
                ) || (keys0[p[a]] == keys0[p[b]] && p[a] < p[b]) by {
                    if b == i {
                        assert(!ranks_before(order, key, keys@[a]));
                        assert(p[a] < i);
                        assert(keys@[a] == keys0[p[a]]);
                        assert(keys@[b] == keys0[p[b]]);
                    }
                }
            }
        }
        i += 1;
    }
    assert(sorted_as(before, keys0, order, arr@, p));
}

} // verus!
