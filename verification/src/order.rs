//! Ordering of listed records: keys made of a text, a number and a second
//! text, compared in that order, and a stable insertion sort over them.
//! Texts compare character by character, which is the order SQLite's binary
//! collation gives to UTF-8 text.
use vstd::prelude::*;

verus! {

/// A sort key: compared by `text`, then `num`, then `text2`.
pub struct SortKey {
    pub text: Vec<char>,
    pub num: i64,
    pub text2: Vec<char>,
}

pub type KeyView = (Seq<char>, i64, Seq<char>);

impl View for SortKey {
    type V = KeyView;

    open spec fn view(&self) -> KeyView {
        (self.text@, self.num, self.text2@)
    }
}

pub open spec fn keys_view(v: Seq<SortKey>) -> Seq<KeyView> {
    v.map_values(|k: SortKey| k@)
}

/// `a` comes before `b`, comparing from position `i` on.
pub open spec fn text_lt_from(a: Seq<char>, b: Seq<char>, i: int) -> bool
    decreases a.len() - i,
{
    if i >= a.len() {
        i < b.len()
    } else if i >= b.len() {
        false
    } else if a[i] != b[i] {
        a[i] < b[i]
    } else {
        text_lt_from(a, b, i + 1)
    }
}

/// `a` comes before `b` in character order; a proper prefix comes first.
pub open spec fn text_lt(a: Seq<char>, b: Seq<char>) -> bool {
    text_lt_from(a, b, 0)
}

/// `x` comes before `y`.
pub open spec fn key_lt(x: KeyView, y: KeyView) -> bool {
    text_lt(x.0, y.0) || (x.0 == y.0 && (x.1 < y.1 || (x.1 == y.1 && text_lt(x.2, y.2))))
}

/// `x` goes before `y` in an ascending list, or in a descending one.
pub open spec fn precedes(x: KeyView, y: KeyView, desc: bool) -> bool {
    if desc {
        key_lt(y, x)
    } else {
        key_lt(x, y)
    }
}

/// Where a key is inserted in a sorted list of indices: before the first
/// entry, from `p` on, that it precedes.
pub open spec fn ins_pos(keys: Seq<KeyView>, order: Seq<int>, k: KeyView, desc: bool, p: int) -> int
    decreases order.len() - p,
{
    if p >= order.len() {
        order.len() as int
    } else if precedes(k, keys[order[p]], desc) {
        p
    } else {
        ins_pos(keys, order, k, desc, p + 1)
    }
}

/// The indices of the first `n` keys in sorted order; equal keys keep their
/// order.
pub open spec fn sort_order(keys: Seq<KeyView>, desc: bool, n: int) -> Seq<int>
    decreases n,
{
    if n <= 0 {
        Seq::empty()
    } else {
        let o = sort_order(keys, desc, n - 1);
        o.insert(ins_pos(keys, o, keys[n - 1], desc, 0), n - 1)
    }
}

/// The items in the sorted order of their keys.
pub open spec fn sorted_by<T>(items: Seq<T>, keys: Seq<KeyView>, desc: bool) -> Seq<T> {
    sort_order(keys, desc, keys.len() as int).map_values(|i: int| items[i])
}

pub open spec fn idx_view(v: Seq<usize>) -> Seq<int> {
    v.map_values(|i: usize| i as int)
}

// ---------------------------------------------------------------------------
// Properties of the order
// ---------------------------------------------------------------------------

proof fn lemma_text_lt_irrefl(a: Seq<char>, i: int)
    requires
        0 <= i,
    ensures
        !text_lt_from(a, a, i),
    decreases a.len() - i,
{
    if i < a.len() {
        lemma_text_lt_irrefl(a, i + 1);
    }
}

proof fn lemma_text_lt_trans(a: Seq<char>, b: Seq<char>, c: Seq<char>, i: int)
    requires
        0 <= i,
        text_lt_from(a, b, i),
        text_lt_from(b, c, i),
    ensures
        text_lt_from(a, c, i),
    decreases a.len() - i,
{
    if i < a.len() && i < b.len() && i < c.len() && a[i] == b[i] && b[i] == c[i] {
        lemma_text_lt_trans(a, b, c, i + 1);
    }
}

/// No key comes before itself.
pub proof fn lemma_key_lt_irrefl(x: KeyView)
    ensures
        !key_lt(x, x),
{
    lemma_text_lt_irrefl(x.0, 0);
    lemma_text_lt_irrefl(x.2, 0);
}

/// Keys are ordered transitively.
pub proof fn lemma_key_lt_trans(x: KeyView, y: KeyView, z: KeyView)
    requires
        key_lt(x, y),
        key_lt(y, z),
    ensures
        key_lt(x, z),
{
    if text_lt(x.0, y.0) && text_lt(y.0, z.0) {
        lemma_text_lt_trans(x.0, y.0, z.0, 0);
    }
    if x.0 == y.0 && y.0 == z.0 && x.1 == y.1 && y.1 == z.1 && text_lt(x.2, y.2) && text_lt(
        y.2,
        z.2,
    ) {
        lemma_text_lt_trans(x.2, y.2, z.2, 0);
    }
}

proof fn lemma_precedes_trans(x: KeyView, y: KeyView, z: KeyView, desc: bool)
    requires
        precedes(x, y, desc),
        precedes(y, z, desc),
    ensures
        precedes(x, z, desc),
{
    if desc {
        lemma_key_lt_trans(z, y, x);
    } else {
        lemma_key_lt_trans(x, y, z);
    }
}

/// The order of `n` keys lists each index below `n` once, puts no key after
/// one it precedes, and keeps equal keys in their first order.
pub open spec fn is_stable_sort(keys: Seq<KeyView>, desc: bool, n: int, o: Seq<int>) -> bool {
    &&& o.len() == n
    &&& forall|i: int| 0 <= i < o.len() ==> 0 <= #[trigger] o[i] < n
    &&& forall|i: int, j: int| 0 <= i < j < o.len() ==> o[i] != o[j]
    &&& forall|i: int, j: int|
        0 <= i < j < o.len() ==> !precedes(keys[#[trigger] o[j]], keys[#[trigger] o[i]], desc)
    &&& forall|i: int, j: int|
        0 <= i < j < o.len() && keys[#[trigger] o[i]] == keys[#[trigger] o[j]] ==> o[i] < o[j]
}

proof fn lemma_ins_pos(keys: Seq<KeyView>, o: Seq<int>, k: KeyView, desc: bool, p: int)
    requires
        0 <= p <= o.len(),
    ensures
        p <= ins_pos(keys, o, k, desc, p) <= o.len(),
        forall|q: int|
            p <= q < ins_pos(keys, o, k, desc, p) ==> !precedes(k, #[trigger] keys[o[q]], desc),
        ins_pos(keys, o, k, desc, p) < o.len() ==> precedes(
            k,
            keys[o[ins_pos(keys, o, k, desc, p)]],
            desc,
        ),
    decreases o.len() - p,
{
    if p < o.len() && !precedes(k, keys[o[p]], desc) {
        lemma_ins_pos(keys, o, k, desc, p + 1);
    }
}

/// Insertion sort sorts: the order of `n` keys is a stable sort of them.
pub proof fn lemma_sort_order(keys: Seq<KeyView>, desc: bool, n: int)
    requires
        0 <= n <= keys.len(),
    ensures
        is_stable_sort(keys, desc, n, sort_order(keys, desc, n)),
    decreases n,
{
    if n > 0 {
        let o = sort_order(keys, desc, n - 1);
        lemma_sort_order(keys, desc, n - 1);
        let k = keys[n - 1];
        let p = ins_pos(keys, o, k, desc, 0);
        lemma_ins_pos(keys, o, k, desc, 0);
        let o2 = o.insert(p, n - 1);
        assert(o2 == sort_order(keys, desc, n));
        // Every key after position `p` in `o` is one that `k` precedes, or
        // one that precedes no key `k` precedes.
        assert forall|q: int| p <= q < o.len() implies !precedes(#[trigger] keys[o[q]], k, desc)
            && keys[o[q]] != k by {
            let x = keys[o[p]];
            let y = keys[o[q]];
            assert(precedes(k, x, desc));
            if q > p {
                assert(!precedes(y, x, desc));
            }
            if precedes(y, k, desc) {
                lemma_precedes_trans(y, k, x, desc);
                lemma_key_lt_irrefl(x);
            }
            if y == k {
                lemma_key_lt_irrefl(x);
            }
        }
        assert forall|i: int, j: int| 0 <= i < j < o2.len() implies !precedes(
            keys[#[trigger] o2[j]],
            keys[#[trigger] o2[i]],
            desc,
        ) by {
            if j < p {
                assert(o2[i] == o[i] && o2[j] == o[j]);
            } else if j == p {
                assert(o2[i] == o[i]);
            } else if i == p {
                assert(o2[j] == o[j - 1]);
            } else if i < p {
                assert(o2[i] == o[i] && o2[j] == o[j - 1]);
            } else {
                assert(o2[i] == o[i - 1] && o2[j] == o[j - 1]);
            }
        }
        assert forall|i: int, j: int|
            0 <= i < j < o2.len() && keys[#[trigger] o2[i]] == keys[#[trigger] o2[j]] implies o2[i]
            < o2[j] by {
            if j < p {
                assert(o2[i] == o[i] && o2[j] == o[j]);
            } else if j == p {
                assert(o2[i] == o[i]);
            } else if i == p {
                assert(o2[j] == o[j - 1]);
            } else if i < p {
                assert(o2[i] == o[i] && o2[j] == o[j - 1]);
            } else {
                assert(o2[i] == o[i - 1] && o2[j] == o[j - 1]);
            }
        }
        assert forall|i: int, j: int| 0 <= i < j < o2.len() implies o2[i] != o2[j] by {
            if j < p {
                assert(o2[i] == o[i] && o2[j] == o[j]);
            } else if j == p {
                assert(o2[i] == o[i]);
            } else if i == p {
                assert(o2[j] == o[j - 1]);
            } else if i < p {
                assert(o2[i] == o[i] && o2[j] == o[j - 1]);
            } else {
                assert(o2[i] == o[i - 1] && o2[j] == o[j - 1]);
            }
        }
        assert forall|i: int| 0 <= i < o2.len() implies 0 <= #[trigger] o2[i] < n by {
            if i < p {
                assert(o2[i] == o[i]);
            } else if i > p {
                assert(o2[i] == o[i - 1]);
            }
        }
    }
}

/// Sorting items by a key of each keeps their number, lists only items that
/// were given, lists no item after one whose key it precedes, and lists each
/// given position once.
pub proof fn lemma_sorted_by<T>(items: Seq<T>, f: spec_fn(T) -> KeyView, desc: bool)
    ensures
        sorted_by(items, items.map_values(f), desc).len() == items.len(),
        forall|i: int|
            0 <= i < items.len() ==> items.contains(
                #[trigger] sorted_by(items, items.map_values(f), desc)[i],
            ),
        forall|i: int, j: int|
            0 <= i < j < items.len() ==> !precedes(
                f(#[trigger] sorted_by(items, items.map_values(f), desc)[j]),
                f(#[trigger] sorted_by(items, items.map_values(f), desc)[i]),
                desc,
            ),
        forall|k: int|
            0 <= k < items.len() ==> sorted_by(items, items.map_values(f), desc).contains(
                #[trigger] items[k],
            ),
{
    let keys = items.map_values(f);
    let n = keys.len() as int;
    lemma_sort_order(keys, desc, n);
    let o = sort_order(keys, desc, n);
    let r = sorted_by(items, keys, desc);
    assert(r == o.map_values(|i: int| items[i]));
    assert forall|i: int| 0 <= i < items.len() implies items.contains(#[trigger] r[i]) by {
        assert(0 <= o[i] < n);
        assert(r[i] == items[o[i]]);
    }
    assert forall|i: int, j: int| 0 <= i < j < items.len() implies !precedes(
        f(#[trigger] r[j]),
        f(#[trigger] r[i]),
        desc,
    ) by {
        assert(0 <= o[i] < n && 0 <= o[j] < n);
        assert(r[i] == items[o[i]] && r[j] == items[o[j]]);
        assert(keys[o[i]] == f(items[o[i]]) && keys[o[j]] == f(items[o[j]]));
        assert(!precedes(keys[o[j]], keys[o[i]], desc));
    }
    // The order lists each index below `n` once, so it lists all of them.
    assert(o.no_duplicates());
    o.unique_seq_to_set();
    vstd::set_lib::lemma_int_range(0, n);
    assert(o.to_set().subset_of(vstd::set_lib::set_int_range(0, n)));
    vstd::set_lib::lemma_subset_equality(o.to_set(), vstd::set_lib::set_int_range(0, n));
    assert forall|k: int| 0 <= k < items.len() implies r.contains(#[trigger] items[k]) by {
        assert(vstd::set_lib::set_int_range(0, n).contains(k));
        assert(o.to_set().contains(k));
        let i = choose|i: int| 0 <= i < o.len() && o[i] == k;
        assert(r[i] == items[k]);
    }
}

// ---------------------------------------------------------------------------
// Executable comparison and sorting
// ---------------------------------------------------------------------------

/// Whether `a` comes before `b` in character order.
pub fn text_less(a: &Vec<char>, b: &Vec<char>) -> (r: bool)
    ensures
        r == text_lt(a@, b@),
{
    let mut i: usize = 0;
    while i < a.len() && i < b.len()
        invariant
            0 <= i <= a.len(),
            i <= b.len(),
            text_lt(a@, b@) == text_lt_from(a@, b@, i as int),
        decreases a.len() - i,
    {
        if a[i] != b[i] {
            return a[i] < b[i];
        }
        i = i + 1;
    }
    i < b.len() && i >= a.len()
}

/// Whether `x` comes before `y`.
pub fn key_less(x: &SortKey, y: &SortKey) -> (r: bool)
    ensures
        r == key_lt(x@, y@),
{
    if text_less(&x.text, &y.text) {
        return true;
    }
    if text_less(&y.text, &x.text) {
        return false;
    }
    proof {
        lemma_text_total(x.text@, y.text@, 0);
    }
    if x.num != y.num {
        return x.num < y.num;
    }
    text_less(&x.text2, &y.text2)
}

proof fn lemma_text_total(a: Seq<char>, b: Seq<char>, i: int)
    requires
        0 <= i,
        i <= a.len(),
        i <= b.len(),
        forall|k: int| 0 <= k < i ==> a[k] == b[k],
        !text_lt_from(a, b, i),
        !text_lt_from(b, a, i),
    ensures
        a == b,
    decreases a.len() - i,
{
    if i < a.len() && i < b.len() {
        lemma_text_total(a, b, i + 1);
    } else {
        assert(a =~= b);
    }
}

/// The indices of `keys` in sorted order, ascending or descending; equal keys
/// keep their order.
pub fn sort_indices(keys: &Vec<SortKey>, desc: bool) -> (order: Vec<usize>)
    ensures
        idx_view(order@) == sort_order(keys_view(keys@), desc, keys@.len() as int),
        forall|i: int| 0 <= i < order@.len() ==> #[trigger] order@[i] < keys@.len(),
{
    let ghost kv = keys_view(keys@);
    let mut order: Vec<usize> = Vec::new();
    let mut n: usize = 0;
    while n < keys.len()
        invariant
            0 <= n <= keys@.len(),
            kv == keys_view(keys@),
            idx_view(order@) == sort_order(kv, desc, n as int),
            forall|i: int| 0 <= i < order@.len() ==> #[trigger] order@[i] < n,
        decreases keys.len() - n,
    {
        let ghost o = idx_view(order@);
        proof {
            lemma_sort_order(kv, desc, n as int);
        }
        let mut p: usize = 0;
        loop
            invariant
                0 <= p <= order@.len(),
                n < keys@.len(),
                kv == keys_view(keys@),
                o == idx_view(order@),
                forall|i: int| 0 <= i < order@.len() ==> #[trigger] order@[i] < n,
                ins_pos(kv, o, kv[n as int], desc, 0) == ins_pos(kv, o, kv[n as int], desc, p as int),
            ensures
                p <= order@.len(),
                ins_pos(kv, o, kv[n as int], desc, 0) == p,
            decreases order@.len() - p,
        {
            if p >= order.len() {
                break;
            }
            let q = order[p];
            let before = if desc {
                key_less(&keys[q], &keys[n])
            } else {
                key_less(&keys[n], &keys[q])
            };
            if before {
                break;
            }
            p = p + 1;
        }
        order.insert(p, n);
        assert(idx_view(order@) =~= o.insert(p as int, n as int));
        n = n + 1;
    }
    order
}

} // verus!
