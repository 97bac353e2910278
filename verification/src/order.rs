//! Orders: text compared as `String` compares it (character by character, by code
//! point), and a stable sort of items by a key of two numbers and a text.
use vstd::prelude::*;

verus! {

/// `a < b` as `String` orders them: the first differing character decides, and a
/// proper prefix comes first.
pub open spec fn text_lt(a: Seq<char>, b: Seq<char>) -> bool
    decreases a.len(),
{
    if b.len() == 0 {
        false
    } else if a.len() == 0 {
        true
    } else if a[0] != b[0] {
        a[0] < b[0]
    } else {
        text_lt(a.drop_first(), b.drop_first())
    }
}

pub proof fn lemma_text_lt_irreflexive(a: Seq<char>)
    ensures
        !text_lt(a, a),
    decreases a.len(),
{
    if a.len() > 0 {
        lemma_text_lt_irreflexive(a.drop_first());
    }
}

pub proof fn lemma_text_lt_transitive(a: Seq<char>, b: Seq<char>, c: Seq<char>)
    requires
        text_lt(a, b),
        text_lt(b, c),
    ensures
        text_lt(a, c),
    decreases a.len(),
{
    if a.len() > 0 && b.len() > 0 && c.len() > 0 && a[0] == b[0] && b[0] == c[0] {
        lemma_text_lt_transitive(a.drop_first(), b.drop_first(), c.drop_first());
    }
}

pub proof fn lemma_text_lt_total(a: Seq<char>, b: Seq<char>)
    ensures
        text_lt(a, b) || text_lt(b, a) || a == b,
    decreases a.len(),
{
    if a.len() > 0 && b.len() > 0 {
        if a[0] == b[0] {
            lemma_text_lt_total(a.drop_first(), b.drop_first());
            if a.drop_first() == b.drop_first() {
                assert(a == seq![a[0]] + a.drop_first());
                assert(b == seq![b[0]] + b.drop_first());
            }
        }
    } else if a.len() == 0 && b.len() == 0 {
        assert(a =~= b);
    }
}

pub proof fn lemma_text_lt_asymmetric(a: Seq<char>, b: Seq<char>)
    requires
        text_lt(a, b),
    ensures
        !text_lt(b, a),
{
    if text_lt(b, a) {
        lemma_text_lt_transitive(a, b, a);
        lemma_text_lt_irreflexive(a);
    }
}

/// `a < b` for two texts, as `String` orders them.
pub fn text_less(a: &[char], b: &[char]) -> (r: bool)
    ensures
        r == text_lt(a@, b@),
{
    let mut i: usize = 0;
    assert(a@.skip(0) =~= a@);
    assert(b@.skip(0) =~= b@);
    while i < a.len() && i < b.len()
        invariant
            i <= a.len(),
            i <= b.len(),
            a@.take(i as int) == b@.take(i as int),
            text_lt(a@, b@) == text_lt(a@.skip(i as int), b@.skip(i as int)),
        decreases a.len() - i,
    {
        if a[i] != b[i] {
            assert(a@.skip(i as int)[0] == a@[i as int]);
            assert(b@.skip(i as int)[0] == b@[i as int]);
            return a[i] < b[i];
        }
        assert(a@.skip(i as int).drop_first() =~= a@.skip(i + 1));
        assert(b@.skip(i as int).drop_first() =~= b@.skip(i + 1));
        i += 1;
        assert(a@.take(i as int) =~= a@.take(i - 1).push(a@[i - 1]));
        assert(b@.take(i as int) =~= b@.take(i - 1).push(b@[i - 1]));
    }
    i < b.len()
}

/// What items are sorted by: two numbers, then a text.
#[derive(Debug, Clone)]
pub struct SortKey {
    pub first: u64,
    pub second: u64,
    pub text: Vec<char>,
}

/// A key as plain values: the two numbers and the text.
pub type KeyView = (u64, u64, Seq<char>);

pub open spec fn sort_key_view(k: SortKey) -> KeyView {
    (k.first, k.second, k.text@)
}

pub open spec fn sort_key_views(keys: Seq<SortKey>) -> Seq<KeyView> {
    keys.map_values(|k: SortKey| sort_key_view(k))
}

/// Keys compare by their first number, then their second, then their text.
pub open spec fn key_lt(x: KeyView, y: KeyView) -> bool {
    x.0 < y.0 || (x.0 == y.0 && (x.1 < y.1 || (x.1 == y.1 && text_lt(x.2, y.2))))
}

/// Item `i` comes before item `j`: a smaller key, or an equal key and an earlier place.
pub open spec fn ranks_before(keys: Seq<KeyView>, i: usize, j: usize) -> bool {
    key_lt(keys[i as int], keys[j as int]) || (keys[i as int] == keys[j as int] && i < j)
}

/// `order` lists each of the indices `0..n` exactly once.
pub open spec fn is_permutation(order: Seq<usize>, n: nat) -> bool {
    &&& order.len() == n
    &&& forall|k: int| 0 <= k < order.len() ==> order[k] < n
    &&& forall|k: int, l: int| 0 <= k < l < order.len() ==> order[k] != order[l]
}

/// A permutation of `0..n` lists every index below `n`.
pub proof fn lemma_permutation_covers(order: Seq<usize>, n: nat, x: int)
    requires
        is_permutation(order, n),
        0 <= x < n,
    ensures
        exists|m: int| 0 <= m < order.len() && order[m] == x,
{
    let o = order.map_values(|v: usize| v as int);
    assert(o.no_duplicates()) by {
        assert forall|i: int, j: int| 0 <= i < o.len() && 0 <= j < o.len() && i != j implies o[i] != o[j] by {
            if i < j {
                assert(order[i] != order[j]);
            } else {
                assert(order[j] != order[i]);
            }
        }
    }
    o.unique_seq_to_set();
    let range = vstd::set_lib::set_int_range(0, n as int);
    vstd::set_lib::lemma_int_range(0, n as int);
    assert(o.to_set().subset_of(range)) by {
        assert forall|v: int| o.to_set().contains(v) implies range.contains(v) by {
            let i = choose|i: int| 0 <= i < o.len() && o[i] == v;
            assert(order[i] < n);
        }
    }
    vstd::seq_lib::seq_to_set_is_finite(o);
    vstd::set_lib::lemma_subset_equality(o.to_set(), range);
    assert(range.contains(x));
    assert(o.to_set().contains(x));
    let m = choose|m: int| 0 <= m < o.len() && o[m] == x;
    assert(order[m] == x);
}

/// The stable order of items by key: a permutation in which every item ranks before
/// those after it. Exactly one order has this property.
pub open spec fn is_stable_order(keys: Seq<KeyView>, order: Seq<usize>) -> bool {
    &&& is_permutation(order, keys.len())
    &&& forall|k: int, l: int| 0 <= k < l < order.len() ==> ranks_before(keys, #[trigger] order[k], #[trigger] order[l])
}

proof fn lemma_key_trans(x: KeyView, y: KeyView, z: KeyView)
    requires
        key_lt(x, y) || x == y,
        key_lt(y, z),
    ensures
        key_lt(x, z),
{
    if x.0 == y.0 && y.0 == z.0 && x.1 == y.1 && y.1 == z.1 {
        if key_lt(x, y) {
            lemma_text_lt_transitive(x.2, y.2, z.2);
        }
    }
}

proof fn lemma_key_not_lt(x: KeyView, y: KeyView)
    requires
        !key_lt(x, y),
    ensures
        key_lt(y, x) || y == x,
{
    lemma_text_lt_total(x.2, y.2);
}

fn key_less(x: &SortKey, y: &SortKey) -> (r: bool)
    ensures
        r == key_lt(sort_key_view(*x), sort_key_view(*y)),
{
    if x.first != y.first {
        return x.first < y.first;
    }
    if x.second != y.second {
        return x.second < y.second;
    }
    text_less(x.text.as_slice(), y.text.as_slice())
}

/// The stable order of items by their keys (a stable sort): `r[k]` is the index of
/// the item that comes `k`-th.
pub fn stable_order(keys: &[SortKey]) -> (r: Vec<usize>)
    ensures
        is_stable_order(sort_key_views(keys@), r@),
{
    let ghost kv = sort_key_views(keys@);
    let mut order: Vec<usize> = Vec::new();
    let mut i: usize = 0;
    while i < keys.len()
        invariant
            i <= keys.len(),
            is_permutation(order@, i as nat),
            kv == sort_key_views(keys@),
            forall|k: int, l: int| 0 <= k < l < order@.len() ==> ranks_before(kv, #[trigger] order@[k], #[trigger] order@[l]),
        decreases keys.len() - i,
    {
        let mut p: usize = 0;
        while p < order.len() && !key_less(&keys[i], &keys[order[p]])
            invariant
                p <= order@.len(),
                i < keys.len(),
                is_permutation(order@, i as nat),
                kv == sort_key_views(keys@),
                forall|k: int| 0 <= k < p ==> !key_lt(kv[i as int], kv[#[trigger] order@[k] as int]),
            decreases order@.len() - p,
        {
            p += 1;
        }
        let ghost old_order = order@;
        order.insert(p, i);
        proof {
            assert(order@ == old_order.take(p as int).push(i).add(old_order.skip(p as int)));
            assert forall|k: int| 0 <= k < order@.len() implies order@[k] < i + 1 by {
                if k < p {
                    assert(order@[k] == old_order[k]);
                } else if k > p {
                    assert(order@[k] == old_order[k - 1]);
                }
            }
            assert forall|k: int, l: int| 0 <= k < l < order@.len() implies order@[k] != order@[l] by {
                if k < p && l < p {
                    assert(order@[k] == old_order[k]);
                    assert(order@[l] == old_order[l]);
                } else if k < p && l > p {
                    assert(order@[k] == old_order[k]);
                    assert(order@[l] == old_order[l - 1]);
                } else if k > p {
                    assert(order@[k] == old_order[k - 1]);
                    assert(order@[l] == old_order[l - 1]);
                } else if k == p {
                    assert(order@[l] == old_order[l - 1]);
                } else {
                    assert(order@[k] == old_order[k]);
                }
            }
            assert forall|k: int, l: int| 0 <= k < l < order@.len() implies ranks_before(kv, #[trigger] order@[k], #[trigger] order@[l]) by {
                let ki = kv[i as int];
                if k < p && l < p {
                    assert(order@[k] == old_order[k]);
                    assert(order@[l] == old_order[l]);
                } else if k < p && l == p {
                    assert(order@[k] == old_order[k]);
                    lemma_key_not_lt(ki, kv[old_order[k] as int]);
                } else if k < p && l > p {
                    assert(order@[k] == old_order[k]);
                    assert(order@[l] == old_order[l - 1]);
                    assert(ranks_before(kv, old_order[k], old_order[l - 1]));
                } else if k == p {
                    assert(order@[l] == old_order[l - 1]);
                    let j = old_order[p as int];
                    assert(key_lt(ki, kv[j as int]));
                    if l - 1 > p {
                        assert(ranks_before(kv, old_order[p as int], old_order[l - 1]));
                        let m = kv[old_order[l - 1] as int];
                        if key_lt(kv[j as int], m) {
                            lemma_key_trans(ki, kv[j as int], m);
                        } else {
                            assert(kv[j as int] == m);
                        }
                    }
                } else {
                    assert(order@[k] == old_order[k - 1]);
                    assert(order@[l] == old_order[l - 1]);
                    assert(ranks_before(kv, old_order[k - 1], old_order[l - 1]));
                }
            }
        }
        i += 1;
    }
    order
}

} // verus!
