//! The order of text by character code points, which is the order of `str`
//! and `String` (their UTF-8 bytes compare in the same order), and putting
//! distinct texts in that order.
use vstd::prelude::*;

use crate::strings::{chars_of, str_equal};

verus! {

/// `a` comes before `b`: at the first position where they differ, `a` has
/// the smaller code point, or `a` is a proper prefix of `b`.
pub open spec fn text_less(a: Seq<char>, b: Seq<char>) -> bool
    decreases a.len(),
{
    if a.len() == 0 {
        b.len() > 0
    } else if b.len() == 0 {
        false
    } else if a[0] != b[0] {
        a[0] < b[0]
    } else {
        text_less(a.drop_first(), b.drop_first())
    }
}

/// No text comes before itself.
pub proof fn lemma_text_less_irreflexive(a: Seq<char>)
    ensures
        !text_less(a, a),
    decreases a.len(),
{
    if a.len() > 0 {
        lemma_text_less_irreflexive(a.drop_first());
    }
}

/// Of two texts, at most one comes before the other.
pub proof fn lemma_text_less_asymmetric(a: Seq<char>, b: Seq<char>)
    ensures
        text_less(a, b) ==> !text_less(b, a),
    decreases a.len(),
{
    if a.len() > 0 && b.len() > 0 && a[0] == b[0] {
        lemma_text_less_asymmetric(a.drop_first(), b.drop_first());
    }
}

/// The order is transitive.
pub proof fn lemma_text_less_transitive(a: Seq<char>, b: Seq<char>, c: Seq<char>)
    requires
        text_less(a, b),
        text_less(b, c),
    ensures
        text_less(a, c),
    decreases a.len(),
{
    if a.len() > 0 && b.len() > 0 && c.len() > 0 && a[0] == b[0] && b[0] == c[0] {
        lemma_text_less_transitive(a.drop_first(), b.drop_first(), c.drop_first());
    }
}

/// Of two different texts, one comes before the other.
pub proof fn lemma_text_less_total(a: Seq<char>, b: Seq<char>)
    requires
        a != b,
    ensures
        text_less(a, b) || text_less(b, a),
    decreases a.len(),
{
    if a.len() > 0 && b.len() > 0 && a[0] == b[0] {
        assert(a.drop_first() != b.drop_first()) by {
            if a.drop_first() == b.drop_first() {
                assert(a =~= seq![a[0]] + a.drop_first());
                assert(b =~= seq![b[0]] + b.drop_first());
            }
        }
        lemma_text_less_total(a.drop_first(), b.drop_first());
    } else if a.len() == 0 && b.len() == 0 {
        assert(a =~= b);
    }
}

/// Whether `a` comes before `b`.
pub fn text_before(a: &str, b: &str) -> (r: bool)
    ensures
        r == text_less(a@, b@),
{
    let x = chars_of(a);
    let y = chars_of(b);
    let mut i: usize = 0;
    proof {
        assert(a@.skip(0) =~= a@);
        assert(b@.skip(0) =~= b@);
    }
    while i < x.len() && i < y.len() && x[i] == y[i]
        invariant
            x@ == a@,
            y@ == b@,
            0 <= i <= x.len(),
            i <= y.len(),
            text_less(a@, b@) == text_less(a@.skip(i as int), b@.skip(i as int)),
        decreases x.len() - i,
    {
        proof {
            assert(a@.skip(i + 1) =~= a@.skip(i as int).drop_first());
            assert(b@.skip(i + 1) =~= b@.skip(i as int).drop_first());
        }
        i = i + 1;
    }
    if i == x.len() {
        i < y.len()
    } else if i == y.len() {
        false
    } else {
        proof {
            assert(a@.skip(i as int)[0] == x@[i as int]);
            assert(b@.skip(i as int)[0] == y@[i as int]);
        }
        x[i] < y[i]
    }
}

/// The texts of `keys` are all different.
pub open spec fn distinct_texts(keys: Seq<Seq<char>>) -> bool {
    forall|i: int, j: int| 0 <= i < j < keys.len() ==> keys[i] != keys[j]
}

/// The texts are in ascending order, each before the next.
pub open spec fn ascending(keys: Seq<Seq<char>>) -> bool {
    forall|i: int, j: int| 0 <= i < j < keys.len() ==> text_less(keys[i], keys[j])
}

/// `order` lists each position below `n` exactly once.
pub open spec fn is_permutation(order: Seq<usize>, n: int) -> bool {
    &&& order.len() == n
    &&& forall|k: int| 0 <= k < order.len() ==> order[k] < n
    &&& forall|i: int, j: int| 0 <= i < j < order.len() ==> order[i] != order[j]
}

/// `order` lists the position `j`.
pub open spec fn lists(order: Seq<usize>, j: int) -> bool {
    exists|k: int| 0 <= k < order.len() && order[k] == j
}

/// The keys at the positions of `order`.
pub open spec fn keys_in(keys: Seq<Seq<char>>, order: Seq<usize>) -> Seq<Seq<char>> {
    order.map_values(|k: usize| keys[k as int])
}

pub open spec fn string_views(texts: Seq<String>) -> Seq<Seq<char>> {
    texts.map_values(|t: String| t@)
}

/// The positions of distinct keys, in the ascending order of the keys.
pub fn ascending_order(keys: &Vec<String>) -> (order: Vec<usize>)
    requires
        distinct_texts(string_views(keys@)),
    ensures
        is_permutation(order@, keys.len() as int),
        forall|j: int| 0 <= j < keys.len() ==> #[trigger] lists(order@, j),
        ascending(keys_in(string_views(keys@), order@)),
{
    let ghost views = string_views(keys@);
    let mut order: Vec<usize> = Vec::new();
    let mut i: usize = 0;
    while i < keys.len()
        invariant
            views == string_views(keys@),
            distinct_texts(views),
            0 <= i <= keys.len(),
            order.len() == i,
            forall|k: int| 0 <= k < order.len() ==> order@[k] < i,
            forall|a: int, b: int| 0 <= a < b < order.len() ==> order@[a] != order@[b],
            forall|j: int| 0 <= j < i ==> #[trigger] lists(order@, j),
            ascending(keys_in(views, order@)),
        decreases keys.len() - i,
    {
        let mut pos: usize = 0;
        while pos < order.len() && !text_before(keys[i].as_str(), keys[order[pos]].as_str())
            invariant
                views == string_views(keys@),
                i < keys.len(),
                0 <= pos <= order.len(),
                forall|k: int| 0 <= k < order.len() ==> order@[k] < i,
                forall|k: int| 0 <= k < pos ==> !text_less(views[i as int], #[trigger] views[order@[k] as int]),
            decreases order.len() - pos,
        {
            pos = pos + 1;
        }
        let ghost before = order@;
        order.insert(pos, i);
        proof {
            let sorted = keys_in(views, before);
            let key = views[i as int];
            assert forall|k: int| 0 <= k < pos implies text_less(#[trigger] sorted[k], key) by {
                assert(sorted[k] == views[before[k] as int]);
                assert(before[k] < i);
                assert(views[before[k] as int] != key);
                lemma_text_less_total(sorted[k], key);
            }
            assert forall|k: int| pos <= k < before.len() implies text_less(key, #[trigger] sorted[k]) by {
                assert(text_less(key, sorted[pos as int]));
                if k > pos {
                    lemma_text_less_transitive(key, sorted[pos as int], sorted[k]);
                }
            }
            let now = keys_in(views, order@);
            assert(now =~= sorted.insert(pos as int, key));
            assert forall|a: int, b: int| 0 <= a < b < now.len() implies text_less(now[a], now[b]) by {
                if a < pos && b < pos {
                } else if a < pos && b == pos {
                } else if a < pos && b > pos {
                    lemma_text_less_transitive(now[a], key, now[b]);
                } else if a == pos {
                } else {
                }
            }
            assert forall|a: int, b: int| 0 <= a < b < order.len() implies order@[a] != order@[b] by {
                if a == pos as int || b == pos as int {
                } else {
                }
            }
            assert forall|j: int| 0 <= j < i + 1 implies #[trigger] lists(order@, j) by {
                if j == i as int {
                    assert(order@[pos as int] == j);
                } else {
                    assert(lists(before, j));
                    let k = choose|k: int| 0 <= k < before.len() && before[k] == j;
                    if k < pos {
                        assert(order@[k] == j);
                    } else {
                        assert(order@[k + 1] == j);
                    }
                }
            }
        }
        i = i + 1;
    }
    order
}

/// `sorted` holds the elements of `list`, in ascending order of `key`.
pub open spec fn arranged<A>(list: Seq<A>, sorted: Seq<A>, key: spec_fn(A) -> Seq<char>) -> bool {
    &&& ascending(sorted.map_values(key))
    &&& forall|x: A| list.contains(x) <==> sorted.contains(x)
}

/// There is one way to put elements in ascending order of a key: two
/// sequences in that order with the same elements are the same.
pub proof fn lemma_arrangement_unique<A>(a: Seq<A>, b: Seq<A>, key: spec_fn(A) -> Seq<char>)
    requires
        ascending(a.map_values(key)),
        ascending(b.map_values(key)),
        forall|x: A| a.contains(x) <==> b.contains(x),
    ensures
        a == b,
    decreases a.len(),
{
    if a.len() == 0 {
        if b.len() > 0 {
            assert(b.contains(b[0]));
        }
        assert(a =~= b);
    } else {
        assert(a.contains(a[0]));
        assert(b.len() > 0);
        assert(b.contains(b[0]));
        let j = choose|j: int| 0 <= j < b.len() && b[j] == a[0];
        let m = choose|m: int| 0 <= m < a.len() && a[m] == b[0];
        assert(a.map_values(key)[0] == key(a[0]));
        assert(b.map_values(key)[0] == key(b[0]));
        if j > 0 {
            assert(b.map_values(key)[j] == key(a[0]));
            assert(text_less(key(b[0]), key(a[0])));
            if m == 0 {
                lemma_text_less_irreflexive(key(a[0]));
            } else {
                assert(a.map_values(key)[m] == key(b[0]));
                lemma_text_less_asymmetric(key(a[0]), key(b[0]));
            }
        }
        assert(a[0] == b[0]);
        let a2 = a.drop_first();
        let b2 = b.drop_first();
        assert(a2.map_values(key) =~= a.map_values(key).drop_first());
        assert(b2.map_values(key) =~= b.map_values(key).drop_first());
        assert forall|x: A| a2.contains(x) <==> b2.contains(x) by {
            if a2.contains(x) {
                let i = choose|i: int| 0 <= i < a2.len() && a2[i] == x;
                assert(a.map_values(key)[i + 1] == key(x));
                assert(text_less(key(a[0]), key(x)));
                if x == a[0] {
                    lemma_text_less_irreflexive(key(x));
                }
                assert(a.contains(x)) by {
                    assert(a[i + 1] == x);
                }
                let k = choose|k: int| 0 <= k < b.len() && b[k] == x;
                assert(k != 0);
                assert(b2[k - 1] == x);
            }
            if b2.contains(x) {
                let i = choose|i: int| 0 <= i < b2.len() && b2[i] == x;
                assert(b.map_values(key)[i + 1] == key(x));
                assert(text_less(key(b[0]), key(x)));
                if x == b[0] {
                    lemma_text_less_irreflexive(key(x));
                }
                assert(b.contains(x)) by {
                    assert(b[i + 1] == x);
                }
                let k = choose|k: int| 0 <= k < a.len() && a[k] == x;
                assert(k != 0);
                assert(a2[k - 1] == x);
            }
        }
        lemma_arrangement_unique(a2, b2, key);
        assert(a =~= seq![a[0]] + a2);
        assert(b =~= seq![b[0]] + b2);
    }
}

/// Text as its own key.
pub open spec fn text_key() -> spec_fn(Seq<char>) -> Seq<char> {
    |t: Seq<char>| t
}

/// The distinct texts in ascending order.
pub open spec fn in_order(texts: Seq<Seq<char>>) -> Seq<Seq<char>> {
    choose|sorted: Seq<Seq<char>>| arranged(texts, sorted, text_key())
}

/// Whether `texts` holds `text`.
pub(crate) fn holds(texts: &Vec<String>, text: &str) -> (r: bool)
    ensures
        r == string_views(texts@).contains(text@),
{
    let ghost views = string_views(texts@);
    let mut i: usize = 0;
    while i < texts.len()
        invariant
            views == string_views(texts@),
            0 <= i <= texts.len(),
            forall|j: int| 0 <= j < i ==> views[j] != text@,
        decreases texts.len() - i,
    {
        if str_equal(texts[i].as_str(), text) {
            assert(views[i as int] == text@);
            return true;
        }
        i = i + 1;
    }
    false
}

/// The distinct texts in ascending order.
pub(crate) fn sorted_unique(texts: &Vec<String>) -> (r: Vec<String>)
    ensures
        string_views(r@) == in_order(string_views(texts@)),
        arranged(string_views(texts@), string_views(r@), text_key()),
{
    let ghost views = string_views(texts@);
    let mut unique: Vec<String> = Vec::new();
    let mut i: usize = 0;
    while i < texts.len()
        invariant
            views == string_views(texts@),
            0 <= i <= texts.len(),
            forall|x: Seq<char>| string_views(unique@).contains(x) <==> views.take(i as int).contains(x),
            distinct_texts(string_views(unique@)),
        decreases texts.len() - i,
    {
        let ghost before = string_views(unique@);
        let present = holds(&unique, texts[i].as_str());
        if !present {
            unique.push(texts[i].clone());
        }
        proof {
            let now = string_views(unique@);
            let x_i = views[i as int];
            assert(x_i == texts@[i as int]@);
            if present {
                assert(now =~= before);
            } else {
                assert(now =~= before.push(x_i));
            }
            assert forall|x: Seq<char>| now.contains(x) implies views.take(i + 1).contains(x) by {
                let j = choose|j: int| 0 <= j < now.len() && now[j] == x;
                if j < before.len() {
                    assert(before[j] == x);
                    assert(before.contains(x));
                    assert(views.take(i as int).contains(x));
                    let shorter = views.take(i as int);
                    let t = choose|t: int| 0 <= t < shorter.len() && shorter[t] == x;
                    assert(views.take(i + 1)[t] == x);
                } else {
                    assert(views.take(i + 1)[i as int] == x);
                }
            }
            let longer = views.take(i + 1);
            assert forall|x: Seq<char>| longer.contains(x) implies now.contains(x) by {
                let t = choose|t: int| 0 <= t < longer.len() && longer[t] == x;
                if t < i {
                    assert(views.take(i as int)[t] == x);
                    assert(views.take(i as int).contains(x));
                    assert(before.contains(x));
                    let j = choose|j: int| 0 <= j < before.len() && before[j] == x;
                    assert(now[j] == x);
                } else {
                    assert(x == x_i);
                    if present {
                        assert(now.contains(x));
                    } else {
                        assert(now[now.len() - 1] == x);
                    }
                }
            }
            if !present {
                assert forall|p: int, q: int| 0 <= p < q < now.len() implies now[p] != now[q] by {
                    if q == now.len() - 1 {
                        if now[p] == now[q] {
                            assert(before[p] == x_i);
                        }
                    } else {
                        assert(now[p] == before[p]);
                        assert(now[q] == before[q]);
                    }
                }
            }
        }
        i = i + 1;
    }
    let order = ascending_order(&unique);
    let ghost unique_views = string_views(unique@);
    let mut out: Vec<String> = Vec::new();
    let mut k: usize = 0;
    while k < order.len()
        invariant
            unique_views == string_views(unique@),
            order.len() == unique.len(),
            forall|j: int| 0 <= j < order.len() ==> order@[j] < unique.len(),
            0 <= k <= order.len(),
            out.len() == k,
            forall|j: int| 0 <= j < k ==> #[trigger] out@[j]@ == unique_views[order@[j] as int],
        decreases order.len() - k,
    {
        out.push(unique[order[k]].clone());
        k = k + 1;
    }
    proof {
        let sorted = string_views(out@);
        let key = text_key();
        assert(views.take(texts.len() as int) =~= views);
        assert(sorted.map_values(key) =~= keys_in(unique_views, order@)) by {
            assert forall|j: int| 0 <= j < sorted.len() implies sorted.map_values(key)[j] == keys_in(unique_views, order@)[j] by {
                assert(out@[j]@ == unique_views[order@[j] as int]);
            }
        }
        assert forall|x: Seq<char>| views.contains(x) <==> sorted.contains(x) by {
            if views.contains(x) {
                assert(unique_views.contains(x));
                let a = choose|a: int| 0 <= a < unique_views.len() && unique_views[a] == x;
                assert(lists(order@, a));
                let j = choose|j: int| 0 <= j < order.len() && order@[j] == a;
                assert(sorted[j] == out@[j]@);
            }
            if sorted.contains(x) {
                let j = choose|j: int| 0 <= j < sorted.len() && sorted[j] == x;
                assert(out@[j]@ == unique_views[order@[j] as int]);
                assert(unique_views.contains(x));
            }
        }
        assert(arranged(views, sorted, key));
        lemma_arrangement_unique(sorted, in_order(views), key);
    }
    out
}

} // verus!
