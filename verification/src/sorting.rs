//! The order of version keys and of strings, and the stable sort that lists
//! versions newest first.
use vstd::prelude::*;
use crate::text::chars_of;
use crate::version::{key_model, law_version_key_of_decimal_triple, triple_text, version_key_of, KeyModel};

verus! {

// ---------------------------------------------------------------- string order

/// The order of `String` and `str`: lexicographic over code points (UTF-8
/// preserves the order of code points, so this is also the byte order).
pub open spec fn text_less(a: Seq<char>, b: Seq<char>) -> bool
    decreases a.len(),
{
    if a.len() == 0 {
        b.len() > 0
    } else if b.len() == 0 {
        false
    } else if a[0] != b[0] {
        a[0] < b[0]
    } else {
        text_less(a.drop_first(), b.drop_first())
    }
}

pub proof fn lemma_text_less_irreflexive(a: Seq<char>)
    ensures
        !text_less(a, a),
    decreases a.len(),
{
    if a.len() > 0 {
        lemma_text_less_irreflexive(a.drop_first());
    }
}

pub proof fn lemma_text_less_transitive(a: Seq<char>, b: Seq<char>, c: Seq<char>)
    requires
        text_less(a, b),
        text_less(b, c),
    ensures
        text_less(a, c),
    decreases a.len(),
{
    if a.len() > 0 && b.len() > 0 && c.len() > 0 && a[0] == b[0] && b[0] == c[0] {
        lemma_text_less_transitive(a.drop_first(), b.drop_first(), c.drop_first());
    }
}

/// Two strings neither of which comes before the other are equal.
pub proof fn lemma_text_less_total(a: Seq<char>, b: Seq<char>)
    requires
        !text_less(a, b),
        !text_less(b, a),
    ensures
        a == b,
    decreases a.len(),
{
    if a.len() > 0 && b.len() > 0 {
        if a[0] == b[0] {
            lemma_text_less_total(a.drop_first(), b.drop_first());
            assert(a =~= seq![a[0]] + a.drop_first());
            assert(b =~= seq![b[0]] + b.drop_first());
        }
    } else {
        assert(a =~= b);
    }
}

/// The order of `String` is lexicographic over characters: `a` comes before
/// `b` exactly when `a` is a proper prefix of `b`, or when at the first
/// position where they differ `a` holds the smaller character.
pub proof fn law_text_order_is_lexicographic(a: Seq<char>, b: Seq<char>)
    ensures
        text_less(a, b) <==> ((a.len() < b.len() && b.take(a.len() as int) == a) || exists|k: int|
            #![trigger a[k], b[k]]
            0 <= k < a.len() && k < b.len() && a.take(k) == b.take(k) && a[k] < b[k]),
    decreases a.len(),
{
    if a.len() == 0 {
        assert(b.take(0) =~= a);
    } else if b.len() == 0 {
    } else if a[0] != b[0] {
        if a[0] < b[0] {
            assert(a.take(0) =~= b.take(0));
            assert(a[0] < b[0]);
        }
        assert forall|k: int|
            0 <= k < a.len() && k < b.len() && a.take(k) == b.take(k) && #[trigger] a[k] < b[k]
            implies k == 0 && a[0] < b[0] by {
            if k > 0 {
                assert(a.take(k)[0] == b.take(k)[0]);
            }
        }
        if a.len() < b.len() && b.take(a.len() as int) == a {
            assert(b.take(a.len() as int)[0] == b[0]);
        }
    } else {
        let a1 = a.drop_first();
        let b1 = b.drop_first();
        law_text_order_is_lexicographic(a1, b1);
        if a.len() < b.len() && b.take(a.len() as int) == a {
            assert(b1.take(a1.len() as int) =~= a1) by {
                assert forall|j: int| 0 <= j < a1.len() implies #[trigger] b1.take(a1.len() as int)[j] == a1[j] by {
                    assert(b.take(a.len() as int)[j + 1] == a[j + 1]);
                }
            }
        }
        if a1.len() < b1.len() && b1.take(a1.len() as int) == a1 {
            assert(b.take(a.len() as int) =~= a) by {
                assert forall|j: int| 0 <= j < a.len() implies #[trigger] b.take(a.len() as int)[j] == a[j] by {
                    if j > 0 {
                        assert(b1.take(a1.len() as int)[j - 1] == a1[j - 1]);
                    }
                }
            }
        }
        if exists|k: int|
            #![trigger a[k], b[k]]
            0 <= k < a.len() && k < b.len() && a.take(k) == b.take(k) && a[k] < b[k] {
            let k = choose|k: int|
                #![trigger a[k], b[k]]
                0 <= k < a.len() && k < b.len() && a.take(k) == b.take(k) && a[k] < b[k];
            assert(k > 0);
            assert(a1.take(k - 1) =~= b1.take(k - 1)) by {
                assert forall|j: int| 0 <= j < k - 1 implies #[trigger] a1.take(k - 1)[j] == b1.take(k - 1)[j] by {
                    assert(a.take(k)[j + 1] == b.take(k)[j + 1]);
                }
            }
            assert(a1[k - 1] == a[k] && b1[k - 1] == b[k]);
        }
        if exists|k: int|
            #![trigger a1[k], b1[k]]
            0 <= k < a1.len() && k < b1.len() && a1.take(k) == b1.take(k) && a1[k] < b1[k] {
            let k = choose|k: int|
                #![trigger a1[k], b1[k]]
                0 <= k < a1.len() && k < b1.len() && a1.take(k) == b1.take(k) && a1[k] < b1[k];
            assert(a.take(k + 1) =~= b.take(k + 1)) by {
                assert forall|j: int| 0 <= j < k + 1 implies #[trigger] a.take(k + 1)[j] == b.take(k + 1)[j] by {
                    if j > 0 {
                        assert(a1.take(k)[j - 1] == b1.take(k)[j - 1]);
                    }
                }
            }
            assert(a[k + 1] == a1[k] && b[k + 1] == b1[k]);
        }
    }
}

/// Whether `a` comes before `b` in the order of `String`.
pub fn chars_less(a: &Vec<char>, b: &Vec<char>) -> (r: bool)
    ensures
        r == text_less(a@, b@),
{
    let mut i: usize = 0;
    assert(a@.skip(0) == a@);
    assert(b@.skip(0) == b@);
    while i < a.len() && i < b.len() && a[i] == b[i]
        invariant
            i <= a@.len(),
            i <= b@.len(),
            text_less(a@, b@) == text_less(a@.skip(i as int), b@.skip(i as int)),
        decreases a@.len() - i,
    {
        assert(a@.skip(i as int).drop_first() == a@.skip(i + 1));
        assert(b@.skip(i as int).drop_first() == b@.skip(i + 1));
        i = i + 1;
    }
    if i == a.len() {
        i < b.len()
    } else if i == b.len() {
        false
    } else {
        assert(a@.skip(i as int)[0] == a@[i as int]);
        assert(b@.skip(i as int)[0] == b@[i as int]);
        a[i] < b[i]
    }
}

/// Whether `a` comes before `b` in the order of `String`.
pub fn str_less(a: &str, b: &str) -> (r: bool)
    ensures
        r == text_less(a@, b@),
{
    chars_less(&chars_of(a), &chars_of(b))
}

// ---------------------------------------------------------------- key order

/// The order of version keys: the three numbers, then the suffix, as the
/// tuple `(i64, i64, i64, String)` orders.
pub open spec fn key_less(a: KeyModel, b: KeyModel) -> bool {
    ||| a.0 < b.0
    ||| a.0 == b.0 && a.1 < b.1
    ||| a.0 == b.0 && a.1 == b.1 && a.2 < b.2
    ||| a.0 == b.0 && a.1 == b.1 && a.2 == b.2 && text_less(a.3, b.3)
}

pub proof fn lemma_key_less_irreflexive(a: KeyModel)
    ensures
        !key_less(a, a),
{
    lemma_text_less_irreflexive(a.3);
}

pub proof fn lemma_key_less_transitive(a: KeyModel, b: KeyModel, c: KeyModel)
    requires
        key_less(a, b),
        key_less(b, c),
    ensures
        key_less(a, c),
{
    if a.0 == b.0 && a.1 == b.1 && a.2 == b.2 && b.0 == c.0 && b.1 == c.1 && b.2 == c.2 {
        lemma_text_less_transitive(a.3, b.3, c.3);
    }
}

pub proof fn lemma_key_less_total(a: KeyModel, b: KeyModel)
    requires
        !key_less(a, b),
        !key_less(b, a),
    ensures
        a == b,
{
    lemma_text_less_total(a.3, b.3);
}


/// Version keys are ordered as tuples: by the three numbers in turn, and for
/// equal numbers by the suffix in the order of `String` (a proper prefix
/// first, otherwise by the first differing character).
pub proof fn law_key_order_is_lexicographic(a: KeyModel, b: KeyModel)
    ensures
        key_less(a, b) <==> (a.0 < b.0 || (a.0 == b.0 && (a.1 < b.1 || (a.1 == b.1 && (a.2 < b.2 || (
        a.2 == b.2 && ((a.3.len() < b.3.len() && b.3.take(a.3.len() as int) == a.3) || exists|k: int|
            #![trigger a.3[k], b.3[k]]
            0 <= k < a.3.len() && k < b.3.len() && a.3.take(k) == b.3.take(k) && a.3[k] < b.3[k]))))))),
{
    law_text_order_is_lexicographic(a.3, b.3);
}

/// Versions `a.b.c` written in decimal are ordered as the triples of their
/// numbers are.
pub proof fn law_decimal_versions_ordered_as_numbers(
    a: nat,
    b: nat,
    c: nat,
    a2: nat,
    b2: nat,
    c2: nat,
)
    requires
        a <= i64::MAX,
        b <= i64::MAX,
        c <= i64::MAX,
        a2 <= i64::MAX,
        b2 <= i64::MAX,
        c2 <= i64::MAX,
    ensures
        key_less(version_key_of(triple_text(a, b, c)), version_key_of(triple_text(a2, b2, c2))) <==> (
        a < a2 || (a == a2 && (b < b2 || (b == b2 && c < c2)))),
{
    law_version_key_of_decimal_triple(a, b, c);
    law_version_key_of_decimal_triple(a2, b2, c2);
    assert(!text_less(Seq::<char>::empty(), Seq::<char>::empty()));
}

/// Whether key `a` comes before key `b`.
pub fn version_key_less(a: &(i64, i64, i64, String), b: &(i64, i64, i64, String)) -> (r: bool)
    ensures
        r == key_less(key_model(*a), key_model(*b)),
{
    if a.0 != b.0 {
        a.0 < b.0
    } else if a.1 != b.1 {
        a.1 < b.1
    } else if a.2 != b.2 {
        a.2 < b.2
    } else {
        str_less(a.3.as_str(), b.3.as_str())
    }
}

// ---------------------------------------------------------------- stable sort

/// `p` lists each of `0..n` exactly once.
pub open spec fn is_index_permutation(p: Seq<int>, n: int) -> bool {
    &&& p.len() == n
    &&& forall|i: int| 0 <= i < n ==> 0 <= #[trigger] p[i] < n
    &&& forall|i: int, j: int| 0 <= i < n && 0 <= j < n && i != j ==> p[i] != p[j]
}

/// `out` is a stable sort of `src`, greatest key first (`sort_by` with the
/// keys' comparison reversed).
pub open spec fn is_stable_desc_sort<T>(src: Seq<T>, out: Seq<T>, key: spec_fn(T) -> KeyModel) -> bool {
    exists|p: Seq<int>| is_stable_desc_sort_by(src, out, key, p)
}

/// `out` is `src` rearranged by `p` (`out[i] == src[p[i]]`), ordered by `key`
/// from the greatest to the least, with items of equal key in their order in `src`.
pub open spec fn is_stable_desc_sort_by<T>(
    src: Seq<T>,
    out: Seq<T>,
    key: spec_fn(T) -> KeyModel,
    p: Seq<int>,
) -> bool {
    &&& out.len() == src.len()
    &&& is_index_permutation(p, src.len() as int)
    &&& forall|i: int| 0 <= i < out.len() ==> #[trigger] out[i] == src[p[i]]
    &&& forall|i: int, j: int| 0 <= i < j < out.len() ==> !key_less(key(out[i]), key(out[j]))
    &&& forall|i: int, j: int|
        0 <= i < j < out.len() && !key_less(key(out[j]), key(out[i])) ==> p[i] < p[j]
}

/// The key of an item paired with its key.
pub open spec fn pair_key<T>() -> spec_fn((
    (i64, i64, i64, String),
    T,
)) -> KeyModel {
    |x: ((i64, i64, i64, String), T)| key_model(x.0)
}

/// Sorts `items` by their keys, greatest first, keeping items of equal key in
/// their given order.
pub fn sort_by_key_desc<T>(items: Vec<((i64, i64, i64, String), T)>) -> (r: Vec<
    ((i64, i64, i64, String), T),
>)
    ensures
        is_stable_desc_sort(items@, r@, pair_key::<T>()),
{
    let ghost src = items@;
    let ghost key = pair_key::<T>();
    let mut input = items;
    let mut out: Vec<((i64, i64, i64, String), T)> = Vec::new();
    let ghost mut p: Seq<int> = Seq::empty();
    let ghost mut m: int = 0;
    assert(src.skip(0) == src);
    while input.len() > 0
        invariant
            0 <= m <= src.len(),
            input@ == src.skip(m),
            key == pair_key::<T>(),
            is_stable_desc_sort_by(src.take(m), out@, key, p),
        decreases input@.len(),
    {
        let item = input.remove(0);
        assert(item == src[m]);
        let mut pos: usize = 0;
        while pos < out.len() && !version_key_less(&out[pos].0, &item.0)
            invariant
                pos <= out@.len(),
                forall|k: int| 0 <= k < pos ==> !key_less(key(#[trigger] out@[k]), key(item)),
                key == pair_key::<T>(),
            decreases out@.len() - pos,
        {
            pos = pos + 1;
        }
        let ghost old_out = out@;
        let ghost old_p = p;
        proof {
            insert_keeps_stable_sort(src, m, old_out, old_p, pos as int, key);
        }
        out.insert(pos, item);
        proof {
            p = old_p.insert(pos as int, m);
            m = m + 1;
            assert(input@ == src.skip(m));
        }
    }
    assert(src.take(m) == src);
    assert(is_stable_desc_sort_by(src, out@, key, p));
    out
}


/// Sorts `items` by their keys, greatest first, keeping items of equal key in
/// their given order, and drops the keys. Each item's key is `key` of it.
pub(crate) fn sort_newest_first<T>(
    items: Vec<((i64, i64, i64, String), T)>,
    Ghost(key): Ghost<spec_fn(T) -> KeyModel>,
) -> (r: Vec<T>)
    requires
        forall|i: int| 0 <= i < items@.len() ==> key_model(#[trigger] items@[i].0) == key(items@[i].1),
    ensures
        is_stable_desc_sort(items@.map_values(|x: ((i64, i64, i64, String), T)| x.1), r@, key),
{
    let ghost src = items@;
    let ghost vals = src.map_values(|x: ((i64, i64, i64, String), T)| x.1);
    let sorted = sort_by_key_desc(items);
    let ghost srt = sorted@;
    let ghost p = choose|p: Seq<int>| is_stable_desc_sort_by(src, srt, pair_key::<T>(), p);
    let mut rest = sorted;
    let mut out: Vec<T> = Vec::new();
    let ghost mut done: int = 0;
    assert(srt.skip(0) == srt);
    while rest.len() > 0
        invariant
            0 <= done <= srt.len(),
            rest@ == srt.skip(done),
            out@.len() == done,
            forall|i: int| 0 <= i < done ==> #[trigger] out@[i] == srt[i].1,
        decreases rest@.len(),
    {
        let (_, item) = rest.remove(0);
        out.push(item);
        proof {
            done = done + 1;
            assert(rest@ == srt.skip(done));
        }
    }
    assert forall|i: int| 0 <= i < out@.len() implies #[trigger] out@[i] == vals[p[i]] by {
        assert(srt[i] == src[p[i]]);
    }
    assert forall|i: int| 0 <= i < src.len() implies key(#[trigger] out@[i]) == key_model(srt[i].0) by {
        assert(srt[i] == src[p[i]]);
        assert(key_model(src[p[i]].0) == key(src[p[i]].1));
    }
    assert(is_stable_desc_sort_by(vals, out@, key, p));
    out
}

/// A stable sort stays one when each item is replaced by a model of it that
/// has the same key.
pub proof fn lemma_sort_of_models<T, M>(
    src: Seq<T>,
    out: Seq<T>,
    key: spec_fn(T) -> KeyModel,
    model: spec_fn(T) -> M,
    model_key: spec_fn(M) -> KeyModel,
)
    requires
        is_stable_desc_sort(src, out, key),
        forall|t: T| #[trigger] model_key(model(t)) == key(t),
    ensures
        is_stable_desc_sort(src.map_values(model), out.map_values(model), model_key),
{
    let p = choose|p: Seq<int>| is_stable_desc_sort_by(src, out, key, p);
    let ms = src.map_values(model);
    let mo = out.map_values(model);
    assert forall|i: int| 0 <= i < mo.len() implies #[trigger] mo[i] == ms[p[i]] by {
        assert(out[i] == src[p[i]]);
    }
    assert forall|i: int| 0 <= i < mo.len() implies model_key(#[trigger] mo[i]) == key(out[i]) by {}
    assert(is_stable_desc_sort_by(ms, mo, model_key, p));
}

/// Inserting the next item of `src` before the first item of smaller key keeps
/// a stable sort of the items seen so far.
proof fn insert_keeps_stable_sort<T>(
    src: Seq<T>,
    m: int,
    out: Seq<T>,
    p: Seq<int>,
    pos: int,
    key: spec_fn(T) -> KeyModel,
)
    requires
        0 <= m < src.len(),
        is_stable_desc_sort_by(src.take(m), out, key, p),
        0 <= pos <= out.len(),
        forall|k: int| 0 <= k < pos ==> !key_less(key(#[trigger] out[k]), key(src[m])),
        pos < out.len() ==> key_less(key(out[pos]), key(src[m])),
    ensures
        is_stable_desc_sort_by(src.take(m + 1), out.insert(pos, src[m]), key, p.insert(pos, m)),
{
    let item = src[m];
    let out2 = out.insert(pos, item);
    let p2 = p.insert(pos, m);
    let s1 = src.take(m);
    let s2 = src.take(m + 1);
    // every item at or after `pos` has a smaller key than the new one
    assert forall|k: int| pos <= k < out.len() implies key_less(key(#[trigger] out[k]), key(item)) by {
        if k > pos {
            assert(!key_less(key(out[pos]), key(out[k])));
            if key_less(key(out[k]), key(out[pos])) {
                lemma_key_less_transitive(key(out[k]), key(out[pos]), key(item));
            } else {
                lemma_key_less_total(key(out[k]), key(out[pos]));
            }
        }
    }
    assert forall|i: int| 0 <= i < out2.len() implies #[trigger] out2[i] == s2[p2[i]] by {
        if i < pos {
            assert(out2[i] == out[i]);
            assert(p2[i] == p[i]);
            assert(out[i] == s1[p[i]]);
        } else if i == pos {
        } else {
            assert(out2[i] == out[i - 1]);
            assert(p2[i] == p[i - 1]);
            assert(out[i - 1] == s1[p[i - 1]]);
        }
    }
    assert forall|i: int| 0 <= i < m + 1 implies 0 <= #[trigger] p2[i] < m + 1 by {
        if i < pos {
            assert(p2[i] == p[i]);
        } else if i > pos {
            assert(p2[i] == p[i - 1]);
        }
    }
    assert forall|i: int, j: int| 0 <= i < m + 1 && 0 <= j < m + 1 && i != j implies p2[i]
        != p2[j] by {
        let pi = if i < pos {
            i
        } else {
            i - 1
        };
        let pj = if j < pos {
            j
        } else {
            j - 1
        };
        if i != pos && j != pos {
            assert(p2[i] == p[pi]);
            assert(p2[j] == p[pj]);
        } else if i == pos {
            assert(p2[j] == p[pj]);
        } else {
            assert(p2[i] == p[pi]);
        }
    }
    assert forall|i: int, j: int| 0 <= i < j < out2.len() implies !key_less(
        key(out2[i]),
        key(out2[j]),
    ) by {
        if j < pos {
            assert(out2[i] == out[i] && out2[j] == out[j]);
        } else if j == pos {
            assert(out2[i] == out[i]);
        } else if i == pos {
            assert(out2[j] == out[j - 1]);
            assert(key_less(key(out[j - 1]), key(item)));
            if key_less(key(item), key(out[j - 1])) {
                lemma_key_less_transitive(key(item), key(out[j - 1]), key(item));
                lemma_key_less_irreflexive(key(item));
            }
        } else if i < pos {
            assert(out2[i] == out[i] && out2[j] == out[j - 1]);
        } else {
            assert(out2[i] == out[i - 1] && out2[j] == out[j - 1]);
        }
    }
    assert forall|i: int, j: int|
        0 <= i < j < out2.len() && !key_less(key(out2[j]), key(out2[i])) implies p2[i]
        < p2[j] by {
        if j < pos {
            assert(out2[i] == out[i] && out2[j] == out[j]);
            assert(p2[i] == p[i] && p2[j] == p[j]);
        } else if j == pos {
            assert(p2[i] == p[i]);
            assert(0 <= p[i] < m);
        } else if i == pos {
            assert(out2[j] == out[j - 1]);
            assert(key_less(key(out[j - 1]), key(item)));
        } else if i < pos {
            assert(out2[i] == out[i] && out2[j] == out[j - 1]);
            assert(p2[i] == p[i] && p2[j] == p[j - 1]);
        } else {
            assert(out2[i] == out[i - 1] && out2[j] == out[j - 1]);
            assert(p2[i] == p[i - 1] && p2[j] == p[j - 1]);
        }
    }
}

} // verus!
