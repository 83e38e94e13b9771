//! The order in which sorted keys and set members are written: by their
//! text, compared character by character (the order of `String`, which is
//! that of the code points).

use vstd::prelude::*;

verus! {

/// `a` comes strictly before `b`: at the first position where they differ
/// `a` has the smaller character, or `a` is a proper prefix of `b`.
pub open spec fn text_less(a: Seq<char>, b: Seq<char>) -> bool
    decreases a.len(),
{
    if a.len() == 0 {
        b.len() > 0
    } else if b.len() == 0 {
        false
    } else if a[0] != b[0] {
        (a[0] as int) < (b[0] as int)
    } else {
        text_less(a.drop_first(), b.drop_first())
    }
}

/// `a` comes before `b` or is equal to it.
pub open spec fn text_le(a: Seq<char>, b: Seq<char>) -> bool {
    a == b || text_less(a, b)
}

/// Nothing comes strictly before itself.
pub proof fn lemma_text_less_irreflexive(a: Seq<char>)
    ensures
        !text_less(a, a),
    decreases a.len(),
{
    if a.len() > 0 {
        lemma_text_less_irreflexive(a.drop_first());
    }
}

/// Two different texts are ordered one way, and only one.
pub proof fn lemma_text_less_total(a: Seq<char>, b: Seq<char>)
    ensures
        a != b ==> (text_less(a, b) || text_less(b, a)),
        !(text_less(a, b) && text_less(b, a)),
    decreases a.len(),
{
    if a.len() > 0 && b.len() > 0 && a[0] == b[0] {
        lemma_text_less_total(a.drop_first(), b.drop_first());
        if a != b {
            assert(a =~= seq![a[0]] + a.drop_first());
            assert(b =~= seq![b[0]] + b.drop_first());
        }
    } else if a.len() == 0 && b.len() == 0 {
        assert(a =~= b);
    }
}

/// The order is transitive.
pub proof fn lemma_text_less_transitive(a: Seq<char>, b: Seq<char>, c: Seq<char>)
    requires
        text_less(a, b),
        text_less(b, c),
    ensures
        text_less(a, c),
    decreases a.len(),
{
    if a.len() > 0 && b.len() > 0 && c.len() > 0 && a[0] == b[0] && b[0] == c[0] {
        lemma_text_less_transitive(a.drop_first(), b.drop_first(), c.drop_first());
    }
}

/// Copies the characters of a string into a vector.
pub(crate) fn chars_of(s: &str) -> (v: Vec<char>)
    ensures
        v@ == s@,
{
    let mut v: Vec<char> = Vec::new();
    for c in it: s.chars()
        invariant
            it.seq() == s@,
            v@ == s@.take(it.index() as int),
    {
        v.push(c);
        assert(v@ =~= s@.take(it.index() + 1));
    }
    assert(s@.take(s@.len() as int) =~= s@);
    v
}

/// Whether `a` comes strictly before `b`.
fn chars_less(a: &Vec<char>, b: &Vec<char>) -> (r: bool)
    ensures
        r == text_less(a@, b@),
{
    let mut i: usize = 0;
    assert(a@.skip(0) =~= a@);
    assert(b@.skip(0) =~= b@);
    while i < a.len() && i < b.len() && a[i] == b[i]
        invariant
            i <= a.len(),
            i <= b.len(),
            text_less(a@, b@) == text_less(a@.skip(i as int), b@.skip(i as int)),
        decreases a.len() - i,
    {
        assert(a@.skip(i as int).drop_first() =~= a@.skip(i + 1));
        assert(b@.skip(i as int).drop_first() =~= b@.skip(i + 1));
        i = i + 1;
    }
    let ghost sa = a@.skip(i as int);
    let ghost sb = b@.skip(i as int);
    if i == a.len() {
        assert(sa.len() == 0);
        i < b.len()
    } else if i == b.len() {
        assert(sb.len() == 0);
        false
    } else {
        assert(sa[0] == a@[i as int] && sb[0] == b@[i as int]);
        a[i] < b[i]
    }
}

/// Positions of `keys` in the order in which they are to be written:
/// sorted by key text, and, as a stable sort does, keeping keys with the
/// same text in the order they were given.
pub open spec fn is_sorted_order(keys: Seq<Seq<char>>, order: Seq<usize>) -> bool {
    &&& order.len() == keys.len()
    &&& forall|i: int| 0 <= i < order.len() ==> (#[trigger] order[i] as int) < keys.len()
    &&& forall|i: int, j: int| 0 <= i < j < order.len() ==> #[trigger] order[i] != #[trigger] order[j]
    &&& forall|k: usize| (k as int) < keys.len() ==> #[trigger] order.contains(k)
    &&& forall|i: int, j: int|
        0 <= i < j < order.len() ==> text_le(keys[#[trigger] order[i] as int], keys[#[trigger] order[j] as int])
    &&& forall|i: int, j: int|
        0 <= i < j < order.len() && keys[#[trigger] order[i] as int] == keys[#[trigger] order[j] as int]
            ==> order[i] < order[j]
}

/// The texts of a vector of strings.
pub open spec fn texts(keys: Seq<String>) -> Seq<Seq<char>> {
    keys.map_values(|k: String| k@)
}

/// The order in which to write entries with these keys: a stable sort of
/// their positions by key text.
pub fn sorted_order(keys: &Vec<String>) -> (order: Vec<usize>)
    ensures
        is_sorted_order(texts(keys@), order@),
{
    let ghost ks = texts(keys@);
    let n = keys.len();
    let mut chars: Vec<Vec<char>> = Vec::new();
    for k in 0..n
        invariant
            n == keys.len(),
            ks == texts(keys@),
            chars.len() == k,
            forall|j: int| 0 <= j < k ==> (#[trigger] chars@[j])@ == ks[j],
    {
        chars.push(chars_of(keys[k].as_str()));
    }
    let mut order: Vec<usize> = Vec::new();
    for i in 0..n
        invariant
            n == keys.len() == chars.len(),
            ks.len() == n,
            forall|j: int| 0 <= j < n ==> (#[trigger] chars@[j])@ == ks[j],
            order.len() == i,
            forall|a: int| 0 <= a < order.len() ==> (#[trigger] order@[a] as int) < i,
            forall|a: int, b: int| 0 <= a < b < order.len() ==> #[trigger] order@[a] != #[trigger] order@[b],
            forall|k: usize| k < i ==> #[trigger] order@.contains(k),
            forall|a: int, b: int|
                0 <= a < b < order.len() ==> text_le(ks[#[trigger] order@[a] as int], ks[#[trigger] order@[b] as int]),
            forall|a: int, b: int|
                0 <= a < b < order.len() && ks[#[trigger] order@[a] as int] == ks[#[trigger] order@[b] as int]
                    ==> order@[a] < order@[b],
    {
        let mut p: usize = 0;
        while p < order.len() && !chars_less(&chars[i], &chars[order[p]])
            invariant
                0 <= i < n,
                n == chars.len(),
                ks.len() == n,
                forall|j: int| 0 <= j < n ==> (#[trigger] chars@[j])@ == ks[j],
                forall|a: int| 0 <= a < order.len() ==> (#[trigger] order@[a] as int) < i,
                p <= order.len(),
                forall|a: int| 0 <= a < p ==> !text_less(ks[i as int], ks[#[trigger] order@[a] as int]),
            decreases order.len() - p,
        {
            p = p + 1;
        }
        let ghost old_order = order@;
        proof {
            assert forall|a: int| p <= a < old_order.len() implies text_less(ks[i as int], #[trigger] ks[old_order[a] as int]) by {
                if a > p {
                    if ks[old_order[p as int] as int] != ks[old_order[a] as int] {
                        lemma_text_less_transitive(ks[i as int], ks[old_order[p as int] as int], ks[old_order[a] as int]);
                    }
                }
            }
            assert forall|a: int| 0 <= a < p implies text_le(#[trigger] ks[old_order[a] as int], ks[i as int]) by {
                lemma_text_less_total(ks[old_order[a] as int], ks[i as int]);
            }
        }
        order.insert(p, i);
        proof {
            assert forall|k: usize| k < i + 1 implies #[trigger] order@.contains(k) by {
                if k == i {
                    assert(order@[p as int] == i);
                } else {
                    assert(old_order.contains(k));
                    let idx = choose|idx: int| 0 <= idx < old_order.len() && old_order[idx] == k;
                    if idx < p {
                        assert(order@[idx] == k);
                    } else {
                        assert(order@[idx + 1] == k);
                    }
                }
            }
            assert forall|a: int, b: int| 0 <= a < b < order.len() implies text_le(ks[#[trigger] order@[a] as int], ks[#[trigger] order@[b] as int]) by {
                if a < p && b > p {
                    let x = ks[old_order[a] as int];
                    let y = ks[old_order[b - 1] as int];
                    if x != ks[i as int] {
                        lemma_text_less_transitive(x, ks[i as int], y);
                    }
                }
            }
            assert forall|a: int, b: int|
                0 <= a < b < order.len() && ks[#[trigger] order@[a] as int] == ks[#[trigger] order@[b] as int]
                implies order@[a] < order@[b] by {
                if a == p {
                    lemma_text_less_irreflexive(ks[i as int]);
                }
            }
        }
    }
    order
}

} // verus!
