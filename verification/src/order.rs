//! The order of texts by their characters' code points, which is the order of Rust
//! strings, and sorting by it.
use vstd::prelude::*;
use vstd::relations::{sorted_by, total_ordering};

verus! {

/// Whether `a` comes before `b` or equals it: compared character by character by
/// code point, a proper prefix first.
pub open spec fn text_le(a: Seq<char>, b: Seq<char>) -> bool
    decreases a.len(),
{
    if a.len() == 0 {
        true
    } else if b.len() == 0 {
        false
    } else if a[0] != b[0] {
        (a[0] as u32) < (b[0] as u32)
    } else {
        text_le(a.drop_first(), b.drop_first())
    }
}

/// `text_le` as a relation.
pub open spec fn text_order() -> spec_fn(Seq<char>, Seq<char>) -> bool {
    |a: Seq<char>, b: Seq<char>| text_le(a, b)
}

proof fn lemma_text_le_reflexive(a: Seq<char>)
    ensures
        text_le(a, a),
    decreases a.len(),
{
    if a.len() > 0 {
        lemma_text_le_reflexive(a.drop_first());
    }
}

proof fn lemma_text_le_antisymmetric(a: Seq<char>, b: Seq<char>)
    requires
        text_le(a, b),
        text_le(b, a),
    ensures
        a == b,
    decreases a.len(),
{
    if a.len() > 0 && b.len() > 0 {
        lemma_text_le_antisymmetric(a.drop_first(), b.drop_first());
        assert(a =~= seq![a[0]] + a.drop_first());
        assert(b =~= seq![b[0]] + b.drop_first());
    } else {
        assert(a =~= b);
    }
}

proof fn lemma_text_le_transitive(a: Seq<char>, b: Seq<char>, c: Seq<char>)
    requires
        text_le(a, b),
        text_le(b, c),
    ensures
        text_le(a, c),
    decreases a.len(),
{
    if a.len() > 0 && b.len() > 0 && c.len() > 0 {
        if a[0] == b[0] && b[0] == c[0] {
            lemma_text_le_transitive(a.drop_first(), b.drop_first(), c.drop_first());
        }
    }
}

proof fn lemma_text_le_total(a: Seq<char>, b: Seq<char>)
    ensures
        text_le(a, b) || text_le(b, a),
    decreases a.len(),
{
    if a.len() > 0 && b.len() > 0 {
        if a[0] == b[0] {
            lemma_text_le_total(a.drop_first(), b.drop_first());
        } else {
            vstd::utf8::char_u32_cast(a[0], a[0] as u32);
            vstd::utf8::char_u32_cast(b[0], b[0] as u32);
            assert((a[0] as u32) != (b[0] as u32));
        }
    }
}

/// The order of texts is a total order.
pub proof fn lemma_text_order_total()
    ensures
        total_ordering(text_order()),
{
    assert forall|x: Seq<char>| #[trigger] text_order()(x, x) by {
        lemma_text_le_reflexive(x);
    }
    assert forall|x: Seq<char>, y: Seq<char>| #[trigger] text_order()(x, y) && #[trigger] text_order()(
        y,
        x,
    ) implies x == y by {
        lemma_text_le_antisymmetric(x, y);
    }
    assert forall|x: Seq<char>, y: Seq<char>, z: Seq<char>| #[trigger] text_order()(x, y)
        && #[trigger] text_order()(y, z) implies text_order()(x, z) by {
        lemma_text_le_transitive(x, y, z);
    }
    assert forall|x: Seq<char>, y: Seq<char>| #[trigger] text_order()(x, y) || #[trigger] text_order()(
        y,
        x,
    ) by {
        lemma_text_le_total(x, y);
    }
}

proof fn lemma_text_le_skip(a: Seq<char>, b: Seq<char>, i: int)
    requires
        0 <= i < a.len(),
        i < b.len(),
        a[i] == b[i],
    ensures
        text_le(a.skip(i), b.skip(i)) == text_le(a.skip(i + 1), b.skip(i + 1)),
{
    assert(a.skip(i).drop_first() =~= a.skip(i + 1));
    assert(b.skip(i).drop_first() =~= b.skip(i + 1));
}

/// Whether `a` comes before `b` or equals it.
pub fn text_le_exec(a: &[char], b: &[char]) -> (r: bool)
    ensures
        r == text_le(a@, b@),
{
    let mut i: usize = 0;
    assert(a@.skip(0) =~= a@);
    assert(b@.skip(0) =~= b@);
    while i < a.len() && i < b.len() && a[i] == b[i]
        invariant
            i <= a@.len(),
            i <= b@.len(),
            text_le(a@, b@) == text_le(a@.skip(i as int), b@.skip(i as int)),
        decreases a@.len() - i,
    {
        proof {
            lemma_text_le_skip(a@, b@, i as int);
        }
        i += 1;
    }
    if i == a.len() {
        true
    } else if i == b.len() {
        false
    } else {
        (a[i] as u32) < (b[i] as u32)
    }
}

/// The texts of a list of character vectors.
pub open spec fn char_texts(v: Seq<Vec<char>>) -> Seq<Seq<char>> {
    v.map_values(|c: Vec<char>| c@)
}

/// The texts sorted, by insertion.
pub fn sort_texts(items: Vec<Vec<char>>) -> (out: Vec<Vec<char>>)
    ensures
        sorted_by(char_texts(out@), text_order()),
        char_texts(out@).to_multiset() == char_texts(items@).to_multiset(),
{
    broadcast use vstd::seq_lib::group_to_multiset_ensures;

    proof {
        lemma_text_order_total();
    }
    let mut out: Vec<Vec<char>> = Vec::new();
    let mut rest = items;
    let ghost all = char_texts(rest@);
    assert(char_texts(out@) =~= Seq::<Seq<char>>::empty());
    while rest.len() > 0
        invariant
            total_ordering(text_order()),
            sorted_by(char_texts(out@), text_order()),
            char_texts(out@).to_multiset().add(char_texts(rest@).to_multiset()) == all.to_multiset(),
        decreases rest@.len(),
    {
        let ghost rest_before = char_texts(rest@);
        let item = rest.pop().unwrap();
        assert(rest_before =~= char_texts(rest@).push(item@));
        let mut p: usize = 0;
        while p < out.len() && text_le_exec(out[p].as_slice(), item.as_slice())
            invariant
                p <= out@.len(),
                forall|k: int| 0 <= k < p ==> text_le(#[trigger] char_texts(out@)[k], item@),
            decreases out@.len() - p,
        {
            p += 1;
        }
        let ghost before = char_texts(out@);
        let ghost x = item@;
        out.insert(p, item);
        assert(char_texts(out@) =~= before.insert(p as int, x));
        proof {
            let after = char_texts(out@);
            assert forall|i: int, j: int| 0 <= i < j < after.len() implies #[trigger] text_order()(
                after[i],
                after[j],
            ) by {
                if j < p {
                    assert(after[i] == before[i] && after[j] == before[j]);
                    assert(text_order()(before[i], before[j]));
                } else if j == p {
                    assert(after[i] == before[i]);
                    assert(text_le(before[i], x));
                } else if i == p {
                    assert(after[j] == before[j - 1]);
                    if j - 1 == p {
                        assert(!text_le(before[p as int], x));
                        lemma_text_le_total(before[p as int], x);
                    } else {
                        assert(!text_le(before[p as int], x));
                        lemma_text_le_total(before[p as int], x);
                        assert(text_order()(before[p as int], before[j - 1]));
                        lemma_text_le_transitive(x, before[p as int], before[j - 1]);
                    }
                } else if i < p {
                    assert(after[i] == before[i] && after[j] == before[j - 1]);
                    assert(text_order()(before[i], before[j - 1]));
                } else {
                    assert(after[i] == before[i - 1] && after[j] == before[j - 1]);
                    assert(text_order()(before[i - 1], before[j - 1]));
                }
            }
            vstd::seq_lib::to_multiset_insert(before, p as int, x);
            vstd::seq_lib::to_multiset_build(char_texts(rest@), x);
            assert(rest_before.to_multiset() =~= char_texts(rest@).to_multiset().insert(x));
            assert(after.to_multiset().add(char_texts(rest@).to_multiset()) =~= before.to_multiset().add(
                rest_before.to_multiset(),
            ));
        }
    }
    assert(char_texts(rest@) =~= Seq::<Seq<char>>::empty());
    assert(char_texts(out@).to_multiset() =~= all.to_multiset());
    out
}

/// Two lists of texts with the same texts, each sorted, are the same list.
pub proof fn lemma_sorted_texts_unique(x: Seq<Seq<char>>, y: Seq<Seq<char>>)
    requires
        sorted_by(x, text_order()),
        sorted_by(y, text_order()),
        x.to_multiset() == y.to_multiset(),
    ensures
        x == y,
{
    lemma_text_order_total();
    vstd::seq_lib::lemma_sorted_unique(x, y, text_order());
}

} // verus!
