//! The order of texts, and lists sorted by it.

use vstd::prelude::*;

use crate::text;

verus! {

/// `a` stands before `b` in the dictionary, or is the same: at the first place
/// where they differ, `a` has the character with the smaller code point or is
/// at its end. The bytes of texts in UTF-8 are ordered likewise.
pub open spec fn le(a: Seq<char>, b: Seq<char>) -> bool
    decreases a.len(),
{
    if a.len() == 0 {
        true
    } else if b.len() == 0 {
        false
    } else if a[0] == b[0] {
        le(a.drop_first(), b.drop_first())
    } else {
        a[0] < b[0]
    }
}

/// Every text stands before those behind it, or is the same.
pub open spec fn sorted(v: Seq<Seq<char>>) -> bool {
    vstd::relations::sorted_by(v, |a: Seq<char>, b: Seq<char>| le(a, b))
}

proof fn lemma_reflexive(a: Seq<char>)
    ensures
        le(a, a),
    decreases a.len(),
{
    if a.len() > 0 {
        lemma_reflexive(a.drop_first());
    }
}

/// Two texts each of which stands before the other are the same.
pub proof fn lemma_antisymmetric(a: Seq<char>, b: Seq<char>)
    requires
        le(a, b),
        le(b, a),
    ensures
        a == b,
    decreases a.len(),
{
    if a.len() == 0 || b.len() == 0 {
        assert(a.len() == b.len());
        assert(a =~= b);
    } else {
        assert(a[0] == b[0]);
        let x = a.drop_first();
        let y = b.drop_first();
        lemma_antisymmetric(x, y);
        assert(a.len() == b.len());
        assert forall|i: int| 0 <= i < a.len() implies a[i] == b[i] by {
            if i > 0 {
                assert(a[i] == x[i - 1] && b[i] == y[i - 1]);
            }
        }
        assert(a =~= b);
    }
}

/// What stands before a text stands before all that stands behind it.
pub proof fn lemma_transitive(a: Seq<char>, b: Seq<char>, c: Seq<char>)
    requires
        le(a, b),
        le(b, c),
    ensures
        le(a, c),
    decreases a.len(),
{
    if a.len() > 0 && a[0] == b[0] && b[0] == c[0] {
        lemma_transitive(a.drop_first(), b.drop_first(), c.drop_first());
    }
}

proof fn lemma_connected(a: Seq<char>, b: Seq<char>)
    ensures
        le(a, b) || le(b, a),
    decreases a.len(),
{
    if a.len() > 0 && b.len() > 0 && a[0] == b[0] {
        lemma_connected(a.drop_first(), b.drop_first());
    }
}

/// The order of texts is total.
pub proof fn law_order_is_total()
    ensures
        vstd::relations::total_ordering(|a: Seq<char>, b: Seq<char>| le(a, b)),
{
    let r = |a: Seq<char>, b: Seq<char>| le(a, b);
    assert forall|a: Seq<char>| #[trigger] r(a, a) by {
        lemma_reflexive(a);
    }
    assert forall|a: Seq<char>, b: Seq<char>| #[trigger] r(a, b) && #[trigger] r(b, a) implies a
        == b by {
        lemma_antisymmetric(a, b);
    }
    assert forall|a: Seq<char>, b: Seq<char>, c: Seq<char>| #[trigger] r(a, b) && #[trigger] r(
        b,
        c,
    ) implies r(a, c) by {
        lemma_transitive(a, b, c);
    }
    assert forall|a: Seq<char>, b: Seq<char>| #[trigger] r(a, b) || #[trigger] r(b, a) by {
        lemma_connected(a, b);
    }
}

/// Sorted lists of the same texts are the same list.
pub proof fn law_sorted_list_is_unique(a: Seq<Seq<char>>, b: Seq<Seq<char>>)
    requires
        sorted(a),
        sorted(b),
        a.to_multiset() == b.to_multiset(),
    ensures
        a == b,
{
    law_order_is_total();
    vstd::seq_lib::lemma_sorted_unique(a, b, |x: Seq<char>, y: Seq<char>| le(x, y));
}

/// Whether `a` stands before `b`, or is the same.
pub fn in_order(a: &str, b: &str) -> (res: bool)
    ensures
        res == le(a@, b@),
{
    let x = text::to_chars(a);
    let y = text::to_chars(b);
    let mut i: usize = 0;
    assert(x@.skip(0) =~= x@);
    assert(y@.skip(0) =~= y@);
    while i < x.len()
        invariant
            i <= x@.len(),
            i <= y@.len(),
            le(x@, y@) == le(x@.skip(i as int), y@.skip(i as int)),
            x@ == a@,
            y@ == b@,
        decreases x@.len() - i,
    {
        if i >= y.len() {
            return false;
        }
        if x[i] != y[i] {
            return x[i] < y[i];
        }
        assert(x@.skip(i as int).drop_first() =~= x@.skip(i as int + 1));
        assert(y@.skip(i as int).drop_first() =~= y@.skip(i as int + 1));
        i += 1;
    }
    true
}

/// Puts a string into a sorted list.
pub fn insert_sorted(v: &mut Vec<String>, s: String)
    requires
        sorted(text::texts(old(v)@)),
    ensures
        sorted(text::texts(final(v)@)),
        text::texts(final(v)@).to_multiset() == text::texts(old(v)@).to_multiset().insert(s@),
{
    let ghost before = text::texts(v@);
    let ghost r = |a: Seq<char>, b: Seq<char>| le(a, b);
    let mut i: usize = 0;
    while i < v.len() && in_order(v[i].as_str(), s.as_str())
        invariant
            i <= v@.len(),
            before == text::texts(v@),
            forall|j: int| 0 <= j < i ==> le(#[trigger] before[j], s@),
        decreases v@.len() - i,
    {
        i += 1;
    }
    let ghost inserted = s@;
    v.insert(i, s);
    proof {
        let after = text::texts(v@);
        assert(after =~= before.insert(i as int, inserted));
        before.to_multiset_ensures();
        vstd::seq_lib::to_multiset_insert(before, i as int, inserted);
        assert forall|j: int, k: int| 0 <= j < k < after.len() implies #[trigger] r(
            after[j],
            after[k],
        ) by {
            law_order_is_total();
            if i < before.len() {
                lemma_connected(inserted, before[i as int]);
            }
            if j < i && k < i {
                assert(r(before[j], before[k]));
            } else if j < i && k > i {
                assert(r(before[j], before[k - 1]));
            } else if j > i {
                assert(r(before[j - 1], before[k - 1]));
            } else if j == i {
                if k - 1 > i {
                    assert(r(before[i as int], before[k - 1]));
                    lemma_transitive(inserted, before[i as int], before[k - 1]);
                }
            }
        }
    }
}

/// The first place where two texts differ decides which of them stands first: the
/// text that ends there, or the one with the smaller character.
pub proof fn law_first_difference_decides(a: Seq<char>, b: Seq<char>, k: int)
    requires
        0 <= k <= a.len(),
        k <= b.len(),
        forall|i: int| 0 <= i < k ==> #[trigger] a[i] == b[i],
    ensures
        k == a.len() ==> le(a, b),
        k < a.len() && k == b.len() ==> !le(a, b),
        k < a.len() && k < b.len() && a[k] != b[k] ==> le(a, b) == (a[k] < b[k]),
    decreases k,
{
    if k > 0 {
        let (x, y) = (a.drop_first(), b.drop_first());
        assert(a[0] == b[0]);
        assert forall|i: int| 0 <= i < k - 1 implies #[trigger] x[i] == y[i] by {
            assert(a[i + 1] == b[i + 1]);
        }
        law_first_difference_decides(x, y, k - 1);
    }
}

/// A list is sorted exactly if none of its texts stands behind a later one.
pub proof fn law_sorted_is_in_order(v: Seq<Seq<char>>)
    ensures
        sorted(v) == forall|i: int, j: int|
            0 <= i < j < v.len() ==> le(#[trigger] v[i], #[trigger] v[j]),
{
    let r = |a: Seq<char>, b: Seq<char>| le(a, b);
    if sorted(v) {
        assert forall|i: int, j: int| 0 <= i < j < v.len() implies le(
            #[trigger] v[i],
            #[trigger] v[j],
        ) by {
            assert(r(v[i], v[j]));
        }
    }
    if forall|i: int, j: int| 0 <= i < j < v.len() ==> le(#[trigger] v[i], #[trigger] v[j]) {
        assert forall|i: int, j: int| 0 <= i < j < v.len() implies #[trigger] r(v[i], v[j]) by {
            assert(le(v[i], v[j]));
        }
    }
}

} // verus!
