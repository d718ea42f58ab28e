//! The order of texts by code points, and lists of texts kept in that order.

use vstd::prelude::*;

use crate::chars::to_chars;

verus! {

/// Whether `a` comes before `b` in dictionary order by code point, which is also their order by
/// UTF-8 bytes.
pub open spec fn precedes(a: Seq<char>, b: Seq<char>) -> bool
    decreases a.len(),
{
    if b.len() == 0 {
        false
    } else if a.len() == 0 {
        true
    } else if a[0] == b[0] {
        precedes(a.drop_first(), b.drop_first())
    } else {
        a[0] < b[0]
    }
}

/// No text comes before itself, and of two different texts exactly one comes first.
pub proof fn lemma_precedes_total(a: Seq<char>, b: Seq<char>)
    ensures
        a == b ==> !precedes(a, b),
        a != b ==> precedes(a, b) != precedes(b, a),
    decreases a.len(),
{
    if a.len() > 0 && b.len() > 0 {
        lemma_precedes_total(a.drop_first(), b.drop_first());
        if a[0] == b[0] && a.drop_first() == b.drop_first() {
            assert(a == seq![a[0]] + a.drop_first());
            assert(b == seq![b[0]] + b.drop_first());
        }
    } else if a.len() == 0 && b.len() == 0 {
        assert(a == b);
    }
}

/// The order is transitive.
pub proof fn lemma_precedes_transitive(a: Seq<char>, b: Seq<char>, c: Seq<char>)
    requires
        precedes(a, b),
        precedes(b, c),
    ensures
        precedes(a, c),
    decreases a.len(),
{
    if a.len() > 0 && a[0] == b[0] && b[0] == c[0] {
        lemma_precedes_transitive(a.drop_first(), b.drop_first(), c.drop_first());
    }
}

/// Whether the first text comes before the second.
pub fn comes_before(a: &str, b: &str) -> (r: bool)
    ensures
        r == precedes(a@, b@),
{
    let x: Vec<char> = to_chars(a);
    let y: Vec<char> = to_chars(b);
    let mut i: usize = 0;
    assert(x@.skip(0) == x@);
    assert(y@.skip(0) == y@);
    while i < x.len() && i < y.len() && x[i] == y[i]
        invariant
            i <= x@.len(),
            i <= y@.len(),
            precedes(x@, y@) == precedes(x@.skip(i as int), y@.skip(i as int)),
        decreases x@.len() - i,
    {
        assert(x@.skip(i as int).drop_first() == x@.skip(i + 1));
        assert(y@.skip(i as int).drop_first() == y@.skip(i + 1));
        i = i + 1;
    }
    if i >= y.len() {
        false
    } else if i >= x.len() {
        true
    } else {
        x[i] < y[i]
    }
}

/// The texts that a list of strings holds.
pub open spec fn texts(list: Seq<String>) -> Seq<Seq<char>> {
    Seq::new(list.len(), |i: int| list[i]@)
}

/// Whether each text comes before every later one, so that none occurs twice.
pub open spec fn ascending(list: Seq<Seq<char>>) -> bool {
    forall|i: int, j: int| 0 <= i < j < list.len() ==> precedes(#[trigger] list[i], #[trigger] list[j])
}

/// Whether every element comes before the later ones in an order.
pub open spec fn ascends<T>(list: Seq<T>, before: spec_fn(T, T) -> bool) -> bool {
    forall|i: int, j: int| 0 <= i < j < list.len() ==> before(#[trigger] list[i], #[trigger] list[j])
}

/// Whether of two elements at most one comes before the other.
pub open spec fn asymmetric<T>(before: spec_fn(T, T) -> bool) -> bool {
    forall|x: T, y: T| #[trigger] before(x, y) ==> !before(y, x)
}

/// Two lists that ascend in an order and have the same elements are the same list.
pub proof fn lemma_ascending_unique<T>(a: Seq<T>, b: Seq<T>, before: spec_fn(T, T) -> bool)
    requires
        asymmetric(before),
        ascends(a, before),
        ascends(b, before),
        forall|x: T| #[trigger] a.contains(x) <==> b.contains(x),
    ensures
        a == b,
    decreases a.len(),
{
    if a.len() == 0 {
        if b.len() > 0 {
            assert(b.contains(b[0]));
            assert(a.contains(b[0]));
        }
        assert(a == b);
    } else {
        assert(a.contains(a.last()));
        assert(b.contains(a.last()));
        assert(a.contains(b[b.len() - 1])) by {
            assert(b.contains(b[b.len() - 1]));
        }
        let i = choose|i: int| 0 <= i < b.len() && b[i] == a.last();
        let j = choose|j: int| 0 <= j < a.len() && a[j] == b.last();
        assert(a.last() == b.last()) by {
            if i < b.len() - 1 && j < a.len() - 1 {
                assert(before(b[i], b[b.len() - 1]));
                assert(before(a[j], a[a.len() - 1]));
            }
        }
        let a1 = a.drop_last();
        let b1 = b.drop_last();
        assert forall|t: T| #[trigger] a1.contains(t) <==> b1.contains(t) by {
            if a1.contains(t) {
                let k = choose|k: int| 0 <= k < a1.len() && a1[k] == t;
                assert(before(a[k], a[a.len() - 1]));
                assert(a.contains(a[k]));
                let m = choose|m: int| 0 <= m < b.len() && b[m] == t;
                assert(b1[m] == t);
            }
            if b1.contains(t) {
                let k = choose|k: int| 0 <= k < b1.len() && b1[k] == t;
                assert(before(b[k], b[b.len() - 1]));
                assert(b.contains(b[k]));
                assert(a.contains(t));
                let m = choose|m: int| 0 <= m < a.len() && a[m] == t;
                assert(a1[m] == t);
            }
        }
        lemma_ascending_unique(a1, b1, before);
        assert(a == a1.push(a.last()));
        assert(b == b1.push(b.last()));
    }
}

/// Two ascending lists with the same texts are the same list.
pub proof fn lemma_texts_unique(a: Seq<Seq<char>>, b: Seq<Seq<char>>)
    requires
        ascending(a),
        ascending(b),
        a.to_set() == b.to_set(),
    ensures
        a == b,
{
    let before = |x: Seq<char>, y: Seq<char>| precedes(x, y);
    assert forall|x: Seq<char>, y: Seq<char>| #[trigger] before(x, y) implies !before(y, x) by {
        lemma_precedes_total(x, y);
    }
    assert forall|x: Seq<char>| #[trigger] a.contains(x) <==> b.contains(x) by {
        if a.contains(x) {
            assert(a.to_set().contains(x));
            assert(b.to_set().contains(x));
        }
        if b.contains(x) {
            assert(b.to_set().contains(x));
            assert(a.to_set().contains(x));
        }
    }
    lemma_ascending_unique(a, b, before);
}

/// Whether `text` is one of `list`.
pub fn contains_text(list: &[String], text: &str) -> (r: bool)
    ensures
        r == texts(list@).contains(text@),
{
    let mut i: usize = 0;
    while i < list.len()
        invariant
            i <= list@.len(),
            forall|k: int| 0 <= k < i ==> list@[k]@ != text@,
        decreases list@.len() - i,
    {
        if crate::chars::same(list[i].as_str(), text) {
            assert(texts(list@)[i as int] == text@);
            return true;
        }
        i = i + 1;
    }
    assert forall|k: int| 0 <= k < texts(list@).len() implies texts(list@)[k] != text@ by {}
    false
}

/// Puts `text` into an ascending list, unless it is there.
pub fn insert_text(list: &mut Vec<String>, text: String)
    requires
        ascending(texts(old(list)@)),
    ensures
        ascending(texts(final(list)@)),
        texts(final(list)@).to_set() == texts(old(list)@).to_set().insert(text@),
{
    let ghost before = texts(list@);
    let mut i: usize = 0;
    while i < list.len() && comes_before(list[i].as_str(), text.as_str())
        invariant
            i <= list@.len(),
            texts(list@) == before,
            forall|k: int| 0 <= k < i ==> precedes(#[trigger] before[k], text@),
        decreases list@.len() - i,
    {
        assert(before[i as int] == list@[i as int]@);
        i = i + 1;
    }
    if i < list.len() && crate::chars::same(list[i].as_str(), text.as_str()) {
        assert(before[i as int] == text@);
        assert(before.to_set().contains(text@));
        assert(before.to_set().insert(text@) =~= before.to_set());
        return ;
    }
    let ghost t = text@;
    list.insert(i, text);
    proof {
        let after = texts(list@);
        assert(after =~= before.insert(i as int, t));
        assert forall|x: int, y: int| 0 <= x < y < after.len() implies precedes(
            #[trigger] after[x],
            #[trigger] after[y],
        ) by {
            if x < i {
                if y > i {
                    assert(precedes(before[x], before[y - 1]));
                } else if y < i {
                    assert(precedes(before[x], before[y]));
                }
            } else if x > i {
                assert(precedes(before[x - 1], before[y - 1]));
            } else {
                lemma_precedes_total(before[i as int], t);
                if y - 1 > i {
                    assert(precedes(before[i as int], before[y - 1]));
                    lemma_precedes_transitive(t, before[i as int], before[y - 1]);
                }
            }
        }
        assert forall|s: Seq<char>| after.to_set().contains(s) == before.to_set().insert(t).contains(s) by {
            if after.contains(s) {
                let k = choose|k: int| 0 <= k < after.len() && after[k] == s;
                if k < i {
                    assert(before[k] == s);
                } else if k > i {
                    assert(before[k - 1] == s);
                }
            }
            if s == t {
                assert(after[i as int] == s);
            } else if before.contains(s) {
                let k = choose|k: int| 0 <= k < before.len() && before[k] == s;
                if k < i {
                    assert(after[k] == s);
                } else {
                    assert(after[k + 1] == s);
                }
            }
        }
        assert(after.to_set() =~= before.to_set().insert(t));
    }
}

/// The order is that of a dictionary: a text comes before what it is the beginning of, and where two
/// texts part the lesser character decides.
pub proof fn law_order_is_that_of_a_dictionary(
    common: Seq<char>,
    a: Seq<char>,
    b: Seq<char>,
    less: char,
    greater: char,
)
    ensures
        b.len() > 0 ==> precedes(common, common + b),
        less < greater ==> precedes(common.push(less) + a, common.push(greater) + b),
        less < greater ==> !precedes(common.push(greater) + b, common.push(less) + a),
    decreases common.len(),
{
    let left = common.push(less) + a;
    let right = common.push(greater) + b;
    let longer = common + b;
    if common.len() > 0 {
        let rest = common.drop_first();
        law_order_is_that_of_a_dictionary(rest, a, b, less, greater);
        assert(left.drop_first() =~= rest.push(less) + a);
        assert(right.drop_first() =~= rest.push(greater) + b);
        assert(longer.drop_first() =~= rest + b);
        assert(left[0] == common[0] && right[0] == common[0] && longer[0] == common[0]);
    } else {
        assert(left[0] == less && right[0] == greater);
        assert(longer =~= b);
    }
}

} // verus!
