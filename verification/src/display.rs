//! The order in which the entries of a target list are shown.

use crate::targets::TargetList;
use crate::text::lowered;
use crate::text::lowered_chars_of;
use crate::text::texts;
use vstd::prelude::*;

verus! {

/// `a` stands before `b` in the order of texts, or is `b`: where they first
/// differ `a` has the character of the smaller code point, or `a` ends
/// there.
pub open spec fn text_le(a: Seq<char>, b: Seq<char>) -> bool
    decreases a.len(),
{
    if a.len() == 0 {
        true
    } else if b.len() == 0 {
        false
    } else if a[0] != b[0] {
        a[0] < b[0]
    } else {
        text_le(a.drop_first(), b.drop_first())
    }
}

/// The entry at place `i` of `list` is shown before the one at place `j`:
/// its lower-case form stands before the other's in the order of texts, and
/// of two entries with the same lower-case form the one that stands first in
/// the list is shown first.
pub open spec fn shown_before(list: Seq<Seq<char>>, i: int, j: int) -> bool {
    if lowered(list[i]) == lowered(list[j]) {
        i < j
    } else {
        text_le(lowered(list[i]), lowered(list[j]))
    }
}

/// `order` holds each of the first `count` places of `list` once, in the
/// order in which their entries are shown.
pub open spec fn arranges(list: Seq<Seq<char>>, order: Seq<int>, count: int) -> bool {
    &&& order.len() == count
    &&& forall|k: int| 0 <= k < order.len() ==> 0 <= #[trigger] order[k] < count
    &&& forall|i: int| 0 <= i < count ==> order.contains(i)
    &&& forall|k: int, l: int|
        0 <= k < l < order.len() ==> shown_before(list, #[trigger] order[k], #[trigger] order[l])
}

/// `order` holds each place of `list` once, in the order in which the
/// entries are shown.
pub open spec fn is_display_order(list: Seq<Seq<char>>, order: Seq<int>) -> bool {
    arranges(list, order, list.len() as int)
}

/// The entries of `list`, taken in `order`.
pub open spec fn arranged(list: Seq<Seq<char>>, order: Seq<int>) -> Seq<Seq<char>> {
    Seq::new(order.len(), |k: int| list[order[k]])
}

/// The places that `order` holds, as numbers.
pub open spec fn places(order: Seq<usize>) -> Seq<int> {
    Seq::new(order.len(), |k: int| order[k] as int)
}

/// Of two texts one stands before the other or is the other.
pub proof fn lemma_text_le_total(a: Seq<char>, b: Seq<char>)
    ensures
        text_le(a, b) || text_le(b, a),
    decreases a.len(),
{
    if a.len() > 0 && b.len() > 0 && a[0] == b[0] {
        lemma_text_le_total(a.drop_first(), b.drop_first());
    }
}

/// Two texts of which each stands before the other or is it are one text.
pub proof fn lemma_text_le_antisymmetric(a: Seq<char>, b: Seq<char>)
    requires
        text_le(a, b),
        text_le(b, a),
    ensures
        a == b,
    decreases a.len(),
{
    if a.len() > 0 && b.len() > 0 {
        lemma_text_le_antisymmetric(a.drop_first(), b.drop_first());
        assert(a =~= seq![a[0]] + a.drop_first());
        assert(b =~= seq![b[0]] + b.drop_first());
    } else {
        assert(a =~= b);
    }
}

/// The order of texts is transitive.
pub proof fn lemma_text_le_transitive(a: Seq<char>, b: Seq<char>, c: Seq<char>)
    requires
        text_le(a, b),
        text_le(b, c),
    ensures
        text_le(a, c),
    decreases a.len(),
{
    if a.len() > 0 && b.len() > 0 && c.len() > 0 && a[0] == b[0] && b[0] == c[0] {
        lemma_text_le_transitive(a.drop_first(), b.drop_first(), c.drop_first());
    }
}

/// Every text stands where it stands.
pub proof fn lemma_text_le_reflexive(a: Seq<char>)
    ensures
        text_le(a, a),
    decreases a.len(),
{
    if a.len() > 0 {
        lemma_text_le_reflexive(a.drop_first());
    }
}

/// What is shown before something that is shown before a third is shown
/// before the third.
pub proof fn lemma_shown_before_transitive(list: Seq<Seq<char>>, i: int, j: int, k: int)
    requires
        shown_before(list, i, j),
        shown_before(list, j, k),
    ensures
        shown_before(list, i, k),
{
    let a = lowered(list[i]);
    let b = lowered(list[j]);
    let c = lowered(list[k]);
    if a != b && b != c {
        lemma_text_le_transitive(a, b, c);
        if a == c {
            lemma_text_le_antisymmetric(a, b);
        }
    }
}

/// Of two entries at different places one is shown before the other, and
/// never each before the other.
pub proof fn lemma_shown_before_total(list: Seq<Seq<char>>, i: int, j: int)
    ensures
        i != j ==> shown_before(list, i, j) || shown_before(list, j, i),
        !(shown_before(list, i, j) && shown_before(list, j, i)),
{
    let a = lowered(list[i]);
    let b = lowered(list[j]);
    lemma_text_le_total(a, b);
    if a != b && text_le(a, b) && text_le(b, a) {
        lemma_text_le_antisymmetric(a, b);
    }
}

/// There is one order in which a list is shown, and no other.
pub proof fn lemma_display_order_is_unique(list: Seq<Seq<char>>, a: Seq<int>, b: Seq<int>)
    requires
        is_display_order(list, a),
        is_display_order(list, b),
    ensures
        a == b,
{
    lemma_same_up_to(list, a, b, list.len() as int);
    assert(a =~= b);
}

proof fn lemma_same_up_to(list: Seq<Seq<char>>, a: Seq<int>, b: Seq<int>, n: int)
    requires
        is_display_order(list, a),
        is_display_order(list, b),
        0 <= n <= list.len(),
    ensures
        forall|k: int| 0 <= k < n ==> a[k] == b[k],
    decreases n,
{
    if n > 0 {
        lemma_same_up_to(list, a, b, n - 1);
        let k: int = n - 1;
        let x: int = a[k];
        let y: int = b[k];
        if x != y {
            assert(b.contains(x));
            let m: int = choose|m: int| 0 <= m < b.len() && b[m] == x;
            assert(a.contains(y));
            let p: int = choose|p: int| 0 <= p < a.len() && a[p] == y;
            lemma_shown_before_total(list, x, y);
            if m < k {
                assert(shown_before(list, a[m], a[k]));
            }
            if p < k {
                assert(shown_before(list, b[p], b[k]));
            }
            assert(shown_before(list, b[k], b[m]));
            assert(shown_before(list, a[k], a[p]));
        }
    }
}

/// Whether `a` stands before `b` in the order of texts, or is `b`.
pub fn precedes(a: &Vec<char>, b: &Vec<char>) -> (r: bool)
    ensures
        r == text_le(a@, b@),
{
    let n: usize = a.len();
    let m: usize = b.len();
    let mut i: usize = 0;
    assert(a@.skip(0) =~= a@ && b@.skip(0) =~= b@);
    while i < n
        invariant
            n == a@.len(),
            m == b@.len(),
            i <= n,
            i <= m,
            text_le(a@, b@) == text_le(a@.skip(i as int), b@.skip(i as int)),
        decreases n - i,
    {
        if i >= m {
            return false;
        }
        if a[i] != b[i] {
            return a[i] < b[i];
        }
        assert(a@.skip(i as int).drop_first() =~= a@.skip(i + 1));
        assert(b@.skip(i as int).drop_first() =~= b@.skip(i + 1));
        i += 1;
    }
    true
}

/// The place at which the entry at place `i` goes into `order`, which
/// arranges the places before `i`: behind every entry that is shown before
/// it.
fn place_for(keys: &Vec<Vec<char>>, order: &Vec<usize>, i: usize, Ghost(list): Ghost<
    Seq<Seq<char>>,
>) -> (p: usize)
    requires
        keys@.len() == list.len(),
        forall|k: int| 0 <= k < keys@.len() ==> (#[trigger] keys@[k])@ == lowered(list[k]),
        i < list.len(),
        arranges(list, places(order@), i as int),
    ensures
        p <= order@.len(),
        forall|k: int| 0 <= k < p ==> shown_before(list, #[trigger] places(order@)[k], i as int),
        forall|k: int|
            p <= k < order@.len() ==> shown_before(list, i as int, #[trigger] places(order@)[k]),
{
    let mut p: usize = order.len();
    assert forall|k: int| 0 <= k < order@.len() implies #[trigger] order@[k] < i by {
        assert(places(order@)[k] == order@[k]);
    }
    while p > 0 && !precedes(&keys[order[p - 1]], &keys[i])
        invariant
            forall|k: int| 0 <= k < order@.len() ==> #[trigger] order@[k] < i,
            keys@.len() == list.len(),
            forall|k: int| 0 <= k < keys@.len() ==> (#[trigger] keys@[k])@ == lowered(list[k]),
            i < list.len(),
            arranges(list, places(order@), i as int),
            p <= order@.len(),
            forall|k: int|
                p <= k < order@.len() ==> shown_before(
                    list,
                    i as int,
                    #[trigger] places(order@)[k],
                ),
        decreases p,
    {
        proof {
            let j: int = places(order@)[p - 1];
            lemma_text_le_total(lowered(list[j]), lowered(list[i as int]));
            lemma_text_le_reflexive(lowered(list[j]));
        }
        p -= 1;
    }
    proof {
        if p > 0 {
            let last: int = places(order@)[p - 1];
            assert(shown_before(list, last, i as int));
            assert forall|k: int| 0 <= k < p implies shown_before(
                list,
                #[trigger] places(order@)[k],
                i as int,
            ) by {
                if k < p - 1 {
                    lemma_shown_before_transitive(list, places(order@)[k], last, i as int);
                }
            }
        }
    }
    p
}

/// The entries of `list` in the order in which they are shown: by their
/// lower-case forms, entries of one lower-case form in the order of the
/// list.
pub fn display_order(list: &TargetList) -> (shown: Vec<String>)
    ensures
        exists|order: Seq<int>|
            is_display_order(list@, order) && texts(shown@) == arranged(list@, order),
{
    let entries = list.as_slice();
    let n: usize = entries.len();
    let mut keys: Vec<Vec<char>> = Vec::new();
    let mut i: usize = 0;
    while i < n
        invariant
            n == entries@.len(),
            texts(entries@) == list@,
            i <= n,
            keys@.len() == i,
            forall|k: int| 0 <= k < i ==> (#[trigger] keys@[k])@ == lowered(list@[k]),
        decreases n - i,
    {
        assert(texts(entries@)[i as int] == entries@[i as int]@);
        keys.push(lowered_chars_of(entries[i].as_str()));
        i += 1;
    }
    let mut order: Vec<usize> = Vec::new();
    let mut i: usize = 0;
    while i < n
        invariant
            n == list@.len(),
            i <= n,
            keys@.len() == n,
            forall|k: int| 0 <= k < n ==> (#[trigger] keys@[k])@ == lowered(list@[k]),
            arranges(list@, places(order@), i as int),
        decreases n - i,
    {
        let p: usize = place_for(&keys, &order, i, Ghost(list@));
        let ghost before = places(order@);
        order.insert(p, i);
        proof {
            let after = places(order@);
            assert(after =~= before.insert(p as int, i as int));
            assert forall|k: int| 0 <= k < after.len() implies 0 <= #[trigger] after[k] < i
                + 1 by {
                if k < p {
                    assert(after[k] == before[k]);
                } else if k > p {
                    assert(after[k] == before[k - 1]);
                }
            }
            assert forall|j: int| 0 <= j < i + 1 implies after.contains(j) by {
                if j < i {
                    assert(before.contains(j));
                    let k: int = choose|k: int| 0 <= k < before.len() && before[k] == j;
                    if k < p {
                        assert(after[k] == j);
                    } else {
                        assert(after[k + 1] == j);
                    }
                } else {
                    assert(after[p as int] == j);
                }
            }
            assert forall|k: int, l: int| 0 <= k < l < after.len() implies shown_before(
                list@,
                #[trigger] after[k],
                #[trigger] after[l],
            ) by {
                if l < p {
                    assert(after[k] == before[k] && after[l] == before[l]);
                } else if l == p {
                    assert(after[k] == before[k]);
                } else if k < p {
                    assert(after[k] == before[k] && after[l] == before[l - 1]);
                } else if k == p {
                    assert(after[l] == before[l - 1]);
                } else {
                    assert(after[k] == before[k - 1] && after[l] == before[l - 1]);
                }
            }
        }
        i += 1;
    }
    let mut shown: Vec<String> = Vec::new();
    let mut k: usize = 0;
    while k < n
        invariant
            n == entries@.len(),
            texts(entries@) == list@,
            arranges(list@, places(order@), n as int),
            k <= n,
            shown@.len() == k,
            forall|j: int| 0 <= j < k ==> (#[trigger] shown@[j])@ == list@[places(order@)[j]],
        decreases n - k,
    {
        let place: usize = order[k];
        assert(places(order@)[k as int] == place);
        assert(texts(entries@)[place as int] == entries@[place as int]@);
        shown.push(entries[place].clone());
        k += 1;
    }
    assert(texts(shown@) =~= arranged(list@, places(order@)));
    shown
}

} // verus!
