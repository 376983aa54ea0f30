//! What holds of every target list, however it was changed and stored.

use crate::targets::add_outcome;
use crate::targets::all_single_line;
use crate::targets::has_no_duplicates;
use crate::targets::holds;
use crate::targets::is_entry;
use crate::targets::is_single_line;
use crate::targets::lemma_holds_push;
use crate::targets::lemma_line_end;
use crate::targets::line_end;
use crate::targets::occurrences;
use crate::targets::parsed;
use crate::targets::rendered;
use crate::targets::well_formed;
use crate::targets::with_added;
use crate::targets::with_removed;
use crate::targets::AddOutcome;
use crate::text::lemma_trimmed_fixpoint;
use crate::text::lemma_trimmed_is_part;
use crate::text::lemma_trimmed_is_trimmed;
use crate::text::lowered;
use crate::text::same_ignoring_case;
use crate::text::trimmed;
use vstd::prelude::*;

verus! {

/// The first line of a text ends within the text, at its first line feed
/// where it has one.
pub proof fn lemma_line_end_is_first(text: Seq<char>)
    ensures
        line_end(text) <= text.len(),
        forall|j: int| 0 <= j < line_end(text) ==> text[j] != '\n',
        line_end(text) < text.len() ==> text[line_end(text) as int] == '\n',
    decreases text.len(),
{
    if !(text.len() == 0 || text[0] == '\n') {
        let rest = text.drop_first();
        lemma_line_end_is_first(rest);
        assert forall|j: int| 0 <= j < line_end(text) implies text[j] != '\n' by {
            if j > 0 {
                assert(text[j] == rest[j - 1]);
            }
        }
    }
}

/// An entry more counts once more where it is the text, and not otherwise.
pub proof fn lemma_occurrences_push(list: Seq<Seq<char>>, e: Seq<char>, t: Seq<char>)
    ensures
        occurrences(list.push(e), t) == occurrences(list, t) + if same_ignoring_case(e, t) {
            1nat
        } else {
            0nat
        },
{
    reveal(Seq::filter);
    assert(list.push(e).drop_last() =~= list);
}

/// A list holds a text where it has at least one occurrence of it.
pub proof fn lemma_holds_iff_occurs(list: Seq<Seq<char>>, t: Seq<char>)
    ensures
        holds(list, t) <==> occurrences(list, t) > 0,
    decreases list.len(),
{
    if list.len() == 0 {
        reveal(Seq::filter);
    } else {
        let init = list.drop_last();
        assert(list =~= init.push(list.last()));
        lemma_holds_iff_occurs(init, t);
        lemma_holds_push(init, list.last(), t);
        lemma_occurrences_push(init, list.last(), t);
    }
}

/// Whatever text is read, the entries found in it are non-empty, trimmed and
/// single lines.
pub proof fn lemma_parsed_is_well_formed(text: Seq<char>)
    ensures
        well_formed(parsed(text)),
        all_single_line(parsed(text)),
    decreases text.len(),
{
    if text.len() > 0 {
        let k: nat = line_end(text);
        lemma_line_end_is_first(text);
        let first = text.take(k as int);
        let line = trimmed(first);
        lemma_trimmed_is_trimmed(first);
        lemma_trimmed_is_part(first);
        if k < text.len() {
            lemma_parsed_is_well_formed(text.skip(k as int + 1));
        }
        let rest = if k < text.len() {
            parsed(text.skip(k as int + 1))
        } else {
            Seq::empty()
        };
        if line.len() > 0 {
            let all = seq![line] + rest;
            assert forall|i: int| 0 <= i < all.len() implies is_entry(#[trigger] all[i])
                && is_single_line(all[i]) by {
                if i > 0 {
                    assert(all[i] == rest[i - 1]);
                }
            }
        }
    }
}

/// Storing a list and reading it back gives the same list, where no entry
/// holds a line feed.
pub proof fn lemma_round_trip(list: Seq<Seq<char>>)
    requires
        well_formed(list),
        all_single_line(list),
    ensures
        parsed(rendered(list)) == list,
    decreases list.len(),
{
    if list.len() == 0 {
        assert(parsed(rendered(list)) =~= list);
    } else {
        let e = list[0];
        let tail = list.drop_first();
        let text = rendered(list);
        assert(is_entry(e) && is_single_line(e));
        assert forall|i: int| 0 <= i < tail.len() implies is_entry(#[trigger] tail[i])
            && is_single_line(tail[i]) by {
            assert(tail[i] == list[i + 1]);
        }
        lemma_round_trip(tail);
        lemma_line_end(text, e.len() as int);
        assert(text.take(e.len() as int) =~= e);
        assert(text.skip(e.len() as int + 1) =~= rendered(tail));
        lemma_trimmed_fixpoint(e);
        assert(seq![e] + tail =~= list);
    }
}

/// Adding keeps a list well formed.
pub proof fn lemma_added_is_well_formed(list: Seq<Seq<char>>, text: Seq<char>)
    requires
        well_formed(list),
    ensures
        well_formed(with_added(list, text)),
{
    lemma_trimmed_is_trimmed(text);
}

/// Removing keeps a list well formed, and free of duplicates where it was.
pub proof fn lemma_removed_is_well_formed(list: Seq<Seq<char>>, text: Seq<char>)
    ensures
        forall|i: int|
            0 <= i < with_removed(list, text).len() ==> exists|j: int|
                0 <= j < list.len() && list[j] == #[trigger] with_removed(list, text)[i],
        well_formed(list) ==> well_formed(with_removed(list, text)),
        all_single_line(list) ==> all_single_line(with_removed(list, text)),
        has_no_duplicates(list) ==> has_no_duplicates(with_removed(list, text)),
    decreases list.len(),
{
    reveal(Seq::filter);
    if list.len() > 0 {
        let init = list.drop_last();
        let last = list.last();
        let left = with_removed(init, text);
        let all = with_removed(list, text);
        lemma_removed_is_well_formed(init, text);
        assert forall|i: int| 0 <= i < all.len() implies exists|j: int|
            0 <= j < list.len() && list[j] == #[trigger] all[i] by {
            if i < left.len() {
                assert(all[i] == left[i]);
                let j: int = choose|j: int| 0 <= j < init.len() && init[j] == left[i];
                assert(list[j] == init[j]);
            } else {
                assert(list[list.len() - 1] == all[i]);
            }
        }
        if has_no_duplicates(list) {
            assert forall|i: int, j: int| 0 <= i < j < init.len() implies !same_ignoring_case(
                #[trigger] init[i],
                #[trigger] init[j],
            ) by {
                assert(init[i] == list[i] && init[j] == list[j]);
            }
            assert forall|i: int, j: int| 0 <= i < j < all.len() implies !same_ignoring_case(
                #[trigger] all[i],
                #[trigger] all[j],
            ) by {
                if j < left.len() {
                    assert(all[i] == left[i] && all[j] == left[j]);
                } else {
                    assert(all[i] == left[i]);
                    let k: int = choose|k: int| 0 <= k < init.len() && init[k] == left[i];
                    assert(list[k] == init[k]);
                    assert(all[j] == list[list.len() - 1]);
                }
            }
        }
    }
}

/// After a text was removed the list does not hold it, and holds every other
/// text as often as before.
pub proof fn lemma_removed_is_gone(list: Seq<Seq<char>>, text: Seq<char>, other: Seq<char>)
    ensures
        !holds(with_removed(list, text), trimmed(text)),
        !same_ignoring_case(other, trimmed(text)) ==> occurrences(with_removed(list, text), other)
            == occurrences(list, other),
    decreases list.len(),
{
    reveal(Seq::filter);
    if list.len() > 0 {
        let init = list.drop_last();
        let last = list.last();
        lemma_removed_is_gone(init, text, other);
        assert(list =~= init.push(last));
        lemma_occurrences_push(init, last, other);
        if !same_ignoring_case(last, trimmed(text)) {
            lemma_holds_push(with_removed(init, text), last, trimmed(text));
            lemma_occurrences_push(with_removed(init, text), last, other);
        }
    }
}

/// Adding never stores an entry twice: a list without duplicates has none
/// after an addition.
pub proof fn lemma_added_has_no_duplicates(list: Seq<Seq<char>>, text: Seq<char>)
    requires
        has_no_duplicates(list),
    ensures
        has_no_duplicates(with_added(list, text)),
{
    let t = trimmed(text);
    if !(t.len() == 0 || holds(list, t)) {
        let longer = list.push(t);
        assert forall|i: int, j: int| 0 <= i < j < longer.len() implies !same_ignoring_case(
            #[trigger] longer[i],
            #[trigger] longer[j],
        ) by {
            assert(longer[i] == list[i]);
            if j < list.len() {
                assert(longer[j] == list[j]);
            }
        }
    }
}

/// Adding a text twice, in whatever case and with whatever whitespace around
/// it, is adding it once: the second addition changes nothing, and a text
/// that the list did not hold is then held exactly once.
pub proof fn lemma_add_twice(list: Seq<Seq<char>>, first: Seq<char>, second: Seq<char>)
    requires
        same_ignoring_case(trimmed(first), trimmed(second)),
    ensures
        with_added(with_added(list, first), second) == with_added(list, first),
        add_outcome(with_added(list, first), second) != AddOutcome::Added,
        trimmed(first).len() > 0 && !holds(list, trimmed(first)) ==> occurrences(
            with_added(with_added(list, first), second),
            trimmed(first),
        ) == 1,
{
    let t = trimmed(first);
    let u = trimmed(second);
    assert(lowered(t).len() == lowered(u).len());
    if t.len() > 0 {
        let once = with_added(list, first);
        lemma_holds_push(list, t, t);
        assert(holds(once, t));
        let k: int = choose|k: int|
            0 <= k < once.len() && same_ignoring_case(#[trigger] once[k], t);
        assert(same_ignoring_case(once[k], u));
        if !holds(list, t) {
            lemma_occurrences_push(list, t, t);
            lemma_holds_iff_occurs(list, t);
        }
    }
}

/// An added text is there after the list was stored and read back: the list
/// read is the list stored, it holds the text, trimmed, and holds it exactly
/// once where the list did not hold it before. Entries with a line feed in
/// them are left out: such an entry is read back as several.
pub proof fn lemma_added_survives_reload(list: Seq<Seq<char>>, text: Seq<char>)
    requires
        well_formed(list),
        all_single_line(list),
        is_single_line(trimmed(text)),
    ensures
        parsed(rendered(with_added(list, text))) == with_added(list, text),
        trimmed(text).len() > 0 ==> holds(parsed(rendered(with_added(list, text))), trimmed(text)),
        trimmed(text).len() > 0 && !holds(list, trimmed(text)) ==> occurrences(
            parsed(rendered(with_added(list, text))),
            trimmed(text),
        ) == 1,
{
    let t = trimmed(text);
    let after = with_added(list, text);
    lemma_added_is_well_formed(list, text);
    assert(all_single_line(after));
    lemma_round_trip(after);
    if t.len() > 0 {
        lemma_holds_push(list, t, t);
        if !holds(list, t) {
            lemma_occurrences_push(list, t, t);
            lemma_holds_iff_occurs(list, t);
        }
    }
}

} // verus!
