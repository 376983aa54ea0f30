//! The list of targets: the substrings by which the windows of the watched
//! programs are known, how the list changes, and how it is stored.

use crate::text::chars_of;
use crate::text::eq_ignore_ascii_case;
use crate::text::is_trimmed;
use crate::text::lemma_trimmed_is_trimmed;
use crate::text::optional_text;
use crate::text::same_ignoring_case;
use crate::text::texts;
use crate::text::trim;
use crate::text::trimmed;
use vstd::prelude::*;
use vstd::string::*;

verus! {

/// What may stand in a target list: a text that is not empty and has no
/// whitespace around it.
pub open spec fn is_entry(t: Seq<char>) -> bool {
    t.len() > 0 && is_trimmed(t)
}

/// Every text of `list` may stand in a target list.
pub open spec fn well_formed(list: Seq<Seq<char>>) -> bool {
    forall|i: int| 0 <= i < list.len() ==> is_entry(#[trigger] list[i])
}

/// `list` has an entry that is `t` up to the case of ASCII letters.
pub open spec fn holds(list: Seq<Seq<char>>, t: Seq<char>) -> bool {
    exists|i: int| 0 <= i < list.len() && same_ignoring_case(#[trigger] list[i], t)
}

/// How many entries of `list` are `t` up to the case of ASCII letters.
pub open spec fn occurrences(list: Seq<Seq<char>>, t: Seq<char>) -> nat {
    list.filter(|e: Seq<char>| same_ignoring_case(e, t)).len()
}

/// `list` has no two entries that are the same up to the case of ASCII
/// letters.
pub open spec fn has_no_duplicates(list: Seq<Seq<char>>) -> bool {
    forall|i: int, j: int|
        0 <= i < j < list.len() ==> !same_ignoring_case(#[trigger] list[i], #[trigger] list[j])
}

/// A text without a line feed in it.
pub open spec fn is_single_line(t: Seq<char>) -> bool {
    forall|j: int| 0 <= j < t.len() ==> t[j] != '\n'
}

/// Every entry of `list` is a single line.
pub open spec fn all_single_line(list: Seq<Seq<char>>) -> bool {
    forall|i: int| 0 <= i < list.len() ==> is_single_line(#[trigger] list[i])
}

/// What adding `text` makes of `list`: the trimmed text goes to the end,
/// unless it is empty or the list holds it already.
pub open spec fn with_added(list: Seq<Seq<char>>, text: Seq<char>) -> Seq<Seq<char>> {
    let t = trimmed(text);
    if t.len() == 0 || holds(list, t) {
        list
    } else {
        list.push(t)
    }
}

/// What removing `text` makes of `list`: every entry that is the trimmed text
/// up to the case of ASCII letters leaves, the others stay in their order.
pub open spec fn with_removed(list: Seq<Seq<char>>, text: Seq<char>) -> Seq<Seq<char>> {
    list.filter(|e: Seq<char>| !same_ignoring_case(e, trimmed(text)))
}

/// What `TargetList::add` did with a text.
#[derive(Clone, Copy, Debug, PartialEq, Eq, Structural)]
pub enum AddOutcome {
    /// Nothing but whitespace was given; the list is unchanged.
    Blank,
    /// The list held the text already; the list is unchanged.
    Duplicate,
    /// The text is the new last entry.
    Added,
}

/// What `TargetList::add` tells of adding `text` to `list`.
pub open spec fn add_outcome(list: Seq<Seq<char>>, text: Seq<char>) -> AddOutcome {
    let t = trimmed(text);
    if t.len() == 0 {
        AddOutcome::Blank
    } else if holds(list, t) {
        AddOutcome::Duplicate
    } else {
        AddOutcome::Added
    }
}

/// The built-in entry of a list that was never stored.
pub const DEFAULT_TARGET: &'static str = "wxwork.exe";

/// The list that is used, and stored, where no stored list is found.
pub open spec fn default_list() -> Seq<Seq<char>> {
    seq![DEFAULT_TARGET@]
}

/// The length of the first line of `text`: the place of its first line feed,
/// or its length where it has none.
pub open spec fn line_end(text: Seq<char>) -> nat
    decreases text.len(),
{
    if text.len() == 0 || text[0] == '\n' {
        0
    } else {
        1 + line_end(text.drop_first())
    }
}

/// The entries that a stored text holds: its lines, each trimmed, without
/// those of which nothing is left.
pub open spec fn parsed(text: Seq<char>) -> Seq<Seq<char>>
    decreases text.len(),
{
    if text.len() == 0 {
        Seq::empty()
    } else {
        let k: nat = line_end(text);
        let line = trimmed(text.take(k as int));
        let rest = if k < text.len() {
            parsed(text.skip(k as int + 1))
        } else {
            Seq::empty()
        };
        if line.len() > 0 {
            seq![line] + rest
        } else {
            rest
        }
    }
}

/// The text under which `list` is stored: each entry on a line of its own,
/// each line ended by a line feed.
pub open spec fn rendered(list: Seq<Seq<char>>) -> Seq<char>
    decreases list.len(),
{
    if list.len() == 0 {
        Seq::empty()
    } else {
        list[0] + seq!['\n'] + rendered(list.drop_first())
    }
}

/// The list that a start from `stored` works with: what the stored text
/// holds, or the default list where nothing was stored or it holds no entry.
pub open spec fn loaded(stored: Option<Seq<char>>) -> Seq<Seq<char>> {
    match stored {
        Some(text) => if parsed(text).len() > 0 {
            parsed(text)
        } else {
            default_list()
        },
        None => default_list(),
    }
}

/// Whether a start from `stored` has fallen back to the default list, which
/// is then to be stored.
pub open spec fn falls_back(stored: Option<Seq<char>>) -> bool {
    match stored {
        Some(text) => parsed(text).len() == 0,
        None => true,
    }
}

/// An entry more makes `holds` true where it was, or where the new entry is
/// the text.
pub proof fn lemma_holds_push(list: Seq<Seq<char>>, e: Seq<char>, t: Seq<char>)
    ensures
        holds(list.push(e), t) == (holds(list, t) || same_ignoring_case(e, t)),
{
    let longer = list.push(e);
    if holds(list, t) {
        let k: int = choose|k: int|
            0 <= k < list.len() && same_ignoring_case(#[trigger] list[k], t);
        assert(longer[k] == list[k]);
    }
    if same_ignoring_case(e, t) {
        assert(longer[list.len() as int] == e);
    }
    if holds(longer, t) {
        let k: int = choose|k: int|
            0 <= k < longer.len() && same_ignoring_case(#[trigger] longer[k], t);
        if k < list.len() {
            assert(list[k] == longer[k]);
        }
    }
}

/// The first line of `text` ends at `k` where no line feed stands before `k`
/// and one stands at `k`, or the text ends there.
pub proof fn lemma_line_end(text: Seq<char>, k: int)
    requires
        0 <= k <= text.len(),
        forall|j: int| 0 <= j < k ==> text[j] != '\n',
        k < text.len() ==> text[k] == '\n',
    ensures
        line_end(text) == k,
    decreases k,
{
    if k > 0 {
        let rest = text.drop_first();
        assert forall|j: int| 0 <= j < k - 1 implies rest[j] != '\n' by {
            assert(rest[j] == text[j + 1]);
        }
        lemma_line_end(rest, k - 1);
    }
}

/// The substrings by which the windows of the watched programs are known.
/// Each entry is non-empty and trimmed; `add` never stores an entry twice.
pub struct TargetList {
    entries: Vec<String>,
}

impl View for TargetList {
    type V = Seq<Seq<char>>;

    closed spec fn view(&self) -> Seq<Seq<char>> {
        texts(self.entries@)
    }
}

impl TargetList {
    #[verifier::type_invariant]
    spec fn entries_are_valid(self) -> bool {
        well_formed(self@)
    }

    /// The list without entries.
    pub fn new() -> (list: TargetList)
        ensures
            list@ == Seq::<Seq<char>>::empty(),
    {
        let list = TargetList { entries: Vec::new() };
        assert(list@ =~= Seq::<Seq<char>>::empty());
        list
    }

    /// The number of entries.
    pub fn len(&self) -> (n: usize)
        ensures
            n == self@.len(),
    {
        self.entries.len()
    }

    /// The entries, in their order.
    pub fn as_slice(&self) -> (entries: &[String])
        ensures
            texts(entries@) == self@,
            well_formed(self@),
    {
        proof {
            use_type_invariant(self);
        }
        self.entries.as_slice()
    }

    /// Whether an entry is `text` up to the case of ASCII letters.
    pub fn contains(&self, text: &str) -> (found: bool)
        ensures
            found == holds(self@, text@),
    {
        let n: usize = self.entries.len();
        let mut i: usize = 0;
        while i < n
            invariant
                n == self.entries@.len(),
                i <= n,
                forall|k: int| 0 <= k < i ==> !same_ignoring_case(#[trigger] self@[k], text@),
            decreases n - i,
        {
            if eq_ignore_ascii_case(self.entries[i].as_str(), text) {
                assert(same_ignoring_case(self@[i as int], text@));
                return true;
            }
            i += 1;
        }
        false
    }

    /// A copy of the list, for a reader that must not see later changes.
    pub fn snapshot(&self) -> (copy: TargetList)
        ensures
            copy@ == self@,
            well_formed(copy@),
    {
        proof {
            use_type_invariant(self);
        }
        let n: usize = self.entries.len();
        let mut entries: Vec<String> = Vec::new();
        let mut i: usize = 0;
        while i < n
            invariant
                n == self.entries@.len(),
                i <= n,
                entries@.len() == i,
                forall|k: int| 0 <= k < i ==> entries@[k]@ == self.entries@[k]@,
            decreases n - i,
        {
            entries.push(self.entries[i].clone());
            i += 1;
        }
        assert(texts(entries@) =~= self@);
        TargetList { entries }
    }

    /// Adds `text`, trimmed, as the last entry, unless nothing is left of it
    /// or an entry is that text already up to the case of ASCII letters.
    pub fn add(&mut self, text: &str) -> (outcome: AddOutcome)
        ensures
            final(self)@ == with_added(old(self)@, text@),
            outcome == add_outcome(old(self)@, text@),
            well_formed(final(self)@),
    {
        proof {
            use_type_invariant(&*self);
            lemma_trimmed_is_trimmed(text@);
        }
        let t = trim(text);
        if t.is_empty() {
            return AddOutcome::Blank;
        }
        if self.contains(t) {
            return AddOutcome::Duplicate;
        }
        let mut entries: Vec<String> = Vec::new();
        std::mem::swap(&mut self.entries, &mut entries);
        assert(texts(self.entries@) =~= Seq::<Seq<char>>::empty());
        entries.push(t.to_owned());
        assert(texts(entries@) =~= old(self)@.push(t@));
        self.entries = entries;
        AddOutcome::Added
    }

    /// Removes every entry that is `text`, trimmed, up to the case of ASCII
    /// letters, and tells whether there was one.
    pub fn remove(&mut self, text: &str) -> (changed: bool)
        ensures
            final(self)@ == with_removed(old(self)@, text@),
            changed == holds(old(self)@, trimmed(text@)),
            well_formed(final(self)@),
    {
        proof {
            use_type_invariant(&*self);
        }
        let t = trim(text);
        let ghost gone = |e: Seq<char>| !same_ignoring_case(e, trimmed(text@));
        let n: usize = self.entries.len();
        let mut kept: Vec<String> = Vec::new();
        let mut changed = false;
        let mut i: usize = 0;
        proof {
            reveal(Seq::filter);
            assert(self@.take(0) =~= Seq::<Seq<char>>::empty());
        }
        while i < n
            invariant
                n == self.entries@.len(),
                i <= n,
                t@ == trimmed(text@),
                gone == |e: Seq<char>| !same_ignoring_case(e, trimmed(text@)),
                texts(kept@) == self@.take(i as int).filter(gone),
                changed == holds(self@.take(i as int), t@),
                well_formed(self@),
                well_formed(texts(kept@)),
            decreases n - i,
        {
            let ghost before = self@.take(i as int);
            proof {
                reveal(Seq::filter);
                assert(self@.take(i + 1) =~= before.push(self@[i as int]));
                assert(before.push(self@[i as int]).drop_last() =~= before);
                lemma_holds_push(before, self@[i as int], t@);
            }
            if eq_ignore_ascii_case(self.entries[i].as_str(), t) {
                changed = true;
            } else {
                let ghost old_kept = texts(kept@);
                kept.push(self.entries[i].clone());
                assert(texts(kept@) =~= old_kept.push(self@[i as int]));
            }
            i += 1;
        }
        assert(self@.take(n as int) =~= self@);
        self.entries = kept;
        changed
    }
}

/// A list to start with, and whether it is to be stored.
pub struct Loaded {
    /// The list.
    pub targets: TargetList,
    /// Whether the list is the default one, taken because no entry was
    /// stored, and therefore to be stored now.
    pub must_save: bool,
}

/// The list with the built-in entry alone.
pub fn default_targets() -> (list: TargetList)
    ensures
        list@ == default_list(),
{
    proof {
        reveal_strlit("wxwork.exe");
    }
    let mut entries: Vec<String> = Vec::new();
    entries.push(DEFAULT_TARGET.to_owned());
    assert(texts(entries@) =~= default_list());
    TargetList { entries }
}

/// Reads the entries out of a stored text: one for each line of which
/// something is left when it is trimmed.
pub fn parse_targets(text: &str) -> (list: TargetList)
    ensures
        list@ == parsed(text@),
{
    let v = chars_of(text);
    let n: usize = v.len();
    let mut entries: Vec<String> = Vec::new();
    let mut start: usize = 0;
    let mut i: usize = 0;
    assert(v@.skip(0) =~= v@);
    assert(texts(entries@) + parsed(v@) =~= parsed(v@));
    while i < n
        invariant
            v@ == text@,
            n == v@.len(),
            start <= i <= n,
            forall|k: int| start <= k < i ==> v@[k] != '\n',
            parsed(v@) == texts(entries@) + parsed(v@.skip(start as int)),
            well_formed(texts(entries@)),
        decreases n - i,
    {
        if v[i] == '\n' {
            let ghost tail = v@.skip(start as int);
            let ghost done = texts(entries@);
            proof {
                lemma_line_end(tail, i - start);
                assert(tail.take(i - start) =~= v@.subrange(start as int, i as int));
                assert(tail.skip(i - start + 1) =~= v@.skip(i + 1));
                lemma_trimmed_is_trimmed(tail.take(i - start));
            }
            let line = trim(text.substring_char(start, i));
            if !line.is_empty() {
                entries.push(line.to_owned());
                assert(texts(entries@) =~= done + seq![line@]);
                assert(parsed(v@) =~= texts(entries@) + parsed(v@.skip(i + 1)));
            }
            start = i + 1;
        }
        i += 1;
    }
    if start < n {
        let ghost tail = v@.skip(start as int);
        let ghost done = texts(entries@);
        proof {
            lemma_line_end(tail, n - start);
            assert(tail.take(n - start) =~= v@.subrange(start as int, n as int));
            lemma_trimmed_is_trimmed(tail.take(n - start));
        }
        let line = trim(text.substring_char(start, n));
        if !line.is_empty() {
            entries.push(line.to_owned());
            assert(texts(entries@) =~= done + seq![line@]);
        }
        assert(parsed(v@) =~= texts(entries@));
    } else {
        assert(parsed(v@) =~= texts(entries@));
    }
    TargetList { entries }
}

/// The list to start with: the entries of the stored text, or the default
/// list where there is no stored text or it holds no entry.
pub fn load_targets(stored: Option<&str>) -> (start: Loaded)
    ensures
        start.targets@ == loaded(optional_text(stored)),
        start.must_save == falls_back(optional_text(stored)),
{
    match stored {
        Some(text) => {
            let list = parse_targets(text);
            if list.len() > 0 {
                Loaded { targets: list, must_save: false }
            } else {
                Loaded { targets: default_targets(), must_save: true }
            }
        },
        None => Loaded { targets: default_targets(), must_save: true },
    }
}

/// The text under which `list` is stored.
pub fn save_targets(list: &TargetList) -> (text: String)
    ensures
        text@ == rendered(list@),
{
    let n: usize = list.entries.len();
    let mut text = String::new();
    let mut i: usize = 0;
    assert(list@.skip(0) =~= list@);
    assert(text@ + rendered(list@) =~= rendered(list@));
    while i < n
        invariant
            n == list.entries@.len(),
            i <= n,
            text@ + rendered(list@.skip(i as int)) == rendered(list@),
        decreases n - i,
    {
        let ghost before = text@;
        let ghost tail = list@.skip(i as int);
        proof {
            reveal_strlit("\n");
            assert("\n"@ =~= seq!['\n']);
            assert(tail[0] == list@[i as int]);
            assert(tail.drop_first() =~= list@.skip(i + 1));
        }
        text.append(list.entries[i].as_str());
        text.append("\n");
        assert(text@ + rendered(list@.skip(i + 1)) =~= before + rendered(tail));
        i += 1;
    }
    assert(rendered(list@.skip(n as int)) =~= Seq::<char>::empty());
    assert(text@ + Seq::<char>::empty() =~= text@);
    text
}

} // verus!
