//! The decision whether a window is a shadow.

use crate::targets::TargetList;
use crate::text::contains;
use crate::text::contains_chars;
use crate::text::lowered;
use crate::text::lowered_chars_of;
use crate::text::occurs_at;
use crate::text::same_ignoring_case;
use crate::text::trim;
use crate::text::texts;
use crate::text::trimmed;
use vstd::prelude::*;

verus! {

/// The widths of the watched programs' real windows. A window of such a
/// width is never taken for a shadow, whatever its shape.
pub const KNOWN_WIDTHS: [u32; 5] = [640, 476, 560, 320, 232];

/// A shadow is higher than this many pixels.
pub const MIN_HEIGHT: u32 = 20;

/// A shadow is lower than this many pixels.
pub const MAX_HEIGHT: u32 = 100;

/// A shadow is more than this many times as wide as it is high.
pub const MIN_RATIO: u32 = 30;

/// Whether the server shows a window.
#[derive(Clone, Copy, Debug, PartialEq, Eq, Structural)]
pub enum MapState {
    /// The window is mapped and so are its ancestors.
    Viewable,
    /// The window is not mapped.
    Unmapped,
    /// Any other state, such as mapped below an unmapped ancestor.
    Other,
}

/// What the classifier says of a window.
#[derive(Clone, Copy, Debug, PartialEq, Eq, Structural)]
pub enum Verdict {
    /// The window is a shadow and is to be unmapped.
    Match,
    /// The window is left alone.
    NoMatch,
}

/// What one look at a window found. Texts are empty where the window has no
/// such property.
#[derive(Debug)]
pub struct WindowSnapshot {
    pub handle: u32,
    pub map_state: MapState,
    pub class_name: String,
    pub window_name: String,
    pub width: u32,
    pub height: u32,
}

/// `width` is one of `KNOWN_WIDTHS`.
pub open spec fn is_known_width(width: u32) -> bool {
    width == 640 || width == 476 || width == 560 || width == 320 || width == 232
}

/// The shape of a shadow: a sliver between `MIN_HEIGHT` and `MAX_HEIGHT`
/// pixels high, both excluded, whose width divided by its height is above
/// `MIN_RATIO`. For a positive height that quotient is above 30 exactly
/// where the width is above 30 times the height, so no division is written.
pub open spec fn has_shadow_shape(width: u32, height: u32) -> bool {
    MIN_HEIGHT < height < MAX_HEIGHT && width > MIN_RATIO * height
}

/// A window of class `class` belongs to the program that `target` names:
/// something is left of `target` when it is trimmed, and that is a part of
/// `class`, the case of ASCII letters set aside.
pub open spec fn target_matches(class: Seq<char>, target: Seq<char>) -> bool {
    trimmed(target).len() > 0 && contains(lowered(class), lowered(trimmed(target)))
}

/// A window of class `class` belongs to one of the programs that `targets`
/// name.
pub open spec fn matches_any(class: Seq<char>, targets: Seq<Seq<char>>) -> bool {
    exists|i: int| 0 <= i < targets.len() && target_matches(class, #[trigger] targets[i])
}

/// The verdict on a window: a shadow is viewable, belongs to a watched
/// program, has none of the known widths and has the shape of a shadow.
pub open spec fn verdict(
    map_state: MapState,
    class: Seq<char>,
    targets: Seq<Seq<char>>,
    width: u32,
    height: u32,
) -> Verdict {
    if map_state == MapState::Viewable && matches_any(class, targets) && !is_known_width(width)
        && has_shadow_shape(width, height) {
        Verdict::Match
    } else {
        Verdict::NoMatch
    }
}

/// Lower-casing a text that is put together from parts lower-cases the
/// parts.
pub proof fn lemma_lowered_concat(a: Seq<char>, b: Seq<char>)
    ensures
        lowered(a + b) == lowered(a) + lowered(b),
{
    assert(lowered(a + b) =~= lowered(a) + lowered(b));
}

/// Matching goes by parts and sets case aside: a class that holds, anywhere
/// in it, the trimmed target in whatever case matches that target.
pub proof fn lemma_part_matches(
    before: Seq<char>,
    part: Seq<char>,
    after: Seq<char>,
    target: Seq<char>,
)
    requires
        trimmed(target).len() > 0,
        same_ignoring_case(part, trimmed(target)),
    ensures
        target_matches(before + part + after, target),
{
    lemma_lowered_concat(before, part);
    lemma_lowered_concat(before + part, after);
    let hay = lowered(before + part + after);
    let needle = lowered(trimmed(target));
    assert(hay.subrange(before.len() as int, before.len() as int + needle.len()) =~= needle);
    assert(occurs_at(hay, needle, before.len() as int));
}

/// Matching sets case aside on both sides: classes that differ in the case
/// of ASCII letters only match the same targets, and so do targets that
/// differ in case and in the whitespace around them only.
pub proof fn lemma_match_ignores_case(
    class: Seq<char>,
    other_class: Seq<char>,
    target: Seq<char>,
    other_target: Seq<char>,
)
    requires
        same_ignoring_case(class, other_class),
        same_ignoring_case(trimmed(target), trimmed(other_target)),
    ensures
        target_matches(class, target) == target_matches(other_class, other_target),
{
    assert(lowered(trimmed(target)).len() == lowered(trimmed(other_target)).len());
}

/// The verdict sets the case of the class aside: windows whose classes
/// differ in the case of ASCII letters only get the same verdict.
pub proof fn lemma_verdict_ignores_case(
    map_state: MapState,
    class: Seq<char>,
    other_class: Seq<char>,
    targets: Seq<Seq<char>>,
    width: u32,
    height: u32,
)
    requires
        same_ignoring_case(class, other_class),
    ensures
        verdict(map_state, class, targets, width, height) == verdict(
            map_state,
            other_class,
            targets,
            width,
            height,
        ),
{
    if matches_any(class, targets) {
        let i: int = choose|i: int|
            0 <= i < targets.len() && target_matches(class, #[trigger] targets[i]);
        assert(target_matches(other_class, targets[i]));
    }
    if matches_any(other_class, targets) {
        let i: int = choose|i: int|
            0 <= i < targets.len() && target_matches(other_class, #[trigger] targets[i]);
        assert(target_matches(class, targets[i]));
    }
}

/// The verdict goes by parts of the class: a viewable window of the shape
/// of a shadow, and of no known width, is a match where its class holds an
/// entry of the list anywhere in it, in whatever case.
pub proof fn lemma_part_is_enough(
    before: Seq<char>,
    part: Seq<char>,
    after: Seq<char>,
    targets: Seq<Seq<char>>,
    i: int,
    width: u32,
    height: u32,
)
    requires
        0 <= i < targets.len(),
        trimmed(targets[i]).len() > 0,
        same_ignoring_case(part, trimmed(targets[i])),
        !is_known_width(width),
        has_shadow_shape(width, height),
    ensures
        verdict(MapState::Viewable, before + part + after, targets, width, height)
            == Verdict::Match,
{
    lemma_part_matches(before, part, after, targets[i]);
}

/// Whether `width` is one of `KNOWN_WIDTHS`.
pub fn known_width(width: u32) -> (known: bool)
    ensures
        known == is_known_width(width),
{
    let mut i: usize = 0;
    while i < 5
        invariant
            i <= 5,
            forall|k: int| 0 <= k < i ==> KNOWN_WIDTHS[k] != width,
        decreases 5 - i,
    {
        if KNOWN_WIDTHS[i] == width {
            return true;
        }
        i += 1;
    }
    false
}

/// Whether a window of `width` by `height` pixels has the shape of a shadow.
pub fn shadow_shape(width: u32, height: u32) -> (shaped: bool)
    ensures
        shaped == has_shadow_shape(width, height),
{
    height > MIN_HEIGHT && height < MAX_HEIGHT && width > MIN_RATIO * height
}

/// Whether a window of class `wm_class` belongs to one of the programs that
/// `targets` name. Entries of which nothing is left when they are trimmed
/// name no program.
pub fn matches_any_target(wm_class: &str, targets: &[String]) -> (found: bool)
    ensures
        found == matches_any(wm_class@, texts(targets@)),
{
    let class = lowered_chars_of(wm_class);
    let n: usize = targets.len();
    let mut i: usize = 0;
    while i < n
        invariant
            n == targets@.len(),
            i <= n,
            class@ == lowered(wm_class@),
            forall|k: int| 0 <= k < i ==> !target_matches(wm_class@, #[trigger] texts(targets@)[k]),
        decreases n - i,
    {
        let target = trim(targets[i].as_str());
        if !target.is_empty() {
            let needle = lowered_chars_of(target);
            if contains_chars(&class, &needle) {
                assert(target_matches(wm_class@, texts(targets@)[i as int]));
                return true;
            }
        }
        i += 1;
    }
    false
}

/// Says whether the window of `snapshot` is a shadow of a program that
/// `targets` names.
pub fn classify(snapshot: &WindowSnapshot, targets: &TargetList) -> (v: Verdict)
    ensures
        v == verdict(
            snapshot.map_state,
            snapshot.class_name@,
            targets@,
            snapshot.width,
            snapshot.height,
        ),
        snapshot.map_state != MapState::Viewable ==> v == Verdict::NoMatch,
        is_known_width(snapshot.width) ==> v == Verdict::NoMatch,
        snapshot.height == 0 ==> v == Verdict::NoMatch,
{
    match snapshot.map_state {
        MapState::Viewable => {},
        _ => {
            return Verdict::NoMatch;
        },
    }
    if !matches_any_target(snapshot.class_name.as_str(), targets.as_slice()) {
        return Verdict::NoMatch;
    }
    if known_width(snapshot.width) {
        return Verdict::NoMatch;
    }
    if shadow_shape(snapshot.width, snapshot.height) {
        Verdict::Match
    } else {
        Verdict::NoMatch
    }
}

} // verus!
