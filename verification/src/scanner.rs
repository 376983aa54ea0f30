//! One scan of the children of the root window, as a machine that is told
//! the display server's answers and says what to ask next.

use crate::classifier::classify;
use crate::classifier::verdict;
use crate::classifier::MapState;
use crate::classifier::Verdict;
use crate::classifier::WindowSnapshot;
use crate::targets::TargetList;
use crate::text::decode_text;
use crate::text::trimmed;
use crate::text::utf8_lossy;
use vstd::prelude::*;

verus! {

/// How many 32-bit units of a text property are read at most.
pub const MAX_PROPERTY_WORDS: u32 = 1024;

/// The text properties that a scan reads of a window.
#[derive(Clone, Copy, Debug, PartialEq, Eq, Structural)]
pub enum Property {
    /// The class of the window.
    Class,
    /// The title of the window.
    Name,
}

/// The name of the atom under which the server keeps `property`.
pub open spec fn atom_name_of(property: Property) -> Seq<char> {
    match property {
        Property::Class => "WM_CLASS"@,
        Property::Name => "WM_NAME"@,
    }
}

impl Property {
    /// The name of the atom under which the server keeps this property.
    pub fn atom_name(self) -> (name: &'static str)
        ensures
            name@ == atom_name_of(self),
    {
        match self {
            Property::Class => "WM_CLASS",
            Property::Name => "WM_NAME",
        }
    }
}

/// Why a scan could not be made.
#[derive(Clone, Copy, Debug, PartialEq, Eq, Structural)]
pub enum ScanError {
    /// The server did not tell the children of the root window.
    TreeUnavailable,
}

/// What a scan asks of the display connection next.
#[derive(Clone, Copy, Debug, PartialEq, Eq)]
pub enum Request {
    /// The children of the root window, in the server's order.
    QueryTree,
    /// The map state of a window.
    GetAttributes { window: u32 },
    /// The bytes of a text property of a window, none where it has no such
    /// property.
    GetProperty { window: u32, property: Property },
    /// The width and height of a window.
    GetGeometry { window: u32 },
    /// Unmap a window: it was found to be a shadow of the given size.
    Unmap { window: u32, width: u32, height: u32 },
    /// Send what was asked so far.
    Flush,
    /// Nothing more: the scan is over, with this outcome.
    Finish { outcome: Result<(), ScanError> },
}

/// What the display connection answers to a request.
#[derive(Debug)]
pub enum Reply {
    /// To `QueryTree`.
    Tree { children: Vec<u32> },
    /// To `GetAttributes`.
    Attributes { map_state: MapState },
    /// To `GetProperty`.
    Text { value: Vec<u8> },
    /// To `GetGeometry`.
    Geometry { width: u32, height: u32 },
    /// To `Unmap` and to `Flush`: it was done.
    Done,
    /// To any request: the round trip failed.
    Failed,
}

/// Which answer a scan waits for.
#[derive(Clone, Copy, Debug, PartialEq, Eq, Structural)]
pub enum Phase {
    /// The children of the root.
    Tree,
    /// The map state of the window in hand.
    Attributes,
    /// The class of the window in hand.
    Class,
    /// The title of the window in hand.
    Name,
    /// The size of the window in hand.
    Geometry,
    /// The unmapping of the window in hand.
    Unmap,
    /// The flush after the unmapping of the window in hand.
    Flush,
    /// None: every child was dealt with.
    Finished,
    /// None: the children could not be had.
    Failed,
}

/// The state of a scan, as contracts see it.
pub struct ScanState {
    /// The targets that the scan was started with.
    pub targets: Seq<Seq<char>>,
    /// The answer that is waited for.
    pub phase: Phase,
    /// The children of the root, once they are known.
    pub children: Seq<u32>,
    /// The place among `children` of the window in hand.
    pub position: nat,
    /// The class of the window in hand, once it is known.
    pub class_name: Seq<char>,
    /// The title of the window in hand, once it is known.
    pub window_name: Seq<char>,
}

impl ScanState {
    /// A window is in hand: one of the children is being looked at.
    pub open spec fn in_window(self) -> bool {
        self.phase != Phase::Tree && self.phase != Phase::Finished && self.phase != Phase::Failed
    }

    /// The scan is over.
    pub open spec fn is_over(self) -> bool {
        self.phase == Phase::Finished || self.phase == Phase::Failed
    }

    /// While a window is in hand it is one of the children.
    pub open spec fn wf(self) -> bool {
        self.in_window() ==> self.position < self.children.len()
    }

    /// The window in hand.
    pub open spec fn window(self) -> u32 {
        self.children[self.position as int]
    }
}

/// The state in which a scan for `targets` starts, having asked for the tree.
pub open spec fn initial(targets: Seq<Seq<char>>) -> ScanState {
    ScanState {
        targets,
        phase: Phase::Tree,
        children: Seq::empty(),
        position: 0,
        class_name: Seq::empty(),
        window_name: Seq::empty(),
    }
}

/// Takes the child at `position` in hand and asks for its map state; where
/// there is no such child the scan is over, and well.
pub open spec fn turn_to(s: ScanState, position: nat) -> (ScanState, Request) {
    if position < s.children.len() {
        (
            ScanState {
                phase: Phase::Attributes,
                position,
                class_name: Seq::empty(),
                window_name: Seq::empty(),
                ..s
            },
            Request::GetAttributes { window: s.children[position as int] },
        )
    } else {
        (
            ScanState {
                phase: Phase::Finished,
                position: s.children.len(),
                class_name: Seq::empty(),
                window_name: Seq::empty(),
                ..s
            },
            Request::Finish { outcome: Ok(()) },
        )
    }
}

/// Leaves the window in hand and turns to the next child.
pub open spec fn skip_window(s: ScanState) -> (ScanState, Request) {
    turn_to(s, s.position + 1)
}

/// What a scan in state `s` makes of `reply`: its next state and what it
/// asks next. An answer that is not the one waited for counts as a failed
/// round trip.
pub open spec fn next(s: ScanState, reply: Reply) -> (ScanState, Request) {
    match s.phase {
        Phase::Tree => match reply {
            Reply::Tree { children } => turn_to(ScanState { children: children@, ..s }, 0),
            _ => (
                ScanState { phase: Phase::Failed, ..s },
                Request::Finish { outcome: Err(ScanError::TreeUnavailable) },
            ),
        },
        Phase::Attributes => match reply {
            Reply::Attributes { map_state: MapState::Viewable } => (
                ScanState { phase: Phase::Class, ..s },
                Request::GetProperty { window: s.window(), property: Property::Class },
            ),
            _ => skip_window(s),
        },
        Phase::Class => match reply {
            Reply::Text { value } => (
                ScanState { phase: Phase::Name, class_name: trimmed(utf8_lossy(value@)), ..s },
                Request::GetProperty { window: s.window(), property: Property::Name },
            ),
            _ => skip_window(s),
        },
        Phase::Name => match reply {
            Reply::Text { value } => (
                ScanState {
                    phase: Phase::Geometry,
                    window_name: trimmed(utf8_lossy(value@)),
                    ..s
                },
                Request::GetGeometry { window: s.window() },
            ),
            _ => skip_window(s),
        },
        Phase::Geometry => match reply {
            Reply::Geometry { width, height } => if verdict(
                MapState::Viewable,
                s.class_name,
                s.targets,
                width,
                height,
            ) == Verdict::Match {
                (
                    ScanState { phase: Phase::Unmap, ..s },
                    Request::Unmap { window: s.window(), width, height },
                )
            } else {
                skip_window(s)
            },
            _ => skip_window(s),
        },
        Phase::Unmap => match reply {
            Reply::Done => (ScanState { phase: Phase::Flush, ..s }, Request::Flush),
            _ => skip_window(s),
        },
        Phase::Flush => skip_window(s),
        Phase::Finished => (s, Request::Finish { outcome: Ok(()) }),
        Phase::Failed => (s, Request::Finish { outcome: Err(ScanError::TreeUnavailable) }),
    }
}

/// The state of a scan for `targets` that was told `replies`, one after the
/// other.
pub open spec fn state_after(targets: Seq<Seq<char>>, replies: Seq<Reply>) -> ScanState
    decreases replies.len(),
{
    if replies.len() == 0 {
        initial(targets)
    } else {
        next(state_after(targets, replies.drop_last()), replies.last()).0
    }
}

/// What a scan for `targets` asks when it was told `replies`, one after the
/// other.
pub open spec fn asked_after(targets: Seq<Seq<char>>, replies: Seq<Reply>) -> Request
    decreases replies.len(),
{
    if replies.len() == 0 {
        Request::QueryTree
    } else {
        next(state_after(targets, replies.drop_last()), replies.last()).1
    }
}

/// How many answers a scan in state `s` takes at most before it is over,
/// once the children are known: six for each child not yet dealt with, less
/// those that the window in hand has had.
pub open spec fn steps_left(s: ScanState) -> nat {
    let windows: nat = (s.children.len() - s.position) as nat;
    match s.phase {
        Phase::Tree => 0,
        Phase::Attributes => 6 * windows,
        Phase::Class => (6 * windows - 1) as nat,
        Phase::Name => (6 * windows - 2) as nat,
        Phase::Geometry => (6 * windows - 3) as nat,
        Phase::Unmap => (6 * windows - 4) as nat,
        Phase::Flush => (6 * windows - 5) as nat,
        Phase::Finished => 0,
        Phase::Failed => 0,
    }
}

/// One scan of the windows below the root: it is told each answer of the
/// display connection and says what to ask next, until it says `Finish`.
pub struct Scan {
    targets: TargetList,
    phase: Phase,
    children: Vec<u32>,
    position: usize,
    class_name: String,
    window_name: String,
}

impl View for Scan {
    type V = ScanState;

    closed spec fn view(&self) -> ScanState {
        ScanState {
            targets: self.targets@,
            phase: self.phase,
            children: self.children@,
            position: self.position as nat,
            class_name: self.class_name@,
            window_name: self.window_name@,
        }
    }
}

impl Scan {
    #[verifier::type_invariant]
    spec fn window_is_a_child(self) -> bool {
        self@.wf()
    }

    /// Starts a scan for the windows of `targets`. The first thing asked is
    /// the tree.
    pub fn start(targets: TargetList) -> (r: (Scan, Request))
        ensures
            r.0@ == initial(targets@),
            r.1 == Request::QueryTree,
    {
        let scan = Scan {
            targets,
            phase: Phase::Tree,
            children: Vec::new(),
            position: 0,
            class_name: String::new(),
            window_name: String::new(),
        };
        (scan, Request::QueryTree)
    }

    /// Whether the scan is over.
    pub fn is_over(&self) -> (over: bool)
        ensures
            over == self@.is_over(),
    {
        match self.phase {
            Phase::Finished => true,
            Phase::Failed => true,
            _ => false,
        }
    }

    fn turn_to(targets: TargetList, children: Vec<u32>, position: usize) -> (r: (Scan, Request))
        ensures
            forall|s: ScanState|
                s.targets == targets@ && s.children == children@ ==> (r.0@, r.1) == #[trigger] turn_to(
                    s,
                    position as nat,
                ),
    {
        if position < children.len() {
            let window: u32 = children[position];
            let scan = Scan {
                targets,
                phase: Phase::Attributes,
                children,
                position,
                class_name: String::new(),
                window_name: String::new(),
            };
            (scan, Request::GetAttributes { window })
        } else {
            let position: usize = children.len();
            let scan = Scan {
                targets,
                phase: Phase::Finished,
                children,
                position,
                class_name: String::new(),
                window_name: String::new(),
            };
            (scan, Request::Finish { outcome: Ok(()) })
        }
    }

    /// Takes the answer to what was asked last and says what to ask next.
    pub fn step(self, reply: Reply) -> (r: (Scan, Request))
        ensures
            (r.0@, r.1) == next(self@, reply),
    {
        proof {
            use_type_invariant(&self);
        }
        let Scan { targets, phase, children, position, class_name, window_name } = self;
        assert(children.len() == children@.len());
        match phase {
            Phase::Tree => match reply {
                Reply::Tree { children: found } => Scan::turn_to(targets, found, 0),
                _ => {
                    let scan = Scan {
                        targets,
                        phase: Phase::Failed,
                        children,
                        position,
                        class_name,
                        window_name,
                    };
                    (scan, Request::Finish { outcome: Err(ScanError::TreeUnavailable) })
                },
            },
            Phase::Attributes => match reply {
                Reply::Attributes { map_state: MapState::Viewable } => {
                    let window: u32 = children[position];
                    let scan = Scan {
                        targets,
                        phase: Phase::Class,
                        children,
                        position,
                        class_name,
                        window_name,
                    };
                    (scan, Request::GetProperty { window, property: Property::Class })
                },
                _ => Scan::turn_to(targets, children, position + 1),
            },
            Phase::Class => match reply {
                Reply::Text { value } => {
                    let window: u32 = children[position];
                    let scan = Scan {
                        targets,
                        phase: Phase::Name,
                        children,
                        position,
                        class_name: decode_text(value.as_slice()),
                        window_name,
                    };
                    (scan, Request::GetProperty { window, property: Property::Name })
                },
                _ => Scan::turn_to(targets, children, position + 1),
            },
            Phase::Name => match reply {
                Reply::Text { value } => {
                    let window: u32 = children[position];
                    let scan = Scan {
                        targets,
                        phase: Phase::Geometry,
                        children,
                        position,
                        class_name,
                        window_name: decode_text(value.as_slice()),
                    };
                    (scan, Request::GetGeometry { window })
                },
                _ => Scan::turn_to(targets, children, position + 1),
            },
            Phase::Geometry => match reply {
                Reply::Geometry { width, height } => {
                    let window: u32 = children[position];
                    let snapshot = WindowSnapshot {
                        handle: window,
                        map_state: MapState::Viewable,
                        class_name,
                        window_name,
                        width,
                        height,
                    };
                    match classify(&snapshot, &targets) {
                        Verdict::Match => {
                            let scan = Scan {
                                targets,
                                phase: Phase::Unmap,
                                children,
                                position,
                                class_name: snapshot.class_name,
                                window_name: snapshot.window_name,
                            };
                            (scan, Request::Unmap { window, width, height })
                        },
                        Verdict::NoMatch => Scan::turn_to(targets, children, position + 1),
                    }
                },
                _ => Scan::turn_to(targets, children, position + 1),
            },
            Phase::Unmap => match reply {
                Reply::Done => {
                    let scan = Scan {
                        targets,
                        phase: Phase::Flush,
                        children,
                        position,
                        class_name,
                        window_name,
                    };
                    (scan, Request::Flush)
                },
                _ => Scan::turn_to(targets, children, position + 1),
            },
            Phase::Flush => Scan::turn_to(targets, children, position + 1),
            Phase::Finished => {
                let scan = Scan { targets, phase, children, position, class_name, window_name };
                (scan, Request::Finish { outcome: Ok(()) })
            },
            Phase::Failed => {
                let scan = Scan { targets, phase, children, position, class_name, window_name };
                (scan, Request::Finish { outcome: Err(ScanError::TreeUnavailable) })
            },
        }
    }
}

} // verus!
