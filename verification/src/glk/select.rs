//! What glk_select decides while it waits (Glk: Events): which queued
//! event to hand out, which window's request to put to the display
//! next, and whether anything can ever arrive at all. The asking and
//! the answering are the display's; each choice between them is here.

use vstd::prelude::*;

use crate::glk::api::pollable;
use crate::glk::objects::{event_type, Event};

verus! {

/// What one window has asked for, in walk order among the windows.
#[derive(Debug, Clone, Copy, PartialEq, Eq, Structural)]
pub struct Requests {
    /// The window.
    pub window: u32,
    /// A pending line request's capacity in characters, if one is up.
    pub line: Option<u32>,
    /// Whether a character request is up.
    pub char_input: bool,
    /// Whether a mouse request is up.
    pub mouse: bool,
    /// Whether a hyperlink request is up.
    pub hyperlink: bool,
}

/// Where a wait stands when it chooses its next step.
#[derive(Debug, Clone, Copy, PartialEq, Eq, Structural)]
pub enum Stage {
    /// At the top of the wait: the queue first, then the requests.
    Start,
    /// A mouse request went unanswered by a display that cannot click:
    /// only the hyperlink requests are left to try.
    PastMouse,
    /// A link request went unanswered by a display that cannot follow
    /// links: nothing is left to try.
    PastLinks,
}

/// What a wait does next.
#[derive(Debug, Clone, Copy, PartialEq, Eq, Structural)]
pub enum WaitStep {
    /// Hand out the first queued event.
    Queued,
    /// Ask the display for a line for a window, of at most so many
    /// characters.
    Line { window: u32, maxlen: u32 },
    /// Ask the display for a keystroke for a window.
    Char { window: u32 },
    /// Ask the display for a click in a window.
    Mouse { window: u32 },
    /// Ask the display for a link chosen in a window.
    Hyperlink { window: u32 },
    /// Nothing is requested that could ever arrive: the game would wait
    /// forever.
    Hopeless,
}

/// Where the first window asking for a kind of input sits.
pub open spec fn first_asking(requests: Seq<Requests>, kind: int) -> Option<int>
    decreases requests.len(),
{
    if requests.len() == 0 {
        None
    } else if asks(requests[0], kind) {
        Some(0)
    } else {
        match first_asking(requests.drop_first(), kind) {
            Some(at) => Some(at + 1),
            None => None,
        }
    }
}

/// Whether a window asks for a kind of input: a line (0), a keystroke
/// (1), a click (2), or a link (3).
pub open spec fn asks(held: Requests, kind: int) -> bool {
    if kind == 0 {
        held.line is Some
    } else if kind == 1 {
        held.char_input
    } else if kind == 2 {
        held.mouse
    } else {
        held.hyperlink
    }
}

/// The step a wait takes: from the top, the queue before anything,
/// then the first window asking for a line, a keystroke, a click, or a
/// link, in that order; past an unanswerable click, only the links; past
/// an unanswerable link, nothing.
pub open spec fn step_of(queued: bool, requests: Seq<Requests>, stage: Stage) -> WaitStep {
    let line = first_asking(requests, 0);
    let key = first_asking(requests, 1);
    let click = first_asking(requests, 2);
    let link = first_asking(requests, 3);
    if stage == Stage::Start && queued {
        WaitStep::Queued
    } else if stage == Stage::Start && line is Some {
        WaitStep::Line { window: requests[line->0].window, maxlen: requests[line->0].line->0 }
    } else if stage == Stage::Start && key is Some {
        WaitStep::Char { window: requests[key->0].window }
    } else if stage == Stage::Start && click is Some {
        WaitStep::Mouse { window: requests[click->0].window }
    } else if stage != Stage::PastLinks && link is Some {
        WaitStep::Hyperlink { window: requests[link->0].window }
    } else {
        WaitStep::Hopeless
    }
}

/// The first window asking for a kind of input does ask for it.
proof fn lemma_first_asking(requests: Seq<Requests>, kind: int)
    ensures
        first_asking(requests, kind) matches Some(at) ==> 0 <= at < requests.len() && asks(
            requests[at],
            kind,
        ),
    decreases requests.len(),
{
    if requests.len() > 0 && !asks(requests[0], kind) {
        lemma_first_asking(requests.drop_first(), kind);
    }
}

/// Find the first window asking for a kind of input.
fn find_asking(requests: &[Requests], kind: u8) -> (found: Option<usize>)
    requires
        kind <= 3,
    ensures
        match found {
            Some(at) => first_asking(requests@, kind as int) == Some(at as int) && at
                < requests@.len(),
            None => first_asking(requests@, kind as int) is None,
        },
{
    let mut index: usize = 0;
    proof {
        assert(requests@.skip(0) =~= requests@);
    }
    while index < requests.len()
        invariant
            kind <= 3,
            index <= requests@.len(),
            first_asking(requests@, kind as int) == match first_asking(
                requests@.skip(index as int),
                kind as int,
            ) {
                Some(at) => Some(at + index),
                None => None,
            },
        decreases requests@.len() - index,
    {
        let held = requests[index];
        let hit = if kind == 0 {
            held.line.is_some()
        } else if kind == 1 {
            held.char_input
        } else if kind == 2 {
            held.mouse
        } else {
            held.hyperlink
        };
        proof {
            assert(requests@.skip(index as int)[0] == held);
            assert(requests@.skip(index as int).drop_first() =~= requests@.skip(index + 1));
        }
        if hit {
            return Some(index);
        }
        index += 1;
    }
    proof {
        assert(requests@.skip(index as int).len() == 0);
    }
    None
}

/// The step a wait takes next (Glk: Events). A display's answer to a
/// step that asked it decides what follows: input ends the wait,
/// events instead of input go on the queue and the wait comes round
/// again, and an unanswered click moves on to the links only where the
/// display cannot click at all.
pub fn wait_step(queued: bool, requests: &[Requests], stage: Stage) -> (step: WaitStep)
    ensures
        step == step_of(queued, requests@, stage),
{
    if stage == Stage::Start && queued {
        return WaitStep::Queued;
    }
    if stage == Stage::Start {
        match find_asking(requests, 0) {
            Some(at) => {
                let held = requests[at];
                proof {
                    lemma_first_asking(requests@, 0);
                }
                return WaitStep::Line { window: held.window, maxlen: held.line.unwrap() };
            },
            None => {},
        }
        match find_asking(requests, 1) {
            Some(at) => {
                return WaitStep::Char { window: requests[at].window };
            },
            None => {},
        }
        match find_asking(requests, 2) {
            Some(at) => {
                return WaitStep::Mouse { window: requests[at].window };
            },
            None => {},
        }
    }
    if stage == Stage::PastLinks {
        return WaitStep::Hopeless;
    }
    match find_asking(requests, 3) {
        Some(at) => WaitStep::Hyperlink { window: requests[at].window },
        None => WaitStep::Hopeless,
    }
}

/// Whether any outstanding request can ever be answered: a line or a
/// keystroke always can; a click or a link only on a display that
/// claims it; and a running timer on a display that raises timer
/// events.
pub open spec fn awaits(
    requests: Seq<Requests>,
    mouse_input: bool,
    hyperlink_input: bool,
    timer_input: bool,
    timer_interval: u32,
) -> bool {
    ||| exists|i: int| 0 <= i < requests.len() && (requests[i].line is Some || requests[i].char_input)
    ||| mouse_input && exists|i: int| 0 <= i < requests.len() && requests[i].mouse
    ||| hyperlink_input && exists|i: int| 0 <= i < requests.len() && requests[i].hyperlink
    ||| timer_input && timer_interval != 0
}

/// Whether any outstanding request can ever be answered -- what a
/// suspending select checks before it records a wait.
pub fn awaited(
    requests: &[Requests],
    mouse_input: bool,
    hyperlink_input: bool,
    timer_input: bool,
    timer_interval: u32,
) -> (answerable: bool)
    ensures
        answerable == awaits(requests@, mouse_input, hyperlink_input, timer_input, timer_interval),
{
    let mut index: usize = 0;
    let mut typed = false;
    let mut clicked = false;
    let mut linked = false;
    while index < requests.len()
        invariant
            index <= requests@.len(),
            typed == exists|i: int| 0 <= i < index && (requests@[i].line is Some || requests@[i].char_input),
            clicked == exists|i: int| 0 <= i < index && requests@[i].mouse,
            linked == exists|i: int| 0 <= i < index && requests@[i].hyperlink,
        decreases requests@.len() - index,
    {
        let held = requests[index];
        if held.line.is_some() || held.char_input {
            typed = true;
        }
        if held.mouse {
            clicked = true;
        }
        if held.hyperlink {
            linked = true;
        }
        index += 1;
    }
    typed || (mouse_input && clicked) || (hyperlink_input && linked) || (timer_input
        && timer_interval != 0)
}

/// Where the first queued event a poll may report sits: only the events
/// a display raises by itself, never input (Glk: Other Events).
pub open spec fn first_pollable(kinds: Seq<u32>) -> Option<int>
    decreases kinds.len(),
{
    if kinds.len() == 0 {
        None
    } else if kinds[0] == event_type::TIMER || kinds[0] == event_type::ARRANGE || kinds[0]
        == event_type::REDRAW || kinds[0] == event_type::SOUND_NOTIFY || kinds[0]
        == event_type::VOLUME_NOTIFY {
        Some(0)
    } else {
        match first_pollable(kinds.drop_first()) {
            Some(at) => Some(at + 1),
            None => None,
        }
    }
}

/// The queued events' types.
pub open spec fn kinds_of(pending: Seq<Event>) -> Seq<u32> {
    pending.map_values(|event: Event| event.kind)
}

/// Take the event a poll reports off the queue: the first one a
/// display raised by itself, or the null event where there is none.
pub fn poll(pending: &mut Vec<Event>) -> (event: Event)
    ensures
        match first_pollable(kinds_of(old(pending)@)) {
            Some(at) => event == old(pending)@[at] && final(pending)@ == old(pending)@.remove(at),
            None => event == Event { kind: event_type::NONE, window: None, val1: 0, val2: 0 }
                && final(pending)@ == old(pending)@,
        },
{
    let mut index: usize = 0;
    proof {
        assert(kinds_of(pending@).skip(0) =~= kinds_of(pending@));
    }
    while index < pending.len()
        invariant
            index <= pending@.len(),
            pending@ == old(pending)@,
            first_pollable(kinds_of(pending@)) == match first_pollable(
                kinds_of(pending@).skip(index as int),
            ) {
                Some(at) => Some(at + index),
                None => None,
            },
        decreases pending@.len() - index,
    {
        let kind = pending[index].kind;
        proof {
            assert(kinds_of(pending@).skip(index as int)[0] == kind);
            assert(kinds_of(pending@).skip(index as int).drop_first() =~= kinds_of(
                pending@,
            ).skip(index + 1));
        }
        if pollable(kind) {
            let event = pending.remove(index);
            return event;
        }
        index += 1;
    }
    proof {
        assert(kinds_of(pending@).skip(index as int).len() == 0);
    }
    Event::none()
}

} // verus!
