//! What a select decides while it waits.

use voxam_core::glk::objects::{event_type, Event};
use voxam_core::glk::select::{awaited, poll, wait_step, Requests, Stage, WaitStep};

fn asking(window: u32) -> Requests {
    Requests { window, line: None, char_input: false, mouse: false, hyperlink: false }
}

// A poll reports only the events a display raises by itself; input
// stays queued for a real select to take.
#[test]
fn polling_skips_input_events() {
    let mut pending: Vec<Event> = Vec::new();

    assert_eq!(poll(&mut pending).kind, event_type::NONE);

    pending.push(Event::new(event_type::CHAR_INPUT, Some(1), 0x41, 0));
    pending.push(Event::new(event_type::TIMER, None, 0, 0));

    assert_eq!(poll(&mut pending).kind, event_type::TIMER);

    // The input event stays queued, and a select hands it out first.
    assert_eq!(pending.len(), 1);
    assert_eq!(pending[0].kind, event_type::CHAR_INPUT);
    assert_eq!(wait_step(true, &[], Stage::Start), WaitStep::Queued);
}

// With nothing requested the wait is hopeless; a click and a link on a
// display that answers neither run out the same way.
#[test]
fn a_hopeless_select_is_refused() {
    assert_eq!(wait_step(false, &[], Stage::Start), WaitStep::Hopeless);

    let both = [Requests { mouse: true, hyperlink: true, ..asking(1) }];

    assert_eq!(wait_step(false, &both, Stage::Start), WaitStep::Mouse { window: 1 });
    assert_eq!(wait_step(false, &both, Stage::PastMouse), WaitStep::Hyperlink { window: 1 });
    assert_eq!(wait_step(false, &both, Stage::PastLinks), WaitStep::Hopeless);
}

// A suspending display's select refuses a wait nothing could answer: no
// request, requests its display cannot answer, or a timer-capable
// display with no timer running; a running timer carries the wait.
#[test]
fn a_hopeless_suspension_is_refused() {
    assert!(!awaited(&[], false, false, false, 0));

    let both = [Requests { mouse: true, hyperlink: true, ..asking(1) }];

    assert!(!awaited(&both, false, false, false, 0));
    assert!(!awaited(&[asking(1)], true, true, true, 0));
    assert!(awaited(&[asking(1)], true, true, true, 50));
    assert!(awaited(&both, true, false, false, 0));
    assert!(awaited(&both, false, true, false, 0));
}

#[test]
fn lines_come_before_keys_and_clicks_in_walk_order() {
    let requests = [
        Requests { mouse: true, ..asking(7) },
        Requests { char_input: true, ..asking(5) },
        Requests { line: Some(80), ..asking(3) },
        Requests { line: Some(20), ..asking(1) },
    ];

    assert_eq!(wait_step(false, &requests, Stage::Start), WaitStep::Line { window: 3, maxlen: 80 });
    assert_eq!(wait_step(false, &requests[..2], Stage::Start), WaitStep::Char { window: 5 });
    assert_eq!(wait_step(false, &requests[..1], Stage::Start), WaitStep::Mouse { window: 7 });
    assert!(awaited(&requests[1..2], false, false, false, 0));
}
