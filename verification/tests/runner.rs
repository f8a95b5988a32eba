use evp::script::ast::{Event, KeyAction, KeySpec, ModSet, NamedKey, WaitScope};
use evp::runner::{
    build_timeline, scheduled_kind, compute_next_deadline, initial_state, next_capture, next_event, resolve_wait, run_finished, start_wait, EventStep,
    Scheduled, ScheduledKind,
};

fn timeline() -> Vec<Scheduled> {
    vec![
        Scheduled { at: 0, kind: ScheduledKind::Input },
        Scheduled { at: 10, kind: ScheduledKind::Hide },
        Scheduled { at: 20, kind: ScheduledKind::Input },
        Scheduled { at: 30, kind: ScheduledKind::Show },
        Scheduled { at: 40, kind: ScheduledKind::Wait { timeout: 100 } },
        Scheduled { at: 50, kind: ScheduledKind::Input },
    ]
}

#[test]
fn due_events_are_taken_in_order_and_hidden_ones_skipped() {
    let tl = timeline();
    let st = initial_state();
    let (st, step) = next_event(&st, &tl, 35);
    assert_eq!(step, EventStep::Dispatch(0));
    let (st, step) = next_event(&st, &tl, 35);
    assert_eq!(step, EventStep::Dispatch(1));
    assert!(st.hidden);
    let (st, step) = next_event(&st, &tl, 35);
    assert_eq!(step, EventStep::Skip);
    let (st, step) = next_event(&st, &tl, 35);
    assert_eq!(step, EventStep::Dispatch(3));
    assert!(!st.hidden);
    let (st2, step) = next_event(&st, &tl, 35);
    assert_eq!(step, EventStep::Idle);
    assert_eq!(st2.event_idx, 4);
}

#[test]
fn a_pending_wait_holds_later_events_until_it_resolves() {
    let tl = timeline();
    let mut st = initial_state();
    st.event_idx = 4;
    let (st, step) = next_event(&st, &tl, 60);
    assert_eq!(step, EventStep::Dispatch(4));
    let st = start_wait(&st, 60, 100);
    assert_eq!(st.wait_deadline, Some(160));
    let (_, step) = next_event(&st, &tl, 60);
    assert_eq!(step, EventStep::Idle);
    assert_eq!(resolve_wait(st.wait_deadline, false, 100), Some(160));
    assert_eq!(resolve_wait(st.wait_deadline, true, 100), None);
    assert_eq!(resolve_wait(st.wait_deadline, false, 160), None);
    let st = start_wait(&st, u64::MAX - 1, 100);
    assert_eq!(st.wait_deadline, Some(u64::MAX));
}

#[test]
fn frames_are_captured_on_ticks_inside_the_window() {
    assert_eq!(next_capture(0, 5, 100, 40), Some((0, 40)));
    assert_eq!(next_capture(40, 5, 100, 40), None);
    assert_eq!(next_capture(120, 200, 100, 40), None);
    let mut st = initial_state();
    st.event_idx = 6;
    assert!(run_finished(&st, 6, 140, 100));
    assert!(!run_finished(&st, 6, 80, 100));
    assert!(!run_finished(&initial_state(), 6, 140, 100));
    assert_eq!(compute_next_deadline(10, None, Some(30), 50, 100), 30);
}

#[test]
fn timeline_spreads_typed_text_and_repeated_keys() {
    let key = KeySpec { key: NamedKey::Enter, mods: ModSet { ctrl: false, alt: false, shift: false, super_key: false } };
    let events = vec![
        Event::Type { text: "ab".to_string(), delay: 100 },
        Event::Sleep(1_000),
        Event::Key { key, action: KeyAction::Press, count: 3, delay: 10 },
        Event::Key { key, action: KeyAction::Press, count: 0, delay: 10 },
        Event::Wait { scope: WaitScope::Line, timeout: 5_000, pattern: "\\$".to_string() },
        Event::Hide,
    ];
    let (tl, end) = build_timeline(&events);
    let times: Vec<u64> = tl.iter().map(|t| t.at).collect();
    assert_eq!(times, vec![0, 100, 1_100, 1_110, 1_120, 1_120, 1_120, 1_120]);
    assert_eq!(end, 1_120);
    assert!(matches!(&tl[1].event, Event::Type { text, delay: 0 } if text == "b"));
    assert!(matches!(&tl[3].event, Event::Key { count: 1, delay: 0, .. }));
    assert_eq!(scheduled_kind(&tl[6].event), ScheduledKind::Wait { timeout: 5_000 });
    assert_eq!(scheduled_kind(&tl[7].event), ScheduledKind::Hide);
    assert_eq!(scheduled_kind(&tl[0].event), ScheduledKind::Input);
}
