use uiua::watch::{clear_watching, clear_watching_with, clearing_text};

#[test]
fn clearing_text_repeats_across_the_width() {
    assert_eq!(clearing_text("-", "\n", Some((3, 24))), "\r---\n");
    assert_eq!(clearing_text("ab", "", Some((2, 1))), "\rabab");
}

#[test]
fn clearing_text_takes_ten_columns_when_the_size_is_unknown() {
    assert_eq!(clearing_text(" ", "", None), "\r          ");
}

#[test]
fn clear_watching_draws_a_rule_and_ends_the_line() {
    let text = clear_watching();
    assert!(text.starts_with('\r'));
    assert!(text.ends_with('\n'));
    let rule = &text[1..text.len() - 1];
    assert!(rule.chars().all(|c| c == '\u{2015}'));
    assert_eq!(clear_watching_with("\u{2015}", "\n"), text);
}

use uiua::watch::{child_args, Action, Event, Watcher, SETTLE_MS, TRIES, WATCHING};

fn live_after(actions: &[Action], mut live: usize) -> usize {
    for a in actions {
        match a {
            Action::KillChild => live = 0,
            Action::Spawn => live += 1,
            _ => {}
        }
    }
    live
}

#[test]
fn a_file_is_read_then_run() {
    let mut w = Watcher::new(false);
    assert_eq!(w.hear(Event::Started { with_file: true }), vec![Action::ReadSource]);
    assert!(w.reading);
    assert_eq!(w.hear(Event::Ready { empty: false }), vec![Action::ClearWatching, Action::Spawn]);
    assert!(w.child && !w.reading);
}

#[test]
fn an_empty_file_is_not_run() {
    let mut w = Watcher::new(false);
    w.hear(Event::Started { with_file: true });
    assert_eq!(
        w.hear(Event::Ready { empty: true }),
        vec![Action::ClearWatching, Action::PrintWatching]
    );
    assert!(!w.child);
}

#[test]
fn a_watch_without_a_file_waits() {
    let mut w = Watcher::new(true);
    assert_eq!(w.hear(Event::Started { with_file: false }), Vec::new());
    assert_eq!(w, Watcher::new(true));
}

#[test]
fn a_change_kills_the_child_before_the_file_is_read_again() {
    let mut w = Watcher::new(false);
    w.hear(Event::Started { with_file: true });
    w.hear(Event::Ready { empty: false });
    assert_eq!(
        w.hear(Event::Changed { since_run_ms: 500 }),
        vec![Action::KillChild, Action::PrintWatching, Action::ReadSource]
    );
    assert!(!w.child);
    let mut clearing = Watcher::new(true);
    clearing.hear(Event::Started { with_file: true });
    clearing.hear(Event::Ready { empty: false });
    assert_eq!(
        clearing.hear(Event::Changed { since_run_ms: 101 }),
        vec![Action::ClearTerminal, Action::KillChild, Action::PrintWatching, Action::ReadSource]
    );
}

#[test]
fn a_change_too_soon_after_a_run_is_passed_over() {
    let mut w = Watcher::new(true);
    w.hear(Event::Started { with_file: true });
    w.hear(Event::Ready { empty: false });
    let before = w;
    assert_eq!(w.hear(Event::Changed { since_run_ms: SETTLE_MS }), Vec::new());
    assert_eq!(w.hear(Event::Changed { since_run_ms: 0 }), Vec::new());
    assert_eq!(w, before);
}

#[test]
fn a_file_that_does_not_format_is_tried_ten_times() {
    let mut w = Watcher::new(false);
    w.hear(Event::Started { with_file: true });
    for i in 1..TRIES {
        assert_eq!(
            w.hear(Event::FormatFailed),
            vec![Action::Sleep(10 * i as u64), Action::ReadSource],
            "try {i}"
        );
    }
    assert_eq!(w.hear(Event::FormatFailed), vec![Action::Sleep(100), Action::GiveUp]);
    assert!(!w.reading);
    assert_eq!(w.failures, 0);
    assert_eq!(w.hear(Event::FormatFailed), Vec::new());
}

#[test]
fn a_file_that_formats_at_last_is_run() {
    let mut w = Watcher::new(false);
    w.hear(Event::Started { with_file: true });
    w.hear(Event::FormatFailed);
    w.hear(Event::FormatFailed);
    assert_eq!(w.hear(Event::Ready { empty: false }), vec![Action::ClearWatching, Action::Spawn]);
    assert_eq!(w.failures, 0);
}

#[test]
fn another_error_is_reported_and_the_watch_goes_on() {
    let mut w = Watcher::new(false);
    w.hear(Event::Started { with_file: true });
    assert_eq!(
        w.hear(Event::ReadFailed),
        vec![Action::ClearWatching, Action::Report, Action::PrintWatching]
    );
    assert_eq!(w.hear(Event::Changed { since_run_ms: 1000 }), vec![Action::ReadSource]);
}

#[test]
fn a_child_that_ends_is_forgotten() {
    let mut w = Watcher::new(false);
    w.hear(Event::Started { with_file: true });
    w.hear(Event::Ready { empty: false });
    assert_eq!(w.hear(Event::ChildExited), vec![Action::PrintWatching]);
    assert!(!w.child);
    assert_eq!(w.hear(Event::ChildExited), Vec::new());
}

#[test]
fn an_interrupt_kills_the_child_or_ends_the_watch() {
    let mut w = Watcher::new(false);
    w.hear(Event::Started { with_file: true });
    w.hear(Event::Ready { empty: false });
    assert_eq!(
        w.hear(Event::Interrupt),
        vec![Action::KillChild, Action::SayInterrupted, Action::PrintWatching]
    );
    assert!(!w.child);
    assert_eq!(w.hear(Event::Interrupt), vec![Action::BlankWatching, Action::Exit]);
}

#[test]
fn there_is_never_more_than_one_child() {
    let events = [
        Event::Started { with_file: true },
        Event::Started { with_file: false },
        Event::Changed { since_run_ms: 0 },
        Event::Changed { since_run_ms: 250 },
        Event::Ready { empty: false },
        Event::Ready { empty: true },
        Event::FormatFailed,
        Event::ReadFailed,
        Event::ChildExited,
        Event::Interrupt,
    ];
    // Every sequence of five events, from a fresh watcher.
    let mut seed: usize = 0;
    while seed < 100_000 {
        let mut w = Watcher::new(seed % 2 == 0);
        let mut live = 0usize;
        let mut rest = seed;
        for _ in 0..5 {
            let event = events[rest % 10];
            rest /= 10;
            if event == Event::ChildExited {
                live = 0;
            }
            let actions = w.hear(event);
            live = live_after(&actions, live);
            assert!(live <= 1, "seed {seed}");
            assert_eq!(w.child, live == 1, "seed {seed}");
            assert!(w.failures < TRIES);
        }
        seed += 1;
    }
}

#[test]
fn the_child_is_told_to_run_the_file_as_it_is() {
    assert_eq!(
        child_args("main.ua", &Vec::new()),
        vec!["run", "main.ua", "--no-format", "--no-update", "--mode", "all"]
    );
    assert_eq!(
        child_args("src/x.ua", &vec!["a".to_string(), "--b".to_string()]),
        vec!["run", "src/x.ua", "--no-format", "--no-update", "--mode", "all", "--", "a", "--b"]
    );
    assert_eq!(WATCHING, "watching for changes...");
}
