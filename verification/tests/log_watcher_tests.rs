use outside_auras::log_watchers::file_replayer::{
    replay_timestamp_text, LogTime, ReplayClock, ReplayError, SleepFor,
};
use outside_auras::log_watchers::file_watcher::{WatchAction, WatchCursor};
use outside_auras::main_window::{App, FrameInput};

fn step(c: &mut ReplayClock, line: &str) -> Result<Option<(u64, u32)>, &'static str> {
    match c.step(line) {
        Ok(Some(SleepFor { secs, nanos })) => Ok(Some((secs, nanos))),
        Ok(None) => Ok(None),
        Err(ReplayError::BadTimestamp) => Err("bad"),
        Err(ReplayError::TimeWentBackwards) => Err("backwards"),
    }
}

fn mark(c: &ReplayClock) -> Option<(i32, u32, u32)> {
    c.time_of_last.map(|t| (t.day, t.second, t.nanos))
}

#[test]
fn timestamp_text_gets_the_year() {
    assert_eq!(
        replay_timestamp_text("8/12 20:34:40.123  SPELL_DAMAGE,a,b"),
        "2023/8/12 20:34:40.123"
    );
    assert_eq!(replay_timestamp_text(" 8/12 20:34:40.123 "), "2023/8/12 20:34:40.123");
}

#[test]
fn replay_pauses_only_for_gaps_above_300_ms() {
    let mut c = ReplayClock::new();
    assert_eq!(step(&mut c, "8/12 20:34:40.123  A,1"), Ok(None));
    let first = mark(&c);
    assert!(first.is_some());
    // 177 ms later: no pause, the mark stays.
    assert_eq!(step(&mut c, "8/12 20:34:40.300  A,2"), Ok(None));
    assert_eq!(mark(&c), first);
    // Exactly 300 ms after the mark: still no pause.
    assert_eq!(step(&mut c, "8/12 20:34:40.423  A,3"), Ok(None));
    assert_eq!(mark(&c), first);
    // 877 ms after the mark: pause for all of it.
    assert_eq!(step(&mut c, "8/12 20:34:41.000  A,4"), Ok(Some((0, 877_000_000))));
    assert_ne!(mark(&c), first);
    // Over a day boundary.
    assert_eq!(step(&mut c, "8/13 00:00:01.500  A,5"), Ok(Some((12_320, 500_000_000))));
}

#[test]
fn replay_stops_on_time_going_backwards() {
    let mut c = ReplayClock::new();
    assert_eq!(step(&mut c, "8/12 20:34:40.123  A"), Ok(None));
    let m = mark(&c);
    assert_eq!(step(&mut c, "8/12 20:34:40.000  A"), Err("backwards"));
    assert_eq!(mark(&c), m);
}

#[test]
fn replay_stops_on_unreadable_timestamp() {
    let mut c = ReplayClock::new();
    assert_eq!(step(&mut c, "garbage"), Err("bad"));
    assert_eq!(mark(&c), None);
    assert_eq!(step(&mut c, "8/12 20:34:40  A"), Err("bad"));
    assert_eq!(step(&mut c, "13/12 20:34:40.123  A"), Err("bad"));
}

#[test]
fn advance_counts_leap_seconds_once() {
    let mut c = ReplayClock::new();
    // 23:59:59.5 of a day with a leap second.
    let before = LogTime { day: 700_000, second: 86_399, nanos: 500_000_000 };
    // 23:59:60.5, the leap second.
    let leap = LogTime { day: 700_000, second: 86_399, nanos: 1_500_000_000 };
    // 00:00:01.0 of the next day.
    let after = LogTime { day: 700_001, second: 1, nanos: 0 };
    assert!(matches!(c.advance(before), Ok(None)));
    match c.advance(leap) {
        Ok(Some(SleepFor { secs, nanos })) => assert_eq!((secs, nanos), (1, 0)),
        _ => panic!("expected a pause"),
    }
    match c.advance(after) {
        Ok(Some(SleepFor { secs, nanos })) => assert_eq!((secs, nanos), (0, 500_000_000)),
        _ => panic!("expected a pause"),
    }
    // chrono puts 00:00:00.0 of the next day half a second before 23:59:60.5.
    let mut c = ReplayClock::new();
    assert!(matches!(c.advance(leap), Ok(None)));
    let midnight = LogTime { day: 700_001, second: 0, nanos: 0 };
    assert!(matches!(c.advance(midnight), Err(ReplayError::TimeWentBackwards)));
}

#[test]
fn watcher_reads_only_after_growth() {
    let mut w = WatchCursor::new(100);
    assert!(w.on_modified(100) == WatchAction::Ignore);
    assert!(w.on_modified(150) == WatchAction::ReadFrom(101));
    w.on_line_read(170);
    assert_eq!(w.pos, 170);
    assert!(w.on_modified(170) == WatchAction::Ignore);
    // A shrunken file is read from past the old end too.
    assert!(w.on_modified(10) == WatchAction::ReadFrom(171));
}

#[test]
fn start_window_keeps_edits() {
    let mut app = App::new();
    assert_eq!(app.log_file, "");
    assert!(!app.replay);
    let close = app.update(FrameInput {
        log_file_edit: Some("C:\\Logs\\WoWCombatLog.txt".to_string()),
        player_list_edit: None,
        replay_toggle: Some(true),
        start_clicked: false,
    });
    assert!(!close);
    assert_eq!(app.log_file, "C:\\Logs\\WoWCombatLog.txt");
    assert_eq!(app.player_list, "");
    assert!(app.replay);
    let close = app.update(FrameInput {
        log_file_edit: None,
        player_list_edit: Some("Dratnos\nTettles".to_string()),
        replay_toggle: None,
        start_clicked: true,
    });
    assert!(close);
    assert_eq!(app.player_list, "Dratnos\nTettles");
    assert_eq!(app.log_file, "C:\\Logs\\WoWCombatLog.txt");
    assert!(app.replay);
}
