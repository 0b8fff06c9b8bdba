use coffee_break::coffee::{
    show_coffee_dance, start_coffee_dance, DanceStep, Phase, ReminderStep, Stage,
    DEFAULT_INTERVAL_MINUTES,
};

#[test]
fn the_reminder_sleeps_before_it_notifies() {
    let mut reminder = start_coffee_dance(60);
    assert_eq!(reminder.phase, Phase::Waiting);
    assert_eq!(reminder.next(), ReminderStep::Sleep { seconds: 3600 });
    assert_eq!(
        reminder.next(),
        ReminderStep::Notify {
            title: "\u{2615} Coffee Break Time!".to_string(),
            message: "You've been coding for 60 minutes! Time for coffee!".to_string(),
        }
    );
    assert_eq!(reminder.next(), ReminderStep::Dialog);
    assert_eq!(reminder.next(), ReminderStep::Dance);
    assert_eq!(reminder.next(), ReminderStep::Sleep { seconds: 3600 });
}

#[test]
fn one_minute_is_singular() {
    let mut reminder = start_coffee_dance(1);
    assert_eq!(reminder.next(), ReminderStep::Sleep { seconds: 60 });
    match reminder.next() {
        ReminderStep::Notify { message, .. } => {
            assert_eq!(message, "You've been coding for 1 minute! Time for coffee!")
        }
        other => panic!("unexpected step {:?}", other),
    }
}

#[test]
fn the_kth_notification_comes_after_k_intervals() {
    let interval: u64 = 7;
    let mut reminder = start_coffee_dance(interval);
    let mut slept: u64 = 0;
    let mut notified: u64 = 0;
    for _ in 0..400 {
        match reminder.next() {
            ReminderStep::Sleep { seconds } => slept += seconds,
            ReminderStep::Notify { .. } => {
                notified += 1;
                assert_eq!(slept, notified * interval * 60);
            }
            ReminderStep::Dialog | ReminderStep::Dance => {}
        }
    }
    assert_eq!(notified, 100);
}

#[test]
fn the_default_interval_is_an_hour() {
    assert_eq!(DEFAULT_INTERVAL_MINUTES, 60);
}

#[test]
fn the_dance_shows_its_frames_for_twenty_seconds() {
    let mut dance = show_coffee_dance();
    assert_eq!(
        dance.step(0),
        DanceStep::Announce {
            title: "\u{2615} Coffee Dance!".to_string(),
            message: "Coffee animation starting in terminal!".to_string(),
            line: "\u{2615} Coffee dance starting! \u{2615}".to_string(),
        }
    );
    let mut clock: u64 = 3;
    let mut frames = 0;
    loop {
        match dance.step(clock) {
            DanceStep::Frame { text, pause_millis } => {
                assert_eq!(text.chars().count(), 6);
                assert_eq!(text.chars().filter(|c| *c == '\u{2615}').count(), 1);
                assert_eq!(pause_millis, 200);
                frames += 1;
                clock += pause_millis + 3;
            }
            DanceStep::Finish { line } => {
                assert_eq!(line, "\u{2615} Coffee time! \u{2615}");
                break;
            }
            other => panic!("unexpected step {:?}", other),
        }
    }
    assert!(frames >= 90);
    assert!(clock < 21000);
    assert_eq!(dance.stage, Stage::Over);
    assert_eq!(dance.step(clock), DanceStep::Done);
    assert_eq!(dance.step(0), DanceStep::Done);
}

#[test]
fn the_cup_slides_across_six_columns_and_back() {
    let expected = [
        "     \u{2615}",
        "    \u{2615} ",
        "   \u{2615}  ",
        "  \u{2615}   ",
        " \u{2615}    ",
        "\u{2615}     ",
        " \u{2615}    ",
        "  \u{2615}   ",
        "   \u{2615}  ",
        "    \u{2615} ",
    ];
    let mut dance = show_coffee_dance();
    dance.step(0);
    for round in 0..3 {
        for frame in expected {
            match dance.step(round) {
                DanceStep::Frame { text, .. } => assert_eq!(text, frame),
                other => panic!("unexpected step {:?}", other),
            }
        }
    }
}

#[test]
fn the_dance_ends_when_the_time_is_up() {
    let mut dance = show_coffee_dance();
    dance.step(0);
    assert!(matches!(dance.step(19999), DanceStep::Frame { .. }));
    assert!(matches!(dance.step(20000), DanceStep::Finish { .. }));
    assert_eq!(dance.step(20001), DanceStep::Done);
}
