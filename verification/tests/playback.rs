use mover::playback::{playback_step, run_session, PlaybackEvent, PlaybackOutcome, PlaybackStep};

fn sample(position: Option<u64>, eof: bool) -> PlaybackEvent {
    PlaybackEvent::Sample { position, eof }
}

#[test]
fn shutdown_before_eof_reports_user_quit_at_last_sample() {
    let events = vec![
        sample(Some(1_000), false),
        sample(Some(2_500), false),
        PlaybackEvent::Shutdown,
        sample(Some(9_999), true),
    ];
    let got = run_session(0, &events);
    assert_eq!(
        got,
        PlaybackStep::Done(PlaybackOutcome { finished: false, last_position: 2_500 })
    );
}

#[test]
fn eof_before_shutdown_reports_finished_at_zero() {
    let events = vec![
        sample(Some(1_000), false),
        sample(Some(88_000), true),
        PlaybackEvent::Shutdown,
    ];
    let got = run_session(0, &events);
    assert_eq!(
        got,
        PlaybackStep::Done(PlaybackOutcome { finished: true, last_position: 0 })
    );
}

#[test]
fn unreadable_samples_keep_the_previous_position() {
    let events = vec![
        sample(Some(4_000), false),
        sample(None, false),
        PlaybackEvent::Shutdown,
    ];
    let got = run_session(0, &events);
    assert_eq!(
        got,
        PlaybackStep::Done(PlaybackOutcome { finished: false, last_position: 4_000 })
    );
}

#[test]
fn immediate_shutdown_reports_the_starting_position() {
    let events = vec![PlaybackEvent::Shutdown];
    let got = run_session(1_234, &events);
    assert_eq!(
        got,
        PlaybackStep::Done(PlaybackOutcome { finished: false, last_position: 1_234 })
    );
}

#[test]
fn no_terminal_event_leaves_the_session_running() {
    let events = vec![sample(Some(10), false), sample(Some(20), false)];
    assert_eq!(run_session(0, &events), PlaybackStep::Running(20));
}

#[test]
fn single_step_semantics() {
    assert_eq!(
        playback_step(5, &PlaybackEvent::Shutdown),
        PlaybackStep::Done(PlaybackOutcome { finished: false, last_position: 5 })
    );
    assert_eq!(
        playback_step(5, &sample(Some(6), false)),
        PlaybackStep::Running(6)
    );
    assert_eq!(
        playback_step(5, &sample(None, false)),
        PlaybackStep::Running(5)
    );
    assert_eq!(
        playback_step(5, &sample(Some(6), true)),
        PlaybackStep::Done(PlaybackOutcome { finished: true, last_position: 0 })
    );
}
