use morsite::reciter::{message_units, tone_event};
use morsite::{Duration, MorseError, MorseSound, MorseSymbol, ToneEvent};
use MorseSymbol::{Dash, Dot, InterElementSpace, InterLetterSpace, InterWordSpace};

#[test]
fn dot_and_word_space_last_eight_units() {
    let s = MorseSound::new(vec![Dot, InterWordSpace], 1000, Duration::from_millis(60));
    assert_eq!(s.duration().as_nanos(), 480_000_000);
}

#[test]
fn units_of_every_symbol() {
    assert_eq!(message_units(&vec![Dot, Dash, InterElementSpace, InterLetterSpace, InterWordSpace]), 15);
    assert_eq!(message_units(&vec![]), 0);
}

#[test]
fn paris_twenty_is_sixty_millis() {
    let mut s = MorseSound::with_defaults(vec![Dot]);
    assert_eq!(s.set_paris_wpm(20), Ok(()));
    assert_eq!(s.dot_duration(), Duration::from_millis(60));
    assert_eq!(s.dot_duration().as_nanos(), 60_000_000);
}

#[test]
fn codex_twenty_is_fifty_millis() {
    let mut s = MorseSound::with_defaults(vec![Dot]);
    assert_eq!(s.set_codex_wpm(20), Ok(()));
    assert_eq!(s.dot_duration().as_nanos(), 50_000_000);
}

#[test]
fn zero_speed_is_refused() {
    let mut s = MorseSound::with_defaults(vec![Dot]);
    assert_eq!(s.set_paris_wpm(0), Err(MorseError::InvalidSpeed));
    assert_eq!(s.set_codex_wpm(0), Err(MorseError::InvalidSpeed));
    assert_eq!(s.dot_duration().as_nanos(), 60_000_000);
}

#[test]
fn defaults() {
    let s = MorseSound::with_defaults(vec![]);
    assert_eq!(s.freq(), 1000);
    assert_eq!(s.dot_duration().as_nanos(), 60_000_000);
    assert_eq!(s.duration().as_nanos(), 0);
}

#[test]
fn setters_overwrite() {
    let mut s = MorseSound::with_defaults(vec![Dash]);
    s.set_freq(700);
    s.set_dot_duration(Duration::from_nanos(5));
    assert_eq!(s.freq(), 700);
    assert_eq!(s.duration().as_nanos(), 15);
    assert_eq!(s.units(), 3);
    assert_eq!(s.morse(), &vec![Dash]);
}

#[test]
fn speed_options() {
    let mut s = MorseSound::with_defaults(vec![Dot]);
    assert_eq!(s.apply_speed(None, Some(10), Some(10)), Err(MorseError::ConflictingSpeedArguments));
    assert_eq!(s.dot_duration().as_nanos(), 60_000_000);
    assert_eq!(s.apply_speed(Some(7), Some(10), Some(10)), Ok(()));
    assert_eq!(s.dot_duration().as_nanos(), 7_000_000);
    assert_eq!(s.apply_speed(None, Some(10), None), Ok(()));
    assert_eq!(s.dot_duration().as_nanos(), 120_000_000);
    assert_eq!(s.apply_speed(None, None, Some(10)), Ok(()));
    assert_eq!(s.dot_duration().as_nanos(), 100_000_000);
    assert_eq!(s.apply_speed(None, None, Some(0)), Err(MorseError::InvalidSpeed));
    assert_eq!(s.apply_speed(None, None, None), Ok(()));
    assert_eq!(s.dot_duration().as_nanos(), 100_000_000);
}

#[test]
fn events_follow_symbols() {
    let s = MorseSound::new(vec![Dot, InterElementSpace, Dash, InterLetterSpace, InterWordSpace], 800, Duration::from_millis(10));
    let ev = s.tone_events();
    let ms = |n: u64| Duration::from_millis(n);
    assert_eq!(
        ev,
        vec![
            ToneEvent { tone: true, freq: Some(800), duration: ms(10) },
            ToneEvent { tone: false, freq: None, duration: ms(10) },
            ToneEvent { tone: true, freq: Some(800), duration: ms(30) },
            ToneEvent { tone: false, freq: None, duration: ms(30) },
            ToneEvent { tone: false, freq: None, duration: ms(70) },
        ]
    );
    let total: u128 = ev.iter().map(|e| e.duration.as_nanos()).sum();
    assert_eq!(total, s.duration().as_nanos());
}

#[test]
fn single_event() {
    assert_eq!(
        tone_event(InterWordSpace, 5, Duration::from_nanos(3)),
        ToneEvent { tone: false, freq: None, duration: Duration::from_nanos(21) }
    );
}

#[test]
fn events_one_at_a_time() {
    let s = MorseSound::new(vec![Dash, InterLetterSpace], 440, Duration::from_nanos(2));
    assert_eq!(s.event_at(0), Some(ToneEvent { tone: true, freq: Some(440), duration: Duration::from_nanos(6) }));
    assert_eq!(s.event_at(1), Some(ToneEvent { tone: false, freq: None, duration: Duration::from_nanos(6) }));
    assert_eq!(s.event_at(2), None);
    let again: Vec<ToneEvent> = (0..2).map(|i| s.event_at(i).unwrap()).collect();
    assert_eq!(again, s.tone_events());
}
