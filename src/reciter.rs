use crate::morse::{is_tone, symbol_units, total_units, units, MorseError, MorseString, MorseSymbol};
use vstd::prelude::*;

verus! {

/// A span of time, counted in nanoseconds.
#[derive(Debug, Clone, Copy, PartialEq, Eq, Structural)]
pub struct Duration {
    pub nanos: u128,
}

impl Duration {
    pub fn from_nanos(nanos: u64) -> (r: Duration)
        ensures
            r.nanos == nanos,
    {
        Duration { nanos: nanos as u128 }
    }

    pub fn from_millis(millis: u64) -> (r: Duration)
        ensures
            r.nanos == millis * 1_000_000,
    {
        Duration { nanos: millis as u128 * 1_000_000 }
    }

    pub fn as_nanos(&self) -> (r: u128)
        ensures
            r == self.nanos,
    {
        self.nanos
    }
}

/// Nanoseconds in one unit at a given PARIS speed: a word of 50 units.
pub const PARIS_NANOS_PER_WPM: u64 = 1_200_000_000;

/// Nanoseconds in one unit at a given CODEX speed: a word of 60 units.
pub const CODEX_NANOS_PER_WPM: u64 = 1_000_000_000;

/// The largest unit duration for which every event of a message can be
/// timed: the longest symbol lasts seven units.
pub open spec fn dot_fits(dot: Duration) -> bool {
    dot.nanos * 7 <= u128::MAX
}

/// One step of a schedule: a tone at some frequency, or a silence, for some
/// time.
#[derive(Debug, Clone, Copy, PartialEq, Eq, Structural)]
pub struct ToneEvent {
    pub tone: bool,
    pub freq: Option<u32>,
    pub duration: Duration,
}

/// The event that a symbol becomes: dots and dashes sound at `freq`, spaces
/// are silent, and each lasts its units times `dot`.
pub open spec fn event_of(s: MorseSymbol, freq: u32, dot: Duration) -> ToneEvent {
    ToneEvent {
        tone: is_tone(s),
        freq: if is_tone(s) {
            Some(freq)
        } else {
            None
        },
        duration: Duration { nanos: (units(s) * dot.nanos) as u128 },
    }
}

/// A message together with how to sound it: a tone frequency and the length
/// of one unit (a dot).
#[derive(Debug, Clone)]
pub struct MorseSound {
    morse: MorseString,
    freq: u32,
    dot_duration: Duration,
}

impl MorseSound {
    pub closed spec fn spec_morse(&self) -> Seq<MorseSymbol> {
        self.morse@
    }

    pub closed spec fn spec_freq(&self) -> u32 {
        self.freq
    }

    pub closed spec fn spec_dot(&self) -> Duration {
        self.dot_duration
    }

    pub fn new(morse: MorseString, freq: u32, dot_duration: Duration) -> (r: Self)
        ensures
            r.spec_morse() == morse@,
            r.spec_freq() == freq,
            r.spec_dot() == dot_duration,
    {
        MorseSound { morse, freq, dot_duration }
    }

    /// A tone of 1000 Hz and a unit of 60 ms, which is 20 words per minute
    /// by PARIS.
    pub fn with_defaults(morse: MorseString) -> (r: Self)
        ensures
            r.spec_morse() == morse@,
            r.spec_freq() == 1000,
            r.spec_dot().nanos == 60_000_000,
    {
        Self::new(morse, 1000, Duration::from_millis(60))
    }

    pub fn freq(&self) -> (r: u32)
        ensures
            r == self.spec_freq(),
    {
        self.freq
    }

    pub fn dot_duration(&self) -> (r: Duration)
        ensures
            r == self.spec_dot(),
    {
        self.dot_duration
    }

    /// The message as it stands.
    pub fn morse(&self) -> (r: &MorseString)
        ensures
            r@ == self.spec_morse(),
    {
        &self.morse
    }

    pub fn set_freq(&mut self, freq: u32)
        ensures
            final(self).spec_freq() == freq,
            final(self).spec_morse() == old(self).spec_morse(),
            final(self).spec_dot() == old(self).spec_dot(),
    {
        self.freq = freq;
    }

    pub fn set_dot_duration(&mut self, dot_duration: Duration)
        ensures
            final(self).spec_dot() == dot_duration,
            final(self).spec_morse() == old(self).spec_morse(),
            final(self).spec_freq() == old(self).spec_freq(),
    {
        self.dot_duration = dot_duration;
    }

    /// Sets the unit from a PARIS speed: 1.2 s divided by the words per
    /// minute. A speed of zero is refused and changes nothing.
    pub fn set_paris_wpm(&mut self, paris_wpm: u64) -> (r: Result<(), MorseError>)
        ensures
            paris_wpm == 0 <==> r is Err,
            r matches Err(e) ==> e == MorseError::InvalidSpeed && *final(self) == *old(self),
            r is Ok ==> final(self).spec_dot().nanos == PARIS_NANOS_PER_WPM / paris_wpm,
            final(self).spec_morse() == old(self).spec_morse(),
            final(self).spec_freq() == old(self).spec_freq(),
    {
        if paris_wpm == 0 {
            return Err(MorseError::InvalidSpeed);
        }
        self.dot_duration = Duration::from_nanos(PARIS_NANOS_PER_WPM / paris_wpm);
        Ok(())
    }

    /// Sets the unit from a CODEX speed: 1 s divided by the words per
    /// minute. A speed of zero is refused and changes nothing.
    pub fn set_codex_wpm(&mut self, codex_wpm: u64) -> (r: Result<(), MorseError>)
        ensures
            codex_wpm == 0 <==> r is Err,
            r matches Err(e) ==> e == MorseError::InvalidSpeed && *final(self) == *old(self),
            r is Ok ==> final(self).spec_dot().nanos == CODEX_NANOS_PER_WPM / codex_wpm,
            final(self).spec_morse() == old(self).spec_morse(),
            final(self).spec_freq() == old(self).spec_freq(),
    {
        if codex_wpm == 0 {
            return Err(MorseError::InvalidSpeed);
        }
        self.dot_duration = Duration::from_nanos(CODEX_NANOS_PER_WPM / codex_wpm);
        Ok(())
    }

    /// Applies the speed options of a request: an explicit unit in
    /// milliseconds wins; otherwise a PARIS or a CODEX speed, but not both.
    pub fn apply_speed(
        &mut self,
        dot_millis: Option<u64>,
        paris_wpm: Option<u64>,
        codex_wpm: Option<u64>,
    ) -> (r: Result<(), MorseError>)
        ensures
            final(self).spec_morse() == old(self).spec_morse(),
            final(self).spec_freq() == old(self).spec_freq(),
            match (dot_millis, paris_wpm, codex_wpm) {
                (Some(ms), _, _) => r is Ok && final(self).spec_dot().nanos == ms * 1_000_000,
                (None, Some(p), Some(c)) => r == Err::<(), MorseError>(
                    MorseError::ConflictingSpeedArguments,
                ) && *final(self) == *old(self),
                (None, Some(p), None) => if p == 0 {
                    r == Err::<(), MorseError>(MorseError::InvalidSpeed) && *final(self) == *old(self)
                } else {
                    r is Ok && final(self).spec_dot().nanos == PARIS_NANOS_PER_WPM / p
                },
                (None, None, Some(c)) => if c == 0 {
                    r == Err::<(), MorseError>(MorseError::InvalidSpeed) && *final(self) == *old(self)
                } else {
                    r is Ok && final(self).spec_dot().nanos == CODEX_NANOS_PER_WPM / c
                },
                (None, None, None) => r is Ok && *final(self) == *old(self),
            },
    {
        match (dot_millis, paris_wpm, codex_wpm) {
            (Some(ms), _, _) => {
                self.set_dot_duration(Duration::from_millis(ms));
                Ok(())
            },
            (_, Some(_), Some(_)) => Err(MorseError::ConflictingSpeedArguments),
            (_, Some(p), None) => self.set_paris_wpm(p),
            (_, None, Some(c)) => self.set_codex_wpm(c),
            _ => Ok(()),
        }
    }

    /// The units of the whole message.
    pub fn units(&self) -> (r: u128)
        ensures
            r == total_units(self.spec_morse()),
    {
        message_units(&self.morse)
    }

    /// How long the whole message lasts: its units times the unit.
    pub fn duration(&self) -> (r: Duration)
        requires
            total_units(self.spec_morse()) * self.spec_dot().nanos <= u128::MAX,
        ensures
            r.nanos == total_units(self.spec_morse()) * self.spec_dot().nanos,
    {
        let units = message_units(&self.morse);
        Duration { nanos: units * self.dot_duration.nanos }
    }

    /// The event at position `i` of the schedule, computed when asked for;
    /// `None` past the end.
    pub fn event_at(&self, i: usize) -> (r: Option<ToneEvent>)
        requires
            dot_fits(self.spec_dot()),
        ensures
            i < self.spec_morse().len() ==> r == Some(
                event_of(self.spec_morse()[i as int], self.spec_freq(), self.spec_dot()),
            ),
            i >= self.spec_morse().len() ==> r is None,
    {
        if i < self.morse.len() {
            Some(tone_event(self.morse[i], self.freq, self.dot_duration))
        } else {
            None
        }
    }

    /// The schedule of the message: one event per symbol, in order.
    pub fn tone_events(&self) -> (r: Vec<ToneEvent>)
        requires
            dot_fits(self.spec_dot()),
        ensures
            r.len() == self.spec_morse().len(),
            forall|i: int|
                0 <= i < r.len() ==> r[i] == event_of(
                    #[trigger] self.spec_morse()[i],
                    self.spec_freq(),
                    self.spec_dot(),
                ),
    {
        let mut out: Vec<ToneEvent> = Vec::new();
        for i in 0..self.morse.len()
            invariant
                dot_fits(self.dot_duration),
                out.len() == i,
                forall|j: int|
                    0 <= j < i ==> out[j] == event_of(
                        #[trigger] self.morse@[j],
                        self.freq,
                        self.dot_duration,
                    ),
        {
            out.push(tone_event(self.morse[i], self.freq, self.dot_duration));
        }
        out
    }
}

/// The units of a message.
pub fn message_units(morse: &MorseString) -> (r: u128)
    ensures
        r == total_units(morse@),
{
    let mut total: u128 = 0;
    for i in 0..morse.len()
        invariant
            total == total_units(morse@.take(i as int)),
            total <= 7 * i,
    {
        proof {
            assert(morse@.take(i + 1).drop_last() =~= morse@.take(i as int));
        }
        let u = symbol_units(morse[i]);
        total = total + u as u128;
    }
    assert(morse@.take(morse.len() as int) =~= morse@);
    total
}

/// The event that one symbol becomes.
pub fn tone_event(symbol: MorseSymbol, freq: u32, dot_duration: Duration) -> (r: ToneEvent)
    requires
        dot_fits(dot_duration),
    ensures
        r == event_of(symbol, freq, dot_duration),
{
    let units = symbol_units(symbol) as u128;
    assert(units * dot_duration.nanos <= 7 * dot_duration.nanos) by (nonlinear_arith)
        requires
            units <= 7,
    ;
    let duration = Duration { nanos: units * dot_duration.nanos };
    match symbol {
        MorseSymbol::Dot | MorseSymbol::Dash => ToneEvent { tone: true, freq: Some(freq), duration },
        _ => ToneEvent { tone: false, freq: None, duration },
    }
}

} // verus!
