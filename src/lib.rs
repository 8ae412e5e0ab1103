//! Text to Morse code conversion: a character table, a notation codec and a
//! timing model that schedules tones and silences.

pub mod morse;
pub mod repr;
pub mod text;
pub mod reciter;
pub mod round_trip;

pub use morse::{MorseError, MorseString, MorseSymbol};
pub use reciter::{Duration, MorseSound, ToneEvent};
pub use repr::{MorseRepr, WordGap};
pub use text::Text;
