//! A minimal leveled logging facility.
//!
//! A message carries a severity level. A logger compares that level with its
//! threshold, and for a message that passes it renders one line of the form
//! `[DD/MM/YYYY HH:MM:SS.mmm][LEVEL] message` and says which sinks receive it.
//! The library does no input or output of its own: the caller reads the clock,
//! hands the reading in, and writes the rendered line out.

pub mod civil;
pub mod level;
pub mod logger;
pub mod reading;
pub mod render;
pub mod zone;

pub use civil::CivilTime;
pub use level::LogLevel;
pub use logger::{ClockReading, Delivery, Logger};
pub use zone::ZoneProbe;
