//! Guitar Pro and TabIt tablature parsing, MIDI event generation and sequencing.
pub mod song;

pub use song::{Duration, MeasureHeader, MidiChannel, Song, Tempo, TimeSignature, QUARTER_TIME};
pub mod midi_event;
pub mod player_params;

pub use midi_event::{MidiEvent, MidiEventType};
pub use player_params::{MidiPlayerParams, Repeat};
pub mod sequencer;

pub use sequencer::MidiSequencer;
pub mod builder;

pub use builder::{MidiBuilder, FIRST_TICK};
pub mod bytes;
pub mod gp;
pub mod music;
pub mod error;

pub use error::RuxError;
pub use gp::parse_gp_data;
pub mod tbt_types;
pub mod tbt;
pub mod config;
