//! Abstract, bipolar, value-based and weighted bipolar argumentation
//! frameworks, together with a catalogue of Walton argumentation schemes.

pub mod dung;
pub mod strings;
pub mod order;
pub mod text;
pub mod extensions;
pub mod matrix;
pub mod bipolar;
pub mod schemes;
pub mod values;
pub mod weighted;
pub mod playground;
