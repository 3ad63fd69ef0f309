pub mod align;
pub mod archive;
pub mod errors;
pub mod features;
pub mod jtalk;
pub mod kata;
pub mod mora;
pub mod prosody;
pub mod symbols;
pub mod synth;
pub mod text;
pub mod tokenizer;
pub mod tone;
pub mod tts;
