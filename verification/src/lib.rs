//! Electronics Agent Kit: the engineering domain model, the event-sourced runtime kernel
//! with its capability seam, the `.kicad_pcb` reader/writer and the phase decision logic.
pub mod decimal;
pub mod domain;
pub mod export;
pub mod intake;
pub mod driver;
pub mod kicad;
pub mod laws;
pub mod layout;
pub mod phases;
pub mod kernel;
pub mod ports;
pub mod protocol;
pub mod reasoning;
pub mod review;
pub mod roundtrip;
pub mod seam;
pub mod sexp;
pub mod state;
pub mod text;
pub mod trace;
pub mod views;
