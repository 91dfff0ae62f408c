//! Phonetic name matching: IPA segment analysis, syllable counting, corpus
//! parsing and indexing, and the request decisions of the g2p2 HTTP service.

pub mod text;
pub mod segment;
pub mod calib;
pub mod state;
pub mod types;
pub mod handlers;
