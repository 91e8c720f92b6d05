//! What holds of the library as a whole.
pub mod batches;
pub mod masks;
pub mod requests;
pub mod responses;
pub mod rounds;
pub mod runs;
pub mod sequences;
pub mod texts;
pub mod views;
