//! What the library promises, said on bytes, numbers and texts alone: each law
//! relates what goes in to what comes out, for every input.
pub mod answers;
pub mod numbers;
pub mod reading;
pub mod sealing;
pub mod tickets;
pub mod words;
