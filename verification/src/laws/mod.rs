//! What the library promises of its operations, over all inputs: relations
//! between what goes in and what comes out, stated on the texts, numbers and
//! lists themselves.
pub mod advice;
pub mod channels;
pub mod configuring;
pub mod exchange;
pub mod gateways;
pub mod judging;
pub mod learning;
pub mod planning;
pub mod recall;
pub mod running;
pub mod serving;
pub mod sessions;
pub mod surroundings;
pub mod telling;
pub mod terminal;
pub mod texts;
