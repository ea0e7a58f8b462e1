//! The consent gate for outbound messages.
//!
//! A message that a judge stops is not thrown away: it is held under a
//! single-use handle, and the construct is told why. Three things can become of
//! it: it is released as it is, it is replaced by other words (which are judged
//! in turn), or the handle expires. Each of the three kills the handle, and each
//! leaves one record in the journal.

pub mod consent;
pub mod journal;
pub mod judge;
pub mod queue;
