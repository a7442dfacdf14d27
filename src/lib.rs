//! A verified activity ledger: named intervals of time, the rule that at most
//! one of them is open, soft clears that reset the counted totals, and the
//! reports derived from the recorded history.

pub mod ledger;
pub mod laws;
pub mod text;
pub mod notifications;
pub mod offset_picker;
pub mod timeline;
pub mod statistics;
