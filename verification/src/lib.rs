//! Reads the records of wireless access points out of the text that a
//! wireless scan prints.
//!
//! A rule takes the input that is left and hands back what it read and the
//! input behind it, or the reason why it stopped and the place. What each
//! rule reads is said once, as a function of the bytes, and the rule is
//! proved to read just that.

pub mod bytes;
pub mod failure;
pub mod field;
pub mod helpers;
pub mod laws;
pub mod power;
pub mod record;
pub mod scan;
pub mod token;

pub use crate::failure::{Failure, FailureKind, Fault, Stage};
pub use crate::field::{parse_address, parse_channel, parse_essid, parse_signal_strength_ubuntu};
pub use crate::power::{calc_decibels, parse_signal_strength};
pub use crate::record::{wifi, Wifi};
pub use crate::token::unquoted;
