//! Keystroke decoding and key-sequence engine for an always-on-top overlay
//! widget: raw key-down events are decoded into canonical scan codes,
//! accumulated into an ordered key buffer, and laid out as labeled chips.

pub mod helpers;
pub mod keys;
pub mod layout;
