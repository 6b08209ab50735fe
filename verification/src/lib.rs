//! Verified core of the clip-betting pallets.
pub mod keymap;
pub mod setsum;
pub mod perbill;
pub mod transfer_call;
pub mod clipbet2;
pub mod clipbets;
