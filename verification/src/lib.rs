//! Verified core of the caption assistant: caption cleanup and batching,
//! prompt assembly, profile and shortcut rules, and automation state.
pub mod automation;
pub mod browser;
pub mod caption_capture;
pub mod caption_clean;
pub mod caption_match;
pub mod caption_submit;
pub mod captions;
pub mod config;
pub mod decimal;
pub mod diagnostics;
pub mod hotkeys;
pub mod profiles;
pub mod screenshot;
pub mod prompt;
pub mod text;
pub mod upload_recovery;
