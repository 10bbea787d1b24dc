//! Platform-independent input session core for the Windows text services
//! shell: composition, candidate paging, key handling, edit planning and
//! candidate-window layout.
pub mod com;
pub mod edit_session;
pub mod key_event;
pub mod keymap;
pub mod metadata;
pub mod profile;
pub mod session;
pub mod sink;
pub mod candidate_window;
pub mod window;
pub mod native_window;
pub mod registration;
pub mod document;
pub mod service;
