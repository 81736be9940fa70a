//! What holds of the systems as a whole.
//!
//! Each law relates what goes into a system with what comes out of it.
pub mod dispatch;
pub mod displays;
pub mod launch;
pub mod layout;
pub mod lookup;
pub mod motion;
pub mod orphans;
pub mod setup;
pub mod strips;
pub mod timeouts;
pub mod values;
