//! Desktop mascot engine: bundle formats, the animation state machine, and the
//! geometry that decides where a mascot stands, hangs or falls.

pub mod environment;
pub mod format;
pub mod importer;
pub mod state_machine;
pub mod tray;
pub mod window;
