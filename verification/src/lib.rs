//! zPad's verified core: the note storage model, note titles, the tray
//! menu, the stylesheet, the tray icon and the session bookkeeping that
//! decides which note windows exist, which ids they get and what is saved.

pub mod atomic;
pub mod config;
pub mod icon;
pub mod note;
pub mod paths;
pub mod session;
pub mod sizes;
pub mod sort;
pub mod storage;
pub mod style;
pub mod table;
pub mod text;
pub mod tray;
