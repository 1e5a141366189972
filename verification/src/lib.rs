//! Cronaut: the logic behind a desktop manager of `systemd --user` timers and
//! the current user's crontab, with contracts proved by Verus.
use vstd::prelude::*;

pub mod text;
pub mod error;
pub mod crontab;
pub mod timers;
pub mod desktop_env;
pub mod settings;
pub mod tray;
pub mod logs;

verus! {

} // verus!
