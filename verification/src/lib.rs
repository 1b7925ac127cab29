//! Keystroke and mouse timing anonymizer: the verified core.

pub mod arith;
pub mod bytes;
pub mod config;
pub mod daemon;
pub mod escape;
pub mod evdev;
pub mod event;
pub mod hotplug;
pub mod ioctl;
pub mod keys;
pub mod libinput_ctx;
pub mod nodes;
pub mod promises;
pub mod queue;
pub mod record;
pub mod scroll;
pub mod text;
pub mod time_src;
pub mod translate;
pub mod uinput;
pub mod urandom;

pub use config::{Config, ParseOutcome};
pub use escape::EscCombo;
pub use event::InputPacket;
pub use queue::{RandBetween, ScheduledPacket, Scheduler};
