//! The message codec and the session that drives it.

pub mod command;
pub mod frame;
pub mod handlers;
pub mod line;
pub mod parse;
pub mod roundtrip;
pub mod run;
pub mod session;

pub use command::{Command, CommandView};
pub use line::{Line, LineView};
pub use session::{Conn, ConnView, DefaultPort, Event, EventView, IpAddr, Options, OptionsHost};
