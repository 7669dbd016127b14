//! The deciding core of a chat bot. Given a line of chat and a set of
//! rules, it decides whether and what to answer, throttles how often the
//! bot speaks, and keeps the state of every channel.
//!
//! The library neither connects to a chat nor touches a file or a clock:
//! it is handed lines, texts and the current time, and hands back what is
//! to be sent. Its functions are verified against their contracts, which
//! are stated over the character sequences of its texts. The few calls
//! into other crates stand behind functions whose contracts are taken on
//! trust; each of them says what it takes on trust.

pub mod channel;
pub mod clock;
pub mod commands;
pub mod dispatch;
pub mod flat;
pub mod lists;
pub mod number;
pub mod passive;
pub mod random;
pub mod rules;
pub mod session;
pub mod snapshot;
pub mod split;
pub mod state;
pub mod supervisor;
pub mod template;
pub mod text;
pub mod tokens;
pub mod triggers;
