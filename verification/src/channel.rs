//! Rooms and the IRC channels that they can be bound to.

pub mod dig;
pub mod endpoint;
pub mod laws;
pub mod line;
pub mod line_laws;
pub mod nick;
pub mod room;
pub mod room_laws;
pub mod session;
pub mod speech;

pub use dig::RoomSpec;
pub use endpoint::{
    server_endpoint, validate_irc_server_url, IrcBinding, ServerEndpoint,
};
pub use line::{parse_irc_line, IrcEvent};
pub use nick::{desired_irc_nick, sanitise_irc_nick};
pub use room::{
    ChannelEntryPolicy, PresenceRecord, RoomActor, RoomCtxView, RoomExit, RoomManifest,
};
