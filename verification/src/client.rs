//! Client-side rules: group rosters and messages, mailbox polling, peer information,
//! attachments, medium-term keys, forwarding through the user's own server and the state of
//! conversation views.

pub mod attachments;
pub mod convo;
pub mod convo_window;
pub mod long_poll;
pub mod medium_keys;
pub mod notify;
pub mod peer_list;
pub mod proxy;
pub mod roster;
pub mod user_info;
