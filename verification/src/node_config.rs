//! Settings of a playout node, read from its TOML file.
use vstd::prelude::*;
use crate::text::owned;

verus! {

/// A node's settings.
pub struct Config {
    pub node_name: String,
    pub server_url: String,
    pub secret_key: String,
    pub heartbeat_interval_secs: u64,
    pub schedule_poll_interval_secs: u64,
    pub mpv_socket_path: String,
    /// Where the voice-over player listens; `default_voice_socket` when unset.
    pub voice_mpv_socket_path: String,
    pub offline_mode_warning_hours: u64,
}

/// The voice-over player's socket when the settings name none.
pub fn default_voice_socket() -> (r: String)
    ensures
        r@ == "/tmp/mpv-socket-voice"@,
{
    owned("/tmp/mpv-socket-voice")
}

/// The settings file written for a new node.
pub open spec fn node_template() -> Seq<char> {
    r#"node_name = "Local"
server_url = "ws://127.0.0.1:8080/ws"
secret_key = "change-me"
heartbeat_interval_secs = 5
schedule_poll_interval_secs = 60
mpv_socket_path = "/tmp/mpv-socket"
voice_mpv_socket_path = "/tmp/mpv-socket-voice"
offline_mode_warning_hours = 24
"#@
}

impl Config {
    /// The text of a starter settings file.
    pub fn default_template() -> (r: &'static str)
        ensures
            r@ == node_template(),
    {
        r#"node_name = "Local"
server_url = "ws://127.0.0.1:8080/ws"
secret_key = "change-me"
heartbeat_interval_secs = 5
schedule_poll_interval_secs = 60
mpv_socket_path = "/tmp/mpv-socket"
voice_mpv_socket_path = "/tmp/mpv-socket-voice"
offline_mode_warning_hours = 24
"#
    }
}

} // verus!
