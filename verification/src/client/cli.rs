//! What can be asked for on the command line.
use crate::client::host;
use crate::client::host::{HostAction, HostConfig};
use crate::client::join;
use crate::client::join::JoinConfig;
use crate::client::lan;
use vstd::prelude::*;

verus! {

/// Share your Minecraft world with a link — no port forwarding needed
#[derive(Debug)]
pub struct Cli {
    pub command: Commands,
}

#[derive(Debug)]
pub enum Commands {
    /// Host your Minecraft world and generate a share link
    Host(HostArgs),
    /// Join a shared Minecraft world via URL or room code
    Join(JoinArgs),
}

#[derive(Debug)]
pub struct HostArgs {
    /// Minecraft server port (auto-detected from LAN world if 0)
    pub port: u16,
    /// Coordination server URL
    pub coord_url: String,
    /// STUN server for NAT traversal
    pub stun_server: String,
    /// Send connection diagnostics
    pub telemetry: bool,
}

#[derive(Debug)]
pub struct JoinArgs {
    /// Share URL (https://mcs.sh/XXXXXX) or bare room code
    pub target: String,
    /// Local port to bind Minecraft proxy on (0 = auto)
    pub port: u16,
    /// Coordination server URL
    pub coord_url: String,
    /// STUN server for NAT traversal
    pub stun_server: String,
    /// Send connection diagnostics
    pub telemetry: bool,
}

/// The port that a host shares where none is given: 0, to look for a LAN world.
pub const DEFAULT_HOST_PORT: u16 = 0;

/// The local port that a joiner gets where none is given.
pub const DEFAULT_JOIN_PORT: u16 = 25565;

/// Where no port is given, a host looks for a world on the network, and a joiner gets the
/// port that Minecraft itself would have.
pub proof fn law_defaults_are_minecrafts(host_config: HostConfig, join_config: JoinConfig)
    requires
        host_config.mc_port == DEFAULT_HOST_PORT,
        join_config.local_port == DEFAULT_JOIN_PORT,
    ensures
        host::first_step(host_config).1 == HostAction::DetectLanWorld,
        join_config.local_port == lan::hosted_port(0, None),
        join::asked_port(join_config.local_port, false) == lan::DEFAULT_MC_PORT,
{
}

} // verus!
