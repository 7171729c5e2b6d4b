//! The status service's configuration.
use vstd::prelude::*;
use crate::text::owned;

verus! {

/// The whole configuration file.
#[derive(Clone, Debug)]
pub struct StatusConfig {
    pub status: StatusSection,
}

/// The `[status]` section.
#[derive(Clone, Debug)]
pub struct StatusSection {
    pub listen: String,
    pub prometheus_url: String,
    pub docker_socket: String,
    /// Path of the file that holds the cutover timestamp.
    pub cutover_env_path: Option<String>,
    /// The nodes that run the migrator.
    pub migrator_nodes: Vec<MigratorNode>,
    pub server: ServerInfo,
}

/// A node that runs the migrator, known by its public port.
#[derive(Clone, Copy, Debug)]
pub struct MigratorNode {
    pub port: u16,
}

/// The `[status.server]` section.
#[derive(Clone, Debug)]
pub struct ServerInfo {
    pub ip: String,
    pub domain: String,
    pub region: String,
    pub server_type: String,
    pub use_tls: bool,
}

/// Where the service listens when the file names no address.
pub fn default_listen() -> (s: String)
    ensures
        s@ == "0.0.0.0:8899"@,
{
    owned("0.0.0.0:8899")
}

/// Where Prometheus is when the file names no address.
pub fn default_prometheus_url() -> (s: String)
    ensures
        s@ == "http://localhost:9090"@,
{
    owned("http://localhost:9090")
}

/// Where the Docker socket is when the file names none.
pub fn default_docker_socket() -> (s: String)
    ensures
        s@ == "/var/run/docker.sock"@,
{
    owned("/var/run/docker.sock")
}

} // verus!
