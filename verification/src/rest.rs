//! The messages and names that the daemon and the client share.
use vstd::prelude::*;

verus! {

/// The request header that carries the API key.
pub const API_KEY_HEADER: &'static str = "X-API-Key";

/// The path of the public health check.
pub const PATH_HEALTH: &'static str = "/health";

/// The path of the status query.
pub const PATH_STATUS: &'static str = "/status";

/// The path that triggers a full upgrade.
pub const PATH_UPGRADE: &'static str = "/packages/full-upgrade";

/// The path that triggers a reboot.
pub const PATH_REBOOT: &'static str = "/node/reboot";

/// The mDNS service type, without its domain.
pub const SERVICE_TYPE: &'static str = "_brewmble._tcp.";

/// The mDNS domain.
pub const SERVICE_DOMAIN: &'static str = "local.";

/// The full mDNS service type under which daemons register.
pub const SERVICE_FULL_TYPE: &'static str = "_brewmble._tcp.local.";

/// The prefix of a daemon's mDNS instance name.
pub const INSTANCE_PREFIX: &'static str = "brewmbled-";

/// The answer to a status query.
#[derive(Debug, Clone)]
pub struct StatusResponse {
    pub message: String,
    pub updates: Vec<String>,
    pub is_upgrading: bool,
    pub daemon_version: Option<String>,
    pub allow_reboot: bool,
    pub auto_clean: bool,
    pub auto_remove: bool,
}

/// The answer to a health check.
#[derive(Debug, Clone)]
pub struct HealthResponse {
    pub status: String,
    pub package_manager: String,
    pub package_manager_version: String,
    pub is_upgrading: bool,
}

/// A request for a full upgrade, or for its simulation.
#[derive(Debug, Clone)]
pub struct UpgradeRequest {
    pub dry_run: bool,
}

/// The answer to an upgrade request.
#[derive(Debug, Clone)]
pub struct UpgradeResponse {
    pub message: String,
    pub updates: Option<Vec<String>>,
}

/// A request for a reboot.
#[derive(Debug, Clone)]
pub struct RebootRequest {}

/// The answer to a reboot request.
#[derive(Debug, Clone)]
pub struct RebootResponse {
    pub message: String,
}

} // verus!
