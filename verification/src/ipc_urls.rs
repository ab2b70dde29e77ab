//! The IPC socket addresses of the supervised service processes.

use vstd::prelude::*;
use vstd::string::StringExecFns;

verus! {

/// The socket file of the chain client service.
pub const CLIENT: &'static str = "parity-chain.ipc";

/// The socket file of the snapshot service.
pub const SNAPSHOT: &'static str = "parity-snapshot.ipc";

/// The socket file of the sync service.
pub const SYNC: &'static str = "parity-sync.ipc";

/// A handle to the process supervisor that hosts service modules in
/// separate processes, reached over IPC sockets under its data directory.
pub struct Hypervisor {
    /// The data directory whose sockets the supervised processes use.
    pub io_path: String,
}

/// The supervisor for this build.  Hosting service modules in separate
/// processes is outside this library, so no supervisor is started: the
/// result is always `None`, and the embedding runs the services
/// in-process.
pub fn hypervisor(_base_path: &str) -> (r: Option<Hypervisor>)
    ensures
        r is None,
{
    None
}

/// The IPC URL of a service socket under a data directory.
pub fn with_base(data_dir: &str, service_path: &str) -> (r: String)
    ensures
        r@ == "ipc://"@ + data_dir@ + "/"@ + service_path@,
{
    let mut s = String::new();
    s.append("ipc://");
    s.append(data_dir);
    s.append("/");
    s.append(service_path);
    proof {
        assert(s@ =~= "ipc://"@ + data_dir@ + "/"@ + service_path@);
    }
    s
}

} // verus!
