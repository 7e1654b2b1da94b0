//! The startup security check of the HTTP server.
use vstd::prelude::*;
use crate::config::BindAddr;
use crate::plugins::linux::opt_text;

verus! {

/// Why the server did not start or stopped.
pub enum StartupError {
    /// The bind address is reachable from the network and no password is
    /// configured.
    OpenBindWithoutPassword(BindAddr),
    /// The address could not be bound: the address and the reason.
    Bind(String, String),
    /// The server failed while serving: the reason.
    Serve(String),
}

/// The fail-closed startup rule: a bind address that is not loopback needs
/// a password.
pub fn check_security(bind: BindAddr, password: Option<&str>) -> (r: Result<(), StartupError>)
    ensures
        r is Ok <==> bind.loopback() || opt_text(password) is Some,
        r matches Err(e) ==> e == StartupError::OpenBindWithoutPassword(bind),
{
    if !bind.is_loopback() && password.is_none() {
        return Err(StartupError::OpenBindWithoutPassword(bind));
    }
    Ok(())
}

} // verus!
