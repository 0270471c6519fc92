//! Names used when layers run as Windows services.
use vstd::prelude::*;
use vstd::string::*;
use crate::resolve::Platform;
use crate::text::{concat3, concat4, owned};

verus! {

/// The executable name of the service that runs `layer` for `mesh`.
pub open spec fn exe_name(mesh: Seq<char>, layer: Seq<char>) -> Seq<char> {
    "aigosd-"@ + mesh + "@"@ + layer + ".exe"@
}

/// The executable name of the service that runs a layer for a mesh.
pub fn get_exe_name(mesh_name: &str, layer_name: &str) -> (r: String)
    ensures
        r@ == exe_name(mesh_name@, layer_name@),
{
    let mut r = concat4("aigosd-", mesh_name, "@", layer_name);
    r.append(".exe");
    r
}

/// The path of a layer's executable beside the daemon.
pub fn get_layer_exe_path(layer_name: &str) -> (r: String)
    ensures
        r@ == ".\\"@ + layer_name@ + ".exe"@,
{
    concat3(".\\", layer_name, ".exe")
}

/// Why a service cannot be registered.
#[derive(Debug)]
pub enum ServiceError {
    /// Service registration exists only on Windows.
    Unsupported,
}

impl ServiceError {
    /// The text the daemon reports for this error.
    pub fn message(&self) -> (r: String)
        ensures
            r@ == "Windows service registration not available on this platform"@,
    {
        owned("Windows service registration not available on this platform")
    }
}

/// The name of the service that runs `layer` for `mesh`.
pub open spec fn service_name(mesh: Seq<char>, layer: Seq<char>) -> Seq<char> {
    "aigosd-"@ + mesh + "@"@ + layer
}

/// Registers the service that runs a layer for a mesh: on Windows the
/// service's name is returned (the registration itself is announced, not
/// performed); elsewhere registration is refused.
pub fn register_service(platform: Platform, mesh_name: &str, layer_name: &str) -> (r: Result<String, ServiceError>)
    ensures
        platform is Windows ==> (r matches Ok(name) && name@ == service_name(mesh_name@, layer_name@)),
        platform is Unix ==> r matches Err(ServiceError::Unsupported),
{
    match platform {
        Platform::Windows => Ok(concat4("aigosd-", mesh_name, "@", layer_name)),
        Platform::Unix => Err(ServiceError::Unsupported),
    }
}

} // verus!
