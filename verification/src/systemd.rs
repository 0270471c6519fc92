//! systemd unit files for running one layer of one mesh as a service.
use vstd::prelude::*;
use vstd::string::*;
use crate::text::{concat4, owned};

verus! {

/// The unit file that runs `layer` for `mesh` as an unprivileged service.
pub open spec fn service_template(mesh: Seq<char>, layer: Seq<char>) -> Seq<char> {
    "[Unit]\nDescription=AIGOS Layer "@ + layer + " (mesh "@ + mesh
        + ")\nAfter=network.target\nWants=network-online.target\n\n[Service]\nType=simple\nUser=aigos\nGroup=aigos\nWorkingDirectory=/var/lib/aigos\nEnvironmentFile=-/etc/aigos/env\nExecStart=/usr/local/bin/"@
        + layer + " --mesh "@ + mesh
        + "\nRestart=on-failure\nRestartSec=5\nKillMode=mixed\nKillSignal=SIGTERM\nSendSIGKILL=no\nTimeoutStopSec=30\n\n[Install]\nWantedBy=multi-user.target\n"@
}

/// The unit file that runs `layer_name` for `mesh_name` as a service.
pub fn generate_service_template(mesh_name: &str, layer_name: &str) -> (r: String)
    ensures
        r@ == service_template(mesh_name@, layer_name@),
{
    let mut r = owned("[Unit]\nDescription=AIGOS Layer ");
    r.append(layer_name);
    r.append(" (mesh ");
    r.append(mesh_name);
    r.append(
        ")\nAfter=network.target\nWants=network-online.target\n\n[Service]\nType=simple\nUser=aigos\nGroup=aigos\nWorkingDirectory=/var/lib/aigos\nEnvironmentFile=-/etc/aigos/env\nExecStart=/usr/local/bin/",
    );
    r.append(layer_name);
    r.append(" --mesh ");
    r.append(mesh_name);
    r.append(
        "\nRestart=on-failure\nRestartSec=5\nKillMode=mixed\nKillSignal=SIGTERM\nSendSIGKILL=no\nTimeoutStopSec=30\n\n[Install]\nWantedBy=multi-user.target\n",
    );
    r
}

/// The file name of the unit for `layer` of `mesh`.
pub open spec fn service_file_name_spec(mesh: Seq<char>, layer: Seq<char>) -> Seq<char> {
    "aigosd-"@ + mesh + "@"@ + layer + ".service"@
}

/// The file name of the unit for a layer of a mesh.
pub fn service_file_name(mesh_name: &str, layer_name: &str) -> (r: String)
    ensures
        r@ == service_file_name_spec(mesh_name@, layer_name@),
{
    let mut r = concat4("aigosd-", mesh_name, "@", layer_name);
    r.append(".service");
    r
}

} // verus!
