//! The systemd user service that runs the daemon.
use vstd::prelude::*;
use vstd::string::StringExecFns;

verus! {

/// The unit file of the service, for the executable at `exe`.
pub open spec fn unit_text(exe: Seq<char>) -> Seq<char> {
    "[Unit]\nDescription=Sotto speech-to-text daemon\nAfter=graphical-session.target pipewire.service\nWants=pipewire.service\nPartOf=graphical-session.target\n\n[Service]\nType=simple\nExecStart="@
        + exe
        + " daemon\nRestart=on-failure\nRestartSec=5\n\n[Install]\nWantedBy=graphical-session.target\n"@
}

/// The unit file of the systemd user service that starts `exe daemon` with
/// the graphical session and restarts it on failure.
pub fn systemd_unit(exe: &str) -> (unit: String)
    ensures
        unit@ == unit_text(exe@),
{
    let mut unit = String::from_str(
        "[Unit]\nDescription=Sotto speech-to-text daemon\nAfter=graphical-session.target pipewire.service\nWants=pipewire.service\nPartOf=graphical-session.target\n\n[Service]\nType=simple\nExecStart=",
    );
    unit.append(exe);
    unit.append(
        " daemon\nRestart=on-failure\nRestartSec=5\n\n[Install]\nWantedBy=graphical-session.target\n",
    );
    unit
}

} // verus!
