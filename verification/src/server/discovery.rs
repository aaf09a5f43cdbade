//! Letting clients on the local network find the server.

use vstd::prelude::*;

verus! {

/// The UDP port on which the server answers discovery requests.
pub const DISCOVERY_PORT: u16 = 8082;

/// What a client on the local network is told of the server.
#[derive(Debug, Clone, Copy, PartialEq, Eq)]
pub struct ServiceInfo {
    pub name: &'static str,
    /// The port for audio and control messages.
    pub ws_port: u16,
    /// The port of the management interface.
    pub web_port: u16,
}

impl ServiceInfo {
    /// What is told of a server on these ports.
    pub fn new(ws_port: u16, web_port: u16) -> (info: Self)
        ensures
            info.name@ == "AudioRelay"@,
            info.ws_port == ws_port,
            info.web_port == web_port,
    {
        ServiceInfo { name: "AudioRelay", ws_port, web_port }
    }
}

/// A client that looks for the server is told its name and its two ports.
pub proof fn law_service_is_told(ws_port: u16, web_port: u16, info: ServiceInfo)
    requires
        call_ensures(ServiceInfo::new, (ws_port, web_port), info),
    ensures
        info.name@ == "AudioRelay"@,
        info.ws_port == ws_port,
        info.web_port == web_port,
{
}

} // verus!
