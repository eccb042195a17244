//! The host side of the plugin protocol: typed requests and responses, and
//! the record of which plugins are active.

use vstd::prelude::*;
use vstd::string::*;
use crate::text::{
    ascending_contains, ascending_insert, ascending_remove, clone_strings, strictly_ascending, texts,
};

verus! {

#[derive(Debug, Clone, PartialEq, Eq)]
pub struct HostRequest {
    pub id: u64,
    pub payload: HostRequestPayload,
}

#[derive(Debug, Clone, PartialEq, Eq)]
pub enum HostRequestPayload {
    Handshake { protocol_version: String, host_capabilities: Vec<String> },
    Activate { plugin_id: String },
    Deactivate { plugin_id: String },
    Reload { plugin_id: String },
    ListActivePlugins,
}

#[derive(Debug, Clone, PartialEq, Eq)]
pub struct HostResponse {
    pub id: u64,
    pub payload: HostResponsePayload,
}

#[derive(Debug, Clone, PartialEq, Eq)]
pub enum HostResponsePayload {
    HandshakeAck { protocol_version: String, host_capabilities: Vec<String> },
    Activated { plugin_id: String },
    Deactivated { plugin_id: String },
    Reloaded { plugin_id: String },
    ActivePlugins { plugin_ids: Vec<String> },
    Error { message: String },
}

#[derive(Debug, Clone)]
pub struct PluginHostRuntime {
    protocol_version: String,
    host_capabilities: Vec<String>,
    active_plugins: Vec<String>,
}

/// What a response says, with texts in place of strings.
pub enum ResponseView {
    HandshakeAck { protocol_version: Seq<char>, host_capabilities: Seq<Seq<char>> },
    Activated { plugin_id: Seq<char> },
    Deactivated { plugin_id: Seq<char> },
    Reloaded { plugin_id: Seq<char> },
    ActivePlugins { plugin_ids: Seq<Seq<char>> },
    Error { message: Seq<char> },
}

pub open spec fn response_view(p: HostResponsePayload) -> ResponseView {
    match p {
        HostResponsePayload::HandshakeAck {
            protocol_version,
            host_capabilities,
        } => ResponseView::HandshakeAck {
            protocol_version: protocol_version@,
            host_capabilities: texts(host_capabilities@),
        },
        HostResponsePayload::Activated { plugin_id } => ResponseView::Activated {
            plugin_id: plugin_id@,
        },
        HostResponsePayload::Deactivated { plugin_id } => ResponseView::Deactivated {
            plugin_id: plugin_id@,
        },
        HostResponsePayload::Reloaded { plugin_id } => ResponseView::Reloaded {
            plugin_id: plugin_id@,
        },
        HostResponsePayload::ActivePlugins { plugin_ids } => ResponseView::ActivePlugins {
            plugin_ids: texts(plugin_ids@),
        },
        HostResponsePayload::Error { message } => ResponseView::Error { message: message@ },
    }
}

/// The answer of a host to a request: a handshake is acknowledged with the
/// host's own version and capabilities; activation and deactivation are
/// confirmed; a reload is confirmed for an active plugin and refused for any
/// other; the list gives the active plugins in ascending order.
pub open spec fn answer(
    version: Seq<char>,
    capabilities: Seq<Seq<char>>,
    active: Seq<Seq<char>>,
    request: HostRequestPayload,
) -> ResponseView {
    match request {
        HostRequestPayload::Handshake { .. } => ResponseView::HandshakeAck {
            protocol_version: version,
            host_capabilities: capabilities,
        },
        HostRequestPayload::Activate { plugin_id } => ResponseView::Activated {
            plugin_id: plugin_id@,
        },
        HostRequestPayload::Deactivate { plugin_id } => ResponseView::Deactivated {
            plugin_id: plugin_id@,
        },
        HostRequestPayload::Reload { plugin_id } => if active.contains(plugin_id@) {
            ResponseView::Reloaded { plugin_id: plugin_id@ }
        } else {
            ResponseView::Error { message: "plugin not active: "@ + plugin_id@ }
        },
        HostRequestPayload::ListActivePlugins => ResponseView::ActivePlugins { plugin_ids: active },
    }
}

/// Whether a plugin is active after a request.
pub open spec fn active_after(active: Seq<Seq<char>>, request: HostRequestPayload, id: Seq<char>) -> bool {
    match request {
        HostRequestPayload::Activate { plugin_id } => active.contains(id) || id == plugin_id@,
        HostRequestPayload::Deactivate { plugin_id } => active.contains(id) && id != plugin_id@,
        _ => active.contains(id),
    }
}

impl PluginHostRuntime {
    /// The protocol version that the host speaks.
    pub closed spec fn version(&self) -> Seq<char> {
        self.protocol_version@
    }

    /// What the host can do, as it was told at its making.
    pub closed spec fn capabilities(&self) -> Seq<Seq<char>> {
        texts(self.host_capabilities@)
    }

    /// The active plugins.
    pub closed spec fn active(&self) -> Seq<Seq<char>> {
        texts(self.active_plugins@)
    }

    /// The active plugins are in ascending order, none twice.
    pub open spec fn wf(&self) -> bool {
        strictly_ascending(self.active())
    }

    /// A host of protocol version 1.0 without active plugins.
    pub fn new(host_capabilities: Vec<String>) -> (h: Self)
        ensures
            h.wf(),
            h.version() == "1.0"@,
            h.capabilities() == texts(host_capabilities@),
            h.active().len() == 0,
    {
        PluginHostRuntime {
            protocol_version: String::from_str("1.0"),
            host_capabilities,
            active_plugins: Vec::new(),
        }
    }

    /// Answers a request, under the request's id, and records activation and
    /// deactivation.
    pub fn handle(&mut self, request: HostRequest) -> (response: HostResponse)
        requires
            old(self).wf(),
        ensures
            final(self).wf(),
            final(self).version() == old(self).version(),
            final(self).capabilities() == old(self).capabilities(),
            response.id == request.id,
            response_view(response.payload) == answer(
                old(self).version(),
                old(self).capabilities(),
                old(self).active(),
                request.payload,
            ),
            forall|id: Seq<char>|
                #[trigger] final(self).active().contains(id) <==> active_after(
                    old(self).active(),
                    request.payload,
                    id,
                ),
            !(request.payload is Activate) && !(request.payload is Deactivate)
                ==> final(self).active() == old(self).active(),
    {
        let HostRequest { id, payload } = request;
        let payload = match payload {
            HostRequestPayload::Handshake { .. } => HostResponsePayload::HandshakeAck {
                protocol_version: self.protocol_version.clone(),
                host_capabilities: clone_strings(&self.host_capabilities),
            },
            HostRequestPayload::Activate { plugin_id } => {
                ascending_insert(&mut self.active_plugins, plugin_id.clone());
                HostResponsePayload::Activated { plugin_id }
            },
            HostRequestPayload::Deactivate { plugin_id } => {
                ascending_remove(&mut self.active_plugins, plugin_id.as_str());
                HostResponsePayload::Deactivated { plugin_id }
            },
            HostRequestPayload::Reload { plugin_id } => {
                if ascending_contains(&self.active_plugins, plugin_id.as_str()) {
                    HostResponsePayload::Reloaded { plugin_id }
                } else {
                    let mut message = String::from_str("plugin not active: ");
                    message.append(plugin_id.as_str());
                    HostResponsePayload::Error { message }
                }
            },
            HostRequestPayload::ListActivePlugins => HostResponsePayload::ActivePlugins {
                plugin_ids: clone_strings(&self.active_plugins),
            },
        };
        HostResponse { id, payload }
    }
}

} // verus!
