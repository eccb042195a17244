//! What a plugin is written against: the context in which it registers its
//! contributions, a typed client for the host protocol, and a guarded view
//! of the terminal.

use vstd::prelude::*;
use vstd::string::*;
use crate::plugin_api::{
    CommandContribution, Contributions, PaneContentSnapshot, PaneStateSnapshot,
    SidebarViewContribution, TabTypeContribution, TerminalTopology,
};
use crate::plugin_host::{
    HostRequest, HostRequestPayload, HostResponse, HostResponsePayload, PluginHostRuntime,
};
use crate::text::{append_decimal, decimal_digits, str_eq, texts};

verus! {

/// Why a call of the SDK failed.
#[derive(Debug, Clone, PartialEq, Eq)]
pub enum SdkError {
    /// The response carries another id than the request.
    MismatchedResponseId { expected: u64, got: u64 },
    /// The host answered a call with a response of another kind; the text
    /// names the call.
    UnexpectedResponse(String),
    /// The host refused, with this message.
    Host(String),
    /// The plugin lacks this permission.
    MissingPermission(String),
    /// The plugin has used up its reads of pane content.
    RateLimited,
    /// A transport or provider failed, with this message.
    Other(String),
}

/// The text of an error.
pub open spec fn error_text(e: SdkError) -> Seq<char> {
    match e {
        SdkError::MismatchedResponseId { expected, got } => "mismatched response id: expected "@
            + decimal_digits(expected as nat) + ", got "@ + decimal_digits(got as nat),
        SdkError::UnexpectedResponse(call) => "unexpected "@ + call@ + " response"@,
        SdkError::Host(message) => message@,
        SdkError::MissingPermission(permission) => "missing required permission: "@ + permission@,
        SdkError::RateLimited => "pane content read rate limit exceeded"@,
        SdkError::Other(message) => message@,
    }
}

impl SdkError {
    /// The error in words.
    pub fn message(&self) -> (s: String)
        ensures
            s@ == error_text(*self),
    {
        match self {
            SdkError::MismatchedResponseId { expected, got } => {
                let mut s = String::from_str("mismatched response id: expected ");
                append_decimal(&mut s, *expected);
                s.append(", got ");
                append_decimal(&mut s, *got);
                s
            },
            SdkError::UnexpectedResponse(call) => {
                let mut s = String::from_str("unexpected ");
                s.append(call.as_str());
                s.append(" response");
                s
            },
            SdkError::Host(message) => message.clone(),
            SdkError::MissingPermission(permission) => {
                let mut s = String::from_str("missing required permission: ");
                s.append(permission.as_str());
                s
            },
            SdkError::RateLimited => String::from_str("pane content read rate limit exceeded"),
            SdkError::Other(message) => message.clone(),
        }
    }
}

/// A plugin: it registers what it contributes when it is activated.
pub trait Plugin {
    fn activate(&mut self, ctx: &mut PluginContext) -> Result<(), SdkError>;

    fn deactivate(&mut self) -> Result<(), SdkError>;
}

#[derive(Debug, Clone, PartialEq, Eq)]
pub struct PluginContext {
    pub plugin_id: String,
    pub contributes: Contributions,
}

impl PluginContext {
    /// A context without contributions.
    pub fn new(plugin_id: &str) -> (c: Self)
        ensures
            c.plugin_id@ == plugin_id@,
            c.contributes.commands@.len() == 0,
            c.contributes.sidebar_views@.len() == 0,
            c.contributes.tab_types@.len() == 0,
    {
        PluginContext { plugin_id: String::from_str(plugin_id), contributes: Contributions::default() }
    }

    pub fn plugin_id(&self) -> (id: &str)
        ensures
            id@ == self.plugin_id@,
    {
        self.plugin_id.as_str()
    }

    /// Adds a command to the contributions.
    pub fn register_command(&mut self, id: &str, title: &str)
        ensures
            final(self).plugin_id == old(self).plugin_id,
            final(self).contributes.sidebar_views == old(self).contributes.sidebar_views,
            final(self).contributes.tab_types == old(self).contributes.tab_types,
            final(self).contributes.commands@.len() == old(self).contributes.commands@.len() + 1,
            final(self).contributes.commands@.drop_last() == old(self).contributes.commands@,
            final(self).contributes.commands@.last().id@ == id@,
            final(self).contributes.commands@.last().title@ == title@,
    {
        self.contributes.commands.push(
            CommandContribution { id: String::from_str(id), title: String::from_str(title) },
        );
        assert(self.contributes.commands@.drop_last() =~= old(self).contributes.commands@);
    }

    /// Adds a sidebar view without icon to the contributions.
    pub fn register_sidebar_view(&mut self, id: &str, title: &str, order: i32)
        ensures
            final(self).plugin_id == old(self).plugin_id,
            final(self).contributes.commands == old(self).contributes.commands,
            final(self).contributes.tab_types == old(self).contributes.tab_types,
            final(self).contributes.sidebar_views@.len() == old(self).contributes.sidebar_views@.len()
                + 1,
            final(self).contributes.sidebar_views@.drop_last() == old(self).contributes.sidebar_views@,
            final(self).contributes.sidebar_views@.last().id@ == id@,
            final(self).contributes.sidebar_views@.last().title@ == title@,
            final(self).contributes.sidebar_views@.last().icon is None,
            final(self).contributes.sidebar_views@.last().order == order,
    {
        self.contributes.sidebar_views.push(
            SidebarViewContribution {
                id: String::from_str(id),
                title: String::from_str(title),
                icon: None,
                order,
            },
        );
        assert(self.contributes.sidebar_views@.drop_last() =~= old(self).contributes.sidebar_views@);
    }

    /// Adds a tab type to the contributions.
    pub fn register_tab_type(&mut self, id: &str, title: &str)
        ensures
            final(self).plugin_id == old(self).plugin_id,
            final(self).contributes.commands == old(self).contributes.commands,
            final(self).contributes.sidebar_views == old(self).contributes.sidebar_views,
            final(self).contributes.tab_types@.len() == old(self).contributes.tab_types@.len() + 1,
            final(self).contributes.tab_types@.drop_last() == old(self).contributes.tab_types@,
            final(self).contributes.tab_types@.last().id@ == id@,
            final(self).contributes.tab_types@.last().title@ == title@,
    {
        self.contributes.tab_types.push(
            TabTypeContribution { id: String::from_str(id), title: String::from_str(title) },
        );
        assert(self.contributes.tab_types@.drop_last() =~= old(self).contributes.tab_types@);
    }

    pub fn contributions(&self) -> (c: &Contributions)
        ensures
            *c == self.contributes,
    {
        &self.contributes
    }
}

/// The way to the host: a request goes out, a response or an error comes
/// back.
pub trait HostTransport {
    /// The transport can take a request.
    spec fn ready(&self) -> bool;

    /// What the transport says of itself: that `r` can come back for the
    /// request, leaving the transport as `after`. A transport that says
    /// nothing has `true` here.
    open spec fn responds(&self, request: HostRequest, r: Result<HostResponse, SdkError>, after: &Self) -> bool {
        true
    }

    fn request(&mut self, request: HostRequest) -> (r: Result<HostResponse, SdkError>)
        requires
            old(self).ready(),
        ensures
            final(self).ready(),
            old(self).responds(request, r, final(self)),
    ;
}

/// A transport with its host in the same process: each request gets the host's answer.
pub struct InMemoryHostTransport {
    pub runtime: PluginHostRuntime,
}

impl InMemoryHostTransport {
    pub fn new(host_capabilities: Vec<String>) -> (t: Self)
        ensures
            t.ready(),
            t.runtime.version() == "1.0"@,
            t.runtime.capabilities() == texts(host_capabilities@),
            t.runtime.active().len() == 0,
    {
        InMemoryHostTransport { runtime: PluginHostRuntime::new(host_capabilities) }
    }
}

impl HostTransport for InMemoryHostTransport {
    open spec fn ready(&self) -> bool {
        self.runtime.wf()
    }

    /// The response is the host's answer to the request, under the request's
    /// id, and the host records activation and deactivation.
    open spec fn responds(&self, request: HostRequest, r: Result<HostResponse, SdkError>, after: &Self) -> bool {
        &&& r is Ok
        &&& r->Ok_0.id == request.id
        &&& crate::plugin_host::response_view(r->Ok_0.payload) == crate::plugin_host::answer(
            self.runtime.version(),
            self.runtime.capabilities(),
            self.runtime.active(),
            request.payload,
        )
        &&& after.runtime.version() == self.runtime.version()
        &&& after.runtime.capabilities() == self.runtime.capabilities()
        &&& forall|id: Seq<char>|
            #[trigger] after.runtime.active().contains(id) <==> crate::plugin_host::active_after(
                self.runtime.active(),
                request.payload,
                id,
            )
    }

    fn request(&mut self, request: HostRequest) -> (r: Result<HostResponse, SdkError>)
    {
        Ok(self.runtime.handle(request))
    }
}

#[derive(Debug, Clone, PartialEq, Eq)]
pub struct HandshakeInfo {
    pub protocol_version: String,
    pub host_capabilities: Vec<String>,
}

/// The payload of a response to the request with id `expected`; a response
/// under another id is an error.
pub fn checked_payload(expected: u64, response: HostResponse) -> (r: Result<
    HostResponsePayload,
    SdkError,
>)
    ensures
        r == if response.id == expected {
            Ok::<HostResponsePayload, SdkError>(response.payload)
        } else {
            Err::<HostResponsePayload, SdkError>(
                SdkError::MismatchedResponseId { expected, got: response.id },
            )
        },
{
    if response.id != expected {
        return Err(SdkError::MismatchedResponseId { expected, got: response.id });
    }
    Ok(response.payload)
}

/// What a handshake yields: the host's version and capabilities from an
/// acknowledgement, an error from anything else.
pub fn handshake_from(payload: HostResponsePayload) -> (r: Result<HandshakeInfo, SdkError>)
    ensures
        match payload {
            HostResponsePayload::HandshakeAck { protocol_version, host_capabilities } => r == Ok::<
                HandshakeInfo,
                SdkError,
            >(HandshakeInfo { protocol_version, host_capabilities }),
            _ => r is Err && r->Err_0 is UnexpectedResponse && r->Err_0->UnexpectedResponse_0@
                == "handshake"@,
        },
{
    match payload {
        HostResponsePayload::HandshakeAck { protocol_version, host_capabilities } => Ok(
            HandshakeInfo { protocol_version, host_capabilities },
        ),
        _ => Err(SdkError::UnexpectedResponse(String::from_str("handshake"))),
    }
}

/// Which call a payload is the good answer to.
#[derive(Debug, Clone, Copy, PartialEq, Eq, Structural)]
pub enum CallKind {
    Activate,
    Deactivate,
}

pub open spec fn call_name(kind: CallKind) -> Seq<char> {
    match kind {
        CallKind::Activate => "activate"@,
        CallKind::Deactivate => "deactivate"@,
    }
}

/// What an activation or a deactivation yields: success from the matching
/// confirmation, the host's message from a refusal, an error from anything
/// else.
pub fn confirmation_from(kind: CallKind, payload: HostResponsePayload) -> (r: Result<(), SdkError>)
    ensures
        match payload {
            HostResponsePayload::Activated { .. } if kind == CallKind::Activate => r is Ok,
            HostResponsePayload::Deactivated { .. } if kind == CallKind::Deactivate => r is Ok,
            HostResponsePayload::Error { message } => r == Err::<(), SdkError>(
                SdkError::Host(message),
            ),
            _ => r is Err && r->Err_0 is UnexpectedResponse && r->Err_0->UnexpectedResponse_0@
                == call_name(kind),
        },
{
    let name = match kind {
        CallKind::Activate => "activate",
        CallKind::Deactivate => "deactivate",
    };
    match payload {
        HostResponsePayload::Activated { .. } => {
            match kind {
                CallKind::Activate => Ok(()),
                CallKind::Deactivate => Err(SdkError::UnexpectedResponse(String::from_str(name))),
            }
        },
        HostResponsePayload::Deactivated { .. } => {
            match kind {
                CallKind::Deactivate => Ok(()),
                CallKind::Activate => Err(SdkError::UnexpectedResponse(String::from_str(name))),
            }
        },
        HostResponsePayload::Error { message } => Err(SdkError::Host(message)),
        _ => Err(SdkError::UnexpectedResponse(String::from_str(name))),
    }
}

/// What a listing yields: the ids from a list, the host's message from a
/// refusal, an error from anything else.
pub fn active_plugins_from(payload: HostResponsePayload) -> (r: Result<Vec<String>, SdkError>)
    ensures
        match payload {
            HostResponsePayload::ActivePlugins { plugin_ids } => r == Ok::<Vec<String>, SdkError>(
                plugin_ids,
            ),
            HostResponsePayload::Error { message } => r == Err::<Vec<String>, SdkError>(
                SdkError::Host(message),
            ),
            _ => r is Err && r->Err_0 is UnexpectedResponse && r->Err_0->UnexpectedResponse_0@
                == "list"@,
        },
{
    match payload {
        HostResponsePayload::ActivePlugins { plugin_ids } => Ok(plugin_ids),
        HostResponsePayload::Error { message } => Err(SdkError::Host(message)),
        _ => Err(SdkError::UnexpectedResponse(String::from_str("list"))),
    }
}

/// What `checked_payload` makes of a response to the request with id `id`.
pub open spec fn checked_result(
    id: u64,
    response: HostResponse,
    r: Result<HostResponsePayload, SdkError>,
) -> bool {
    r == if response.id == id {
        Ok::<HostResponsePayload, SdkError>(response.payload)
    } else {
        Err::<HostResponsePayload, SdkError>(
            SdkError::MismatchedResponseId { expected: id, got: response.id },
        )
    }
}

/// What `handshake_from` makes of a payload.
pub open spec fn handshake_result(payload: HostResponsePayload, r: Result<HandshakeInfo, SdkError>) -> bool {
    match payload {
        HostResponsePayload::HandshakeAck { protocol_version, host_capabilities } => r == Ok::<
            HandshakeInfo,
            SdkError,
        >(HandshakeInfo { protocol_version, host_capabilities }),
        _ => r is Err && r->Err_0 is UnexpectedResponse && r->Err_0->UnexpectedResponse_0@
            == "handshake"@,
    }
}

/// What `confirmation_from` makes of a payload.
pub open spec fn confirmation_result(
    kind: CallKind,
    payload: HostResponsePayload,
    r: Result<(), SdkError>,
) -> bool {
    match payload {
        HostResponsePayload::Activated { .. } if kind == CallKind::Activate => r is Ok,
        HostResponsePayload::Deactivated { .. } if kind == CallKind::Deactivate => r is Ok,
        HostResponsePayload::Error { message } => r == Err::<(), SdkError>(SdkError::Host(message)),
        _ => r is Err && r->Err_0 is UnexpectedResponse && r->Err_0->UnexpectedResponse_0@
            == call_name(kind),
    }
}

/// What `active_plugins_from` makes of a payload.
pub open spec fn listing_result(payload: HostResponsePayload, r: Result<Vec<String>, SdkError>) -> bool {
    match payload {
        HostResponsePayload::ActivePlugins { plugin_ids } => r == Ok::<Vec<String>, SdkError>(
            plugin_ids,
        ),
        HostResponsePayload::Error { message } => r == Err::<Vec<String>, SdkError>(
            SdkError::Host(message),
        ),
        _ => r is Err && r->Err_0 is UnexpectedResponse && r->Err_0->UnexpectedResponse_0@
            == "list"@,
    }
}

/// The request of a handshake with the given version: it names no
/// capabilities.
pub open spec fn is_handshake(payload: HostRequestPayload, version: Seq<char>) -> bool {
    payload matches HostRequestPayload::Handshake { protocol_version, host_capabilities }
        && protocol_version@ == version && host_capabilities@.len() == 0
}

/// The request to activate or to deactivate the plugin.
pub open spec fn is_plugin_request(kind: CallKind, payload: HostRequestPayload, plugin: Seq<char>) -> bool {
    match kind {
        CallKind::Activate => payload matches HostRequestPayload::Activate { plugin_id }
            && plugin_id@ == plugin,
        CallKind::Deactivate => payload matches HostRequestPayload::Deactivate { plugin_id }
            && plugin_id@ == plugin,
    }
}

/// A client of the host protocol. Each call sends one request under a fresh
/// id and reads the response; the ids count up from 1 and stay at the
/// largest once it is reached.
pub struct HostClient<T: HostTransport> {
    pub transport: T,
    pub next_id: u64,
}

/// The id after `id`.
pub open spec fn following_id(id: u64) -> u64 {
    if id == u64::MAX {
        id
    } else {
        (id + 1) as u64
    }
}

impl<T: HostTransport> HostClient<T> {
    /// One exchange took place: `request` went out under the next id and
    /// `response` came back, as the transport says.
    pub open spec fn exchanged(
        &self,
        request: HostRequest,
        response: Result<HostResponse, SdkError>,
        after: &Self,
    ) -> bool {
        &&& request.id == self.next_id
        &&& self.transport.responds(request, response, &after.transport)
        &&& after.transport.ready()
        &&& after.next_id == following_id(self.next_id)
    }

    pub fn new(transport: T) -> (c: Self)
        ensures
            c.transport == transport,
            c.next_id == 1,
    {
        HostClient { transport, next_id: 1 }
    }

    /// Sends one request under the next id and hands back what the transport
    /// gave.
    pub fn exchange(&mut self, payload: HostRequestPayload) -> (r: (
        Ghost<HostRequest>,
        Result<HostResponse, SdkError>,
    ))
        requires
            old(self).transport.ready(),
        ensures
            r.0@.payload == payload,
            old(self).exchanged(r.0@, r.1, final(self)),
    {
        let id = self.next_id;
        self.next_id = if id == u64::MAX {
            id
        } else {
            id + 1
        };
        let request = HostRequest { id, payload };
        let ghost sent = request;
        let response = self.transport.request(request);
        (Ghost(sent), response)
    }

    /// Asks the host for its protocol version and capabilities: a handshake
    /// request goes out, and the result is the transport's error, a
    /// mismatch of ids, or what the payload gives as a handshake.
    pub fn handshake(&mut self, protocol_version: &str) -> (r: Result<HandshakeInfo, SdkError>)
        requires
            old(self).transport.ready(),
        ensures
            final(self).transport.ready(),
            final(self).next_id == following_id(old(self).next_id),
            exists|request: HostRequest, response: Result<HostResponse, SdkError>|
                #[trigger] old(self).exchanged(request, response, final(self)) && is_handshake(
                    request.payload,
                    protocol_version@,
                ) && match response {
                    Err(e) => r == Err::<HandshakeInfo, SdkError>(e),
                    Ok(response) => if response.id == old(self).next_id {
                        handshake_result(response.payload, r)
                    } else {
                        r == Err::<HandshakeInfo, SdkError>(
                            SdkError::MismatchedResponseId {
                                expected: old(self).next_id,
                                got: response.id,
                            },
                        )
                    },
                },
    {
        let id = self.next_id;
        let (sent, response) = self.exchange(
            HostRequestPayload::Handshake {
                protocol_version: String::from_str(protocol_version),
                host_capabilities: Vec::new(),
            },
        );
        let r = match response {
            Err(e) => Err(e),
            Ok(response) => match checked_payload(id, response) {
                Err(e) => Err(e),
                Ok(payload) => handshake_from(payload),
            },
        };
        assert(old(self).exchanged(sent@, response, self) && is_handshake(
            sent@.payload,
            protocol_version@,
        ));
        r
    }

    /// Asks the host to activate a plugin.
    pub fn activate(&mut self, plugin_id: &str) -> (r: Result<(), SdkError>)
        requires
            old(self).transport.ready(),
        ensures
            final(self).transport.ready(),
            final(self).next_id == following_id(old(self).next_id),
            old(self).confirmed(CallKind::Activate, plugin_id@, r, final(self)),
    {
        self.confirm(
            CallKind::Activate,
            HostRequestPayload::Activate { plugin_id: String::from_str(plugin_id) },
            Ghost(plugin_id@),
        )
    }

    /// Asks the host to deactivate a plugin.
    pub fn deactivate(&mut self, plugin_id: &str) -> (r: Result<(), SdkError>)
        requires
            old(self).transport.ready(),
        ensures
            final(self).transport.ready(),
            final(self).next_id == following_id(old(self).next_id),
            old(self).confirmed(CallKind::Deactivate, plugin_id@, r, final(self)),
    {
        self.confirm(
            CallKind::Deactivate,
            HostRequestPayload::Deactivate { plugin_id: String::from_str(plugin_id) },
            Ghost(plugin_id@),
        )
    }

    /// A call to activate or deactivate `plugin` ended in `r`: the request
    /// went out, and the result is the transport's error, a mismatch of ids,
    /// or what the payload gives as a confirmation.
    pub open spec fn confirmed(
        &self,
        kind: CallKind,
        plugin: Seq<char>,
        r: Result<(), SdkError>,
        after: &Self,
    ) -> bool {
        exists|request: HostRequest, response: Result<HostResponse, SdkError>|
            #[trigger] self.exchanged(request, response, after) && is_plugin_request(
                kind,
                request.payload,
                plugin,
            ) && match response {
                Err(e) => r == Err::<(), SdkError>(e),
                Ok(response) => if response.id == self.next_id {
                    confirmation_result(kind, response.payload, r)
                } else {
                    r == Err::<(), SdkError>(
                        SdkError::MismatchedResponseId { expected: self.next_id, got: response.id },
                    )
                },
            }
    }

    fn confirm(&mut self, kind: CallKind, payload: HostRequestPayload, plugin: Ghost<Seq<char>>) -> (r:
        Result<(), SdkError>)
        requires
            old(self).transport.ready(),
            is_plugin_request(kind, payload, plugin@),
        ensures
            final(self).transport.ready(),
            final(self).next_id == following_id(old(self).next_id),
            old(self).confirmed(kind, plugin@, r, final(self)),
    {
        let id = self.next_id;
        let (sent, response) = self.exchange(payload);
        let r = match response {
            Err(e) => Err(e),
            Ok(response) => match checked_payload(id, response) {
                Err(e) => Err(e),
                Ok(payload) => confirmation_from(kind, payload),
            },
        };
        assert(old(self).exchanged(sent@, response, self) && is_plugin_request(
            kind,
            sent@.payload,
            plugin@,
        ));
        r
    }

    /// Asks the host for the active plugins: a list request goes out, and
    /// the result is the transport's error, a mismatch of ids, or what the
    /// payload gives as a listing.
    pub fn list_active_plugins(&mut self) -> (r: Result<Vec<String>, SdkError>)
        requires
            old(self).transport.ready(),
        ensures
            final(self).transport.ready(),
            final(self).next_id == following_id(old(self).next_id),
            exists|request: HostRequest, response: Result<HostResponse, SdkError>|
                #[trigger] old(self).exchanged(request, response, final(self)) && request.payload
                    is ListActivePlugins && match response {
                    Err(e) => r == Err::<Vec<String>, SdkError>(e),
                    Ok(response) => if response.id == old(self).next_id {
                        listing_result(response.payload, r)
                    } else {
                        r == Err::<Vec<String>, SdkError>(
                            SdkError::MismatchedResponseId {
                                expected: old(self).next_id,
                                got: response.id,
                            },
                        )
                    },
                },
    {
        let id = self.next_id;
        let (sent, response) = self.exchange(HostRequestPayload::ListActivePlugins);
        let r = match response {
            Err(e) => Err(e),
            Ok(response) => match checked_payload(id, response) {
                Err(e) => Err(e),
                Ok(payload) => active_plugins_from(payload),
            },
        };
        assert(old(self).exchanged(sent@, response, self) && sent@.payload is ListActivePlugins);
        r
    }

    /// Sends one request under the next id and checks the id of the
    /// response: the result is the transport's error, a mismatch of ids, or
    /// the payload.
    pub fn call(&mut self, payload: HostRequestPayload) -> (r: Result<HostResponsePayload, SdkError>)
        requires
            old(self).transport.ready(),
        ensures
            final(self).transport.ready(),
            final(self).next_id == following_id(old(self).next_id),
            exists|request: HostRequest, response: Result<HostResponse, SdkError>|
                #[trigger] old(self).exchanged(request, response, final(self)) && request.payload
                    == payload && match response {
                    Err(e) => r == Err::<HostResponsePayload, SdkError>(e),
                    Ok(response) => checked_result(old(self).next_id, response, r),
                },
    {
        let id = self.next_id;
        let (sent, response) = self.exchange(payload);
        let r = match response {
            Err(e) => Err(e),
            Ok(response) => checked_payload(id, response),
        };
        assert(old(self).exchanged(sent@, response, self) && sent@.payload == payload);
        r
    }
}

/// Where snapshots of the terminal come from.
pub trait TerminalSnapshotProvider {
    /// What the provider says of its topology: that `r` can be it. A
    /// provider that says nothing has `true` here, and so below.
    open spec fn gives_topology(&self, r: Result<TerminalTopology, SdkError>) -> bool {
        true
    }

    open spec fn gives_pane_states(&self, r: Result<Vec<PaneStateSnapshot>, SdkError>) -> bool {
        true
    }

    open spec fn gives_pane_content(
        &self,
        pane_id: u64,
        max_lines: usize,
        r: Result<PaneContentSnapshot, SdkError>,
    ) -> bool {
        true
    }

    fn topology(&self) -> (r: Result<TerminalTopology, SdkError>)
        ensures
            self.gives_topology(r),
    ;

    fn pane_states(&self) -> (r: Result<Vec<PaneStateSnapshot>, SdkError>)
        ensures
            self.gives_pane_states(r),
    ;

    /// Up to `max_lines` lines of a pane; the caller asks for 1 to 2000.
    fn pane_content(&self, pane_id: u64, max_lines: usize) -> (r: Result<
        PaneContentSnapshot,
        SdkError,
    >)
        requires
            1 <= max_lines <= 2000,
        ensures
            self.gives_pane_content(pane_id, max_lines, r),
    ;
}

/// A plugin's view of the terminal: each read needs its permission, and
/// reads of pane content are counted against a limit.
pub struct TerminalIntrospectionApi<P: TerminalSnapshotProvider> {
    pub provider: P,
    pub permissions: Vec<String>,
    pub max_content_reads: u32,
    pub content_reads: u32,
}

/// `n`, kept between 1 and 2000.
pub open spec fn bounded_lines(n: usize) -> usize {
    if n < 1 {
        1
    } else if n > 2000 {
        2000
    } else {
        n
    }
}

impl<P: TerminalSnapshotProvider> TerminalIntrospectionApi<P> {
    /// The plugin holds the permission.
    pub open spec fn permits(&self, permission: Seq<char>) -> bool {
        texts(self.permissions@).contains(permission)
    }

    /// A view with the given permissions and a limit of at least one read of
    /// pane content.
    pub fn new(provider: P, permissions: Vec<String>, max_content_reads: u32) -> (api: Self)
        ensures
            api.provider == provider,
            api.permissions == permissions,
            api.max_content_reads == if max_content_reads < 1 {
                1
            } else {
                max_content_reads
            },
            api.content_reads == 0,
    {
        TerminalIntrospectionApi {
            provider,
            permissions,
            max_content_reads: if max_content_reads < 1 {
                1
            } else {
                max_content_reads
            },
            content_reads: 0,
        }
    }

    /// The workspaces and panes; needs `terminal.topology.read`.
    pub fn topology(&mut self) -> (r: Result<TerminalTopology, SdkError>)
        ensures
            *final(self) == *old(self),
            !old(self).permits("terminal.topology.read"@) ==> r is Err && r->Err_0
                is MissingPermission && r->Err_0->MissingPermission_0@
                == "terminal.topology.read"@,
            old(self).permits("terminal.topology.read"@) ==> old(self).provider.gives_topology(r),
    {
        match self.require_permission("terminal.topology.read") {
            Err(e) => Err(e),
            Ok(()) => self.provider.topology(),
        }
    }

    /// The state of each pane; needs `terminal.pane.state.read`.
    pub fn pane_states(&mut self) -> (r: Result<Vec<PaneStateSnapshot>, SdkError>)
        ensures
            *final(self) == *old(self),
            !old(self).permits("terminal.pane.state.read"@) ==> r is Err && r->Err_0
                is MissingPermission && r->Err_0->MissingPermission_0@
                == "terminal.pane.state.read"@,
            old(self).permits("terminal.pane.state.read"@) ==> old(self).provider.gives_pane_states(r),
    {
        match self.require_permission("terminal.pane.state.read") {
            Err(e) => Err(e),
            Ok(()) => self.provider.pane_states(),
        }
    }

    /// The text of a pane; needs `terminal.pane.content.read` and a read left
    /// under the limit. The provider is asked for 1 to 2000 lines. A read
    /// that is let through counts, whatever the provider answers.
    pub fn pane_content(&mut self, pane_id: u64, max_lines: usize) -> (r: Result<
        PaneContentSnapshot,
        SdkError,
    >)
        ensures
            final(self).provider == old(self).provider,
            final(self).permissions == old(self).permissions,
            final(self).max_content_reads == old(self).max_content_reads,
            !old(self).permits("terminal.pane.content.read"@) ==> r is Err && r->Err_0
                is MissingPermission && r->Err_0->MissingPermission_0@
                == "terminal.pane.content.read"@ && final(self).content_reads == old(self).content_reads,
            old(self).permits("terminal.pane.content.read"@) && old(self).content_reads >= old(self).max_content_reads ==> r == Err::<PaneContentSnapshot, SdkError>(SdkError::RateLimited)
                && final(self).content_reads == old(self).content_reads,
            old(self).permits("terminal.pane.content.read"@) && old(self).content_reads < old(self).max_content_reads ==> final(self).content_reads == old(self).content_reads + 1
                && old(self).provider.gives_pane_content(pane_id, bounded_lines(max_lines), r),
    {
        match self.require_permission("terminal.pane.content.read") {
            Err(e) => {
                return Err(e);
            },
            Ok(()) => {},
        }
        if self.content_reads >= self.max_content_reads {
            return Err(SdkError::RateLimited);
        }
        self.content_reads = self.content_reads + 1;
        let bounded: usize = if max_lines < 1 {
            1
        } else if max_lines > 2000 {
            2000
        } else {
            max_lines
        };
        self.provider.pane_content(pane_id, bounded)
    }

    /// Succeeds exactly if the plugin holds the permission.
    pub fn require_permission(&self, permission: &str) -> (r: Result<(), SdkError>)
        ensures
            self.permits(permission@) ==> r is Ok,
            !self.permits(permission@) ==> r is Err && r->Err_0 is MissingPermission
                && r->Err_0->MissingPermission_0@ == permission@,
    {
        let mut i: usize = 0;
        while i < self.permissions.len()
            invariant
                i <= self.permissions@.len(),
                forall|k: int| 0 <= k < i ==> (#[trigger] self.permissions@[k])@ != permission@,
            decreases self.permissions@.len() - i,
        {
            if str_eq(self.permissions[i].as_str(), permission) {
                assert(texts(self.permissions@)[i as int] == permission@);
                return Ok(());
            }
            i += 1;
        }
        proof {
            let t = texts(self.permissions@);
            if t.contains(permission@) {
                let k = choose|k: int| 0 <= k < t.len() && t[k] == permission@;
                assert(self.permissions@[k]@ == permission@);
            }
        }
        Err(SdkError::MissingPermission(String::from_str(permission)))
    }
}

} // verus!
