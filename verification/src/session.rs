//! MCP session management: the state of one initialized connection, its
//! resource subscriptions, log level and per-session key-value state.
use vstd::prelude::*;
use crate::store::{StrMap, StrSet};

verus! {

broadcast use vstd::string::group_string_axioms;

/// The name and version of a server.
#[derive(Debug, Clone)]
pub struct ServerInfo {
    /// Server name.
    pub name: String,
    /// Server version.
    pub version: String,
}

/// The name and version of a client.
#[derive(Debug, Clone)]
pub struct ClientInfo {
    /// Client name.
    pub name: String,
    /// Client version.
    pub version: String,
}

/// The client can sample LLM completions for the server.
#[derive(Debug, Clone, Default)]
pub struct SamplingCapability {}

/// The client can ask its user for input, in the modes given.
#[derive(Debug, Clone, Default)]
pub struct ElicitationCapability {
    /// Form-based elicitation.
    pub form: bool,
    /// URL-based elicitation.
    pub url: bool,
}

impl ElicitationCapability {
    /// Form-based elicitation only.
    pub fn form() -> (c: Self)
        ensures
            c.form && !c.url,
    {
        ElicitationCapability { form: true, url: false }
    }

    /// Both form- and URL-based elicitation.
    pub fn both() -> (c: Self)
        ensures
            c.form && c.url,
    {
        ElicitationCapability { form: true, url: true }
    }
}

/// The client can list its roots.
#[derive(Debug, Clone, Default)]
pub struct RootsCapability {
    /// Whether the client notifies of changes to its roots.
    pub list_changed: bool,
}

/// What a client declares it can do.
#[derive(Debug, Clone, Default)]
pub struct ClientCapabilities {
    /// Sampling, if supported.
    pub sampling: Option<SamplingCapability>,
    /// Elicitation, if supported.
    pub elicitation: Option<ElicitationCapability>,
    /// Roots listing, if supported.
    pub roots: Option<RootsCapability>,
}

/// The server offers tools.
#[derive(Debug, Clone, Default)]
pub struct ToolsCapability {
    /// Whether the server notifies of changes to its tools.
    pub list_changed: bool,
}

/// The server offers resources.
#[derive(Debug, Clone, Default)]
pub struct ResourcesCapability {
    /// Whether clients can subscribe to resource updates.
    pub subscribe: bool,
    /// Whether the server notifies of changes to its resources.
    pub list_changed: bool,
}

/// The server offers prompts.
#[derive(Debug, Clone, Default)]
pub struct PromptsCapability {
    /// Whether the server notifies of changes to its prompts.
    pub list_changed: bool,
}

/// The server sends log messages.
#[derive(Debug, Clone, Default)]
pub struct LoggingCapability {}

/// The server runs background tasks.
#[derive(Debug, Clone, Default)]
pub struct TasksCapability {
    /// Whether the server notifies of changes to its tasks.
    pub list_changed: bool,
}

/// What a server declares it can do.
#[derive(Debug, Clone, Default)]
pub struct ServerCapabilities {
    /// Tools, if offered.
    pub tools: Option<ToolsCapability>,
    /// Resources, if offered.
    pub resources: Option<ResourcesCapability>,
    /// Prompts, if offered.
    pub prompts: Option<PromptsCapability>,
    /// Logging, if offered.
    pub logging: Option<LoggingCapability>,
    /// Tasks, if offered.
    pub tasks: Option<TasksCapability>,
}

/// The severity of a log message.
#[derive(Debug, Clone, Copy, PartialEq, Eq, Structural)]
pub enum LogLevel {
    /// Debugging detail.
    Debug,
    /// Information.
    Info,
    /// A warning.
    Warning,
    /// An error.
    Error,
}

/// Per-session key-value state: JSON texts by key.
#[derive(Debug, Clone)]
pub struct SessionState {
    values: StrMap<String>,
}

impl View for SessionState {
    type V = Map<Seq<char>, Seq<char>>;

    closed spec fn view(&self) -> Map<Seq<char>, Seq<char>> {
        crate::store::text_values(self.values@)
    }
}

impl SessionState {
    /// An empty state.
    pub fn new() -> (s: Self)
        ensures
            s@ == Map::<Seq<char>, Seq<char>>::empty(),
    {
        let s = SessionState { values: StrMap::new() };
        assert(s@ =~= Map::<Seq<char>, Seq<char>>::empty());
        s
    }

    /// The JSON text stored under `key`, if any.
    pub fn get(&self, key: &str) -> (r: Option<&String>)
        ensures
            match r {
                Some(v) => self@.dom().contains(key@) && self@[key@] == v@,
                None => !self@.dom().contains(key@),
            },
    {
        self.values.get(key)
    }

    /// Stores the JSON text `json` under `key`, replacing any earlier one.
    pub fn set(&mut self, key: String, json: String)
        ensures
            final(self)@ == old(self)@.insert(key@, json@),
    {
        let ghost k = key@;
        let ghost j = json@;
        self.values.insert(key, json);
        assert(self@ =~= old(self)@.insert(k, j));
    }

    /// Removes what is stored under `key`.
    pub fn remove(&mut self, key: &str)
        ensures
            final(self)@ == old(self)@.remove(key@),
    {
        self.values.remove(key);
        assert(self@ =~= old(self)@.remove(key@));
    }
}

impl Default for SessionState {
    /// An empty state.
    fn default() -> (s: Self)
        ensures
            s@ == Map::<Seq<char>, Seq<char>>::empty(),
    {
        Self::new()
    }
}

/// The notification that a subscribed resource changed.
#[derive(Debug, Clone)]
pub struct ResourceUpdatedNotification {
    /// The notification method, `notifications/resources/updated`.
    pub method: String,
    /// The URI of the resource that changed.
    pub uri: String,
}

/// An MCP session between client and server.
///
/// Tracks the state of an initialized MCP connection.
#[derive(Debug)]
pub struct Session {
    /// Whether the session has been initialized.
    initialized: bool,
    /// Client info from initialization.
    client_info: Option<ClientInfo>,
    /// Client capabilities from initialization.
    client_capabilities: Option<ClientCapabilities>,
    /// Server info.
    server_info: ServerInfo,
    /// Server capabilities.
    server_capabilities: ServerCapabilities,
    /// Negotiated protocol version.
    protocol_version: Option<String>,
    /// Resource subscriptions for this session.
    resource_subscriptions: StrSet,
    /// Session-scoped log level for log notifications.
    log_level: Option<LogLevel>,
    /// Per-session state storage.
    state: SessionState,
}

impl Session {
    /// Whether the session has been initialized.
    pub closed spec fn initialized(&self) -> bool {
        self.initialized
    }

    /// The client info and capabilities, if initialized.
    pub closed spec fn client(&self) -> (Option<ClientInfo>, Option<ClientCapabilities>) {
        (self.client_info, self.client_capabilities)
    }

    /// The server info and capabilities.
    pub closed spec fn server(&self) -> (ServerInfo, ServerCapabilities) {
        (self.server_info, self.server_capabilities)
    }

    /// The negotiated protocol version, if any.
    pub closed spec fn version(&self) -> Option<Seq<char>> {
        match self.protocol_version {
            Some(v) => Some(v@),
            None => None,
        }
    }

    /// The URIs of the subscribed resources.
    pub closed spec fn subscriptions(&self) -> Set<Seq<char>> {
        self.resource_subscriptions@
    }

    /// The session's log level, if set.
    pub closed spec fn level(&self) -> Option<LogLevel> {
        self.log_level
    }

    /// The per-session state.
    pub closed spec fn state_view(&self) -> Map<Seq<char>, Seq<char>> {
        self.state@
    }

    /// Creates a new uninitialized session.
    pub fn new(server_info: ServerInfo, server_capabilities: ServerCapabilities) -> (s: Self)
        ensures
            !s.initialized(),
            s.client() == (None::<ClientInfo>, None::<ClientCapabilities>),
            s.server() == (server_info, server_capabilities),
            s.version() is None,
            s.subscriptions() == Set::<Seq<char>>::empty(),
            s.level() is None,
            s.state_view() == Map::<Seq<char>, Seq<char>>::empty(),
    {
        Session {
            initialized: false,
            client_info: None,
            client_capabilities: None,
            server_info,
            server_capabilities,
            protocol_version: None,
            resource_subscriptions: StrSet::new(),
            log_level: None,
            state: SessionState::new(),
        }
    }

    /// Returns the session state.
    ///
    /// Session state persists across requests within this session and can be
    /// used to store handler-specific data.
    pub fn state(&self) -> (s: &SessionState)
        ensures
            s@ == self.state_view(),
    {
        &self.state
    }

    /// Returns the session state for changing it.
    pub fn state_mut(&mut self) -> (s: &mut SessionState)
        ensures
            (*s)@ == old(self).state_view(),
            final(self).state_view() == final(s)@,
            final(self).initialized() == old(self).initialized(),
            final(self).client() == old(self).client(),
            final(self).server() == old(self).server(),
            final(self).version() == old(self).version(),
            final(self).subscriptions() == old(self).subscriptions(),
            final(self).level() == old(self).level(),
    {
        &mut self.state
    }

    /// Returns whether the session has been initialized.
    pub fn is_initialized(&self) -> (b: bool)
        ensures
            b == self.initialized(),
    {
        self.initialized
    }

    /// Initializes the session with client info; subscriptions, log level
    /// and state are kept.
    pub fn initialize(
        &mut self,
        client_info: ClientInfo,
        client_capabilities: ClientCapabilities,
        protocol_version: String,
    )
        ensures
            final(self).initialized(),
            final(self).client() == (Some(client_info), Some(client_capabilities)),
            final(self).version() == Some(protocol_version@),
            final(self).server() == old(self).server(),
            final(self).subscriptions() == old(self).subscriptions(),
            final(self).level() == old(self).level(),
            final(self).state_view() == old(self).state_view(),
    {
        self.client_info = Some(client_info);
        self.client_capabilities = Some(client_capabilities);
        self.protocol_version = Some(protocol_version);
        self.initialized = true;
    }

    /// Returns the client info if initialized.
    pub fn client_info(&self) -> (r: Option<&ClientInfo>)
        ensures
            match r {
                Some(c) => self.client().0 == Some(*c),
                None => self.client().0 is None,
            },
    {
        match &self.client_info {
            Some(c) => Some(c),
            None => None,
        }
    }

    /// Returns the client capabilities if initialized.
    pub fn client_capabilities(&self) -> (r: Option<&ClientCapabilities>)
        ensures
            match r {
                Some(c) => self.client().1 == Some(*c),
                None => self.client().1 is None,
            },
    {
        match &self.client_capabilities {
            Some(c) => Some(c),
            None => None,
        }
    }

    /// Returns the server info.
    pub fn server_info(&self) -> (r: &ServerInfo)
        ensures
            *r == self.server().0,
    {
        &self.server_info
    }

    /// Returns the server capabilities.
    pub fn server_capabilities(&self) -> (r: &ServerCapabilities)
        ensures
            *r == self.server().1,
    {
        &self.server_capabilities
    }

    /// Returns the negotiated protocol version.
    pub fn protocol_version(&self) -> (r: Option<&str>)
        ensures
            match r {
                Some(v) => self.version() == Some(v@),
                None => self.version() is None,
            },
    {
        match &self.protocol_version {
            Some(v) => Some(v.as_str()),
            None => None,
        }
    }

    /// Subscribes to a resource URI for this session.
    pub fn subscribe_resource(&mut self, uri: String)
        ensures
            final(self).subscriptions() == old(self).subscriptions().insert(uri@),
            final(self).initialized() == old(self).initialized(),
            final(self).client() == old(self).client(),
            final(self).server() == old(self).server(),
            final(self).version() == old(self).version(),
            final(self).level() == old(self).level(),
            final(self).state_view() == old(self).state_view(),
    {
        let ghost u = uri@;
        self.resource_subscriptions.insert(uri);
        assert(self.subscriptions() =~= old(self).subscriptions().insert(u));
    }

    /// Unsubscribes from a resource URI for this session.
    pub fn unsubscribe_resource(&mut self, uri: &str)
        ensures
            final(self).subscriptions() == old(self).subscriptions().remove(uri@),
            final(self).initialized() == old(self).initialized(),
            final(self).client() == old(self).client(),
            final(self).server() == old(self).server(),
            final(self).version() == old(self).version(),
            final(self).level() == old(self).level(),
            final(self).state_view() == old(self).state_view(),
    {
        self.resource_subscriptions.remove(uri);
        assert(self.subscriptions() =~= old(self).subscriptions().remove(uri@));
    }

    /// Returns true if this session is subscribed to the given resource URI.
    pub fn is_resource_subscribed(&self, uri: &str) -> (b: bool)
        ensures
            b == self.subscriptions().contains(uri@),
    {
        self.resource_subscriptions.contains(uri)
    }

    /// Sets the session log level for log notifications.
    pub fn set_log_level(&mut self, level: LogLevel)
        ensures
            final(self).level() == Some(level),
            final(self).initialized() == old(self).initialized(),
            final(self).client() == old(self).client(),
            final(self).server() == old(self).server(),
            final(self).version() == old(self).version(),
            final(self).subscriptions() == old(self).subscriptions(),
            final(self).state_view() == old(self).state_view(),
    {
        self.log_level = Some(level);
    }

    /// Returns the current session log level for log notifications.
    pub fn log_level(&self) -> (r: Option<LogLevel>)
        ensures
            r == self.level(),
    {
        self.log_level
    }

    /// Returns whether the client supports sampling (LLM completions).
    pub fn supports_sampling(&self) -> (b: bool)
        ensures
            b == (self.client().1 matches Some(c) && c.sampling is Some),
    {
        match &self.client_capabilities {
            Some(c) => c.sampling.is_some(),
            None => false,
        }
    }

    /// Returns whether the client supports elicitation (user input requests).
    pub fn supports_elicitation(&self) -> (b: bool)
        ensures
            b == (self.client().1 matches Some(c) && c.elicitation is Some),
    {
        match &self.client_capabilities {
            Some(c) => c.elicitation.is_some(),
            None => false,
        }
    }

    /// Returns whether the client supports roots listing.
    pub fn supports_roots(&self) -> (b: bool)
        ensures
            b == (self.client().1 matches Some(c) && c.roots is Some),
    {
        match &self.client_capabilities {
            Some(c) => c.roots.is_some(),
            None => false,
        }
    }

    /// The resource-updated notification to send for `uri`: one where the
    /// session is subscribed to it, none otherwise.
    pub fn notify_resource_updated(&self, uri: &str) -> (r: Option<ResourceUpdatedNotification>)
        ensures
            r is Some <==> self.subscriptions().contains(uri@),
            r matches Some(n) ==> n.method@ == "notifications/resources/updated"@ && n.uri@ == uri@,
    {
        if !self.is_resource_subscribed(uri) {
            return None;
        }
        let method = "notifications/resources/updated".to_string();
        Some(ResourceUpdatedNotification { method, uri: uri.to_string() })
    }
}

} // verus!

verus! {

/// Subscribing makes a URI subscribed, subscribing twice is subscribing
/// once, and unsubscribing a URI that was not subscribed before undoes the
/// subscription, leaving every other URI as it was.
pub proof fn law_subscription_roundtrip(subscriptions: Set<Seq<char>>, uri: Seq<char>)
    ensures
        subscriptions.insert(uri).contains(uri),
        subscriptions.insert(uri).insert(uri) == subscriptions.insert(uri),
        !subscriptions.insert(uri).remove(uri).contains(uri),
        !subscriptions.contains(uri) ==> subscriptions.insert(uri).remove(uri) == subscriptions,
        forall|other: Seq<char>| other != uri ==> (#[trigger] subscriptions.insert(uri).remove(uri).contains(other)
            == subscriptions.contains(other)),
{
    assert(subscriptions.insert(uri).insert(uri) =~= subscriptions.insert(uri));
    if !subscriptions.contains(uri) {
        assert(subscriptions.insert(uri).remove(uri) =~= subscriptions);
    }
}

} // verus!
