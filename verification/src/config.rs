//! The configuration of a mail provider, as it is detected for an email
//! address: the servers to retrieve and to send mail, and how to log in.

use crate::attachment::opt_text;
use crate::protocol::ConnectionSecurity;
use crate::text::texts;
use vstd::prelude::*;

verus! {

/// The kinds of server of a configuration.
#[derive(Debug, Clone, Copy, PartialEq, Eq, Hash, Structural)]
pub enum ServerConfigType {
    Imap,
    Pop,
    Smtp,
    Exchange,
}

impl ServerConfigType {
    /// Whether a server of this kind sends mail.
    pub fn is_outgoing(&self) -> (outgoing: bool)
        ensures
            outgoing == (*self == ServerConfigType::Smtp),
    {
        match self {
            Self::Smtp => true,
            _ => false,
        }
    }
}

/// How a user proves who they are.
#[derive(Debug, Clone, Copy, PartialEq, Eq, Structural)]
pub enum AuthenticationType {
    ClearText,
    Encrypted,
    OAuth2,
    /// The user need not prove anything.
    NoAuth,
    Unknown,
}

/// What a [`ServerConfig`] holds.
pub struct ServerConfigView {
    pub kind: ServerConfigType,
    pub port: u16,
    pub domain: Seq<char>,
    pub security: ConnectionSecurity,
    pub auth_type: Seq<AuthenticationType>,
}

/// One server of a configuration.
#[derive(Debug)]
pub struct ServerConfig {
    kind: ServerConfigType,
    port: u16,
    domain: String,
    security: ConnectionSecurity,
    auth_type: Vec<AuthenticationType>,
}

impl View for ServerConfig {
    type V = ServerConfigView;

    closed spec fn view(&self) -> ServerConfigView {
        ServerConfigView {
            kind: self.kind,
            port: self.port,
            domain: self.domain@,
            security: self.security,
            auth_type: self.auth_type@,
        }
    }
}

impl Clone for ServerConfig {
    fn clone(&self) -> (copy: Self)
        ensures
            copy@ == self@,
    {
        let mut auth_type: Vec<AuthenticationType> = Vec::new();
        let mut i: usize = 0;
        while i < self.auth_type.len()
            invariant
                0 <= i <= self.auth_type.len(),
                auth_type@ == self.auth_type@.take(i as int),
            decreases self.auth_type.len() - i,
        {
            auth_type.push(self.auth_type[i]);
            assert(self.auth_type@.take(i + 1) =~= self.auth_type@.take(i as int).push(
                self.auth_type@[i as int],
            ));
            i += 1;
        }
        assert(self.auth_type@.take(self.auth_type@.len() as int) =~= self.auth_type@);
        ServerConfig {
            kind: self.kind,
            port: self.port,
            domain: self.domain.clone(),
            security: self.security,
            auth_type,
        }
    }
}

impl ServerConfig {
    pub fn new(
        kind: ServerConfigType,
        port: u16,
        domain: &str,
        security: ConnectionSecurity,
        auth_type: Vec<AuthenticationType>,
    ) -> (config: Self)
        ensures
            config@ == (ServerConfigView {
                kind,
                port,
                domain: domain@,
                security,
                auth_type: auth_type@,
            }),
    {
        Self { kind, port, domain: domain.to_owned(), security, auth_type }
    }

    /// The kind of the server.
    pub fn kind(&self) -> (kind: &ServerConfigType)
        ensures
            *kind == self@.kind,
    {
        &self.kind
    }

    pub fn port(&self) -> (port: &u16)
        ensures
            *port == self@.port,
    {
        &self.port
    }

    pub fn domain(&self) -> (domain: &str)
        ensures
            domain@ == self@.domain,
    {
        self.domain.as_str()
    }

    pub fn security(&self) -> (security: &ConnectionSecurity)
        ensures
            *security == self@.security,
    {
        &self.security
    }

    pub fn auth_type(&self) -> (auth_type: &Vec<AuthenticationType>)
        ensures
            auth_type@ == self@.auth_type,
    {
        &self.auth_type
    }
}

/// The views of a sequence of servers.
pub open spec fn server_views(servers: Seq<ServerConfig>) -> Seq<ServerConfigView> {
    Seq::new(servers.len(), |i: int| servers[i]@)
}

/// What an [`OAuth2Config`] holds.
pub struct OAuth2View {
    pub token_url: Seq<char>,
    pub oauth_url: Seq<char>,
    pub scopes: Seq<Seq<char>>,
}

/// Where a token is asked for and granted, and for which scopes.
#[derive(Debug)]
pub struct OAuth2Config {
    token_url: String,
    oauth_url: String,
    scopes: Vec<String>,
}

impl View for OAuth2Config {
    type V = OAuth2View;

    closed spec fn view(&self) -> OAuth2View {
        OAuth2View {
            token_url: self.token_url@,
            oauth_url: self.oauth_url@,
            scopes: texts(self.scopes@),
        }
    }
}

impl OAuth2Config {
    pub fn new(token_url: &str, oauth_url: &str, scopes: Vec<String>) -> (config: Self)
        ensures
            config@ == (OAuth2View {
                token_url: token_url@,
                oauth_url: oauth_url@,
                scopes: texts(scopes@),
            }),
    {
        Self { oauth_url: oauth_url.to_owned(), token_url: token_url.to_owned(), scopes }
    }

    pub fn oauth_url(&self) -> (url: &str)
        ensures
            url@ == self@.oauth_url,
    {
        self.oauth_url.as_str()
    }

    pub fn token_url(&self) -> (url: &str)
        ensures
            url@ == self@.token_url,
    {
        self.token_url.as_str()
    }

    pub fn scopes(&self) -> (scopes: &Vec<String>)
        ensures
            texts(scopes@) == self@.scopes,
    {
        &self.scopes
    }
}

/// What a [`ConfigType`] holds.
pub struct ConfigTypeView {
    pub incoming: Seq<ServerConfigView>,
    pub outgoing: Seq<ServerConfigView>,
}

/// The shape of a configuration: servers to retrieve mail and servers to send it.
#[derive(Debug)]
pub enum ConfigType {
    MultiServer { incoming: Vec<ServerConfig>, outgoing: Vec<ServerConfig> },
}

impl View for ConfigType {
    type V = ConfigTypeView;

    open spec fn view(&self) -> ConfigTypeView {
        match self {
            ConfigType::MultiServer { incoming, outgoing } => ConfigTypeView {
                incoming: server_views(incoming@),
                outgoing: server_views(outgoing@),
            },
        }
    }
}

impl ConfigType {
    pub fn new_multiserver(incoming: Vec<ServerConfig>, outgoing: Vec<ServerConfig>) -> (config: Self)
        ensures
            config@ == (ConfigTypeView {
                incoming: server_views(incoming@),
                outgoing: server_views(outgoing@),
            }),
    {
        ConfigType::MultiServer { incoming, outgoing }
    }
}

/// What a [`Config`] holds.
pub struct ConfigView {
    pub kind: ConfigTypeView,
    pub provider: Seq<char>,
    pub oauth2: Option<OAuth2View>,
    pub display_name: Option<Seq<char>>,
}

/// The view of an optional token configuration.
pub open spec fn opt_oauth2(config: Option<OAuth2Config>) -> Option<OAuth2View> {
    match config {
        Some(config) => Some(config@),
        None => None,
    }
}

/// The configuration of a mail provider.
#[derive(Debug)]
pub struct Config {
    kind: ConfigType,
    provider: String,
    oauth2: Option<OAuth2Config>,
    display_name: Option<String>,
}

impl View for Config {
    type V = ConfigView;

    closed spec fn view(&self) -> ConfigView {
        ConfigView {
            kind: self.kind@,
            provider: self.provider@,
            oauth2: opt_oauth2(self.oauth2),
            display_name: opt_text(self.display_name),
        }
    }
}

impl Config {
    pub fn new(
        kind: ConfigType,
        provider: &str,
        oauth2_config: Option<OAuth2Config>,
        display_name: Option<String>,
    ) -> (config: Self)
        ensures
            config@ == (ConfigView {
                kind: kind@,
                provider: provider@,
                oauth2: opt_oauth2(oauth2_config),
                display_name: opt_text(display_name),
            }),
    {
        Self { display_name, oauth2: oauth2_config, provider: provider.to_owned(), kind }
    }

    pub fn oauth2(&self) -> (oauth2: &Option<OAuth2Config>)
        ensures
            opt_oauth2(*oauth2) == self@.oauth2,
    {
        &self.oauth2
    }

    /// The kind of configuration.
    pub fn config_type(&self) -> (kind: &ConfigType)
        ensures
            kind@ == self@.kind,
    {
        &self.kind
    }

    /// The name of the mail provider.
    pub fn provider(&self) -> (provider: &str)
        ensures
            provider@ == self@.provider,
    {
        self.provider.as_str()
    }

    /// The name under which the mail provider is shown.
    pub fn display_name(&self) -> (name: &Option<String>)
        ensures
            opt_text(*name) == self@.display_name,
    {
        &self.display_name
    }
}

/// What a [`Socket`] holds.
pub struct SocketView {
    pub domain: Seq<char>,
    pub port: u16,
    pub security: ConnectionSecurity,
}

/// A place to connect to: a domain, a port and the security of the connection.
#[derive(Debug)]
pub struct Socket {
    domain: String,
    port: u16,
    security: ConnectionSecurity,
}

impl View for Socket {
    type V = SocketView;

    closed spec fn view(&self) -> SocketView {
        SocketView { domain: self.domain@, port: self.port, security: self.security }
    }
}

impl Socket {
    pub fn new(domain: &str, port: u16, security: ConnectionSecurity) -> (socket: Self)
        ensures
            socket@ == (SocketView { domain: domain@, port, security }),
    {
        Self { domain: domain.to_owned(), port, security }
    }

    pub fn from_tuple(tuple: (&str, u16, ConnectionSecurity)) -> (socket: Self)
        ensures
            socket@ == (SocketView { domain: tuple.0@, port: tuple.1, security: tuple.2 }),
    {
        Self::new(tuple.0, tuple.1, tuple.2)
    }

    pub fn domain(&self) -> (domain: &str)
        ensures
            domain@ == self@.domain,
    {
        self.domain.as_str()
    }

    pub fn port(&self) -> (port: u16)
        ensures
            port == self@.port,
    {
        self.port
    }

    /// The server of the given kind at this socket, to which users log in
    /// with an encrypted password.
    pub fn into_server_config(self, config_type: ServerConfigType) -> (config: ServerConfig)
        ensures
            config@ == (ServerConfigView {
                kind: config_type,
                port: self@.port,
                domain: self@.domain,
                security: self@.security,
                auth_type: seq![AuthenticationType::Encrypted],
            }),
    {
        let mut auth_type: Vec<AuthenticationType> = Vec::new();
        auth_type.push(AuthenticationType::Encrypted);
        assert(auth_type@ =~= seq![AuthenticationType::Encrypted]);
        ServerConfig::new(config_type, self.port, self.domain.as_str(), self.security, auth_type)
    }

    pub fn security(&self) -> (security: &ConnectionSecurity)
        ensures
            *security == self@.security,
    {
        &self.security
    }
}

} // verus!
