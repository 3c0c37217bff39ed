//! What it takes to reach a mail server: where it is, how the connection is
//! secured, and how the user logs in.

use vstd::prelude::*;
use vstd::string::StringExecFns;

verus! {

/// How a connection to a server is secured.
#[derive(Debug, Clone, Copy, PartialEq, Eq, Structural)]
pub enum ConnectionSecurity {
    Tls,
    StartTls,
    Plain,
}

impl ConnectionSecurity {
    /// Whether the connection starts with a TLS handshake. Every other kind
    /// of security starts in the clear.
    pub fn starts_secure(&self) -> (secure: bool)
        ensures
            secure == (*self == ConnectionSecurity::Tls),
    {
        match self {
            ConnectionSecurity::Tls => true,
            _ => false,
        }
    }
}

/// The protocols by which mail is retrieved.
#[derive(Debug, Clone, Copy, PartialEq, Eq, Structural)]
pub enum IncomingClientType {
    Imap,
    Pop,
}

/// The protocols by which mail is sent.
#[derive(Debug, Clone, Copy, PartialEq, Eq, Structural)]
pub enum OutgoingClientType {
    Smtp,
}

/// What a [`RemoteServer`] holds.
pub struct RemoteServerView {
    pub server: Seq<char>,
    pub port: u16,
    pub security: ConnectionSecurity,
}

/// A server: its domain, its port and the security of the connection to it.
#[derive(Debug)]
pub struct RemoteServer {
    server: String,
    port: u16,
    security: ConnectionSecurity,
}

impl View for RemoteServer {
    type V = RemoteServerView;

    closed spec fn view(&self) -> RemoteServerView {
        RemoteServerView { server: self.server@, port: self.port, security: self.security }
    }
}

impl RemoteServer {
    pub fn new(server: &str, port: u16, security: ConnectionSecurity) -> (remote: Self)
        ensures
            remote@ == (RemoteServerView { server: server@, port, security }),
    {
        Self { server: server.to_owned(), port, security }
    }

    pub fn security(&self) -> (security: &ConnectionSecurity)
        ensures
            *security == self@.security,
    {
        &self.security
    }

    pub fn domain(&self) -> (domain: &str)
        ensures
            domain@ == self@.server,
    {
        self.server.as_str()
    }

    pub fn port(&self) -> (port: u16)
        ensures
            port == self@.port,
    {
        self.port
    }
}

/// What [`Credentials`] hold.
pub enum CredentialsView {
    Password { username: Seq<char>, password: Seq<char> },
    OAuth { username: Seq<char>, token: Seq<char> },
}

/// How a user logs in: with a password, or with a token.
#[derive(Debug)]
pub enum Credentials {
    Password { username: String, password: String },
    OAuth { username: String, token: String },
}

impl View for Credentials {
    type V = CredentialsView;

    open spec fn view(&self) -> CredentialsView {
        match self {
            Credentials::Password { username, password } => CredentialsView::Password {
                username: username@,
                password: password@,
            },
            Credentials::OAuth { username, token } => CredentialsView::OAuth {
                username: username@,
                token: token@,
            },
        }
    }
}

/// The ways in which a client proves to a server that sends mail who the user is.
#[derive(Debug, Clone, Copy, PartialEq, Eq, Structural)]
pub enum Mechanism {
    Plain,
    Login,
    Xoauth2,
}

/// The mechanisms that are tried for the credentials, in order: for a
/// password `PLAIN` and then `LOGIN`, for a token `XOAUTH2`.
pub open spec fn mechanisms_of(credentials: CredentialsView) -> Seq<Mechanism> {
    match credentials {
        CredentialsView::Password { .. } => seq![Mechanism::Plain, Mechanism::Login],
        CredentialsView::OAuth { .. } => seq![Mechanism::Xoauth2],
    }
}

/// The secret of the credentials: the password or the token.
pub open spec fn secret_of(credentials: CredentialsView) -> Seq<char> {
    match credentials {
        CredentialsView::Password { password, .. } => password,
        CredentialsView::OAuth { token, .. } => token,
    }
}

/// The name under which the credentials log in.
pub open spec fn username_of(credentials: CredentialsView) -> Seq<char> {
    match credentials {
        CredentialsView::Password { username, .. } => username,
        CredentialsView::OAuth { username, .. } => username,
    }
}

impl Credentials {
    pub fn username(&self) -> (username: &str)
        ensures
            username@ == username_of(self@),
    {
        match &self {
            Credentials::OAuth { username, .. } => username.as_str(),
            Credentials::Password { username, .. } => username.as_str(),
        }
    }

    /// The secret with which the credentials log in: the password or the token.
    pub fn secret(&self) -> (secret: &str)
        ensures
            secret@ == secret_of(self@),
    {
        match &self {
            Credentials::OAuth { token, .. } => token.as_str(),
            Credentials::Password { password, .. } => password.as_str(),
        }
    }

    /// The mechanisms that are tried to log in to a server that sends mail.
    pub fn mechanisms(&self) -> (mechanisms: Vec<Mechanism>)
        ensures
            mechanisms@ == mechanisms_of(self@),
    {
        let mut mechanisms: Vec<Mechanism> = Vec::new();
        match &self {
            Credentials::Password { .. } => {
                mechanisms.push(Mechanism::Plain);
                mechanisms.push(Mechanism::Login);
            },
            Credentials::OAuth { .. } => {
                mechanisms.push(Mechanism::Xoauth2);
            },
        }
        assert(mechanisms@ =~= mechanisms_of(self@));
        mechanisms
    }

    pub fn password(username: &str, password: &str) -> (credentials: Self)
        ensures
            credentials@ == (CredentialsView::Password { username: username@, password: password@ }),
    {
        Credentials::Password { username: username.to_owned(), password: password.to_owned() }
    }

    pub fn oauth(username: &str, token: &str) -> (credentials: Self)
        ensures
            credentials@ == (CredentialsView::OAuth { username: username@, token: token@ }),
    {
        Credentials::OAuth { username: username.to_owned(), token: token.to_owned() }
    }
}

/// Something that holds the credentials for a server.
pub trait ServerCredentials {
    fn credentials(&self) -> &Credentials;
}

/// A server and the credentials for it.
pub struct ServerLoginView {
    pub server: RemoteServerView,
    pub credentials: CredentialsView,
}

/// The server that sends mail, and the credentials for it.
#[derive(Debug)]
pub struct SmtpCredentials {
    server: RemoteServer,
    credentials: Credentials,
}

impl View for SmtpCredentials {
    type V = ServerLoginView;

    closed spec fn view(&self) -> ServerLoginView {
        ServerLoginView { server: self.server@, credentials: self.credentials@ }
    }
}

impl SmtpCredentials {
    pub fn new(server: RemoteServer, credentials: Credentials) -> (login: Self)
        ensures
            login@ == (ServerLoginView { server: server@, credentials: credentials@ }),
    {
        Self { server, credentials }
    }

    pub fn server(&self) -> (server: &RemoteServer)
        ensures
            server@ == self@.server,
    {
        &self.server
    }
}

impl ServerCredentials for SmtpCredentials {
    fn credentials(&self) -> (credentials: &Credentials)
        ensures
            credentials@ == self@.credentials,
    {
        &self.credentials
    }
}

/// The IMAP server, and the credentials for it.
#[derive(Debug)]
pub struct ImapCredentials {
    server: RemoteServer,
    credentials: Credentials,
}

impl View for ImapCredentials {
    type V = ServerLoginView;

    closed spec fn view(&self) -> ServerLoginView {
        ServerLoginView { server: self.server@, credentials: self.credentials@ }
    }
}

impl ImapCredentials {
    pub fn new(server: RemoteServer, credentials: Credentials) -> (login: Self)
        ensures
            login@ == (ServerLoginView { server: server@, credentials: credentials@ }),
    {
        Self { server, credentials }
    }

    pub fn server(&self) -> (server: &RemoteServer)
        ensures
            server@ == self@.server,
    {
        &self.server
    }
}

impl ServerCredentials for ImapCredentials {
    fn credentials(&self) -> (credentials: &Credentials)
        ensures
            credentials@ == self@.credentials,
    {
        &self.credentials
    }
}

/// The POP server, and the credentials for it.
#[derive(Debug)]
pub struct PopCredentials {
    server: RemoteServer,
    credentials: Credentials,
}

impl View for PopCredentials {
    type V = ServerLoginView;

    closed spec fn view(&self) -> ServerLoginView {
        ServerLoginView { server: self.server@, credentials: self.credentials@ }
    }
}

impl PopCredentials {
    pub fn new(server: RemoteServer, credentials: Credentials) -> (login: Self)
        ensures
            login@ == (ServerLoginView { server: server@, credentials: credentials@ }),
    {
        Self { server, credentials }
    }

    pub fn server(&self) -> (server: &RemoteServer)
        ensures
            server@ == self@.server,
    {
        &self.server
    }
}

impl ServerCredentials for PopCredentials {
    fn credentials(&self) -> (credentials: &Credentials)
        ensures
            credentials@ == self@.credentials,
    {
        &self.credentials
    }
}

/// The ways to retrieve mail: from an IMAP server, from a POP server, or from
/// a mail directory at a path.
#[derive(Debug)]
pub enum IncomingEmailProtocol {
    Imap(ImapCredentials),
    Pop(PopCredentials),
    Maildir(String),
}

/// The ways to send mail.
#[derive(Debug)]
pub enum OutgoingEmailProtocol {
    Smtp(SmtpCredentials),
}

/// The settings of a client that retrieves mail. There are none yet.
#[derive(Debug)]
pub struct IncomingConfig {}

impl Default for IncomingConfig {
    fn default() -> (config: Self) {
        Self::new()
    }
}

impl IncomingConfig {
    pub fn new() -> (config: Self) {
        Self {  }
    }
}

/// What the client answers when a server asks for a token: the user and the
/// token, each closed by the byte one, and one more byte one at the end.
pub open spec fn oauth_response(username: Seq<char>, token: Seq<char>) -> Seq<char> {
    "user="@ + username + "\x01auth=Bearer "@ + token + "\x01\x01"@
}

/// What [`OAuthCredentials`] hold.
pub struct OAuthView {
    pub username: Seq<char>,
    pub token: Seq<char>,
}

/// A user and the token that logs the user in.
#[derive(Debug)]
pub struct OAuthCredentials {
    username: String,
    token: String,
}

impl View for OAuthCredentials {
    type V = OAuthView;

    closed spec fn view(&self) -> OAuthView {
        OAuthView { username: self.username@, token: self.token@ }
    }
}

impl OAuthCredentials {
    pub fn new(username: &str, token: &str) -> (credentials: Self)
        ensures
            credentials@ == (OAuthView { username: username@, token: token@ }),
    {
        Self { username: username.to_owned(), token: token.to_owned() }
    }

    /// The answer to the server's challenge, whatever the challenge is.
    pub fn process(&self) -> (response: String)
        ensures
            response@ == oauth_response(self@.username, self@.token),
    {
        let mut response = "user=".to_owned();
        response.append(self.username.as_str());
        response.append("\x01auth=Bearer ");
        response.append(self.token.as_str());
        response.append("\x01\x01");
        response
    }
}

} // verus!
