//! From what the detection protocols found out about a mail provider to the
//! configuration of the provider.

use crate::attachment::opt_text;
use crate::config::{
    opt_oauth2, server_views, AuthenticationType, Config, ConfigType, ConfigTypeView, ConfigView,
    OAuth2Config, ServerConfig, ServerConfigType, ServerConfigView,
};
use crate::protocol::ConnectionSecurity;
use crate::text::{split, split_text, texts};
use vstd::prelude::*;

verus! {

/// What went wrong while a configuration was detected.
#[derive(Debug)]
pub enum ErrorKind {
    InvalidEmailAddress,
    InvalidConfig,
    /// No protocol found a configuration; these are their failures.
    NotFound(Vec<Error>),
    DnsDiscover,
    Autoconfig,
    Autodiscover,
}

/// A failure to detect a configuration.
#[derive(Debug)]
pub struct Error {
    message: String,
    kind: ErrorKind,
}

impl Error {
    pub fn new(kind: ErrorKind, message: &str) -> (error: Self)
        ensures
            *error.kind_spec() == kind,
            error.message_spec() == message@,
    {
        Self { message: message.to_owned(), kind }
    }

    /// The kind of the failure.
    pub closed spec fn kind_spec(&self) -> &ErrorKind {
        &self.kind
    }

    /// The message of the failure.
    pub closed spec fn message_spec(&self) -> Seq<char> {
        self.message@
    }

    pub fn kind(&self) -> (kind: &ErrorKind)
        ensures
            kind == self.kind_spec(),
    {
        &self.kind
    }

    /// The failure as it is displayed.
    pub fn to_text(&self) -> (text: String)
        ensures
            text@ == "Error: "@ + self.message_spec(),
    {
        let mut text = "Error: ".to_owned();
        vstd::string::StringExecFns::append(&mut text, self.message.as_str());
        text
    }

    /// The failure of a detection that no protocol could complete.
    pub fn not_found(errors: Vec<Error>) -> (error: Self)
        ensures
            *error.kind_spec() == ErrorKind::NotFound(errors),
            error.message_spec()
                == "Could not detect an email server config from the given email address"@,
    {
        Self::new(
            ErrorKind::NotFound(errors),
            "Could not detect an email server config from the given email address",
        )
    }
}

/// The domain of an email address: what stands between the first `@` and the
/// next, or the end. An address without `@` has none.
pub open spec fn domain_of(email: Seq<char>) -> Option<Seq<char>> {
    let pieces = split(email, "@"@);
    if pieces.len() >= 2 {
        Some(pieces[1])
    } else {
        None
    }
}

/// The domain of an email address.
pub fn parse_domain(email: &str) -> (domain: Result<String, Error>)
    ensures
        match domain {
            Ok(d) => domain_of(email@) == Some(d@),
            Err(e) => domain_of(email@) is None && e.kind_spec() is InvalidEmailAddress,
        },
{
    let pieces = split_text(email, "@");
    if pieces.len() >= 2 {
        assert(texts(pieces@)[1] == pieces@[1]@);
        Ok(pieces[1].clone())
    } else {
        Err(Error::new(ErrorKind::InvalidEmailAddress, "Invalid email address"))
    }
}

/// The configurations among the first `count` that are there.
pub open spec fn present(found: Seq<Option<ServerConfigView>>, count: int) -> Seq<ServerConfigView>
    decreases count,
{
    if count <= 0 || count > found.len() {
        Seq::empty()
    } else {
        match found[count - 1] {
            Some(config) => present(found, count - 1).push(config),
            None => present(found, count - 1),
        }
    }
}

/// The servers among the first `count` that send mail, or those that do not.
pub open spec fn servers_that(configs: Seq<ServerConfigView>, outgoing: bool, count: int) -> Seq<
    ServerConfigView,
>
    decreases count,
{
    if count <= 0 || count > configs.len() {
        Seq::empty()
    } else if (configs[count - 1].kind == ServerConfigType::Smtp) == outgoing {
        servers_that(configs, outgoing, count - 1).push(configs[count - 1])
    } else {
        servers_that(configs, outgoing, count - 1)
    }
}

/// The name of the provider where nothing names it.
pub open spec fn unknown() -> Seq<char> {
    "Unknown"@
}

/// The kinds of server that DNS records name.
#[derive(Debug, Clone, Copy, PartialEq, Eq, Structural)]
pub enum DnsServerType {
    Imap,
    Pop,
    Smtp,
}

/// What a [`DnsServer`] holds.
pub struct DnsServerView {
    pub domain: Seq<char>,
    pub port: u16,
    pub secure: bool,
    pub kind: DnsServerType,
}

/// A server that the DNS records of a domain name.
#[derive(Debug)]
pub struct DnsServer {
    pub domain: String,
    pub port: u16,
    pub secure: bool,
    pub kind: DnsServerType,
}

impl View for DnsServer {
    type V = DnsServerView;

    open spec fn view(&self) -> DnsServerView {
        DnsServerView { domain: self.domain@, port: self.port, secure: self.secure, kind: self.kind }
    }
}

/// The views of a sequence of servers.
pub open spec fn dns_views(servers: Seq<DnsServer>) -> Seq<DnsServerView> {
    Seq::new(servers.len(), |i: int| servers[i]@)
}

/// The configuration of a server that DNS records name: users log in with a
/// password in the clear, over TLS where the record says so.
pub open spec fn dns_config(server: DnsServerView) -> ServerConfigView {
    ServerConfigView {
        kind: match server.kind {
            DnsServerType::Imap => ServerConfigType::Imap,
            DnsServerType::Pop => ServerConfigType::Pop,
            DnsServerType::Smtp => ServerConfigType::Smtp,
        },
        port: server.port,
        domain: server.domain,
        security: if server.secure {
            ConnectionSecurity::Tls
        } else {
            ConnectionSecurity::Plain
        },
        auth_type: seq![AuthenticationType::ClearText],
    }
}

/// The configurations of the servers that DNS records name.
pub open spec fn dns_configs(servers: Seq<DnsServerView>) -> Seq<ServerConfigView> {
    Seq::new(servers.len(), |i: int| dns_config(servers[i]))
}

/// The provider of a configuration that names none: the domain of the first
/// server that retrieves mail; failing that, of the first that sends it.
pub open spec fn provider_of(incoming: Seq<ServerConfigView>, outgoing: Seq<ServerConfigView>) -> Seq<
    char,
> {
    if incoming.len() > 0 {
        incoming[0].domain
    } else if outgoing.len() > 0 {
        outgoing[0].domain
    } else {
        unknown()
    }
}

/// The configuration that the DNS records of a domain stand for.
pub open spec fn dns_discovered(servers: Seq<DnsServerView>) -> ConfigView {
    let configs = dns_configs(servers);
    let incoming = servers_that(configs, false, configs.len() as int);
    let outgoing = servers_that(configs, true, configs.len() as int);
    ConfigView {
        kind: ConfigTypeView { incoming, outgoing },
        provider: provider_of(incoming, outgoing),
        oauth2: None,
        display_name: None,
    }
}

fn one_auth(auth: AuthenticationType) -> (list: Vec<AuthenticationType>)
    ensures
        list@ == seq![auth],
{
    let mut list: Vec<AuthenticationType> = Vec::new();
    list.push(auth);
    assert(list@ =~= seq![auth]);
    list
}

/// Reads the servers that DNS records name.
pub struct DnsDiscoverParser;

impl DnsDiscoverParser {
    /// The configuration that the DNS records of a domain stand for.
    pub fn parse(servers: Vec<DnsServer>) -> (config: Config)
        ensures
            config@ == dns_discovered(dns_views(servers@)),
    {
        let mut incoming: Vec<ServerConfig> = Vec::new();
        let mut outgoing: Vec<ServerConfig> = Vec::new();
        let ghost configs = dns_configs(dns_views(servers@));
        let mut i: usize = 0;
        assert(server_views(incoming@) =~= servers_that(configs, false, 0));
        assert(server_views(outgoing@) =~= servers_that(configs, true, 0));
        while i < servers.len()
            invariant
                0 <= i <= servers.len(),
                configs == dns_configs(dns_views(servers@)),
                server_views(incoming@) == servers_that(configs, false, i as int),
                server_views(outgoing@) == servers_that(configs, true, i as int),
            decreases servers.len() - i,
        {
            let server = &servers[i];
            let security = if server.secure {
                ConnectionSecurity::Tls
            } else {
                ConnectionSecurity::Plain
            };
            let auth_type = one_auth(AuthenticationType::ClearText);
            let ghost before_in = server_views(incoming@);
            let ghost before_out = server_views(outgoing@);
            assert(configs[i as int] == dns_config(server@));
            match server.kind {
                DnsServerType::Imap => {
                    let config = ServerConfig::new(
                        ServerConfigType::Imap,
                        server.port,
                        server.domain.as_str(),
                        security,
                        auth_type,
                    );
                    incoming.push(config);
                    assert(server_views(incoming@) =~= before_in.push(configs[i as int]));
                },
                DnsServerType::Pop => {
                    let config = ServerConfig::new(
                        ServerConfigType::Pop,
                        server.port,
                        server.domain.as_str(),
                        security,
                        auth_type,
                    );
                    incoming.push(config);
                    assert(server_views(incoming@) =~= before_in.push(configs[i as int]));
                },
                DnsServerType::Smtp => {
                    let config = ServerConfig::new(
                        ServerConfigType::Smtp,
                        server.port,
                        server.domain.as_str(),
                        security,
                        auth_type,
                    );
                    outgoing.push(config);
                    assert(server_views(outgoing@) =~= before_out.push(configs[i as int]));
                },
            }
            i += 1;
        }
        let provider = if incoming.len() > 0 {
            incoming[0].domain().to_owned()
        } else if outgoing.len() > 0 {
            outgoing[0].domain().to_owned()
        } else {
            "Unknown".to_owned()
        };
        let config_type = ConfigType::MultiServer { incoming, outgoing };
        Config::new(config_type, provider.as_str(), None, None)
    }
}

/// The kinds of protocol that an autodiscover response names.
#[derive(Debug, Clone, Copy, PartialEq, Eq, Structural)]
pub enum PoxType {
    Imap,
    Smtp,
    Other,
}

/// What a [`PoxProtocol`] holds.
pub struct PoxProtocolView {
    pub kind: Option<PoxType>,
    pub port: Option<u16>,
    pub server: Option<Seq<char>>,
    pub ssl: bool,
    pub domain_name: Option<Seq<char>>,
}

/// The protocol of an account in an autodiscover response; each piece is
/// there if the response holds it.
#[derive(Debug)]
pub struct PoxProtocol {
    pub kind: Option<PoxType>,
    pub port: Option<u16>,
    pub server: Option<String>,
    pub ssl: bool,
    pub domain_name: Option<String>,
}

impl View for PoxProtocol {
    type V = PoxProtocolView;

    open spec fn view(&self) -> PoxProtocolView {
        PoxProtocolView {
            kind: self.kind,
            port: self.port,
            server: opt_text(self.server),
            ssl: self.ssl,
            domain_name: opt_text(self.domain_name),
        }
    }
}

/// An account in an autodiscover response, with its protocol if it has one.
#[derive(Debug)]
pub struct PoxAccount {
    pub protocol: Option<PoxProtocol>,
}

/// The view of an account: the view of its protocol.
pub open spec fn account_view(account: PoxAccount) -> Option<PoxProtocolView> {
    match account.protocol {
        Some(protocol) => Some(protocol@),
        None => None,
    }
}

/// The views of a sequence of accounts.
pub open spec fn account_views(accounts: Seq<PoxAccount>) -> Seq<Option<PoxProtocolView>> {
    Seq::new(accounts.len(), |i: int| account_view(accounts[i]))
}

/// An autodiscover response: the name under which the user is shown, and the accounts.
#[derive(Debug)]
pub struct PoxResponse {
    pub display_name: Option<String>,
    pub accounts: Vec<PoxAccount>,
}

/// The configuration of the server of an account: the account must have a
/// protocol with a port, a server and a kind, and the kind must be IMAP or
/// SMTP. Users log in with a password in the clear.
pub open spec fn account_config(account: Option<PoxProtocolView>) -> Option<ServerConfigView> {
    match account {
        Some(protocol) => if protocol.port is Some && protocol.server is Some && (protocol.kind
            == Some(PoxType::Imap) || protocol.kind == Some(PoxType::Smtp)) {
            Some(
                ServerConfigView {
                    kind: if protocol.kind == Some(PoxType::Imap) {
                        ServerConfigType::Imap
                    } else {
                        ServerConfigType::Smtp
                    },
                    port: protocol.port->0,
                    domain: protocol.server->0,
                    security: if protocol.ssl {
                        ConnectionSecurity::Tls
                    } else {
                        ConnectionSecurity::Plain
                    },
                    auth_type: seq![AuthenticationType::ClearText],
                },
            )
        } else {
            None
        },
        None => None,
    }
}

/// The configurations of the servers of some accounts, one for each account,
/// where the account has one.
pub open spec fn account_configs(accounts: Seq<Option<PoxProtocolView>>) -> Seq<
    Option<ServerConfigView>,
> {
    Seq::new(accounts.len(), |i: int| account_config(accounts[i]))
}

/// The domain name of the first of `accounts[from..]` whose protocol has one.
pub open spec fn first_domain_name(accounts: Seq<Option<PoxProtocolView>>, from: int) -> Option<
    Seq<char>,
>
    decreases accounts.len() - from,
{
    if from < 0 || from >= accounts.len() {
        None
    } else {
        match accounts[from] {
            Some(protocol) => match protocol.domain_name {
                Some(name) => Some(name),
                None => first_domain_name(accounts, from + 1),
            },
            None => first_domain_name(accounts, from + 1),
        }
    }
}

/// The configuration that an autodiscover response stands for.
pub open spec fn autodiscovered(display_name: Option<Seq<char>>, accounts: Seq<Option<PoxProtocolView>>) -> ConfigView {
    let found = account_configs(accounts);
    let configs = present(found, found.len() as int);
    ConfigView {
        kind: ConfigTypeView {
            incoming: servers_that(configs, false, configs.len() as int),
            outgoing: servers_that(configs, true, configs.len() as int),
        },
        provider: match first_domain_name(accounts, 0) {
            Some(name) => name,
            None => unknown(),
        },
        oauth2: None,
        display_name,
    }
}

/// Reads an autodiscover response.
pub struct AutodiscoverParser;

impl AutodiscoverParser {
    fn account_to_server_config(account: &PoxAccount) -> (config: Option<ServerConfig>)
        ensures
            match config {
                Some(c) => account_config(account_view(*account)) == Some(c@),
                None => account_config(account_view(*account)) is None,
            },
    {
        let protocol = match &account.protocol {
            Some(protocol) => protocol,
            None => {
                return None;
            },
        };
        let port = match protocol.port {
            Some(port) => port,
            None => {
                return None;
            },
        };
        let domain = match &protocol.server {
            Some(server) => server,
            None => {
                return None;
            },
        };
        let security = if protocol.ssl {
            ConnectionSecurity::Tls
        } else {
            ConnectionSecurity::Plain
        };
        let auth_type = one_auth(AuthenticationType::ClearText);
        match protocol.kind {
            Some(PoxType::Imap) => Some(
                ServerConfig::new(ServerConfigType::Imap, port, domain.as_str(), security, auth_type),
            ),
            Some(PoxType::Smtp) => Some(
                ServerConfig::new(ServerConfigType::Smtp, port, domain.as_str(), security, auth_type),
            ),
            _ => None,
        }
    }

    /// The configuration that an autodiscover response stands for.
    pub fn parse(response: PoxResponse) -> (config: Config)
        ensures
            config@ == autodiscovered(
                opt_text(response.display_name),
                account_views(response.accounts@),
            ),
    {
        let mut provider: Option<String> = None;
        let mut incoming: Vec<ServerConfig> = Vec::new();
        let mut outgoing: Vec<ServerConfig> = Vec::new();
        let ghost accounts = account_views(response.accounts@);
        let ghost found = account_configs(accounts);
        let mut i: usize = 0;
        assert(server_views(incoming@) =~= Seq::<ServerConfigView>::empty());
        assert(server_views(outgoing@) =~= Seq::<ServerConfigView>::empty());
        while i < response.accounts.len()
            invariant
                0 <= i <= response.accounts.len(),
                accounts == account_views(response.accounts@),
                found == account_configs(accounts),
                server_views(incoming@) == servers_that(
                    present(found, i as int),
                    false,
                    present(found, i as int).len() as int,
                ),
                server_views(outgoing@) == servers_that(
                    present(found, i as int),
                    true,
                    present(found, i as int).len() as int,
                ),
                match provider {
                    Some(name) => first_domain_name(accounts, 0) == Some(name@),
                    None => first_domain_name(accounts, 0) == first_domain_name(accounts, i as int),
                },
            decreases response.accounts.len() - i,
        {
            let account = &response.accounts[i];
            assert(accounts[i as int] == account_view(*account));
            if provider.is_none() {
                if let Some(protocol) = &account.protocol {
                    if let Some(domain_name) = &protocol.domain_name {
                        provider = Some(domain_name.clone());
                    }
                }
            }
            let ghost before = present(found, i as int);
            let ghost before_in = server_views(incoming@);
            let ghost before_out = server_views(outgoing@);
            if let Some(server_config) = Self::account_to_server_config(account) {
                proof {
                    let after = present(found, i + 1);
                    assert(after == before.push(server_config@));
                    assert(after.drop_last() =~= before);
                    lemma_servers_that_same(before, after, false, before.len() as int);
                    lemma_servers_that_same(before, after, true, before.len() as int);
                }
                if server_config.kind().is_outgoing() {
                    outgoing.push(server_config);
                    assert(server_views(outgoing@) =~= before_out.push(server_config@));
                } else {
                    incoming.push(server_config);
                    assert(server_views(incoming@) =~= before_in.push(server_config@));
                }
            }
            i += 1;
        }
        let config_type = ConfigType::MultiServer { incoming, outgoing };
        match provider {
            Some(provider) => Config::new(config_type, provider.as_str(), None, response.display_name),
            None => Config::new(config_type, "Unknown", None, response.display_name),
        }
    }
}

/// Which servers are picked among the first `count` depends on those alone.
pub proof fn lemma_servers_that_same(
    a: Seq<ServerConfigView>,
    b: Seq<ServerConfigView>,
    outgoing: bool,
    count: int,
)
    requires
        0 <= count <= a.len(),
        count <= b.len(),
        forall|j: int| 0 <= j < count ==> a[j] == b[j],
    ensures
        servers_that(a, outgoing, count) == servers_that(b, outgoing, count),
    decreases count,
{
    if count > 0 {
        lemma_servers_that_same(a, b, outgoing, count - 1);
    }
}

/// What an [`AutoConfigServer`] holds.
pub struct AutoConfigServerView {
    pub hostname: Option<Seq<char>>,
    pub port: Option<u16>,
    pub security: Option<ConnectionSecurity>,
    pub authentication: Seq<AuthenticationType>,
    pub kind: ServerConfigType,
}

/// A server in an autoconfig document; each piece is there if the document holds it.
#[derive(Debug)]
pub struct AutoConfigServer {
    pub hostname: Option<String>,
    pub port: Option<u16>,
    pub security: Option<ConnectionSecurity>,
    pub authentication: Vec<AuthenticationType>,
    pub kind: ServerConfigType,
}

impl View for AutoConfigServer {
    type V = AutoConfigServerView;

    open spec fn view(&self) -> AutoConfigServerView {
        AutoConfigServerView {
            hostname: opt_text(self.hostname),
            port: self.port,
            security: self.security,
            authentication: self.authentication@,
            kind: self.kind,
        }
    }
}

/// The views of a sequence of servers.
pub open spec fn autoconfig_views(servers: Seq<AutoConfigServer>) -> Seq<AutoConfigServerView> {
    Seq::new(servers.len(), |i: int| servers[i]@)
}

/// An autoconfig document: the provider with its servers, and how to get a token.
#[derive(Debug)]
pub struct AutoConfigDocument {
    pub provider: String,
    pub display_name: Option<String>,
    pub incoming: Vec<AutoConfigServer>,
    pub outgoing: Vec<AutoConfigServer>,
    pub oauth2: Option<OAuth2Config>,
}

/// The configuration of a server in an autoconfig document: the server must
/// have a host name, a port and a security.
pub open spec fn autoconfig_server(server: AutoConfigServerView) -> Option<ServerConfigView> {
    if server.hostname is Some && server.port is Some && server.security is Some {
        Some(
            ServerConfigView {
                kind: server.kind,
                port: server.port->0,
                domain: server.hostname->0,
                security: server.security->0,
                auth_type: server.authentication,
            },
        )
    } else {
        None
    }
}

/// The configurations of some servers, one for each server, where it has one.
pub open spec fn autoconfig_servers(servers: Seq<AutoConfigServerView>) -> Seq<
    Option<ServerConfigView>,
> {
    Seq::new(servers.len(), |i: int| autoconfig_server(servers[i]))
}

/// Reads an autoconfig document.
pub struct AutoConfigParser;

impl AutoConfigParser {
    fn map_server_to_server_config(server: &AutoConfigServer) -> (config: Option<ServerConfig>)
        ensures
            match config {
                Some(c) => autoconfig_server(server@) == Some(c@),
                None => autoconfig_server(server@) is None,
            },
    {
        let domain = match &server.hostname {
            Some(hostname) => hostname,
            None => {
                return None;
            },
        };
        let port = match server.port {
            Some(port) => port,
            None => {
                return None;
            },
        };
        let security = match server.security {
            Some(security) => security,
            None => {
                return None;
            },
        };
        let mut auth_type: Vec<AuthenticationType> = Vec::new();
        let mut i: usize = 0;
        while i < server.authentication.len()
            invariant
                0 <= i <= server.authentication.len(),
                auth_type@ == server.authentication@.take(i as int),
            decreases server.authentication.len() - i,
        {
            auth_type.push(server.authentication[i]);
            assert(server.authentication@.take(i + 1) =~= server.authentication@.take(
                i as int,
            ).push(server.authentication@[i as int]));
            i += 1;
        }
        assert(server.authentication@.take(server.authentication@.len() as int)
            =~= server.authentication@);
        Some(ServerConfig::new(server.kind, port, domain.as_str(), security, auth_type))
    }

    fn map_servers(servers: &Vec<AutoConfigServer>) -> (configs: Vec<ServerConfig>)
        ensures
            server_views(configs@) == present(
                autoconfig_servers(autoconfig_views(servers@)),
                servers@.len() as int,
            ),
    {
        let mut configs: Vec<ServerConfig> = Vec::new();
        let ghost found = autoconfig_servers(autoconfig_views(servers@));
        let mut i: usize = 0;
        assert(server_views(configs@) =~= present(found, 0));
        while i < servers.len()
            invariant
                0 <= i <= servers.len(),
                found == autoconfig_servers(autoconfig_views(servers@)),
                server_views(configs@) == present(found, i as int),
            decreases servers.len() - i,
        {
            let ghost before = server_views(configs@);
            assert(found[i as int] == autoconfig_server(servers@[i as int]@));
            if let Some(config) = Self::map_server_to_server_config(&servers[i]) {
                configs.push(config);
                assert(server_views(configs@) =~= before.push(config@));
            }
            i += 1;
        }
        configs
    }

    /// The configuration that an autoconfig document stands for.
    pub fn parse(autoconfig: AutoConfigDocument) -> (config: Config)
        ensures
            config@ == (ConfigView {
                kind: ConfigTypeView {
                    incoming: present(
                        autoconfig_servers(autoconfig_views(autoconfig.incoming@)),
                        autoconfig.incoming@.len() as int,
                    ),
                    outgoing: present(
                        autoconfig_servers(autoconfig_views(autoconfig.outgoing@)),
                        autoconfig.outgoing@.len() as int,
                    ),
                },
                provider: autoconfig.provider@,
                oauth2: opt_oauth2(autoconfig.oauth2),
                display_name: opt_text(autoconfig.display_name),
            }),
    {
        let incoming = Self::map_servers(&autoconfig.incoming);
        let outgoing = Self::map_servers(&autoconfig.outgoing);
        let config_type = ConfigType::MultiServer { incoming, outgoing };
        Config::new(
            config_type,
            autoconfig.provider.as_str(),
            autoconfig.oauth2,
            autoconfig.display_name,
        )
    }
}

} // verus!
