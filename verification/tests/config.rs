use dust_mail::builder::MessageBuilder;
use dust_mail::config::{
    AuthenticationType, Config, ConfigType, OAuth2Config, ServerConfig, ServerConfigType, Socket,
};
use dust_mail::discover::{
    parse_domain, AutoConfigDocument, AutoConfigParser, AutoConfigServer, AutodiscoverParser,
    DnsDiscoverParser, DnsServer, DnsServerType, Error, ErrorKind, PoxAccount, PoxProtocol,
    PoxResponse, PoxType,
};
use dust_mail::flag::Flag;
use dust_mail::maildir::{entry_builder, get_inbox, not_found, page, DirType};
use dust_mail::protocol::{
    ConnectionSecurity, Credentials, ImapCredentials, IncomingClientType, IncomingConfig,
    IncomingEmailProtocol, Mechanism, OAuthCredentials, OutgoingClientType, OutgoingEmailProtocol,
    PopCredentials, RemoteServer, ServerCredentials, SmtpCredentials,
};

fn servers_of(config: &Config) -> (Vec<(ServerConfigType, String, u16)>, Vec<(ServerConfigType, String, u16)>) {
    let describe = |servers: &Vec<ServerConfig>| {
        servers
            .iter()
            .map(|server| (*server.kind(), server.domain().to_string(), *server.port()))
            .collect::<Vec<_>>()
    };
    match config.config_type() {
        ConfigType::MultiServer { incoming, outgoing } => (describe(incoming), describe(outgoing)),
    }
}

fn dns(domain: &str, port: u16, secure: bool, kind: DnsServerType) -> DnsServer {
    DnsServer { domain: domain.to_string(), port, secure, kind }
}

#[test]
fn dns_records_become_a_configuration() {
    let config = DnsDiscoverParser::parse(vec![
        dns("smtp.example.com", 465, true, DnsServerType::Smtp),
        dns("imap.example.com", 993, true, DnsServerType::Imap),
        dns("pop.example.com", 110, false, DnsServerType::Pop),
    ]);
    let (incoming, outgoing) = servers_of(&config);
    assert_eq!(
        incoming,
        vec![
            (ServerConfigType::Imap, "imap.example.com".to_string(), 993),
            (ServerConfigType::Pop, "pop.example.com".to_string(), 110),
        ]
    );
    assert_eq!(outgoing, vec![(ServerConfigType::Smtp, "smtp.example.com".to_string(), 465)]);
    assert_eq!(config.provider(), "imap.example.com");
    assert!(config.oauth2().is_none());
    assert!(config.display_name().is_none());
    match config.config_type() {
        ConfigType::MultiServer { incoming, .. } => {
            assert_eq!(*incoming[0].security(), ConnectionSecurity::Tls);
            assert_eq!(*incoming[1].security(), ConnectionSecurity::Plain);
            assert_eq!(incoming[0].auth_type(), &vec![AuthenticationType::ClearText]);
        }
    }
}

#[test]
fn provider_of_dns_records_falls_back() {
    let config = DnsDiscoverParser::parse(vec![dns("smtp.example.com", 25, false, DnsServerType::Smtp)]);
    assert_eq!(config.provider(), "smtp.example.com");
    let config = DnsDiscoverParser::parse(Vec::new());
    assert_eq!(config.provider(), "Unknown");
    assert_eq!(servers_of(&config), (Vec::new(), Vec::new()));
}

fn account(kind: Option<PoxType>, port: Option<u16>, server: Option<&str>, ssl: bool, domain_name: Option<&str>) -> PoxAccount {
    PoxAccount {
        protocol: Some(PoxProtocol {
            kind,
            port,
            server: server.map(|s| s.to_string()),
            ssl,
            domain_name: domain_name.map(|s| s.to_string()),
        }),
    }
}

#[test]
fn autodiscover_response_becomes_a_configuration() {
    let config = AutodiscoverParser::parse(PoxResponse {
        display_name: Some("Jane".to_string()),
        accounts: vec![
            PoxAccount { protocol: None },
            account(Some(PoxType::Smtp), Some(587), Some("smtp.example.com"), false, None),
            account(Some(PoxType::Other), Some(443), Some("ews.example.com"), true, Some("example.com")),
            account(Some(PoxType::Imap), Some(993), Some("imap.example.com"), true, Some("other.com")),
            account(Some(PoxType::Imap), None, Some("noport.example.com"), true, None),
            account(Some(PoxType::Imap), Some(143), None, true, None),
            account(None, Some(143), Some("nokind.example.com"), true, None),
        ],
    });
    let (incoming, outgoing) = servers_of(&config);
    assert_eq!(incoming, vec![(ServerConfigType::Imap, "imap.example.com".to_string(), 993)]);
    assert_eq!(outgoing, vec![(ServerConfigType::Smtp, "smtp.example.com".to_string(), 587)]);
    assert_eq!(config.provider(), "example.com");
    assert_eq!(config.display_name(), &Some("Jane".to_string()));

    let config = AutodiscoverParser::parse(PoxResponse { display_name: None, accounts: Vec::new() });
    assert_eq!(config.provider(), "Unknown");
    assert!(config.display_name().is_none());
}

#[test]
fn autoconfig_document_becomes_a_configuration() {
    let server = |host: Option<&str>, port: Option<u16>, security: Option<ConnectionSecurity>, kind| {
        AutoConfigServer {
            hostname: host.map(|h| h.to_string()),
            port,
            security,
            authentication: vec![AuthenticationType::OAuth2, AuthenticationType::Encrypted],
            kind,
        }
    };
    let config = AutoConfigParser::parse(AutoConfigDocument {
        provider: "example.com".to_string(),
        display_name: Some("Example".to_string()),
        incoming: vec![
            server(Some("imap.example.com"), Some(993), Some(ConnectionSecurity::Tls), ServerConfigType::Imap),
            server(None, Some(993), Some(ConnectionSecurity::Tls), ServerConfigType::Imap),
            server(Some("pop.example.com"), Some(995), None, ServerConfigType::Pop),
            server(Some("pop.example.com"), None, Some(ConnectionSecurity::Tls), ServerConfigType::Pop),
            server(Some("ex.example.com"), Some(443), Some(ConnectionSecurity::StartTls), ServerConfigType::Exchange),
        ],
        outgoing: vec![server(
            Some("smtp.example.com"),
            Some(587),
            Some(ConnectionSecurity::StartTls),
            ServerConfigType::Smtp,
        )],
        oauth2: Some(OAuth2Config::new(
            "https://example.com/token",
            "https://example.com/auth",
            vec!["mail".to_string()],
        )),
    });
    let (incoming, outgoing) = servers_of(&config);
    assert_eq!(
        incoming,
        vec![
            (ServerConfigType::Imap, "imap.example.com".to_string(), 993),
            (ServerConfigType::Exchange, "ex.example.com".to_string(), 443),
        ]
    );
    assert_eq!(outgoing, vec![(ServerConfigType::Smtp, "smtp.example.com".to_string(), 587)]);
    assert_eq!(config.provider(), "example.com");
    assert_eq!(config.display_name(), &Some("Example".to_string()));
    let oauth2 = config.oauth2().as_ref().unwrap();
    assert_eq!(oauth2.token_url(), "https://example.com/token");
    assert_eq!(oauth2.oauth_url(), "https://example.com/auth");
    assert_eq!(oauth2.scopes(), &vec!["mail".to_string()]);
    match config.config_type() {
        ConfigType::MultiServer { outgoing, .. } => {
            assert_eq!(
                outgoing[0].auth_type(),
                &vec![AuthenticationType::OAuth2, AuthenticationType::Encrypted]
            );
            assert_eq!(*outgoing[0].security(), ConnectionSecurity::StartTls);
            assert_eq!(outgoing[0].clone().domain(), "smtp.example.com");
        }
    }
}

#[test]
fn only_smtp_sends_mail() {
    assert!(ServerConfigType::Smtp.is_outgoing());
    assert!(!ServerConfigType::Imap.is_outgoing());
    assert!(!ServerConfigType::Pop.is_outgoing());
    assert!(!ServerConfigType::Exchange.is_outgoing());
}

#[test]
fn socket_becomes_a_server_with_encrypted_login() {
    let socket = Socket::from_tuple(("mail.example.com", 993, ConnectionSecurity::Tls));
    assert_eq!(socket.domain(), "mail.example.com");
    assert_eq!(socket.port(), 993);
    assert_eq!(*socket.security(), ConnectionSecurity::Tls);
    let config = socket.into_server_config(ServerConfigType::Imap);
    assert_eq!(*config.kind(), ServerConfigType::Imap);
    assert_eq!(*config.port(), 993);
    assert_eq!(config.domain(), "mail.example.com");
    assert_eq!(*config.security(), ConnectionSecurity::Tls);
    assert_eq!(config.auth_type(), &vec![AuthenticationType::Encrypted]);
    let config = Config::new(
        ConfigType::new_multiserver(vec![config], Vec::new()),
        "example.com",
        None,
        None,
    );
    assert_eq!(servers_of(&config).0.len(), 1);
    assert_eq!(Socket::new("x", 1, ConnectionSecurity::Plain).port(), 1);
}

#[test]
fn domain_of_an_email_address() {
    assert_eq!(parse_domain("example@gmail.com").unwrap(), "gmail.com");
    assert_eq!(parse_domain("a@b@c").unwrap(), "b");
    assert_eq!(parse_domain("a@").unwrap(), "");
    let error = parse_domain("no-at-sign").unwrap_err();
    assert!(matches!(error.kind(), ErrorKind::InvalidEmailAddress));
    assert_eq!(error.to_text(), "Error: Invalid email address");
    let error = Error::not_found(vec![error, Error::new(ErrorKind::DnsDiscover, "dns")]);
    match error.kind() {
        ErrorKind::NotFound(errors) => assert_eq!(errors.len(), 2),
        other => panic!("expected not found, got {:?}", other),
    }
    assert_eq!(
        error.to_text(),
        "Error: Could not detect an email server config from the given email address"
    );
}

#[test]
fn credentials_and_servers_hold_what_they_were_given() {
    let server = RemoteServer::new("imap.example.com", 993, ConnectionSecurity::Tls);
    assert_eq!(server.domain(), "imap.example.com");
    assert_eq!(server.port(), 993);
    assert_eq!(*server.security(), ConnectionSecurity::Tls);
    assert!(server.security().starts_secure());
    assert!(!ConnectionSecurity::StartTls.starts_secure());
    assert!(!ConnectionSecurity::Plain.starts_secure());

    let password = Credentials::password("user", "secret");
    assert_eq!(password.username(), "user");
    assert!(matches!(&password, Credentials::Password { password, .. } if password == "secret"));
    assert_eq!(password.secret(), "secret");
    assert_eq!(password.mechanisms(), vec![Mechanism::Plain, Mechanism::Login]);
    let oauth = Credentials::oauth("user2", "token");
    assert_eq!(oauth.username(), "user2");
    assert_eq!(oauth.secret(), "token");
    assert_eq!(oauth.mechanisms(), vec![Mechanism::Xoauth2]);
    assert!(matches!(&oauth, Credentials::OAuth { token, .. } if token == "token"));

    let imap = ImapCredentials::new(server, password);
    assert_eq!(imap.server().port(), 993);
    assert_eq!(imap.credentials().username(), "user");
    let pop = PopCredentials::new(RemoteServer::new("pop", 995, ConnectionSecurity::Tls), oauth);
    assert_eq!(pop.server().domain(), "pop");
    assert_eq!(pop.credentials().username(), "user2");
    let smtp = SmtpCredentials::new(
        RemoteServer::new("smtp", 25, ConnectionSecurity::Plain),
        Credentials::password("u", "p"),
    );
    assert_eq!(smtp.server().port(), 25);
    assert_eq!(smtp.credentials().username(), "u");

    assert!(matches!(IncomingEmailProtocol::Imap(imap), IncomingEmailProtocol::Imap(_)));
    assert!(matches!(IncomingEmailProtocol::Pop(pop), IncomingEmailProtocol::Pop(_)));
    assert!(matches!(
        IncomingEmailProtocol::Maildir("/var/mail".to_string()),
        IncomingEmailProtocol::Maildir(_)
    ));
    assert!(matches!(OutgoingEmailProtocol::Smtp(smtp), OutgoingEmailProtocol::Smtp(_)));
    let _config: IncomingConfig = IncomingConfig::default();
    assert_ne!(IncomingClientType::Imap, IncomingClientType::Pop);
    assert_eq!(OutgoingClientType::Smtp, OutgoingClientType::Smtp);
}

#[test]
fn oauth_response_is_user_and_bearer_token() {
    let credentials = OAuthCredentials::new("user@example.com", "abc123");
    assert_eq!(
        credentials.process(),
        "user=user@example.com\x01auth=Bearer abc123\x01\x01"
    );
}

#[test]
fn page_is_cut_out_of_the_list() {
    let items = || vec![10, 11, 12, 13, 14];
    assert_eq!(page(items(), 0, 10), vec![10, 11, 12, 13, 14]);
    assert_eq!(page(items(), 1, 3), vec![11, 12]);
    assert_eq!(page(items(), 4, 5), vec![14]);
    assert_eq!(page(items(), 5, 9), Vec::<i32>::new());
    assert_eq!(page(items(), 3, 3), Vec::<i32>::new());
    assert_eq!(page(items(), 3, 1), Vec::<i32>::new());
    assert_eq!(page(Vec::<i32>::new(), 0, 1), Vec::<i32>::new());
}

#[test]
fn mail_directory_has_one_mailbox() {
    let inbox = get_inbox(3, 4);
    assert_eq!(inbox.stats().unwrap().unseen(), 3);
    assert_eq!(inbox.stats().unwrap().total(), 7);
    assert_eq!(inbox.name(), "Inbox");
    assert_eq!(get_inbox(usize::MAX, 1).stats().unwrap().total(), usize::MAX);
    assert_ne!(DirType::Current, DirType::New);
    let error = not_found("abc");
    assert_eq!(*error.kind(), dust_mail::error::ErrorKind::MessageNotFound);
    assert_eq!(error.message(), "Could not find a message with id abc");
}

#[test]
fn stored_message_gets_the_flags_of_its_entry() {
    let builder = entry_builder(
        MessageBuilder::new().flag(Flag::HasAttachment),
        "entry-id",
        true,
        false,
        true,
        false,
        false,
    );
    let parts = builder.into_parts();
    assert_eq!(parts.id.as_deref(), Some("entry-id"));
    assert!(matches!(parts.flags.as_slice(), [Flag::HasAttachment, Flag::Read, Flag::Draft]));
}
