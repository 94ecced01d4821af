use dns_fallback::config::add_nameserver_for_ip;
use dns_fallback::config::add_nameservers_from_resolv_conf;
use dns_fallback::config::DnsConfig;
use dns_fallback::config::Protocol;
use dns_fallback::detect::should_install_termux_resolver_with;
use dns_fallback::ip::parse_ip;
use dns_fallback::ip::IpAddress;
use dns_fallback::resolver::select_config;
use dns_fallback::resolver::ConfigSource;
use dns_fallback::resolver::TermuxResolver;

#[test]
fn test_termux_resolver_new() {
    let resolver = TermuxResolver::new(None);
    assert!(resolver.is_ok());
}

#[test]
fn test_parse_resolv_conf_contents() {
    let content = "nameserver 1.1.1.1\nnameserver 8.8.8.8\n# comment\n  nameserver 9.9.9.9  ";
    let mut config = DnsConfig::new();
    add_nameservers_from_resolv_conf(content, &mut config);
    assert_eq!(config.name_servers().len(), 6);
    assert_eq!(config.name_servers()[0].ip.to_text(), "1.1.1.1".to_string());
    assert_eq!(config.name_servers()[1].ip.to_text(), "1.1.1.1".to_string());
    assert_eq!(config.name_servers()[2].ip.to_text(), "8.8.8.8".to_string());
    assert_eq!(config.name_servers()[3].ip.to_text(), "8.8.8.8".to_string());
    assert_eq!(config.name_servers()[4].ip.to_text(), "9.9.9.9".to_string());
    assert_eq!(config.name_servers()[5].ip.to_text(), "9.9.9.9".to_string());
}

#[test]
fn test_add_nameserver_for_ip_adds_udp_and_tcp() {
    let mut config = DnsConfig::new();
    add_nameserver_for_ip(&mut config, parse_ip("1.1.1.1").expect("valid ip"));
    let protocols = config
        .name_servers()
        .iter()
        .map(|server| server.protocol)
        .collect::<Vec<_>>();
    assert_eq!(protocols, vec![Protocol::Udp, Protocol::Tcp]);
}

#[test]
fn should_install_termux_resolver_detects_signals() {
    assert_eq!(should_install_termux_resolver_with(false, None, None), false);
    assert_eq!(
        should_install_termux_resolver_with(false, Some(String::from("0.118.0")), None),
        true
    );
    assert_eq!(
        should_install_termux_resolver_with(
            false,
            None,
            Some(String::from("/data/data/com.termux/files/usr")),
        ),
        true
    );
    assert_eq!(
        should_install_termux_resolver_with(false, None, Some(String::from("/usr"))),
        false
    );
    assert_eq!(should_install_termux_resolver_with(true, None, None), true);
}

#[test]
fn parse_entries_carry_port_and_transport_order() {
    let mut config = DnsConfig::new();
    add_nameservers_from_resolv_conf("nameserver 1.1.1.1\n", &mut config);
    assert_eq!(config.name_servers().len(), 2);
    assert_eq!(config.name_servers()[0].port, 53);
    assert_eq!(config.name_servers()[1].port, 53);
    assert_eq!(config.name_servers()[0].protocol, Protocol::Udp);
    assert_eq!(config.name_servers()[1].protocol, Protocol::Tcp);
    assert_eq!(config.name_servers()[0].ip, IpAddress::V4(1, 1, 1, 1));
    assert_eq!(config.name_servers()[1].ip, IpAddress::V4(1, 1, 1, 1));
}

#[test]
fn comment_and_blank_lines_yield_nothing() {
    let mut config = DnsConfig::new();
    add_nameservers_from_resolv_conf("# a comment\n\n   \n# another\n", &mut config);
    assert_eq!(config.name_servers().len(), 0);
}

#[test]
fn comment_only_text_falls_through_to_default_tier() {
    let (_config, _options, source) = select_config(None, Some("# only comments\n\n"));
    assert!(matches!(source, ConfigSource::DefaultServers));
}

#[test]
fn missing_file_falls_through_to_default_tier() {
    let (_config, _options, source) = select_config(None, None);
    assert!(matches!(source, ConfigSource::DefaultServers));
}

#[test]
fn parsed_nameservers_win_over_default_tier() {
    let (_config, _options, source) = select_config(None, Some("nameserver 9.9.9.9\n"));
    assert!(matches!(source, ConfigSource::PrefixFile));
}

#[test]
fn malformed_address_is_skipped_and_parsing_continues() {
    let mut config = DnsConfig::new();
    add_nameservers_from_resolv_conf("nameserver not-an-ip\nnameserver 1.1.1.1", &mut config);
    assert_eq!(config.name_servers().len(), 2);
    assert_eq!(config.name_servers()[0].ip, IpAddress::V4(1, 1, 1, 1));
}

#[test]
fn other_directives_are_ignored() {
    let mut config = DnsConfig::new();
    add_nameservers_from_resolv_conf(
        "search example.org\noptions ndots:2\nnameserver 8.8.4.4\n",
        &mut config,
    );
    assert_eq!(config.name_servers().len(), 2);
    assert_eq!(config.name_servers()[0].ip, IpAddress::V4(8, 8, 4, 4));
}

#[test]
fn carriage_returns_are_handled() {
    let mut config = DnsConfig::new();
    add_nameservers_from_resolv_conf("nameserver 1.1.1.1\r\nnameserver 8.8.8.8\r", &mut config);
    assert_eq!(config.name_servers().len(), 4);
    assert_eq!(config.name_servers()[2].ip, IpAddress::V4(8, 8, 8, 8));
}

#[test]
fn parse_ip_accepts_ipv4() {
    assert_eq!(parse_ip("1.1.1.1"), Some(IpAddress::V4(1, 1, 1, 1)));
    assert_eq!(parse_ip("255.255.255.255"), Some(IpAddress::V4(255, 255, 255, 255)));
    assert_eq!(parse_ip("0.0.0.0"), Some(IpAddress::V4(0, 0, 0, 0)));
}

#[test]
fn parse_ip_rejects_bad_ipv4() {
    assert_eq!(parse_ip("not-an-ip"), None);
    assert_eq!(parse_ip(""), None);
    assert_eq!(parse_ip("256.1.1.1"), None);
    assert_eq!(parse_ip("01.1.1.1"), None);
    assert_eq!(parse_ip("1.1.1"), None);
    assert_eq!(parse_ip("1.1.1.1.1"), None);
    assert_eq!(parse_ip("1.1.1.1 "), None);
}

#[test]
fn parse_ip_accepts_ipv6() {
    assert_eq!(parse_ip("::1"), Some(IpAddress::V6(0, 0, 0, 0, 0, 0, 0, 1)));
    assert_eq!(parse_ip("::"), Some(IpAddress::V6(0, 0, 0, 0, 0, 0, 0, 0)));
    assert_eq!(
        parse_ip("2001:4860:4860::8888"),
        Some(IpAddress::V6(0x2001, 0x4860, 0x4860, 0, 0, 0, 0, 0x8888))
    );
    assert_eq!(
        parse_ip("1:2:3:4:5:6:7:8"),
        Some(IpAddress::V6(1, 2, 3, 4, 5, 6, 7, 8))
    );
    assert_eq!(
        parse_ip("::ffff:1.2.3.4"),
        Some(IpAddress::V6(0, 0, 0, 0, 0, 0xffff, 0x0102, 0x0304))
    );
    assert_eq!(
        parse_ip("1:2:3:4:5:6:7.8.9.10"),
        Some(IpAddress::V6(1, 2, 3, 4, 5, 6, 0x0708, 0x090a))
    );
}

#[test]
fn parse_ip_rejects_bad_ipv6() {
    assert_eq!(parse_ip("1::2::3"), None);
    assert_eq!(parse_ip("1:2:3:4:5:6:7:8:9"), None);
    assert_eq!(parse_ip("1:2:3:4:5:6:7:8::"), None);
    assert_eq!(parse_ip("12345::"), None);
    assert_eq!(parse_ip(":::"), None);
    assert_eq!(parse_ip("1.2.3.4::"), None);
}

#[test]
fn ip_text_round_trips() {
    assert_eq!(IpAddress::V4(9, 9, 9, 9).to_text(), "9.9.9.9".to_string());
    assert_eq!(IpAddress::V4(192, 168, 0, 10).to_text(), "192.168.0.10".to_string());
    assert_eq!(
        IpAddress::V6(0x2001, 0x4860, 0x4860, 0, 0, 0, 0, 0x8888).to_text(),
        "2001:4860:4860:0:0:0:0:8888".to_string()
    );
}

#[test]
fn resolver_builds_from_parsed_configuration() {
    let resolver = TermuxResolver::new(Some("nameserver 1.1.1.1\nnameserver ::1\n"));
    assert!(resolver.is_ok());
    let clone = resolver.expect("construction succeeds").clone();
    let _ = clone;
}
