use tinc_rs::config::{check_name, check_netname, parse_config_line, read_server_config, validate_config_line, Config, ConfigError};

fn has(config: &Config, name: &str) -> bool {
    config.connect_to.iter().any(|c| c == name)
}

#[test]
fn test_read_server_config() {
    let text = r"
        Name = test
        # comment
        LogLevel = 3
        ConnectTo = host1
        ConnectTo = host2 # some comment

        ";
    let config = read_server_config(text).unwrap();
    assert_eq!(config.log_level, 3);
    assert_eq!(config.connect_to.len(), 2);
    assert!(has(&config, "host1"));
    assert!(has(&config, "host2"));
}

#[test]
fn loads_alice_with_two_peers() {
    let text = "Name = alice\nConnectTo = bob\nConnectTo = carol\nLogLevel = 2\n";
    let config = read_server_config(text).unwrap();
    assert_eq!(config.name, "alice");
    assert_eq!(config.log_level, 2);
    assert_eq!(config.port, None);
    assert_eq!(config.connect_to.len(), 2);
    assert!(has(&config, "bob"));
    assert!(has(&config, "carol"));
}

#[test]
fn duplicate_peers_collapse() {
    let config = read_server_config("Name = a\nConnectTo = b\nConnectTo = b\n").unwrap();
    assert_eq!(config.connect_to, vec!["b".to_string()]);
}

#[test]
fn port_and_plus_sign() {
    let config = read_server_config("Name=n_1\r\nPort = +655\r\nLogLevel=255").unwrap();
    assert_eq!(config.name, "n_1");
    assert_eq!(config.port, Some(655));
    assert_eq!(config.log_level, 255);
}

#[test]
fn empty_text_has_no_name() {
    assert_eq!(read_server_config("").unwrap_err(), ConfigError::NoName);
    assert_eq!(read_server_config("# only a comment\n\n").unwrap_err(), ConfigError::NoName);
}

#[test]
fn errors_carry_line_numbers() {
    assert_eq!(read_server_config("Name = a\nColor = red\n").unwrap_err(), ConfigError::UnknownVariable { line_number: 1 });
    assert_eq!(read_server_config("\nName\n").unwrap_err(), ConfigError::MissingValue { line_number: 1 });
    assert_eq!(read_server_config("Name = a-b\n").unwrap_err(), ConfigError::InvalidName { line_number: 0 });
    assert_eq!(read_server_config("Name = # none\n").unwrap_err(), ConfigError::EmptyName { line_number: 0 });
    assert_eq!(read_server_config("Name = a\nLogLevel = 256\n").unwrap_err(), ConfigError::InvalidLogLevel { line_number: 1 });
    assert_eq!(read_server_config("Name = a\nLogLevel = -1\n").unwrap_err(), ConfigError::InvalidLogLevel { line_number: 1 });
    assert_eq!(read_server_config("Name = a\nPort = 65536\n").unwrap_err(), ConfigError::InvalidPort { line_number: 1 });
    assert_eq!(read_server_config("Name = a\nPort = \n").unwrap_err(), ConfigError::InvalidPort { line_number: 1 });
}

#[test]
fn keys_are_case_sensitive() {
    assert_eq!(read_server_config("name = a\n").unwrap_err(), ConfigError::UnknownVariable { line_number: 0 });
}

#[test]
fn splits_at_first_equals_and_drops_comment() {
    let (k, v) = parse_config_line("  ConnectTo =  a=b  # note", 4).unwrap();
    assert_eq!(k, "ConnectTo");
    assert_eq!(v, "a=b");
    assert_eq!(parse_config_line("nothing here", 4).unwrap_err(), ConfigError::MissingValue { line_number: 4 });
}

#[test]
fn name_check() {
    assert!(check_name("abc_09XY", 0).is_ok());
    assert_eq!(check_name("", 2), Err(ConfigError::EmptyName { line_number: 2 }));
    assert_eq!(check_name("a b", 3), Err(ConfigError::InvalidName { line_number: 3 }));
    assert_eq!(check_name("é", 3), Err(ConfigError::InvalidName { line_number: 3 }));
}

#[test]
fn one_line_at_a_time() {
    let mut config = Config::new();
    assert!(validate_config_line(&mut config, "Port", "80", 0).is_ok());
    assert_eq!(config.port, Some(80));
    assert!(validate_config_line(&mut config, "ConnectTo", "x", 1).is_ok());
    assert_eq!(validate_config_line(&mut config, "Foo", "x", 2), Err(ConfigError::UnknownVariable { line_number: 2 }));
    assert_eq!(config.connect_to.len(), 1);
}

#[test]
fn netname_check() {
    assert!(check_netname(".").is_ok());
    assert!(check_netname("vpn").is_ok());
    assert_eq!(check_netname(""), Err(ConfigError::EmptyNetname));
    assert_eq!(check_netname("a/b"), Err(ConfigError::InvalidNetname));
    assert_eq!(check_netname("a\\b"), Err(ConfigError::InvalidNetname));
    assert_eq!(check_netname("a\tb"), Err(ConfigError::InvalidNetname));
    assert_eq!(check_netname("a\u{7f}"), Err(ConfigError::InvalidNetname));
}

#[test]
fn canonical_text_loads_back() {
    let text = "# peers\nConnectTo = carol  # second\nName = alice\nPort=655\nConnectTo = bob\nLogLevel = 12\nConnectTo = carol\n";
    let first = read_server_config(text).unwrap();
    let written = tinc_rs::canonical::format_config(&first);
    assert_eq!(written, "Name=alice\nLogLevel=12\nPort=655\nConnectTo=carol\nConnectTo=bob\n");
    let second = read_server_config(&written).unwrap();
    assert_eq!(second.name, first.name);
    assert_eq!(second.log_level, first.log_level);
    assert_eq!(second.port, first.port);
    assert_eq!(second.connect_to, first.connect_to);
}

#[test]
fn canonical_text_of_odd_values() {
    let first = read_server_config("Name = n\nConnectTo =\nConnectTo = a = b\nLogLevel = 0\n").unwrap();
    let written = tinc_rs::canonical::format_config(&first);
    assert_eq!(written, "Name=n\nLogLevel=0\nConnectTo=\nConnectTo=a = b\n");
    let second = read_server_config(&written).unwrap();
    assert_eq!(second.connect_to, first.connect_to);
}

#[test]
fn default_config_is_empty() {
    let c = Config::default();
    assert_eq!(c.name, "");
    assert_eq!(c.log_level, 0);
    assert!(c.connect_to.is_empty());
    assert_eq!(c.port, None);
}
