//! The configuration of the server.

use phira_mp::config::{
    parse_port, Config, ConfigError, EnvVars, IpAddress, ListenAddr, ListenText, YamlConfig,
};
use phira_mp::rooms::RoomState;

/// An environment in which these variables are set.
fn fake_env(overrides: &[(&str, &str)]) -> EnvVars {
    let get = |name: &str| {
        overrides
            .iter()
            .find(|(k, _)| *k == name)
            .map(|(_, v)| (*v).to_owned())
    };
    EnvVars {
        port: get("R0SEMI_MP_PORT"),
        api_base: get("R0SEMI_MP_API_BASE"),
        admin_token: get("R0SEMI_MP_ADMIN_TOKEN"),
        persist_dir: get("R0SEMI_MP_PERSIST_DIR"),
    }
}

#[test]
fn default_config_matches_original() {
    let cfg = Config::load_from(fake_env(&[])).unwrap();
    assert_eq!(cfg.listen.port(), 12346);
    assert_eq!(cfg.api_base, "https://phira.5wyxi.com");
    assert_eq!(cfg.rooms.monitors, vec![2]);
}

#[test]
fn env_port_overrides() {
    let cfg = Config::load_from(fake_env(&[("R0SEMI_MP_PORT", "3939")])).unwrap();
    assert_eq!(cfg.listen.port(), 3939);
}

#[test]
fn env_api_base_overrides() {
    let cfg =
        Config::load_from(fake_env(&[("R0SEMI_MP_API_BASE", "https://example.test")])).unwrap();
    assert_eq!(cfg.api_base, "https://example.test");
}

#[test]
fn invalid_port_env_errors() {
    let err = Config::load_from(fake_env(&[("R0SEMI_MP_PORT", "not-a-port")])).unwrap_err();
    assert!(matches!(
        err,
        ConfigError::InvalidEnv {
            name: "R0SEMI_MP_PORT",
            ..
        }
    )
    );
}

#[test]
fn listen_addr_is_unspecified_ipv6() {
    let cfg = Config::load_from(fake_env(&[])).unwrap();
    assert!(cfg.listen.ip().is_unspecified());
}

#[test]
fn listen_port_keep_default_when_env_absent() {
    let cfg = Config::load_from(fake_env(&[("R0SEMI_MP_API_BASE", "x")])).unwrap();
    assert_eq!(cfg.listen.port(), 12346);
}

#[test]
fn config_by_default() {
    let cfg = Config::default();
    assert_eq!(cfg.listen.ip(), IpAddress::V4 { a: 0, b: 0, c: 0, d: 0 });
    assert_eq!(cfg.listen.port(), 12346);
    assert_eq!(cfg.reconnect_window, 10);
    assert_eq!(cfg.playing_reconnect_window, 60);
    assert_eq!(cfg.auth_timeout, 10);
    assert_eq!(cfg.http_timeout, 5);
    assert_eq!(cfg.maintenance_grace, 10);
    assert_eq!(cfg.config_poll_interval, 2);
    assert_eq!(
        cfg.maintenance_notice,
        "服务器维护中，房间即将关闭，请稍后再来"
    );
    assert_eq!(cfg.welcome_message, None);
    assert!(cfg.hidden_room_prefixes.is_empty());
    assert_eq!(cfg.http_port, None);
    assert_eq!(cfg.admin_token, None);
    assert_eq!(cfg.persist_dir, "./data");
    assert!(!cfg.proxy_protocol);
    assert_eq!(cfg.memory_guard_bytes, 0);
    assert_eq!(cfg.per_conn_mem_bytes, 0);
    assert_eq!(cfg.max_authed_connections, 0);
}

#[test]
fn file_overrides_defaults_and_environment_overrides_file() {
    let addr = ListenAddr::new(
        IpAddress::V4 {
            a: 127,
            b: 0,
            c: 0,
            d: 1,
        },
        4000,
    );
    let mut file = YamlConfig::empty();
    file.listen = Some(ListenText {
        text: "127.0.0.1:4000".to_owned(),
        addr: Some(addr),
    });
    file.api_base = Some("https://file.test".to_owned());
    file.monitors = Some(vec![5, 6]);
    file.reconnect_window = Some(20);
    file.playing_reconnect_window = Some(21);
    file.auth_timeout = Some(22);
    file.http_timeout = Some(23);
    file.maintenance_grace = Some(24);
    file.config_poll_interval = Some(25);
    file.maintenance_notice = Some("soon".to_owned());
    file.welcome_message = Some("hi".to_owned());
    file.hidden_room_prefixes = Some(vec!["solo".to_owned()]);
    file.http_port = Some(8080);
    file.proxy_protocol = Some(true);
    file.admin_token = Some("file".to_owned());
    file.persist_dir = Some("/file".to_owned());
    file.memory_guard_mb = Some(3);
    file.per_conn_mem_mb = Some(2);
    file.max_authed_connections = Some(77);
    assert!(file.is_in_range());
    let env = fake_env(&[("R0SEMI_MP_PORT", "+5000"), ("R0SEMI_MP_PERSIST_DIR", "/env")]);
    let cfg = Config::load_from_yaml(env, Some(Ok(file)), None).unwrap();
    assert_eq!(cfg.listen.ip(), addr.ip());
    assert_eq!(cfg.listen.port(), 5000);
    assert_eq!(cfg.api_base, "https://file.test");
    assert_eq!(cfg.rooms.monitors, vec![5, 6]);
    assert_eq!(cfg.reconnect_window, 20);
    assert_eq!(cfg.playing_reconnect_window, 21);
    assert_eq!(cfg.auth_timeout, 22);
    assert_eq!(cfg.http_timeout, 23);
    assert_eq!(cfg.maintenance_grace, 24);
    assert_eq!(cfg.config_poll_interval, 25);
    assert_eq!(cfg.maintenance_notice, "soon");
    assert_eq!(cfg.welcome_message.as_deref(), Some("hi"));
    assert_eq!(cfg.hidden_room_prefixes, vec!["solo".to_owned()]);
    assert_eq!(cfg.http_port, Some(8080));
    assert!(cfg.proxy_protocol);
    assert_eq!(cfg.admin_token.as_deref(), Some("file"));
    assert_eq!(cfg.persist_dir, "/env");
    assert_eq!(cfg.memory_guard_bytes, 3 * 1024 * 1024);
    assert_eq!(cfg.per_conn_mem_bytes, 2 * 1024 * 1024);
    assert_eq!(cfg.max_authed_connections, 77);
}

#[test]
fn empty_file_changes_nothing() {
    let cfg = Config::load_from_yaml(fake_env(&[]), Some(Ok(YamlConfig::empty())), None);
    assert_eq!(cfg, Ok(Config::default()));
}

#[test]
fn missing_files_say_nothing_and_unreadable_ones_are_errors() {
    assert_eq!(
        Config::load_from_read(fake_env(&[]), Ok(None), "f.yml"),
        Ok(Config::default())
    );
    assert_eq!(
        Config::load_from_read(fake_env(&[]), Err("denied".to_owned()), "f.yml"),
        Err(ConfigError::ReadFile {
            path: "f.yml".to_owned(),
            source: "denied".to_owned()
        })
    );
    let mut file = YamlConfig::empty();
    file.monitors = Some(vec![4]);
    file.welcome_message = Some("hi".to_owned());
    file.hidden_room_prefixes = Some(vec!["a".to_owned(), "b".to_owned()]);
    let cfg = Config::load_from_read(fake_env(&[]), Ok(Some(Ok(file))), "f.yml").unwrap();
    assert_eq!(cfg.rooms.monitors, vec![4]);
    assert_eq!(cfg.clone(), cfg);
    assert_eq!(
        Config::load_from_read(fake_env(&[]), Ok(Some(Err("bad".to_owned()))), "f.yml"),
        Err(ConfigError::InvalidYaml {
            path: "f.yml".to_owned(),
            msg: "bad".to_owned()
        })
    );
}

#[test]
fn addresses_are_looked_at_before_numbers() {
    let mut file = YamlConfig::empty();
    file.memory_guard_mb = Some(usize::MAX);
    assert!(!file.is_takeable());
    file.listen = Some(ListenText {
        text: "nowhere".to_owned(),
        addr: None,
    });
    assert!(file.is_takeable());
    let mut cfg = Config::default();
    assert_eq!(
        cfg.apply_yaml(Ok(file), None),
        Err(ConfigError::InvalidYaml {
            path: "server_config.yml".to_owned(),
            msg: "invalid listen address: nowhere".to_owned()
        })
    );
    assert_eq!(cfg, Config::default());
}

#[test]
fn bad_files_are_refused() {
    let err = Config::load_from_yaml(
        fake_env(&[]),
        Some(Err("did not find expected key".to_owned())),
        None,
    )
    .unwrap_err();
    assert_eq!(
        err.message(),
        "config file server_config.yml: did not find expected key"
    );
    let mut file = YamlConfig::empty();
    file.listen = Some(ListenText {
        text: "nowhere".to_owned(),
        addr: None,
    });
    file.api_base = Some("https://file.test".to_owned());
    let mut cfg = Config::default();
    let err = cfg.apply_yaml(Ok(file), Some("my.yml")).unwrap_err();
    assert_eq!(
        err,
        ConfigError::InvalidYaml {
            path: "my.yml".to_owned(),
            msg: "invalid listen address: nowhere".to_owned(),
        }
    );
    assert_eq!(cfg, Config::default());
}

#[test]
fn config_errors_in_words() {
    let err = Config::load_from(fake_env(&[("R0SEMI_MP_PORT", "70000")])).unwrap_err();
    assert_eq!(err.message(), "invalid env var R0SEMI_MP_PORT: 70000");
    let err = ConfigError::ReadFile {
        path: "a.yml".to_owned(),
        source: "permission denied".to_owned(),
    };
    assert_eq!(err.message(), "config file a.yml: permission denied");
}

#[test]
fn ports_are_parsed_like_numbers() {
    let texts = [
        "0", "1", "65535", "65536", "+7", "++7", "+", "", "-1", "-0", " 1", "1 ", "0080", "000065535",
        "99999999999999999999", "1a", "١",
    ];
    for text in texts {
        assert_eq!(parse_port(text), text.parse::<u16>().ok(), "{text:?}");
    }
    assert_eq!(parse_port("3939"), Some(3939));
}

#[test]
fn too_many_mebibytes_are_noticed() {
    let mut file = YamlConfig::empty();
    file.memory_guard_mb = Some(usize::MAX / 1024);
    assert!(!file.is_in_range());
    file.memory_guard_mb = Some(usize::MAX / (1024 * 1024));
    assert!(file.is_in_range());
}

#[test]
fn games_are_waited_for_longer() {
    let cfg = Config::default();
    assert_eq!(cfg.dangle_window(Some(RoomState::Playing)), 60);
    assert_eq!(cfg.dangle_window(Some(RoomState::WaitingForReady)), 10);
    assert_eq!(cfg.dangle_window(None), 10);
}

#[test]
fn unspecified_addresses() {
    let v6 = |high, low| IpAddress::V6 {
        high,
        low,
        flowinfo: 0,
        scope_id: 0,
    };
    assert!(v6(0, 0).is_unspecified());
    assert!(!v6(0, 1).is_unspecified());
    assert!(!IpAddress::V4 { a: 127, b: 0, c: 0, d: 1 }.is_unspecified());
}
