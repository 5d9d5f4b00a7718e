use rs_port_forward::config::{
    config_file_path, empty_string, get_config_file, Config, ConfigConnect,
    DEFAULT_BUFFER_TIME_SECONDS, DEFAULT_IDLE_TIMEOUT_SECONDS, DEFAULT_MAX_BUFFER_COUNT,
};

fn args(list: &[&str]) -> Vec<String> {
    list.iter().map(|a| a.to_string()).collect()
}

fn rule(name: &str, local_port: u16, remote_address: &str, remote_port: u16) -> ConfigConnect {
    ConfigConnect {
        name: name.to_string(),
        local_port,
        remote_port,
        remote_address: remote_address.to_string(),
        idle_timeout_seconds: None,
    }
}

fn config(rules: Vec<ConfigConnect>) -> Config {
    Config {
        connect_list: rules,
        database_path: None,
        db_buffer_time_sec: None,
        max_buffer_count: None,
        http_listen: None,
    }
}

#[test]
fn config_file_is_the_argument_behind_the_flag() {
    assert_eq!(
        get_config_file(&args(&["prog", "--config", "/tmp/a.json"])),
        Some("/tmp/a.json".to_string())
    );
    assert_eq!(
        get_config_file(&args(&["--config", "a", "b"])),
        Some("a".to_string())
    );
    assert_eq!(
        get_config_file(&args(&["prog", "-v", "--config", "", "x"])),
        Some("".to_string())
    );
}

#[test]
fn config_file_is_missing_without_the_flag() {
    assert_eq!(get_config_file(&[]), None);
    assert_eq!(get_config_file(&args(&["prog"])), None);
    assert_eq!(get_config_file(&args(&["prog", "-config", "a"])), None);
    assert_eq!(get_config_file(&args(&["prog", "--config=a"])), None);
    assert_eq!(get_config_file(&args(&["prog", "--confi", "--configs", "a"])), None);
}

#[test]
fn flag_as_last_argument_names_no_file() {
    assert_eq!(get_config_file(&args(&["prog", "--config"])), None);
    assert_eq!(get_config_file(&args(&["--config"])), None);
}

#[test]
fn only_the_first_flag_counts() {
    assert_eq!(
        get_config_file(&args(&["prog", "--config", "a", "--config", "b"])),
        Some("a".to_string())
    );
    assert_eq!(
        get_config_file(&args(&["prog", "--config", "--config", "b"])),
        Some("--config".to_string())
    );
}

#[test]
fn config_path_defaults_by_system() {
    assert_eq!(config_file_path(&args(&["prog"]), false), "/etc/rs-port-forward.config.json");
    assert_eq!(config_file_path(&args(&["prog"]), true), "rs-port-forward.config.json");
    assert_eq!(config_file_path(&args(&["prog", "--config"]), false), "/etc/rs-port-forward.config.json");
}

#[test]
fn config_path_from_the_arguments_is_taken_as_it_stands() {
    let given = args(&["prog", "--config", "my.json"]);
    assert_eq!(config_file_path(&given, false), "my.json");
    assert_eq!(config_file_path(&given, true), "my.json");
}

#[test]
fn empty_string_is_empty() {
    assert_eq!(empty_string(), "");
    assert_eq!(empty_string().len(), 0);
}

#[test]
fn idle_timeout_defaults_to_ten_seconds() {
    let mut r = rule("a", 1, "h", 2);
    assert_eq!(r.idle_timeout(), 10);
    assert_eq!(DEFAULT_IDLE_TIMEOUT_SECONDS, 10);
    r.idle_timeout_seconds = Some(1);
    assert_eq!(r.idle_timeout(), 1);
    r.idle_timeout_seconds = Some(0);
    assert_eq!(r.idle_timeout(), 0);
    r.idle_timeout_seconds = Some(u64::MAX);
    assert_eq!(r.idle_timeout(), u64::MAX);
}

#[test]
fn writer_settings_default_to_five_seconds_and_a_thousand_rows() {
    let mut c = config(vec![]);
    assert_eq!(c.buffer_time(), 5);
    assert_eq!(c.max_buffer(), 1000);
    assert_eq!(DEFAULT_BUFFER_TIME_SECONDS, 5);
    assert_eq!(DEFAULT_MAX_BUFFER_COUNT, 1000);
    c.db_buffer_time_sec = Some(60);
    c.max_buffer_count = Some(2);
    assert_eq!(c.buffer_time(), 60);
    assert_eq!(c.max_buffer(), 2);
    c.db_buffer_time_sec = Some(0);
    c.max_buffer_count = Some(0);
    assert_eq!(c.buffer_time(), 0);
    assert_eq!(c.max_buffer(), 0);
}

#[test]
fn addresses_of_a_rule() {
    let r = rule("echo", 9000, "127.0.0.1", 9100);
    assert_eq!(r.bind_address(), "0.0.0.0:9000");
    assert_eq!(r.remote_target(), "127.0.0.1:9100");
    let r = rule("dns", 0, "example.org", 65535);
    assert_eq!(r.bind_address(), "0.0.0.0:0");
    assert_eq!(r.remote_target(), "example.org:65535");
    let r = rule("v6", 10, "::1", 7);
    assert_eq!(r.remote_target(), "::1:7");
}

#[test]
fn summary_line_of_a_rule() {
    let r = rule("echo", 9000, "127.0.0.1", 9100);
    assert_eq!(
        r.summary(1),
        "1 | Connection: echo >> local_port: 9000, remote host:  127.0.0.1, remote port: 9100"
    );
    assert_eq!(
        r.summary(1),
        format!(
            "{} | Connection: {} >> local_port: {}, remote host:  {}, remote port: {}",
            1, r.name, r.local_port, r.remote_address, r.remote_port
        )
    );
}

#[test]
fn summary_of_the_configuration() {
    let c = config(vec![rule("a", 1, "x", 2), rule("b", 30, "y.z", 40), rule("", 500, "", 60000)]);
    assert_eq!(
        c.summary(),
        vec![
            "Connection list:".to_string(),
            "1 | Connection: a >> local_port: 1, remote host:  x, remote port: 2".to_string(),
            "2 | Connection: b >> local_port: 30, remote host:  y.z, remote port: 40".to_string(),
            "3 | Connection:  >> local_port: 500, remote host:  , remote port: 60000".to_string(),
        ]
    );
    assert_eq!(config(vec![]).summary(), vec!["Connection list:".to_string()]);
}
