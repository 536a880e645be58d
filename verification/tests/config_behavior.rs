use fastjump::config::{
    get_config_pb, read_config_from_parts, test_config, Config, ConfigError, ConfigParts,
};

fn empty_parts() -> ConfigParts {
    ConfigParts { ignores: None, scan_root: None, previous_visits: None, num_threads: None }
}

#[test]
fn test_no_config_file_existing() {
    // A configuration file that cannot be read yields the default config.
    let config = get_config_pb(None, String::from("/home/someone")).unwrap();
    assert_eq!(config.ignores, Vec::<String>::new());
}

#[test]
fn missing_default_file() {
    let config = get_config_pb(None, String::from("/home/someone")).unwrap();
    assert_eq!(config.num_threads, 1);
    assert_eq!(config.previous_visits, None);
}

#[test]
fn test_parse_file() {
    let parts = ConfigParts {
        ignores: Some(vec![String::from("node_modules")]),
        scan_root: Some(String::from("test_configs")),
        previous_visits: Some(String::from("test_configs/previous.yml")),
        num_threads: Some(5),
    };
    let config = get_config_pb(Some(parts), String::from("/home/someone")).unwrap();
    assert_eq!(config.ignores, vec![String::from("node_modules")]);
    assert_eq!(config.scan_root, String::from("test_configs"));
    assert_eq!(config.num_threads, 5);
    assert_eq!(config.previous_visits, Some(String::from("test_configs/previous.yml")));
}

#[test]
fn test_missing_ignores() {
    let parts = ConfigParts { scan_root: Some(String::from("test_configs")), ..empty_parts() };
    let config = get_config_pb(Some(parts), String::from("/home/someone")).unwrap();
    assert_eq!(config.ignores, Vec::<String>::new());
    assert_eq!(config.scan_root, String::from("test_configs"));
}

#[test]
fn test_missing_scan_root() {
    let config = get_config_pb(Some(empty_parts()), String::from("/home/someone")).unwrap();
    assert_eq!(config.ignores, Vec::<String>::new());
    assert_eq!(config.scan_root, String::from("."));
}

#[test]
fn test_missing_threads() {
    let config = get_config_pb(Some(empty_parts()), String::from("/home/someone")).unwrap();
    assert_eq!(config.num_threads, 3);
}

#[test]
#[should_panic]
fn test_threads_too_large() {
    let parts = ConfigParts { num_threads: Some(300), ..empty_parts() };
    read_config_from_parts(parts).unwrap();
}

#[test]
fn test_thread_count_out_of_range_is_reported() {
    let low = ConfigParts { num_threads: Some(-1), ..empty_parts() };
    assert_eq!(read_config_from_parts(low).unwrap_err(), ConfigError::ThreadCountOutOfRange);
    let high = ConfigParts { num_threads: Some(256), ..empty_parts() };
    assert_eq!(read_config_from_parts(high).unwrap_err(), ConfigError::ThreadCountOutOfRange);
    let edge = ConfigParts { num_threads: Some(255), ..empty_parts() };
    assert_eq!(read_config_from_parts(edge).unwrap().num_threads, 255);
}

#[test]
fn test_test_config_fields() {
    let config: Config = test_config();
    assert_eq!(config.ignores, Vec::<String>::new());
    assert_eq!(config.scan_root, String::from("test_configs"));
    assert_eq!(config.num_threads, 1);
    assert_eq!(config.previous_visits, None);
}
