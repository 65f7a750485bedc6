use shiny_portal::config::{
    config_path, join_path, non_empty_env, Cli, Config, ConfigError, DEFAULT_CONFIG,
};

fn bytes(text: &str) -> Option<Vec<u8>> {
    Some(text.as_bytes().to_vec())
}

#[test]
fn default_config_has_no_limit_and_no_shm() {
    assert_eq!(
        Config::default(),
        Config { max_fps: 0, allow_screencast_shm: false }
    );
}

#[test]
fn default_file_says_the_defaults() {
    let table: toml::Table = DEFAULT_CONFIG.parse().unwrap();
    assert_eq!(table.len(), 2);
    assert_eq!(table["max_fps"].as_integer(), Some(0));
    assert_eq!(table["allow_screencast_shm"].as_bool(), Some(false));
    assert!(DEFAULT_CONFIG.starts_with("# Maximum screencast capture rate. 0 disables the limit.\n"));
    assert!(DEFAULT_CONFIG.ends_with("allow_screencast_shm = false\n"));
}

#[test]
fn config_home_takes_precedence() {
    assert_eq!(
        config_path(bytes("/etc/xdg"), bytes("/home/me")),
        Ok(b"/etc/xdg/shiny/portal-config.toml".to_vec())
    );
}

#[test]
fn home_is_the_second_choice() {
    let expected = b"/home/me/.config/xdg-desktop-portal-shiny/config.toml".to_vec();
    assert_eq!(config_path(None, bytes("/home/me")), Ok(expected.clone()));
    assert_eq!(config_path(bytes(""), bytes("/home/me/")), Ok(expected));
}

#[test]
fn without_a_home_there_is_no_config() {
    assert_eq!(config_path(None, None), Err(ConfigError::NoHome));
    assert_eq!(
        ConfigError::NoHome.message(),
        "neither XDG_CONFIG_HOME nor HOME is set"
    );
    assert_eq!(config_path(bytes(""), bytes("")), Err(ConfigError::NoHome));
}

#[test]
fn config_file_has_a_parent() {
    let path = config_path(bytes("relative"), None).unwrap();
    assert_eq!(path, b"relative/shiny/portal-config.toml".to_vec());
    let text = String::from_utf8(path).unwrap();
    let parent = std::path::Path::new(&text).parent().unwrap();
    assert_eq!(parent, std::path::Path::new("relative/shiny"));
}

#[test]
fn paths_are_joined_like_the_standard_library() {
    for base in ["", "/", "a", "a/", "/a//"] {
        let expected = std::path::Path::new(base).join("b");
        assert_eq!(
            join_path(&base.as_bytes().to_vec(), "b"),
            expected.to_str().unwrap().as_bytes().to_vec(),
            "{base:?}"
        );
    }
}

#[test]
fn empty_variables_do_not_count() {
    assert_eq!(non_empty_env(None), None);
    assert_eq!(non_empty_env(bytes("")), None);
    assert_eq!(non_empty_env(bytes("x")), bytes("x"));
}

#[test]
fn verbose_logs_debug_messages() {
    assert_eq!(Cli { verbose: true }.default_filter(), "debug");
    assert_eq!(Cli { verbose: false }.default_filter(), "info");
}
