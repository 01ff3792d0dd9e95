use sshh::args::Args;

#[test]
fn explicit_config_path_wins() {
    let args = Args { config_path: Some("/etc/ssh/alt_config".to_string()) };
    assert_eq!(args.get_config_path(), Some("/etc/ssh/alt_config".to_string()));
}

#[test]
fn default_config_path_lies_under_the_home_directory() {
    let args = Args { config_path: None };
    match args.get_config_path() {
        Some(p) => assert!(p.ends_with("/.ssh/config")),
        None => {}
    }
}
