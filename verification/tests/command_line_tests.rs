use sshh::config::SshHost;

fn host(
    alias: &str,
    hostname: &str,
    user: Option<&str>,
    identity_file: Option<&str>,
    port: Option<u16>,
) -> SshHost {
    SshHost {
        alias: alias.to_string(),
        hostname: hostname.to_string(),
        user: user.map(|s| s.to_string()),
        identity_file: identity_file.map(|s| s.to_string()),
        port,
    }
}

#[test]
fn command_line_with_all_fields() {
    let h = host("a", "example.com", Some("bob"), Some("/k"), Some(22));
    assert_eq!(
        h.get_command_line(),
        vec!["-i", "/k", "-p", "22", "bob@example.com"]
    );
}

#[test]
fn command_line_with_no_optional_fields() {
    let h = host("a", "example.com", None, None, None);
    assert_eq!(h.get_command_line(), vec!["example.com"]);
}

#[test]
fn command_line_with_port_only() {
    let h = host("a", "example.com", None, None, Some(8022));
    assert_eq!(h.get_command_line(), vec!["-p", "8022", "example.com"]);
}

#[test]
fn command_line_with_user_only() {
    let h = host("a", "example.com", Some("root"), None, None);
    assert_eq!(h.get_command_line(), vec!["root@example.com"]);
}

#[test]
fn command_line_with_identity_file_only() {
    let h = host("a", "example.com", None, Some("/home/u/.ssh/id"), None);
    assert_eq!(
        h.get_command_line(),
        vec!["-i", "/home/u/.ssh/id", "example.com"]
    );
}

#[test]
fn command_line_port_boundaries() {
    let h = host("a", "h", None, None, Some(65535));
    assert_eq!(h.get_command_line(), vec!["-p", "65535", "h"]);
    let h0 = host("a", "h", None, None, Some(0));
    assert_eq!(h0.get_command_line(), vec!["-p", "0", "h"]);
}
