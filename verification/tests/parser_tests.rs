use sshh::parser::SshConfigParser;

#[test]
fn no_host_blocks_gives_empty_list() {
    let parser = SshConfigParser::new();
    let file = parser.parse("# a comment\n\n   \nUser nobody\n").unwrap();
    let hosts = file.to_hosts();
    assert_eq!(hosts.len(), 0);
}

#[test]
fn empty_text_gives_empty_list() {
    let parser = SshConfigParser::new();
    let file = parser.parse("").unwrap();
    assert_eq!(file.to_hosts().len(), 0);
}

#[test]
fn well_formed_block_sets_exactly_its_fields() {
    let parser = SshConfigParser::new();
    let file = parser
        .parse("Host a\nHostName h\nUser u\nPort 2222\nIdentityFile /k\n")
        .unwrap();
    let rec = file.get("a").unwrap();
    assert_eq!(rec.hostname, "h");
    assert_eq!(rec.user.as_deref(), Some("u"));
    assert_eq!(rec.port, Some(2222));
    assert_eq!(rec.identity_file.as_deref(), Some("/k"));
}

#[test]
fn second_block_with_same_alias_fully_replaces_first() {
    let parser = SshConfigParser::new();
    let file = parser
        .parse("Host a\nHostName h1\nUser u1\nPort 22\nHost a\nHostName h2\n")
        .unwrap();
    let rec = file.get("a").unwrap();
    assert_eq!(rec.hostname, "h2");
    assert_eq!(rec.user, None);
    assert_eq!(rec.port, None);
    assert_eq!(rec.identity_file, None);
}

#[test]
fn port_out_of_range_leaves_port_unset() {
    let parser = SshConfigParser::new();
    let file = parser.parse("Host a\nPort 70000\n").unwrap();
    assert_eq!(file.get("a").unwrap().port, None);
}

#[test]
fn port_non_numeric_leaves_port_unset() {
    let parser = SshConfigParser::new();
    let file = parser.parse("Host a\nPort abc\n").unwrap();
    assert_eq!(file.get("a").unwrap().port, None);
}

#[test]
fn later_bad_port_overwrites_earlier_good_one() {
    let parser = SshConfigParser::new();
    let file = parser.parse("Host a\nPort 22\nPort abc\n").unwrap();
    assert_eq!(file.get("a").unwrap().port, None);
}

#[test]
fn valid_port_is_kept() {
    let parser = SshConfigParser::new();
    let file = parser.parse("Host a\nPort 22\n").unwrap();
    assert_eq!(file.get("a").unwrap().port, Some(22));
}

#[test]
fn host_list_is_sorted_by_alias() {
    let parser = SshConfigParser::new();
    let file = parser
        .parse("Host zeta\nHostName z\nHost alpha\nHostName a\nHost mike\nHostName m\n")
        .unwrap();
    let hosts = file.to_hosts();
    let aliases: Vec<&str> = hosts.iter().map(|h| h.alias.as_str()).collect();
    assert_eq!(aliases, vec!["alpha", "mike", "zeta"]);
}

#[test]
fn directive_outside_any_block_is_ignored() {
    let parser = SshConfigParser::new();
    let file = parser.parse("HostName h\nUser u\nHost a\n").unwrap();
    let rec = file.get("a").unwrap();
    assert_eq!(rec.hostname, "");
    assert_eq!(rec.user, None);
}

#[test]
fn lines_with_other_token_counts_are_ignored() {
    let parser = SshConfigParser::new();
    let file = parser
        .parse("Host a extra\nHost b\nHostName x y\nUser\n")
        .unwrap();
    assert!(file.get("a").is_none());
    let rec = file.get("b").unwrap();
    assert_eq!(rec.hostname, "");
    assert_eq!(rec.user, None);
}

#[test]
fn comment_like_tokens_do_not_act() {
    let parser = SshConfigParser::new();
    let file = parser.parse("#Host c\n  # Host d\nHost e\n").unwrap();
    assert!(file.get("c").is_none());
    assert!(file.get("d").is_none());
    assert!(file.get("e").is_some());
}

#[test]
fn unrecognized_keywords_are_ignored() {
    let parser = SshConfigParser::new();
    let file = parser
        .parse("Host a\nProxyJump other\nhostname lower\nHostName real\n")
        .unwrap();
    let rec = file.get("a").unwrap();
    assert_eq!(rec.hostname, "real");
}

#[test]
fn block_open_at_end_of_input_is_flushed() {
    let parser = SshConfigParser::new();
    let file = parser.parse("Host a\nHostName h").unwrap();
    assert_eq!(file.get("a").unwrap().hostname, "h");
}

#[test]
fn tabs_crlf_and_extra_spaces_are_whitespace() {
    let parser = SshConfigParser::new();
    let file = parser
        .parse("Host\ta\r\n  HostName   h\r\n\tUser\tu\r\n")
        .unwrap();
    let rec = file.get("a").unwrap();
    assert_eq!(rec.hostname, "h");
    assert_eq!(rec.user.as_deref(), Some("u"));
}

#[test]
fn parse_u16_accepts_leading_plus_and_rejects_junk() {
    assert_eq!(sshh::text::parse_u16("22"), Some(22));
    assert_eq!(sshh::text::parse_u16("+22"), Some(22));
    assert_eq!(sshh::text::parse_u16("65535"), Some(65535));
    assert_eq!(sshh::text::parse_u16("65536"), None);
    assert_eq!(sshh::text::parse_u16("70000"), None);
    assert_eq!(sshh::text::parse_u16("999999999999999999999"), None);
    assert_eq!(sshh::text::parse_u16(""), None);
    assert_eq!(sshh::text::parse_u16("+"), None);
    assert_eq!(sshh::text::parse_u16("-1"), None);
    assert_eq!(sshh::text::parse_u16("2 2"), None);
}
