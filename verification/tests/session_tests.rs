use sshh::session::{AppState, Key};

fn session_with(text: &str) -> AppState {
    let mut state = AppState::new("/tmp/ssh_config".to_string());
    state.reload_from_text(text);
    state
}

fn aliases(state: &AppState) -> Vec<String> {
    let mut out = Vec::new();
    let mut i = 0;
    while let Some(h) = state.filtered_hosts.get(i) {
        out.push(h.alias.clone());
        i += 1;
    }
    out
}

#[test]
fn reload_sorts_hosts_and_selects_first() {
    let state = session_with("Host zeta\nHost alpha\nHost mike\n");
    assert_eq!(aliases(&state), vec!["alpha", "mike", "zeta"]);
    assert_eq!(state.filtered_hosts.selected_index(), Some(0));
    assert_eq!(state.filtered_hosts.current().unwrap().alias, "alpha");
}

#[test]
fn search_with_no_match_empties_filtered_and_current() {
    let mut state = session_with("Host alpha\nHost mike\n");
    state.handle_key(Key::Char('/'));
    assert!(state.search_mode);
    state.handle_key(Key::Char('z'));
    assert_eq!(state.filtered_hosts.len(), 0);
    assert!(state.filtered_hosts.current().is_none());
}

#[test]
fn clearing_the_query_restores_the_full_sorted_list() {
    let mut state = session_with("Host zeta\nHost alpha\nHost mike\n");
    state.handle_key(Key::Char('/'));
    state.handle_key(Key::Char('z'));
    state.handle_key(Key::Char('z'));
    assert_eq!(state.filtered_hosts.len(), 0);
    state.handle_key(Key::Escape);
    assert_eq!(aliases(&state), vec!["alpha", "mike", "zeta"]);
}

#[test]
fn search_matches_case_insensitively() {
    let mut state = session_with("Host ALPHA\nHost mike\n");
    state.handle_key(Key::Char('/'));
    state.handle_key(Key::Char('a'));
    assert_eq!(aliases(&state), vec!["ALPHA"]);
    state.handle_key(Key::Escape);
    let mut state2 = session_with("Host alpha\nHost mike\n");
    state2.handle_key(Key::Char('/'));
    state2.handle_key(Key::Char('L'));
    assert_eq!(aliases(&state2), vec!["alpha"]);
}

#[test]
fn search_matches_substring_not_just_prefix() {
    let mut state = session_with("Host alpha\nHost mike\n");
    state.handle_key(Key::Char('/'));
    state.handle_key(Key::Char('p'));
    state.handle_key(Key::Char('h'));
    assert_eq!(aliases(&state), vec!["alpha"]);
}

#[test]
fn exiting_search_clears_query_even_after_navigation() {
    let mut state = session_with("Host alpha\nHost mike\nHost zeta\n");
    state.handle_key(Key::Char('/'));
    state.handle_key(Key::Char('a'));
    state.handle_key(Key::Down);
    state.handle_key(Key::Up);
    assert!(!state.search_query.is_empty());
    state.handle_key(Key::Escape);
    assert!(state.search_query.is_empty());
    assert!(!state.search_mode);
}

#[test]
fn backspace_shortens_the_query_and_refilters() {
    let mut state = session_with("Host alpha\nHost mike\n");
    state.handle_key(Key::Char('/'));
    state.handle_key(Key::Char('a'));
    state.handle_key(Key::Char('z'));
    assert_eq!(state.filtered_hosts.len(), 0);
    state.handle_key(Key::Backspace);
    assert_eq!(state.search_query, "a");
    assert_eq!(aliases(&state), vec!["alpha"]);
    assert!(state.search_mode);
}

#[test]
fn backspace_on_empty_query_leaves_search_mode() {
    let mut state = session_with("Host alpha\n");
    state.handle_key(Key::Char('/'));
    assert!(state.search_mode);
    state.handle_key(Key::Backspace);
    assert!(!state.search_mode);
    assert!(state.search_query.is_empty());
    assert_eq!(state.filtered_hosts.len(), 1);
}

#[test]
fn quit_edit_and_search_triggers_in_normal_mode() {
    let mut state = session_with("Host alpha\n");
    state.handle_key(Key::Char('e'));
    assert!(state.should_edit);
    state.handle_key(Key::Char('q'));
    assert!(state.should_quit);
    state.handle_key(Key::Char('/'));
    assert!(state.search_mode);
}

#[test]
fn q_and_e_are_query_text_while_searching() {
    let mut state = session_with("Host alpha\n");
    state.handle_key(Key::Char('/'));
    state.handle_key(Key::Char('q'));
    state.handle_key(Key::Char('e'));
    assert!(!state.should_quit);
    assert!(!state.should_edit);
    assert_eq!(state.search_query, "qe");
}

#[test]
fn enter_sets_connect_intent_only_with_a_selection() {
    let mut state = session_with("Host alpha\n");
    state.handle_key(Key::Enter);
    assert!(state.should_connect);

    let mut empty = session_with("# nothing\n");
    empty.handle_key(Key::Enter);
    assert!(!empty.should_connect);
}

#[test]
fn navigation_wraps_in_the_session_list() {
    let mut state = session_with("Host alpha\nHost mike\nHost zeta\n");
    assert_eq!(state.filtered_hosts.selected_index(), Some(0));
    state.handle_key(Key::Up);
    assert_eq!(state.filtered_hosts.selected_index(), Some(2));
    state.handle_key(Key::Down);
    assert_eq!(state.filtered_hosts.selected_index(), Some(0));
}

#[test]
fn reload_keeps_the_active_query() {
    let mut state = session_with("Host alpha\nHost mike\n");
    state.handle_key(Key::Char('/'));
    state.handle_key(Key::Char('m'));
    assert_eq!(aliases(&state), vec!["mike"]);
    state.reload_from_text("Host mike\nHost mango\nHost zeta\n");
    assert_eq!(aliases(&state), vec!["mango", "mike"]);
    assert_eq!(state.search_query, "m");
}

#[test]
fn longest_ip_length_is_the_widest_hostname() {
    let mut state = session_with(
        "Host a\nHostName short\nHost b\nHostName muchlongername.example.com\nHost c\n",
    );
    assert_eq!(state.longest_ip_length(), "muchlongername.example.com".len());
    state.handle_key(Key::Char('/'));
    state.handle_key(Key::Char('a'));
    assert_eq!(state.longest_ip_length(), "short".len());
}

#[test]
fn new_session_is_empty_and_quiet() {
    let state = AppState::new("x".to_string());
    assert_eq!(state.filtered_hosts.len(), 0);
    assert!(!state.should_quit && !state.should_connect && !state.should_edit);
    assert!(!state.search_mode);
    assert!(state.search_query.is_empty());
    assert_eq!(state.host_file, "x");
}
