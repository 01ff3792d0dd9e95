//! The interactive session: the full host list, the live search filter, the
//! cursor, the quit/connect/edit intents, and the key-event state machine
//! that drives them.

use vstd::prelude::*;
use vstd::string::*;

use crate::config::{row_of, sorted_by_alias, SshConfigFile, SshHost};
use crate::parser::{spec_parse, SshConfigParser};
use crate::stateful_list::{next_cursor, prev_cursor, valid_cursor, StatefulList};
use crate::text::{contains_str, is_substring_of};

verus! {

/// Name for what `str::to_lowercase` returns: the lowercase form of a
/// character sequence, a function of the characters alone.
pub uninterp spec fn lower_of(s: Seq<char>) -> Seq<char>;

/// Relies on str::to_lowercase: the result depends on the characters alone,
/// and an empty string stays empty.
#[verifier::external_body]
fn to_lowercase(s: &str) -> (r: String)
    ensures
        r@ == lower_of(s@),
        s@.len() == 0 ==> r@.len() == 0,
{
    s.to_lowercase()
}

/// Relies on String::push: appends one character.
#[verifier::external_body]
fn push_char(s: &mut String, c: char)
    ensures
        final(s)@ == old(s)@.push(c),
{
    s.push(c);
}

/// Relies on String::pop: removes the last character, if any.
#[verifier::external_body]
fn pop_char(s: &mut String)
    ensures
        old(s)@.len() == 0 ==> final(s)@ == old(s)@,
        old(s)@.len() > 0 ==> final(s)@ == old(s)@.drop_last(),
{
    let _popped = s.pop();
}

/// The search filter's test: the lowercased alias contains the lowercased
/// query as a substring.
pub open spec fn host_matches(h: SshHost, q: Seq<char>) -> bool {
    is_substring_of(lower_of(h.alias@), lower_of(q))
}

/// The subsequence of `all` whose aliases match the query `q`.
pub open spec fn filter_hosts(all: Seq<SshHost>, q: Seq<char>) -> Seq<SshHost> {
    all.filter(|h: SshHost| host_matches(h, q))
}

/// One terminal key, as the session's state machine understands it.
pub enum Key {
    Up,
    Down,
    Enter,
    Escape,
    Backspace,
    Char(char),
}

/// The session state, mathematically.
pub struct SessionView {
    pub all: Seq<SshHost>,
    pub filtered: Seq<SshHost>,
    pub cursor: Option<usize>,
    pub host_file: Seq<char>,
    pub quit: bool,
    pub connect: bool,
    pub edit: bool,
    pub mode: bool,
    pub query: Seq<char>,
}

/// `st` with its filtered view recomputed from the host list and the query,
/// and the cursor back on the first match.
pub open spec fn refiltered(st: SessionView) -> SessionView {
    SessionView { filtered: filter_hosts(st.all, st.query), cursor: Some(0usize), ..st }
}

/// `st` with search mode left and the query cleared, then refiltered: what
/// cancelling a search does.
pub open spec fn reset_spec(st: SessionView) -> SessionView {
    refiltered(SessionView { mode: false, query: Seq::empty(), ..st })
}

/// `st` with the cursor moved.
pub open spec fn with_cursor(st: SessionView, cur: Option<usize>) -> SessionView {
    SessionView { cursor: cur, ..st }
}

/// `st` with the connect intent set exactly when the cursor names a host.
pub open spec fn with_connect(st: SessionView) -> SessionView {
    if valid_cursor(st.cursor, st.filtered.len()) {
        SessionView { connect: true, ..st }
    } else {
        st
    }
}

/// One key acting on the session state. In search mode, characters extend
/// the query, backspace shortens it (or leaves search mode when it is already
/// empty), and escape cancels the search; in normal mode, `q`, `e` and `/`
/// set the quit intent, the edit intent and search mode. Navigation and
/// connecting work the same in both modes.
pub open spec fn step(st: SessionView, key: Key) -> SessionView {
    if st.mode {
        match key {
            Key::Escape => reset_spec(st),
            Key::Char(c) => refiltered(SessionView { query: st.query.push(c), ..st }),
            Key::Backspace => if st.query.len() > 0 {
                refiltered(SessionView { query: st.query.drop_last(), ..st })
            } else {
                refiltered(SessionView { mode: false, ..st })
            },
            Key::Up => with_cursor(st, prev_cursor(st.cursor, st.filtered.len())),
            Key::Down => with_cursor(st, next_cursor(st.cursor, st.filtered.len())),
            Key::Enter => with_connect(st),
        }
    } else {
        match key {
            Key::Char(c) => if c == 'q' {
                SessionView { quit: true, ..st }
            } else if c == 'e' {
                SessionView { edit: true, ..st }
            } else if c == '/' {
                SessionView { mode: true, ..st }
            } else {
                st
            },
            Key::Up => with_cursor(st, prev_cursor(st.cursor, st.filtered.len())),
            Key::Down => with_cursor(st, next_cursor(st.cursor, st.filtered.len())),
            Key::Enter => with_connect(st),
            Key::Escape => st,
            Key::Backspace => st,
        }
    }
}

/// Leaving search mode, by whatever key, leaves the query empty.
pub proof fn law_leaving_search_clears_query(st: SessionView, key: Key)
    requires
        st.mode,
        !step(st, key).mode,
    ensures
        step(st, key).query.len() == 0,
{
}

/// A query that no host matches filters every host out.
pub proof fn law_no_match_filters_all(all: Seq<SshHost>, q: Seq<char>)
    requires
        forall|i: int| 0 <= i < all.len() ==> !host_matches(#[trigger] all[i], q),
    ensures
        filter_hosts(all, q).len() == 0,
    decreases all.len(),
{
    reveal(Seq::filter);
    if all.len() > 0 {
        assert forall|i: int| 0 <= i < all.drop_last().len() implies !host_matches(
            #[trigger] all.drop_last()[i],
            q,
        ) by {
            assert(all.drop_last()[i] == all[i]);
        }
        law_no_match_filters_all(all.drop_last(), q);
        assert(!host_matches(all[all.len() - 1], q));
    }
}

/// The session state: the hosts, the search filter over them, and the
/// transient intents that the event loop acts on.
pub struct AppState {
    pub all_hosts: Vec<SshHost>,
    pub filtered_hosts: StatefulList<SshHost>,
    pub host_file: String,
    pub should_quit: bool,
    pub should_connect: bool,
    pub should_edit: bool,
    pub search_mode: bool,
    pub search_query: String,
}

impl View for AppState {
    type V = SessionView;

    open spec fn view(&self) -> SessionView {
        SessionView {
            all: self.all_hosts@,
            filtered: self.filtered_hosts.items(),
            cursor: self.filtered_hosts.cursor(),
            host_file: self.host_file@,
            quit: self.should_quit,
            connect: self.should_connect,
            edit: self.should_edit,
            mode: self.search_mode,
            query: self.search_query@,
        }
    }
}

impl AppState {
    /// A fresh session over the given configuration path, with no hosts
    /// loaded yet.
    pub fn new(host_file: String) -> (r: Self)
        ensures
            r.all_hosts@ == Seq::<SshHost>::empty(),
            r.filtered_hosts.items() == Seq::<SshHost>::empty(),
            r.filtered_hosts.cursor() is None,
            r.host_file@ == host_file@,
            !r.should_quit && !r.should_connect && !r.should_edit && !r.search_mode,
            r.search_query@ == Seq::<char>::empty(),
    {
        AppState {
            all_hosts: Vec::new(),
            filtered_hosts: StatefulList::new(),
            host_file,
            should_quit: false,
            should_connect: false,
            should_edit: false,
            search_mode: false,
            search_query: String::new(),
        }
    }

    /// Recompute the filtered view from the host list and the query, and put
    /// the cursor on the first match. An empty query keeps every host.
    #[verifier::loop_isolation(false)]
    pub fn update_filtered_hosts(&mut self)
        ensures
            final(self)@ == refiltered(old(self)@),
            old(self).search_query@.len() == 0 ==> final(self).filtered_hosts.items() == old(
                self,
            ).all_hosts@,
    {
        let ghost q0 = self.search_query@;
        let ghost all0 = self.all_hosts@;
        let q_low = to_lowercase(self.search_query.as_str());
        let mut filtered: Vec<SshHost> = Vec::new();
        let n = self.all_hosts.len();
        proof {
            reveal(Seq::filter);
            assert(all0.take(0).filter(|h: SshHost| host_matches(h, q0)) =~= Seq::empty());
        }
        let mut i: usize = 0;
        while i < n
            invariant
                n == all0.len(),
                self.all_hosts@ == all0,
                self.search_query@ == q0,
                q_low@ == lower_of(q0),
                q0.len() == 0 ==> q_low@.len() == 0,
                i <= n,
                filtered@ == all0.take(i as int).filter(|h: SshHost| host_matches(h, q0)),
                q0.len() == 0 ==> filtered@ == all0.take(i as int),
            decreases n - i,
        {
            let h = &self.all_hosts[i];
            let a_low = to_lowercase(h.alias.as_str());
            proof {
                reveal(Seq::filter);
                assert(all0.take(i + 1).drop_last() =~= all0.take(i as int));
                assert(all0.take(i + 1).last() == all0[i as int]);
                if q0.len() == 0 {
                    let hay = lower_of(all0[i as int].alias@);
                    let needle = lower_of(q0);
                    assert(hay.subrange(0, 0 + needle.len() as int) =~= needle);
                    assert(is_substring_of(hay, needle));
                }
            }
            if contains_str(a_low.as_str(), q_low.as_str()) {
                filtered.push(h.clone());
            }
            i += 1;
        }
        proof {
            assert(all0.take(n as int) =~= all0);
        }
        self.filtered_hosts.set_data(filtered);
        self.filtered_hosts.select_first();
    }

    /// Leave search mode, clear the query, and show the full host list
    /// again.
    pub fn reset_search(&mut self)
        ensures
            final(self)@ == reset_spec(old(self)@),
            final(self).filtered_hosts.items() == old(self).all_hosts@,
    {
        self.search_mode = false;
        self.search_query = String::new();
        self.update_filtered_hosts();
    }

    /// Replace the host list with what the given configuration text defines:
    /// the parsed registry, sorted by alias; the filtered view follows the
    /// unchanged query.
    pub fn reload_from_text(&mut self, text: &str)
        ensures
            sorted_by_alias(final(self).all_hosts@),
            forall|p: int, q: int|
                0 <= p < q < final(self).all_hosts@.len() ==> (
                #[trigger] final(self).all_hosts@[p].alias@) != (
                #[trigger] final(self).all_hosts@[q].alias@),
            forall|p: int|
                0 <= p < final(self).all_hosts@.len() ==> row_of(
                    #[trigger] final(self).all_hosts@[p],
                    spec_parse(text@),
                ),
            forall|k: Seq<char>|
                spec_parse(text@).contains_key(k) ==> exists|p: int|
                    0 <= p < final(self).all_hosts@.len() && (
                    #[trigger] final(self).all_hosts@[p].alias@) == k,
            final(self).filtered_hosts.items() == filter_hosts(
                final(self).all_hosts@,
                old(self).search_query@,
            ),
            final(self).filtered_hosts.cursor() == Some(0usize),
            final(self).search_query@ == old(self).search_query@,
            final(self).search_mode == old(self).search_mode,
            final(self).should_quit == old(self).should_quit,
            final(self).should_connect == old(self).should_connect,
            final(self).should_edit == old(self).should_edit,
            final(self).host_file@ == old(self).host_file@,
    {
        let parser = SshConfigParser::new();
        let file = match parser.parse(text) {
            Ok(f) => f,
            Err(_) => {
                proof {
                    assert(false);
                }
                SshConfigFile::default()
            },
        };
        self.all_hosts = file.to_hosts();
        self.update_filtered_hosts();
    }

    /// The widest hostname among the filtered hosts, in bytes; what the
    /// list's right column is sized by.
    #[verifier::loop_isolation(false)]
    pub fn longest_ip_length(&self) -> (r: usize)
        ensures
            r == max_hostname_len(self.filtered_hosts.items()),
    {
        let mut m: usize = 0;
        let n = self.filtered_hosts.len();
        let ghost items = self.filtered_hosts.items();
        let mut i: usize = 0;
        while i < n
            invariant
                n == items.len(),
                items == self.filtered_hosts.items(),
                i <= n,
                m == max_hostname_len(items.take(i as int)),
            decreases n - i,
        {
            proof {
                assert(items.take(i + 1).drop_last() =~= items.take(i as int));
                assert(items.take(i + 1).last() == items[i as int]);
            }
            match self.filtered_hosts.get(i) {
                Some(h) => {
                    let l = h.hostname.as_str().len();
                    proof {
                        assert(*h == items[i as int]);
                        assert(l == vstd::utf8::encode_utf8(items[i as int].hostname@).len()
                            as usize);
                    }
                    if l > m {
                        m = l;
                    }
                },
                None => {
                    proof {
                        assert(false);
                    }
                },
            }
            i += 1;
        }
        proof {
            assert(items.take(n as int) =~= items);
        }
        m
    }

    /// One key event acting on the session, as `step` describes.
    pub fn handle_key(&mut self, key: Key)
        ensures
            final(self)@ == step(old(self)@, key),
    {
        if self.search_mode {
            match key {
                Key::Escape => {
                    self.reset_search();
                },
                Key::Char(c) => {
                    push_char(&mut self.search_query, c);
                    self.update_filtered_hosts();
                },
                Key::Backspace => {
                    if !self.search_query.as_str().is_empty() {
                        pop_char(&mut self.search_query);
                    } else {
                        self.search_mode = false;
                    }
                    self.update_filtered_hosts();
                },
                Key::Up => {
                    self.filtered_hosts.select_previous();
                },
                Key::Down => {
                    self.filtered_hosts.select_next();
                },
                Key::Enter => {
                    if self.filtered_hosts.current().is_some() {
                        self.should_connect = true;
                    }
                },
            }
        } else {
            match key {
                Key::Char(c) => {
                    if c == 'q' {
                        self.should_quit = true;
                    } else if c == 'e' {
                        self.should_edit = true;
                    } else if c == '/' {
                        self.search_mode = true;
                    }
                },
                Key::Up => {
                    self.filtered_hosts.select_previous();
                },
                Key::Down => {
                    self.filtered_hosts.select_next();
                },
                Key::Enter => {
                    if self.filtered_hosts.current().is_some() {
                        self.should_connect = true;
                    }
                },
                Key::Escape => {},
                Key::Backspace => {},
            }
        }
    }
}

/// The longest hostname, in encoded bytes, among the given hosts.
pub open spec fn max_hostname_len(s: Seq<SshHost>) -> usize
    decreases s.len(),
{
    if s.len() == 0 {
        0usize
    } else {
        let rest = max_hostname_len(s.drop_last());
        let hl = vstd::utf8::encode_utf8(s.last().hostname@).len() as usize;
        if hl > rest {
            hl
        } else {
            rest
        }
    }
}

} // verus!
