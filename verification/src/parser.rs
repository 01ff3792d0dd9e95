//! The permissive parser for the flat subset of the SSH client
//! configuration: `Host` opens a block; `HostName`, `User`, `Port` and
//! `IdentityFile` set fields of the open block; everything else is ignored.
//!
//! The grammar is specified over character sequences: a text is split at
//! newlines, each line into whitespace-separated tokens, and only lines of
//! exactly two tokens act on the parse state.

use vstd::prelude::*;
use vstd::string::*;

use crate::config::{empty_fields, HostFields, SshConfigFile, SshConfigHost};
use crate::text::{is_ws, is_ws_char, parse_u16, spec_parse_u16, str_eq};

verus! {

broadcast use vstd::string::group_string_axioms;

/// Index of the first newline at or after `i`, or the text's length.
pub open spec fn line_end(s: Seq<char>, i: int) -> int
    recommends
        0 <= i <= s.len(),
    decreases s.len() - i,
{
    if i < 0 || i >= s.len() {
        s.len() as int
    } else if s[i] == '\n' {
        i
    } else {
        line_end(s, i + 1)
    }
}

/// `line_end` stays between its start and the text's length.
pub proof fn lemma_line_end_bounds(s: Seq<char>, i: int)
    requires
        0 <= i <= s.len(),
    ensures
        i <= line_end(s, i) <= s.len(),
    decreases s.len() - i,
{
    if i < s.len() && s[i] != '\n' {
        lemma_line_end_bounds(s, i + 1);
    }
}

/// Index of the first whitespace at or after `i`, or the text's length: the
/// end of a token that starts at `i`.
pub open spec fn token_end(s: Seq<char>, i: int) -> int
    recommends
        0 <= i <= s.len(),
    decreases s.len() - i,
{
    if i < 0 || i >= s.len() {
        s.len() as int
    } else if is_ws(s[i]) {
        i
    } else {
        token_end(s, i + 1)
    }
}

/// `token_end` stays between its start and the text's length.
pub proof fn lemma_token_end_bounds(s: Seq<char>, i: int)
    requires
        0 <= i <= s.len(),
    ensures
        i <= token_end(s, i) <= s.len(),
    decreases s.len() - i,
{
    if i < s.len() && !is_ws(s[i]) {
        lemma_token_end_bounds(s, i + 1);
    }
}

/// The whitespace-separated tokens of `s` from position `i` on.
pub open spec fn tokens_from(s: Seq<char>, i: int) -> Seq<Seq<char>>
    recommends
        0 <= i <= s.len(),
    decreases s.len() - i,
{
    if i < 0 || i >= s.len() {
        Seq::empty()
    } else if is_ws(s[i]) {
        tokens_from(s, i + 1)
    } else {
        proof {
            lemma_token_end_bounds(s, i + 1);
        }
        seq![s.subrange(i, token_end(s, i))] + tokens_from(s, token_end(s, i))
    }
}

/// The tokens of one line.
pub open spec fn tokens_of(line: Seq<char>) -> Seq<Seq<char>> {
    tokens_from(line, 0)
}

/// The parse state: the flushed blocks, and the open block, if any, with its
/// alias.
pub struct ParseState {
    pub done: Map<Seq<char>, HostFields>,
    pub cur: Option<(Seq<char>, HostFields)>,
}

/// The state before any line is read.
pub open spec fn init_state() -> ParseState {
    ParseState { done: Map::empty(), cur: None }
}

/// One recognized directive acting on the parse state. `Host` flushes the
/// open block and opens a new one; the field directives set a field of the
/// open block; with no block open, only `Host` acts; unrecognized keywords
/// change nothing.
pub open spec fn apply_directive(st: ParseState, kw: Seq<char>, value: Seq<char>) -> ParseState {
    match st.cur {
        Some(b) => {
            if kw == "Host"@ {
                ParseState { done: st.done.insert(b.0, b.1), cur: Some((value, empty_fields())) }
            } else if kw == "HostName"@ {
                ParseState {
                    done: st.done,
                    cur: Some(
                        (
                            b.0,
                            HostFields {
                                hostname: value,
                                user: b.1.user,
                                identity_file: b.1.identity_file,
                                port: b.1.port,
                            },
                        ),
                    ),
                }
            } else if kw == "User"@ {
                ParseState {
                    done: st.done,
                    cur: Some(
                        (
                            b.0,
                            HostFields {
                                hostname: b.1.hostname,
                                user: Some(value),
                                identity_file: b.1.identity_file,
                                port: b.1.port,
                            },
                        ),
                    ),
                }
            } else if kw == "Port"@ {
                ParseState {
                    done: st.done,
                    cur: Some(
                        (
                            b.0,
                            HostFields {
                                hostname: b.1.hostname,
                                user: b.1.user,
                                identity_file: b.1.identity_file,
                                port: spec_parse_u16(value),
                            },
                        ),
                    ),
                }
            } else if kw == "IdentityFile"@ {
                ParseState {
                    done: st.done,
                    cur: Some(
                        (
                            b.0,
                            HostFields {
                                hostname: b.1.hostname,
                                user: b.1.user,
                                identity_file: Some(value),
                                port: b.1.port,
                            },
                        ),
                    ),
                }
            } else {
                st
            }
        },
        None => {
            if kw == "Host"@ {
                ParseState { done: st.done, cur: Some((value, empty_fields())) }
            } else {
                st
            }
        },
    }
}

/// One line acting on the parse state: only a line of exactly two tokens is
/// a directive; every other line, blank lines and comments among them, is
/// ignored.
pub open spec fn apply_line(st: ParseState, line: Seq<char>) -> ParseState {
    let toks = tokens_of(line);
    if toks.len() == 2 {
        apply_directive(st, toks[0], toks[1])
    } else {
        st
    }
}

/// Run the lines of `s` from position `i` on through the parse state.
pub open spec fn run_lines(st: ParseState, s: Seq<char>, i: int) -> ParseState
    recommends
        0 <= i <= s.len(),
    decreases s.len() - i,
{
    if i < 0 || i > s.len() {
        st
    } else {
        proof {
            lemma_line_end_bounds(s, if i <= s.len() {
                i
            } else {
                s.len() as int
            });
        }
        let j = line_end(s, i);
        let st2 = apply_line(st, s.subrange(i, j));
        if j >= s.len() {
            st2
        } else {
            run_lines(st2, s, j + 1)
        }
    }
}

/// At end of input, a still-open block is flushed under its alias.
pub open spec fn flush(st: ParseState) -> Map<Seq<char>, HostFields> {
    match st.cur {
        Some(b) => st.done.insert(b.0, b.1),
        None => st.done,
    }
}

/// The mapping of aliases to host records that a configuration text denotes.
pub open spec fn spec_parse(s: Seq<char>) -> Map<Seq<char>, HostFields> {
    flush(run_lines(init_state(), s, 0))
}

/// A line that opens a block: exactly two tokens, the first the keyword
/// `Host`.
pub open spec fn line_opens_block(line: Seq<char>) -> bool {
    tokens_of(line).len() == 2 && tokens_of(line)[0] == "Host"@
}

/// No line of `s` from position `i` on opens a block.
pub open spec fn no_host_directive(s: Seq<char>, i: int) -> bool
    recommends
        0 <= i <= s.len(),
    decreases s.len() - i,
{
    if i < 0 || i > s.len() {
        true
    } else {
        proof {
            lemma_line_end_bounds(s, i);
        }
        let j = line_end(s, i);
        !line_opens_block(s.subrange(i, j)) && (j >= s.len() || no_host_directive(s, j + 1))
    }
}

proof fn lemma_run_lines_no_host(st: ParseState, s: Seq<char>, i: int)
    requires
        st.cur is None,
        0 <= i <= s.len(),
        no_host_directive(s, i),
    ensures
        run_lines(st, s, i) == st,
    decreases s.len() - i,
{
    lemma_line_end_bounds(s, i);
    let j = line_end(s, i);
    let line = s.subrange(i, j);
    assert(apply_line(st, line) == st);
    if j < s.len() {
        lemma_run_lines_no_host(st, s, j + 1);
    }
}

/// A text with no `Host` directive parses to an empty host mapping.
pub proof fn law_no_host_blocks_parse_empty(s: Seq<char>)
    requires
        no_host_directive(s, 0),
    ensures
        spec_parse(s) == Map::<Seq<char>, HostFields>::empty(),
{
    lemma_run_lines_no_host(init_state(), s, 0);
}

/// A well-formed block — `Host a`, `HostName h`, `User u`, `Port p`,
/// `IdentityFile f` — stores under `a` a record with exactly those four
/// fields set, the port read as a 16-bit number, and nothing else.
pub proof fn law_well_formed_block(
    a: Seq<char>,
    h: Seq<char>,
    u: Seq<char>,
    p: Seq<char>,
    f: Seq<char>,
)
    ensures
        ({
            let st = apply_directive(
                apply_directive(
                    apply_directive(
                        apply_directive(apply_directive(init_state(), "Host"@, a), "HostName"@, h),
                        "User"@,
                        u,
                    ),
                    "Port"@,
                    p,
                ),
                "IdentityFile"@,
                f,
            );
            flush(st) == Map::empty().insert(
                a,
                (HostFields {
                    hostname: h,
                    user: Some(u),
                    identity_file: Some(f),
                    port: spec_parse_u16(p),
                }),
            )
        }),
{
    reveal_strlit("Host");
    reveal_strlit("HostName");
    reveal_strlit("User");
    reveal_strlit("Port");
    reveal_strlit("IdentityFile");
    assert("Host"@[0] == 'H' && "User"@[0] == 'U' && "Port"@[0] == 'P');
    assert("Host"@.len() == 4 && "HostName"@.len() == 8 && "User"@.len() == 4 && "Port"@.len()
        == 4 && "IdentityFile"@.len() == 12);
    assert("HostName"@ != "Host"@);
    assert("User"@ != "Host"@ && "User"@ != "HostName"@);
    assert("Port"@ != "Host"@ && "Port"@ != "HostName"@ && "Port"@ != "User"@);
    assert("IdentityFile"@ != "Host"@ && "IdentityFile"@ != "HostName"@ && "IdentityFile"@
        != "User"@ && "IdentityFile"@ != "Port"@);
    let st = apply_directive(
        apply_directive(
            apply_directive(
                apply_directive(apply_directive(init_state(), "Host"@, a), "HostName"@, h),
                "User"@,
                u,
            ),
            "Port"@,
            p,
        ),
        "IdentityFile"@,
        f,
    );
    assert(flush(st) =~= Map::empty().insert(
        a,
        (HostFields {
            hostname: h,
            user: Some(u),
            identity_file: Some(f),
            port: spec_parse_u16(p),
        }),
    ));
}

/// Of two blocks stored under one alias, the later wins: `apply_directive`
/// and the end-of-input flush store a finished block with `Map::insert`, so
/// a second insert under the same alias fully replaces the first record.
pub proof fn law_duplicate_alias_overwrites(
    m: Map<Seq<char>, HostFields>,
    alias: Seq<char>,
    first: HostFields,
    second: HostFields,
)
    ensures
        m.insert(alias, first).insert(alias, second) == m.insert(alias, second),
{
    assert(m.insert(alias, first).insert(alias, second) =~= m.insert(alias, second));
}

/// Reading the input resource can fail; the text itself cannot.
#[derive(Debug)]
pub enum ParseError {
    CouldNotReadFile(String),
}

/// The parser for the flat `Host` / `HostName` / `User` / `Port` /
/// `IdentityFile` subset of the SSH client configuration.
pub struct SshConfigParser;

impl Default for SshConfigParser {
    fn default() -> (r: Self) {
        SshConfigParser
    }
}

fn find_line_end(s: &str, i: usize) -> (r: usize)
    requires
        i <= s@.len(),
    ensures
        r == line_end(s@, i as int),
        i <= r <= s@.len(),
{
    proof {
        lemma_line_end_bounds(s@, i as int);
    }
    let n = s.unicode_len();
    let mut j = i;
    while j < n
        invariant
            i <= j <= n,
            n == s@.len(),
            line_end(s@, i as int) == line_end(s@, j as int),
        decreases n - j,
    {
        if s.get_char(j) == '\n' {
            return j;
        }
        j += 1;
    }
    n
}

fn find_token_end(s: &str, i: usize) -> (r: usize)
    requires
        i <= s@.len(),
    ensures
        r == token_end(s@, i as int),
        i <= r <= s@.len(),
{
    proof {
        lemma_token_end_bounds(s@, i as int);
    }
    let n = s.unicode_len();
    let mut j = i;
    while j < n
        invariant
            i <= j <= n,
            n == s@.len(),
            token_end(s@, i as int) == token_end(s@, j as int),
        decreases n - j,
    {
        if is_ws_char(s.get_char(j)) {
            return j;
        }
        j += 1;
    }
    n
}

fn skip_ws(s: &str, i: usize) -> (r: usize)
    requires
        i <= s@.len(),
    ensures
        i <= r <= s@.len(),
        tokens_from(s@, i as int) == tokens_from(s@, r as int),
        r == s@.len() || !is_ws(s@[r as int]),
{
    let n = s.unicode_len();
    let mut j = i;
    while j < n
        invariant
            i <= j <= n,
            n == s@.len(),
            tokens_from(s@, i as int) == tokens_from(s@, j as int),
        decreases n - j,
    {
        if !is_ws_char(s.get_char(j)) {
            return j;
        }
        j += 1;
    }
    n
}

/// The keyword and value of a directive line, or `None` for a line whose
/// token count is not exactly two.
fn two_tokens(line: &str) -> (r: Option<(String, String)>)
    ensures
        match r {
            Some(t) => tokens_of(line@) == seq![t.0@, t.1@],
            None => tokens_of(line@).len() != 2,
        },
{
    let n = line.unicode_len();
    let s1 = skip_ws(line, 0);
    if s1 == n {
        return None;
    }
    let e1 = find_token_end(line, s1);
    let t1 = line.substring_char(s1, e1);
    proof {
        assert(tokens_from(line@, s1 as int) == seq![line@.subrange(s1 as int, e1 as int)]
            + tokens_from(line@, e1 as int));
    }
    let s2 = skip_ws(line, e1);
    if s2 == n {
        proof {
            assert(tokens_of(line@) =~= seq![t1@]);
        }
        return None;
    }
    let e2 = find_token_end(line, s2);
    let t2 = line.substring_char(s2, e2);
    proof {
        assert(tokens_from(line@, s2 as int) == seq![line@.subrange(s2 as int, e2 as int)]
            + tokens_from(line@, e2 as int));
    }
    let s3 = skip_ws(line, e2);
    if s3 == n {
        let r1 = t1.to_owned();
        let r2 = t2.to_owned();
        proof {
            assert(tokens_of(line@) =~= seq![r1@, r2@]);
        }
        return Some((r1, r2));
    }
    proof {
        assert(tokens_from(line@, s3 as int).len() >= 1);
        assert(tokens_of(line@).len() >= 3);
    }
    None
}

/// The view of the open block that the runtime parser carries.
pub open spec fn cur_view(c: Option<(String, SshConfigHost)>) -> Option<(Seq<char>, HostFields)> {
    match c {
        Some(p) => Some((p.0@, p.1@)),
        None => None,
    }
}

impl SshConfigParser {
    pub fn new() -> (r: Self) {
        SshConfigParser
    }

    /// Parse a configuration text. No text is rejected: malformed lines are
    /// skipped, and the result holds exactly the blocks that `spec_parse`
    /// collects.
    #[verifier::loop_isolation(false)]
    #[verifier::rlimit(50)]
    pub fn parse(&self, value: &str) -> (r: Result<SshConfigFile, ParseError>)
        ensures
            r is Ok,
            r matches Ok(f) ==> f.wf() && f@ == spec_parse(value@),
    {
        let mut file = SshConfigFile::default();
        let mut cur: Option<(String, SshConfigHost)> = None;
        let n = value.unicode_len();
        let mut i: usize = 0;
        loop
            invariant
                i <= n,
                n == value@.len(),
                file.wf(),
                spec_parse(value@) == flush(
                    run_lines(
                        (ParseState { done: file@, cur: cur_view(cur) }),
                        value@,
                        i as int,
                    ),
                ),
            decreases n - i,
        {
            let ghost st0 = ParseState { done: file@, cur: cur_view(cur) };
            let j = find_line_end(value, i);
            let line = value.substring_char(i, j);
            let ghost lv = value@.subrange(i as int, j as int);
            match two_tokens(line) {
                Some((kw, v)) => {
                    proof {
                        assert(tokens_of(lv)[0] == kw@ && tokens_of(lv)[1] == v@);
                        assert(tokens_of(lv).len() == 2);
                    }
                    cur = match cur {
                        Some((a, h)) => {
                            if str_eq(kw.as_str(), "Host") {
                                file.insert(a, h);
                                Some((v, SshConfigHost::default()))
                            } else if str_eq(kw.as_str(), "HostName") {
                                Some(
                                    (
                                        a,
                                        SshConfigHost {
                                            hostname: v,
                                            user: h.user,
                                            identity_file: h.identity_file,
                                            port: h.port,
                                        },
                                    ),
                                )
                            } else if str_eq(kw.as_str(), "User") {
                                Some(
                                    (
                                        a,
                                        SshConfigHost {
                                            hostname: h.hostname,
                                            user: Some(v),
                                            identity_file: h.identity_file,
                                            port: h.port,
                                        },
                                    ),
                                )
                            } else if str_eq(kw.as_str(), "Port") {
                                Some(
                                    (
                                        a,
                                        SshConfigHost {
                                            hostname: h.hostname,
                                            user: h.user,
                                            identity_file: h.identity_file,
                                            port: parse_u16(v.as_str()),
                                        },
                                    ),
                                )
                            } else if str_eq(kw.as_str(), "IdentityFile") {
                                Some(
                                    (
                                        a,
                                        SshConfigHost {
                                            hostname: h.hostname,
                                            user: h.user,
                                            identity_file: Some(v),
                                            port: h.port,
                                        },
                                    ),
                                )
                            } else {
                                Some((a, h))
                            }
                        },
                        None => {
                            if str_eq(kw.as_str(), "Host") {
                                Some((v, SshConfigHost::default()))
                            } else {
                                None
                            }
                        },
                    };
                    proof {
                        assert((ParseState { done: file@, cur: cur_view(cur) }) == apply_directive(
                            st0,
                            tokens_of(lv)[0],
                            tokens_of(lv)[1],
                        ));
                        assert((ParseState { done: file@, cur: cur_view(cur) }) == apply_line(
                            st0,
                            lv,
                        ));
                    }
                },
                None => {
                    proof {
                        assert((ParseState { done: file@, cur: cur_view(cur) }) == apply_line(
                            st0,
                            lv,
                        ));
                    }
                },
            }
            if j == n {
                proof {
                    assert(run_lines(st0, value@, i as int) == (ParseState {
                        done: file@,
                        cur: cur_view(cur),
                    }));
                }
                match cur {
                    Some((a, h)) => {
                        proof {
                            assert(spec_parse(value@) == file@.insert(a@, h@));
                        }
                        file.insert(a, h);
                    },
                    None => {},
                }
                return Ok(file);
            }
            i = j + 1;
        }
    }
}

} // verus!
