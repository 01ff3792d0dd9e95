//! Host records, the alias-keyed registry that the parser fills, and the
//! ordered list of connectable hosts that the interactive session displays.

use vstd::prelude::*;
use vstd::string::*;

use crate::text::{
    dec_digits, lemma_lex_total, lemma_lex_trans, lex_leq, str_eq, str_leq, u16_to_string,
};

verus! {

/// Mathematical content of one host block: what its directives set, with
/// strings as character sequences.
pub struct HostFields {
    pub hostname: Seq<char>,
    pub user: Option<Seq<char>>,
    pub identity_file: Option<Seq<char>>,
    pub port: Option<u16>,
}

/// The fields of a freshly opened host block: an empty hostname and nothing
/// else set.
pub open spec fn empty_fields() -> HostFields {
    HostFields { hostname: Seq::empty(), user: None, identity_file: None, port: None }
}

/// One host block as the parser collects it; the alias that keys the block
/// lives in the registry, not here.
#[derive(Debug)]
pub struct SshConfigHost {
    pub hostname: String,
    pub user: Option<String>,
    pub identity_file: Option<String>,
    pub port: Option<u16>,
}

impl View for SshConfigHost {
    type V = HostFields;

    open spec fn view(&self) -> HostFields {
        HostFields {
            hostname: self.hostname@,
            user: self.user.deep_view(),
            identity_file: self.identity_file.deep_view(),
            port: self.port,
        }
    }
}

impl Clone for SshConfigHost {
    fn clone(&self) -> (r: Self)
        ensures
            r == *self,
    {
        SshConfigHost {
            hostname: self.hostname.clone(),
            user: match &self.user {
                Some(u) => Some(u.clone()),
                None => None,
            },
            identity_file: match &self.identity_file {
                Some(f) => Some(f.clone()),
                None => None,
            },
            port: self.port,
        }
    }
}

impl Default for SshConfigHost {
    fn default() -> (r: Self)
        ensures
            r@ == empty_fields(),
    {
        SshConfigHost { hostname: String::new(), user: None, identity_file: None, port: None }
    }
}

/// A connectable host: one registry entry together with its alias.
pub struct SshHostView {
    pub alias: Seq<char>,
    pub hostname: Seq<char>,
    pub user: Option<Seq<char>>,
    pub identity_file: Option<Seq<char>>,
    pub port: Option<u16>,
}

/// The connectable host that the registry entry `alias` / `f` produces.
pub open spec fn host_of_entry(alias: Seq<char>, f: HostFields) -> SshHostView {
    SshHostView {
        alias: alias,
        hostname: f.hostname,
        user: f.user,
        identity_file: f.identity_file,
        port: f.port,
    }
}

/// A host ready to connect to, as the interactive list shows it.
#[derive(Debug)]
pub struct SshHost {
    pub alias: String,
    pub hostname: String,
    pub user: Option<String>,
    pub identity_file: Option<String>,
    pub port: Option<u16>,
}

impl View for SshHost {
    type V = SshHostView;

    open spec fn view(&self) -> SshHostView {
        SshHostView {
            alias: self.alias@,
            hostname: self.hostname@,
            user: self.user.deep_view(),
            identity_file: self.identity_file.deep_view(),
            port: self.port,
        }
    }
}

impl Clone for SshHost {
    fn clone(&self) -> (r: Self)
        ensures
            r == *self,
    {
        SshHost {
            alias: self.alias.clone(),
            hostname: self.hostname.clone(),
            user: match &self.user {
                Some(u) => Some(u.clone()),
                None => None,
            },
            identity_file: match &self.identity_file {
                Some(f) => Some(f.clone()),
                None => None,
            },
            port: self.port,
        }
    }
}

/// Argument vector of the connection command:
/// `[-i <identity_file>]? [-p <port>]? <[user@]hostname>`.
pub open spec fn spec_command_line(h: SshHostView) -> Seq<Seq<char>> {
    let id_args: Seq<Seq<char>> = match h.identity_file {
        Some(f) => seq!["-i"@, f],
        None => Seq::empty(),
    };
    let port_args: Seq<Seq<char>> = match h.port {
        Some(p) => seq!["-p"@, dec_digits(p as nat)],
        None => Seq::empty(),
    };
    let addr: Seq<char> = match h.user {
        Some(u) => u + "@"@ + h.hostname,
        None => h.hostname,
    };
    id_args + port_args + seq![addr]
}

impl SshHost {
    /// The argument vector to hand to the `ssh` executable for this host.
    pub fn get_command_line(&self) -> (r: Vec<String>)
        ensures
            r.deep_view() == spec_command_line(self@),
    {
        let mut args: Vec<String> = Vec::new();
        if let Some(i) = &self.identity_file {
            args.push(String::from_str("-i"));
            args.push(i.clone());
        }
        if let Some(p) = &self.port {
            args.push(String::from_str("-p"));
            args.push(u16_to_string(*p));
        }
        let mut address = String::new();
        if let Some(u) = &self.user {
            address.append(u.as_str());
            address.append("@");
            proof {
                assert(address@ =~= u@ + "@"@);
            }
        }
        address.append(self.hostname.as_str());
        args.push(address);
        proof {
            assert(args.deep_view() =~~= spec_command_line(self@));
        }
        args
    }
}

/// No two registry entries share an alias.
pub open spec fn unique_keys(entries: Seq<(String, SshConfigHost)>) -> bool {
    forall|i: int, j: int|
        0 <= i < j < entries.len() ==> (#[trigger] entries[i].0@) != (#[trigger] entries[j].0@)
}

/// The mapping that a sequence of registry entries denotes; a later entry
/// under the same alias would replace an earlier one.
pub open spec fn map_of(entries: Seq<(String, SshConfigHost)>) -> Map<Seq<char>, HostFields>
    decreases entries.len(),
{
    if entries.len() == 0 {
        Map::empty()
    } else {
        map_of(entries.drop_last()).insert(entries.last().0@, entries.last().1@)
    }
}

/// Under unique aliases, `map_of` has exactly the entries' keys, and looks
/// each alias up to its entry's fields.
pub proof fn lemma_map_of_char(entries: Seq<(String, SshConfigHost)>)
    requires
        unique_keys(entries),
    ensures
        forall|k: Seq<char>|
            map_of(entries).contains_key(k) <==> (exists|i: int|
                0 <= i < entries.len() && (#[trigger] entries[i].0@) == k),
        forall|i: int|
            0 <= i < entries.len() ==> map_of(entries).contains_key(#[trigger] entries[i].0@)
                && map_of(entries)[entries[i].0@] == entries[i].1@,
    decreases entries.len(),
{
    if entries.len() > 0 {
        let dl = entries.drop_last();
        let n = entries.len() as int;
        assert(forall|i: int| 0 <= i < n - 1 ==> dl[i] == entries[i]);
        lemma_map_of_char(dl);
        assert forall|k: Seq<char>|
            map_of(entries).contains_key(k) implies (exists|i: int|
            0 <= i < n && (#[trigger] entries[i].0@) == k) by {
            if k == entries.last().0@ {
                assert(entries[n - 1].0@ == k);
            } else {
                assert(map_of(dl).contains_key(k));
                let i = choose|i: int| 0 <= i < dl.len() && (#[trigger] dl[i].0@) == k;
                assert(dl[i] == entries[i]);
                assert(entries[i].0@ == k);
            }
        }
        assert forall|i: int|
            0 <= i < n implies map_of(entries).contains_key(#[trigger] entries[i].0@) && map_of(
            entries,
        )[entries[i].0@] == entries[i].1@ by {
            if i == n - 1 {
            } else {
                assert(entries[i].0@ != entries[n - 1].0@);
                assert(dl[i].0@ == entries[i].0@);
            }
        }
    }
}

/// The registry that parsing a configuration text produces: host records
/// keyed by alias.
#[derive(Debug)]
pub struct SshConfigFile {
    hosts: Vec<(String, SshConfigHost)>,
}

impl View for SshConfigFile {
    type V = Map<Seq<char>, HostFields>;

    closed spec fn view(&self) -> Map<Seq<char>, HostFields> {
        map_of(self.hosts@)
    }
}

impl Default for SshConfigFile {
    fn default() -> (r: Self)
        ensures
            r.wf(),
            r@ == Map::<Seq<char>, HostFields>::empty(),
    {
        SshConfigFile { hosts: Vec::new() }
    }
}

impl SshConfigFile {
    /// No two entries share an alias.
    pub closed spec fn wf(&self) -> bool {
        unique_keys(self.hosts@)
    }

    /// Store `host` under `alias`, replacing any prior record with that
    /// alias.
    #[verifier::loop_isolation(false)]
    pub fn insert(&mut self, alias: String, host: SshConfigHost)
        requires
            old(self).wf(),
        ensures
            final(self).wf(),
            final(self)@ == old(self)@.insert(alias@, host@),
    {
        let ghost e0 = old(self).hosts@;
        let n = self.hosts.len();
        let mut i: usize = 0;
        while i < n
            invariant
                n == self.hosts@.len(),
                self.hosts@ == e0,
                unique_keys(e0),
                i <= n,
                forall|j: int| 0 <= j < i ==> (#[trigger] e0[j].0@) != alias@,
            decreases n - i,
        {
            if str_eq(self.hosts[i].0.as_str(), alias.as_str()) {
                proof {
                    lemma_map_of_update(e0, i as int, alias, host);
                }
                let ghost newent = (alias, host);
                self.hosts[i] = (alias, host);
                proof {
                    assert(self.hosts@ =~= e0.update(i as int, newent));
                    assert(map_of(e0.update(i as int, newent)) == map_of(e0).insert(
                        newent.0@,
                        newent.1@,
                    ));
                    assert(map_of(self.hosts@) == map_of(e0).insert(newent.0@, newent.1@));
                    assert forall|p: int, q: int|
                        0 <= p < q < self.hosts@.len() implies (#[trigger] self.hosts@[p].0@)
                        != (#[trigger] self.hosts@[q].0@) by {
                        assert(e0[p].0@ != e0[q].0@);
                        assert(self.hosts@[p].0@ == e0[p].0@);
                        assert(self.hosts@[q].0@ == e0[q].0@);
                    }
                }
                return ;
            }
            i += 1;
        }
        proof {
            let ghost e1 = e0.push((alias, host));
            assert(e1.drop_last() =~= e0);
            assert(map_of(e1) == map_of(e0).insert(alias@, host@));
            assert forall|p: int, q: int|
                0 <= p < q < e1.len() implies (#[trigger] e1[p].0@) != (#[trigger] e1[q].0@) by {
                if q == e1.len() - 1 {
                    assert(e1[p].0@ == e0[p].0@);
                } else {
                    assert(e0[p].0@ != e0[q].0@);
                }
            }
        }
        self.hosts.push((alias, host));
    }

    /// Look the record stored under `alias` up.
    pub fn get(&self, alias: &str) -> (r: Option<&SshConfigHost>)
        requires
            self.wf(),
        ensures
            match r {
                Some(h) => self@.contains_key(alias@) && h@ == self@[alias@],
                None => !self@.contains_key(alias@),
            },
    {
        proof {
            lemma_map_of_char(self.hosts@);
        }
        let n = self.hosts.len();
        let mut i: usize = 0;
        while i < n
            invariant
                self.wf(),
                n == self.hosts@.len(),
                i <= n,
                forall|j: int| 0 <= j < i ==> (#[trigger] self.hosts@[j].0@) != alias@,
            decreases n - i,
        {
            if str_eq(self.hosts[i].0.as_str(), alias) {
                proof {
                    lemma_map_of_char(self.hosts@);
                }
                return Some(&self.hosts[i].1);
            }
            i += 1;
        }
        None
    }

    /// The ordered list of connectable hosts: one per registry entry, sorted
    /// by alias ascending.
    #[verifier::rlimit(50)]
    pub fn to_hosts(self) -> (r: Vec<SshHost>)
        requires
            self.wf(),
        ensures
            sorted_by_alias(r@),
            forall|p: int, q: int|
                0 <= p < q < r@.len() ==> (#[trigger] r@[p].alias@) != (#[trigger] r@[q].alias@),
            forall|p: int| 0 <= p < r@.len() ==> row_of(#[trigger] r@[p], self@),
            forall|k: Seq<char>|
                self@.contains_key(k) ==> exists|p: int|
                    0 <= p < r@.len() && (#[trigger] r@[p].alias@) == k,
    {
        let ghost e0 = self.hosts@;
        proof {
            lemma_map_of_char(e0);
        }
        let mut out: Vec<SshHost> = Vec::new();
        let n = self.hosts.len();
        let mut i: usize = 0;
        while i < n
            invariant
                n == self.hosts@.len(),
                self.hosts@ == e0,
                unique_keys(e0),
                self@ == map_of(e0),
                i <= n,
                sorted_by_alias(out@),
                forall|p: int, q: int|
                    0 <= p < q < out@.len() ==> (#[trigger] out@[p].alias@) != (
                    #[trigger] out@[q].alias@),
                forall|p: int|
                    0 <= p < out@.len() ==> exists|t: int|
                        0 <= t < i && (#[trigger] out@[p])@ == host_of_entry(e0[t].0@, e0[t].1@),
                forall|t: int|
                    0 <= t < i ==> exists|p: int|
                        0 <= p < out@.len() && out@[p].alias@ == (#[trigger] e0[t].0@),
            decreases n - i,
        {
            let entry = &self.hosts[i];
            let alias = entry.0.clone();
            let cfg = entry.1.clone();
            let h = SshHost {
                alias,
                hostname: cfg.hostname,
                user: cfg.user,
                identity_file: cfg.identity_file,
                port: cfg.port,
            };
            proof {
                assert(h@ == host_of_entry(e0[i as int].0@, e0[i as int].1@));
                assert forall|p: int| 0 <= p < out@.len() implies (#[trigger] out@[p].alias@)
                    != h.alias@ by {
                    let t = choose|t: int|
                        0 <= t < i && (#[trigger] out@[p])@ == host_of_entry(e0[t].0@, e0[t].1@);
                    assert(e0[t].0@ != e0[i as int].0@);
                }
            }
            let ghost out0 = out@;
            insert_sorted(&mut out, h);
            proof {
                let j = choose|j: int| 0 <= j <= out0.len() && out@ == #[trigger] out0.insert(j, h);
                out0.insert_ensures(j, h);
                assert forall|p: int, q: int|
                    0 <= p < q < out@.len() implies (#[trigger] out@[p].alias@) != (
                    #[trigger] out@[q].alias@) by {
                    if p != j && q != j {
                        let p0 = if p < j {
                            p
                        } else {
                            p - 1
                        };
                        let q0 = if q < j {
                            q
                        } else {
                            q - 1
                        };
                        assert(out@[p] == out0[p0] && out@[q] == out0[q0]);
                    }
                }
                assert forall|p: int| 0 <= p < out@.len() implies exists|t: int|
                    0 <= t < i + 1 && (#[trigger] out@[p])@ == host_of_entry(
                        e0[t].0@,
                        e0[t].1@,
                    ) by {
                    if p == j {
                        assert((out@[p])@ == host_of_entry(e0[i as int].0@, e0[i as int].1@));
                    } else {
                        let p0 = if p < j {
                            p
                        } else {
                            p - 1
                        };
                        assert(out@[p] == out0[p0]);
                    }
                }
                assert forall|t: int| 0 <= t < i + 1 implies exists|p: int|
                    0 <= p < out@.len() && out@[p].alias@ == (#[trigger] e0[t].0@) by {
                    if t == i {
                        assert(out@[j].alias@ == e0[t].0@);
                    } else {
                        let p0 = choose|p0: int|
                            0 <= p0 < out0.len() && out0[p0].alias@ == (#[trigger] e0[t].0@);
                        let p = if p0 < j {
                            p0
                        } else {
                            p0 + 1
                        };
                        assert(out@[p] == out0[p0]);
                    }
                }
            }
            i += 1;
        }
        proof {
            assert forall|p: int| 0 <= p < out@.len() implies row_of(
                #[trigger] out@[p],
                self@,
            ) by {
                let t = choose|t: int|
                    0 <= t < n && (#[trigger] out@[p])@ == host_of_entry(e0[t].0@, e0[t].1@);
                assert(map_of(e0).contains_key(e0[t].0@) && map_of(e0)[e0[t].0@] == e0[t].1@);
            }
            assert forall|k: Seq<char>| self@.contains_key(k) implies exists|p: int|
                0 <= p < out@.len() && (#[trigger] out@[p].alias@) == k by {
                let t = choose|t: int| 0 <= t < e0.len() && (#[trigger] e0[t].0@) == k;
            }
        }
        out
    }
}

/// `h` is a registry entry of `m`: its alias is a key, and its fields are
/// that key's record.
pub open spec fn row_of(h: SshHost, m: Map<Seq<char>, HostFields>) -> bool {
    m.contains_key(h.alias@) && h@ == host_of_entry(h.alias@, m[h.alias@])
}

/// The hosts are in ascending alias order.
pub open spec fn sorted_by_alias(s: Seq<SshHost>) -> bool {
    forall|i: int, j: int|
        0 <= i < j < s.len() ==> lex_leq(#[trigger] s[i].alias@, #[trigger] s[j].alias@)
}

/// Under unique aliases, replacing the entry at `i` in place acts on the
/// denoted mapping as an insert under that alias.
proof fn lemma_map_of_update(
    entries: Seq<(String, SshConfigHost)>,
    i: int,
    alias: String,
    host: SshConfigHost,
)
    requires
        unique_keys(entries),
        0 <= i < entries.len(),
        entries[i].0@ == alias@,
    ensures
        map_of(entries.update(i, (alias, host))) == map_of(entries).insert(alias@, host@),
    decreases entries.len(),
{
    let e2 = entries.update(i, (alias, host));
    let n = entries.len() as int;
    let dl = entries.drop_last();
    assert(forall|j: int| 0 <= j < n - 1 ==> dl[j] == entries[j]);
    if i == n - 1 {
        assert(e2.drop_last() =~= dl);
        assert(map_of(e2) == map_of(dl).insert(alias@, host@));
        assert(map_of(entries).insert(alias@, host@) =~= map_of(dl).insert(alias@, host@));
    } else {
        lemma_map_of_update(dl, i, alias, host);
        assert(e2.drop_last() =~= dl.update(i, (alias, host)));
        assert(e2.last() == entries.last());
        assert(map_of(e2) == map_of(dl).insert(alias@, host@).insert(
            entries.last().0@,
            entries.last().1@,
        ));
        assert(entries[i].0@ != entries[n - 1].0@);
        assert(map_of(dl).insert(alias@, host@).insert(entries.last().0@, entries.last().1@)
            =~= map_of(dl).insert(entries.last().0@, entries.last().1@).insert(alias@, host@));
    }
}

/// Place `h` into a list kept in ascending alias order.
fn insert_sorted(v: &mut Vec<SshHost>, h: SshHost)
    requires
        sorted_by_alias(old(v)@),
    ensures
        sorted_by_alias(final(v)@),
        exists|j: int| 0 <= j <= old(v)@.len() && final(v)@ == #[trigger] old(v)@.insert(j, h),
{
    let ghost v0 = v@;
    let ghost ha = h.alias@;
    let n = v.len();
    let mut j: usize = 0;
    while j < n && str_leq(v[j].alias.as_str(), h.alias.as_str())
        invariant
            v@ == v0,
            n == v0.len(),
            j <= n,
            sorted_by_alias(v0),
            ha == h.alias@,
            forall|k: int| 0 <= k < j ==> lex_leq(#[trigger] v0[k].alias@, ha),
        decreases n - j,
    {
        j += 1;
    }
    proof {
        if (j as int) < v0.len() {
            lemma_lex_total(v0[j as int].alias@, ha);
        }
        v0.insert_ensures(j as int, h);
        let v1 = v0.insert(j as int, h);
        assert forall|p: int, q: int|
            0 <= p < q < v1.len() implies lex_leq(
            #[trigger] v1[p].alias@,
            #[trigger] v1[q].alias@,
        ) by {
            let jj = j as int;
            if p == jj {
                assert(lex_leq(ha, v0[q - 1].alias@)) by {
                    if q - 1 > jj {
                        lemma_lex_trans(ha, v0[jj].alias@, v0[q - 1].alias@);
                    }
                }
            } else if q == jj {
                assert(v1[p] == v0[p]);
            } else {
                let p0 = if p < jj {
                    p
                } else {
                    p - 1
                };
                let q0 = if q < jj {
                    q
                } else {
                    q - 1
                };
                assert(v1[p] == v0[p0] && v1[q] == v0[q0]);
                if p0 < q0 {
                } else {
                    assert(p0 == q0 && p < jj && q > jj);
                    assert(lex_leq(v1[p].alias@, v1[q].alias@));
                }
            }
        }
    }
    v.insert(j, h);
    proof {
        assert(v@ == v0.insert(j as int, h));
    }
}

} // verus!
