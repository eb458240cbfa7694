//! Endpoint groups, their candidate addresses, and the choice of the best one.

use vstd::prelude::*;
use crate::candidate;
use crate::candidate::CandidateState;
use crate::candidate::Ip;
use crate::clock;
use crate::search;
use crate::text;

verus! {

/// An endpoint group: the client domains that it accepts, the addresses that
/// serve them and the file that measures those addresses.
#[derive(Debug)]
pub struct HostDef {
    pub name: String,
    /// Accepted client domains paired with the upstream Host to send to the CDN.
    /// E.g. ("assets1.xboxlive.com", "assets1.xboxlive.cn") means a request
    /// arriving with Host: assets1.xboxlive.com is forwarded to the CDN with
    /// Host: assets1.xboxlive.cn.
    pub domain_map: Vec<(String, String)>,
    pub ips: Vec<Ip>,
    pub upstream_port: u16,
    pub test_url: String,
}

/// The contents of a `HostDef`.
pub struct HostDefView {
    pub name: Seq<char>,
    pub domain_map: Seq<(Seq<char>, Seq<char>)>,
    pub ips: Seq<Ip>,
    pub upstream_port: u16,
    pub test_url: Seq<char>,
}

/// The texts that a list of string pairs holds.
pub open spec fn pair_texts(pairs: Seq<(String, String)>) -> Seq<(Seq<char>, Seq<char>)> {
    Seq::new(pairs.len(), |i: int| (pairs[i].0@, pairs[i].1@))
}

impl View for HostDef {
    type V = HostDefView;

    open spec fn view(&self) -> HostDefView {
        HostDefView {
            name: self.name@,
            domain_map: pair_texts(self.domain_map@),
            ips: self.ips@,
            upstream_port: self.upstream_port,
            test_url: self.test_url@,
        }
    }
}

fn copy_ips(ips: &Vec<Ip>) -> (r: Vec<Ip>)
    ensures
        r@ == ips@,
{
    let mut out: Vec<Ip> = Vec::new();
    let mut i: usize = 0;
    while i < ips.len()
        invariant
            i <= ips.len(),
            out@ == ips@.take(i as int),
        decreases ips.len() - i,
    {
        out.push(ips[i]);
        i += 1;
    }
    out
}

fn copy_pairs(pairs: &Vec<(String, String)>) -> (r: Vec<(String, String)>)
    ensures
        pair_texts(r@) == pair_texts(pairs@),
{
    let mut out: Vec<(String, String)> = Vec::new();
    let mut i: usize = 0;
    while i < pairs.len()
        invariant
            i <= pairs.len(),
            out.len() == i,
            forall|j: int| 0 <= j < i ==> #[trigger] out@[j].0@ == pairs@[j].0@ && out@[j].1@ == pairs@[j].1@,
        decreases pairs.len() - i,
    {
        out.push((pairs[i].0.clone(), pairs[i].1.clone()));
        i += 1;
    }
    assert(pair_texts(out@) =~= pair_texts(pairs@));
    out
}

impl Clone for HostDef {
    fn clone(&self) -> (copy: Self)
        ensures
            copy@ == self@,
    {
        HostDef {
            name: self.name.clone(),
            domain_map: copy_pairs(&self.domain_map),
            ips: copy_ips(&self.ips),
            upstream_port: self.upstream_port,
            test_url: self.test_url.clone(),
        }
    }
}

// ---------------------------------------------------------------------------
// Host names
// ---------------------------------------------------------------------------

/// A host name as it is compared: without trailing dots, in lower case.
pub open spec fn normalized(host: Seq<char>) -> Seq<char> {
    text::lower(text::trim_end(host, text::only('.')))
}

/// The normalized `host` is `domain` or lies under it.
pub open spec fn under_domain(host: Seq<char>, domain: Seq<char>) -> bool {
    ||| host == normalized(domain)
    ||| text::has_suffix(host, seq!['.'] + normalized(domain))
}

/// The domain pairs that take the normalized `host`.
pub open spec fn taking(host: Seq<char>) -> spec_fn((Seq<char>, Seq<char>)) -> bool {
    |pair: (Seq<char>, Seq<char>)| under_domain(host, pair.0)
}

/// The group accepts the normalized `host`.
pub open spec fn accepts(def: HostDefView, host: Seq<char>) -> bool {
    exists|k: int| 0 <= k < def.domain_map.len() && under_domain(host, (#[trigger] def.domain_map[k]).0)
}

pub fn normalize_host(host: &str) -> (r: String)
    ensures
        r@ == normalized(host@),
{
    let head = text::trim_end_char(host, '.');
    text::to_lower(head.as_str())
}

fn is_under_domain(host: &str, domain: &str) -> (r: bool)
    ensures
        r == under_domain(host@, domain@),
{
    let domain = normalize_host(domain);
    let dotted = text::joined(".", domain.as_str());
    proof {
        reveal_strlit(".");
        assert("."@ =~= seq!['.']);
    }
    text::same_text(host, domain.as_str()) || text::ends_with(host, dotted.as_str())
}

/// The first domain pair of the group that takes the normalized `host`.
fn first_pair(def: &HostDef, host: &str) -> (r: Option<usize>)
    ensures
        match r {
            Some(k) => search::first_index(def@.domain_map, taking(host@)) == Some(k as int) && k
                < def.domain_map.len() && accepts(def@, host@),
            None => search::first_index(def@.domain_map, taking(host@)) is None && !accepts(def@, host@),
        },
{
    let mut k: usize = 0;
    while k < def.domain_map.len()
        invariant
            k <= def.domain_map.len(),
            forall|j: int| 0 <= j < k ==> !under_domain(host@, (#[trigger] def@.domain_map[j]).0),
        decreases def.domain_map.len() - k,
    {
        if is_under_domain(host, def.domain_map[k].0.as_str()) {
            proof {
                assert(under_domain(host@, def@.domain_map[k as int].0));
                search::lemma_first_is(def@.domain_map, taking(host@), k as int);
            }
            return Some(k);
        }
        k += 1;
    }
    proof {
        search::lemma_first_absent(def@.domain_map, taking(host@));
    }
    None
}

// ---------------------------------------------------------------------------
// The selector
// ---------------------------------------------------------------------------

/// An endpoint group at run time.
pub struct GroupView {
    pub def: HostDefView,
    pub candidates: Seq<CandidateState>,
    pub pinned_ip: Option<Ip>,
}

/// All endpoint groups and the time for which a failure counts.
pub struct SelectorView {
    pub groups: Seq<GroupView>,
    pub failure_penalty: u64,
}

/// Why a group was not pinned or restored.
#[derive(Clone, Copy, Debug, PartialEq, Eq, Structural)]
pub enum PinError {
    /// No group answers to the name.
    UnknownGroup,
    /// The group has no bundled addresses.
    NothingToRestore,
}

pub open spec fn pin_message(e: PinError, name: Seq<char>) -> Seq<char> {
    match e {
        PinError::UnknownGroup => "unknown group "@ + text::debug_text(name),
        PinError::NothingToRestore => "no IPs to restore for "@ + name,
    }
}

impl PinError {
    /// What to tell who wanted to pin the group `name`.
    pub fn message(&self, name: &str) -> (r: String)
        ensures
            r@ == pin_message(*self, name@),
    {
        match self {
            PinError::UnknownGroup => text::joined("unknown group ", &text::quoted(name)),
            PinError::NothingToRestore => text::joined("no IPs to restore for ", name),
        }
    }
}

/// An upstream address.
#[derive(Clone, Copy, Debug, PartialEq, Eq, Structural)]
pub struct Target {
    pub ip: Ip,
    pub port: u16,
}

/// The groups that accept the normalized `host`.
pub open spec fn accepting(host: Seq<char>) -> spec_fn(GroupView) -> bool {
    |g: GroupView| accepts(g.def, host)
}

/// The group is called `host`, in whatever case, or accepts it.
pub open spec fn answers(def: HostDefView, host: Seq<char>) -> bool {
    ||| text::lower(def.name) == host
    ||| accepts(def, host)
}

/// The groups that answer to the normalized `host`.
pub open spec fn answering(host: Seq<char>) -> spec_fn(GroupView) -> bool {
    |g: GroupView| answers(g.def, host)
}

/// The group's definition with its live candidate list.
pub open spec fn live_def(g: GroupView) -> HostDefView {
    HostDefView { ips: candidate::addresses(g.candidates), ..g.def }
}

impl SelectorView {
    /// The first group that accepts `host`.
    pub open spec fn group_for(self, host: Seq<char>) -> Option<int> {
        search::first_index(self.groups, accepting(normalized(host)))
    }

    /// The first group that answers to `host`, as its name or as its domain.
    pub open spec fn group_named(self, host: Seq<char>) -> Option<int> {
        search::first_index(self.groups, answering(normalized(host)))
    }

    /// The definition of the first group that accepts `host`.
    pub open spec fn host_for(self, host: Seq<char>) -> Option<HostDefView> {
        match self.group_for(host) {
            Some(i) => Some(self.groups[i].def),
            None => None,
        }
    }

    /// The upstream host of the first domain pair that takes `host`.
    pub open spec fn upstream_host_for(self, host: Seq<char>) -> Option<Seq<char>> {
        match self.group_for(host) {
            Some(i) => {
                let pairs = self.groups[i].def.domain_map;
                match search::first_index(pairs, taking(normalized(host))) {
                    Some(k) => Some(pairs[k].1),
                    None => None,
                }
            },
            None => None,
        }
    }

    /// The best address at `now` of the group that answers to `host`.
    pub open spec fn best_ip(self, host: Seq<char>, now: u64) -> Option<Ip> {
        match self.group_named(host) {
            Some(i) => candidate::best(self.groups[i].candidates, now, self.failure_penalty),
            None => None,
        }
    }

    /// The port of the group that answers to `host`.
    pub open spec fn upstream_port(self, host: Seq<char>) -> Option<u16> {
        match self.group_named(host) {
            Some(i) => Some(self.groups[i].def.upstream_port),
            None => None,
        }
    }

    /// The selector with other candidates in group `i`.
    pub open spec fn with_candidates(self, i: int, candidates: Seq<CandidateState>) -> SelectorView {
        SelectorView {
            groups: self.groups.update(i, GroupView { candidates, ..self.groups[i] }),
            ..self
        }
    }

    /// The selector after a measurement of `ip` at `now`.
    pub open spec fn updated(
        self,
        host: Seq<char>,
        ip: Ip,
        latency_ms: Option<u64>,
        speed_mkbps: Option<u64>,
        success: bool,
        now: u64,
    ) -> SelectorView {
        match self.group_named(host) {
            Some(i) => {
                let cands = self.groups[i].candidates;
                match search::first_index(cands, candidate::at_address(ip)) {
                    Some(k) => self.with_candidates(
                        i,
                        cands.update(
                            k,
                            candidate::measured(
                                cands[k],
                                latency_ms,
                                speed_mkbps,
                                success,
                                now,
                            ),
                        ),
                    ),
                    None => self,
                }
            },
            None => self,
        }
    }

    /// The selector after the group that answers to `name` was pinned to `ip`,
    /// or restored to its bundled addresses.
    pub open spec fn pinned(self, name: Seq<char>, ip: Option<Ip>) -> Result<
        SelectorView,
        PinError,
    > {
        match self.group_named(name) {
            Some(i) => {
                let ips = match ip {
                    Some(one) => seq![one],
                    None => self.groups[i].def.ips,
                };
                if ips.len() == 0 {
                    Err(PinError::NothingToRestore)
                } else {
                    Ok(
                        SelectorView {
                            groups: self.groups.update(
                                i,
                                GroupView {
                                    def: self.groups[i].def,
                                    candidates: candidate::fresh(ips),
                                    pinned_ip: ip,
                                },
                            ),
                            ..self
                        },
                    )
                }
            },
            None => Err(PinError::UnknownGroup),
        }
    }

    /// The address to connect to for `host` and `port`: the one that the
    /// request carries, else the best one of a managed host.
    pub open spec fn resolved(
        self,
        current: Option<Ip>,
        host: Seq<char>,
        port: u16,
        now: u64,
    ) -> Option<Target> {
        match current {
            Some(ip) => Some(Target { ip, port }),
            None => if self.host_for(host) is Some {
                match self.best_ip(host, now) {
                    Some(ip) => Some(Target { ip, port: self.upstream_port(host)->0 }),
                    None => None,
                }
            } else {
                None
            },
        }
    }

    /// The definitions of all groups with their live candidate lists.
    pub open spec fn defs(self) -> Seq<HostDefView> {
        Seq::new(self.groups.len(), |i: int| live_def(self.groups[i]))
    }
}

/// What the dashboard shows of a group: its candidates from the best to the
/// worst.
#[derive(Debug)]
pub struct HostState {
    pub name: String,
    pub domains: Vec<String>,
    pub upstream_port: u16,
    pub candidates: Vec<CandidateState>,
    /// Dashboard/runtime pin; `None` means the bundled candidate list is used.
    pub pinned_ip: Option<Ip>,
}

/// The client domains of the group.
pub open spec fn client_domains(def: HostDefView) -> Seq<Seq<char>> {
    Seq::new(def.domain_map.len(), |i: int| def.domain_map[i].0)
}

/// `state` shows the group as it stands at `now`.
pub open spec fn describes(state: HostState, g: GroupView, now: u64, penalty: u64) -> bool {
    &&& state.name@ == g.def.name
    &&& text::texts(state.domains@) == client_domains(g.def)
    &&& state.upstream_port == g.def.upstream_port
    &&& candidate::is_ranking(
        candidate::all_refreshed(g.candidates, now, penalty),
        state.candidates@,
        now,
        penalty,
    )
    &&& state.pinned_ip == g.pinned_ip
}

/// `state` shows the group as it stands at some time.
pub open spec fn describes_at_some_time(state: HostState, g: GroupView, penalty: u64) -> bool {
    exists|now: u64| describes(state, g, now, penalty)
}

/// The message for a host and port that no candidate serves.
pub open spec fn not_found_message(host: Seq<char>, port: u16) -> Seq<char> {
    "no managed endpoint candidate for "@ + host + ":"@ + text::decimal(port as nat)
}

struct HostEntry {
    def: HostDef,
    candidates: Vec<CandidateState>,
    pinned_ip: Option<Ip>,
}

impl View for HostEntry {
    type V = GroupView;

    closed spec fn view(&self) -> GroupView {
        GroupView {
            def: self.def@,
            candidates: self.candidates@,
            pinned_ip: self.pinned_ip,
        }
    }
}

/// Chooses, for each accepted host, the address to fetch from.
pub struct Selector {
    hosts: Vec<HostEntry>,
    failure_penalty: u64,
}

impl View for Selector {
    type V = SelectorView;

    closed spec fn view(&self) -> SelectorView {
        SelectorView {
            groups: Seq::new(self.hosts@.len(), |i: int| self.hosts@[i]@),
            failure_penalty: self.failure_penalty,
        }
    }
}

/// The texts and numbers that a list of definitions holds.
pub open spec fn def_views(defs: Seq<HostDef>) -> Seq<HostDefView> {
    Seq::new(defs.len(), |i: int| defs[i]@)
}

/// A group of which nothing is measured yet.
pub open spec fn new_group(def: HostDefView) -> GroupView {
    GroupView { def, candidates: candidate::fresh(def.ips), pinned_ip: None }
}

impl Selector {
    pub fn new(defs: Vec<HostDef>, failure_penalty: u64) -> (r: Selector)
        ensures
            r@.failure_penalty == failure_penalty,
            r@.groups == Seq::new(defs@.len(), |i: int| new_group(defs@[i]@)),
    {
        let mut hosts: Vec<HostEntry> = Vec::new();
        let mut i: usize = 0;
        while i < defs.len()
            invariant
                i <= defs.len(),
                hosts.len() == i,
                forall|j: int| 0 <= j < i ==> (#[trigger] hosts@[j])@ == new_group(defs@[j]@),
            decreases defs.len() - i,
        {
            let def = defs[i].clone();
            let candidates = candidate::fresh_candidates(&def.ips);
            hosts.push(HostEntry { def, candidates, pinned_ip: None });
            i += 1;
        }
        let r = Selector { hosts, failure_penalty };
        assert(r@.groups =~= Seq::new(defs@.len(), |i: int| new_group(defs@[i]@)));
        r
    }

    /// The first group that accepts `host`.
    fn accepting_index(&self, host: &str) -> (r: Option<usize>)
        ensures
            match r {
                Some(i) => self@.group_for(host@) == Some(i as int) && i < self.hosts.len(),
                None => self@.group_for(host@) is None,
            },
    {
        let wanted = normalize_host(host);
        let mut i: usize = 0;
        while i < self.hosts.len()
            invariant
                i <= self.hosts.len(),
                wanted@ == normalized(host@),
                forall|j: int| 0 <= j < i ==> !accepts((#[trigger] self@.groups[j]).def, wanted@),
            decreases self.hosts.len() - i,
        {
            assert(self@.groups[i as int].def == self.hosts@[i as int].def@);
            if first_pair(&self.hosts[i].def, wanted.as_str()).is_some() {
                proof {
                    search::lemma_first_is(self@.groups, accepting(wanted@), i as int);
                }
                return Some(i);
            }
            i += 1;
        }
        proof {
            search::lemma_first_absent(self@.groups, accepting(wanted@));
        }
        None
    }

    pub fn host_for(&self, host: &str) -> (r: Option<&HostDef>)
        ensures
            match r {
                Some(def) => self@.host_for(host@) == Some(def@),
                None => self@.host_for(host@) is None,
            },
    {
        match self.accepting_index(host) {
            Some(i) => Some(&self.hosts[i].def),
            None => None,
        }
    }

    /// Returns the upstream Host to use for a given client domain, or None if
    /// the domain is not managed.
    pub fn upstream_host_for(&self, host: &str) -> (r: Option<&str>)
        ensures
            match r {
                Some(upstream) => self@.upstream_host_for(host@) == Some(upstream@),
                None => self@.upstream_host_for(host@) is None,
            },
    {
        match self.accepting_index(host) {
            Some(i) => {
                let name = normalize_host(host);
                let def = &self.hosts[i].def;
                assert(self@.groups[i as int].def == def@);
                match first_pair(def, name.as_str()) {
                    Some(k) => {
                        assert(def@.domain_map[k as int].1 == def.domain_map@[k as int].1@);
                        Some(def.domain_map[k].1.as_str())
                    },
                    None => None,
                }
            },
            None => None,
        }
    }

    /// The first group that answers to `host`.
    fn index_of(&self, host: &str) -> (r: Option<usize>)
        ensures
            match r {
                Some(i) => self@.group_named(host@) == Some(i as int) && i < self.hosts.len(),
                None => self@.group_named(host@) is None,
            },
    {
        let wanted = normalize_host(host);
        let mut i: usize = 0;
        while i < self.hosts.len()
            invariant
                i <= self.hosts.len(),
                wanted@ == normalized(host@),
                forall|j: int| 0 <= j < i ==> !answers((#[trigger] self@.groups[j]).def, wanted@),
            decreases self.hosts.len() - i,
        {
            assert(self@.groups[i as int].def == self.hosts@[i as int].def@);
            let name = text::to_lower(self.hosts[i].def.name.as_str());
            if text::same_text(name.as_str(), wanted.as_str()) || first_pair(
                &self.hosts[i].def,
                wanted.as_str(),
            ).is_some() {
                proof {
                    search::lemma_first_is(self@.groups, answering(wanted@), i as int);
                }
                return Some(i);
            }
            i += 1;
        }
        proof {
            search::lemma_first_absent(self@.groups, answering(wanted@));
        }
        None
    }

    /// The best address for `host` at `now`.
    pub fn best_ip_at(&self, host: &str, now: u64) -> (r: Option<Ip>)
        ensures
            r == self@.best_ip(host@, now),
    {
        match self.index_of(host) {
            Some(i) => {
                let cands = &self.hosts[i].candidates;
                assert(self@.groups[i as int].candidates == cands@);
                match candidate::best_index(cands, now, self.failure_penalty) {
                    Some(k) => {
                        proof {
                            candidate::lemma_best_is(
                                cands@,
                                now,
                                self.failure_penalty,
                                k as int,
                            );
                        }
                        Some(cands[k].ip)
                    },
                    None => None,
                }
            },
            None => None,
        }
    }

    /// The best address for `host` by the current time.
    pub fn best_ip(&self, host: &str) -> (r: Option<Ip>)
        ensures
            exists|now: u64| r == #[trigger] self@.best_ip(host@, now),
    {
        let now = clock::now_unix();
        self.best_ip_at(host, now)
    }

    /// Upstream port for a rewritten host, if the host is managed.
    pub fn upstream_port(&self, host: &str) -> (r: Option<u16>)
        ensures
            r == self@.upstream_port(host@),
    {
        match self.index_of(host) {
            Some(i) => Some(self.hosts[i].def.upstream_port),
            None => None,
        }
    }

    /// Takes in a measurement of `ip` that was made at `now`.
    pub fn update_result_at(
        &mut self,
        host: &str,
        ip: Ip,
        latency_ms: Option<u64>,
        speed_mkbps: Option<u64>,
        success: bool,
        now: u64,
    )
        ensures
            final(self)@ == old(self)@.updated(host@, ip, latency_ms, speed_mkbps, success, now),
    {
        let penalty = self.failure_penalty;
        match self.index_of(host) {
            Some(i) => {
                match candidate::find_candidate(&self.hosts[i].candidates, ip) {
                    Some(k) => {
                        let c = candidate::measure_candidate(
                            &self.hosts[i].candidates[k],
                            latency_ms,
                            speed_mkbps,
                            success,
                            now,
                            penalty,
                        );
                        self.hosts[i].candidates[k] = c;
                        assert(self@.groups =~= old(self)@.updated(
                            host@,
                            ip,
                            latency_ms,
                            speed_mkbps,
                            success,
                            now,
                        ).groups);
                    },
                    None => {},
                }
            },
            None => {},
        }
    }

    /// Takes in a measurement of `ip` that was made just now.
    pub fn update_result(
        &mut self,
        host: &str,
        ip: Ip,
        latency_ms: Option<u64>,
        speed_mkbps: Option<u64>,
        success: bool,
    )
        ensures
            exists|now: u64|
                final(self)@ == #[trigger] old(self)@.updated(
                    host@,
                    ip,
                    latency_ms,
                    speed_mkbps,
                    success,
                    now,
                ),
    {
        let now = clock::now_unix();
        self.update_result_at(host, ip, latency_ms, speed_mkbps, success, now);
    }

    /// Takes in that a request to `ip` failed at `now`.
    pub fn mark_failure_at(&mut self, host: &str, ip: Ip, now: u64)
        ensures
            final(self)@ == old(self)@.updated(host@, ip, None, None, false, now),
    {
        self.update_result_at(host, ip, None, None, false, now);
    }

    /// Takes in that a request to `ip` failed just now.
    pub fn mark_failure(&mut self, host: &str, ip: Ip)
        ensures
            exists|now: u64|
                final(self)@ == #[trigger] old(self)@.updated(host@, ip, None, None, false, now),
    {
        self.update_result(host, ip, None, None, false);
    }

    /// Pin a group to one address, or `None` to restore the bundled candidate list.
    pub fn set_pinned_ip(&mut self, name: &str, ip: Option<Ip>) -> (r: Result<(), PinError>)
        ensures
            match r {
                Ok(()) => old(self)@.pinned(name@, ip) == Ok::<SelectorView, PinError>(final(self)@),
                Err(e) => old(self)@.pinned(name@, ip) == Err::<SelectorView, PinError>(e)
                    && final(self)@ == old(self)@,
            },
    {
        match self.index_of(name) {
            Some(i) => {
                let ips = match ip {
                    Some(one) => {
                        let mut v: Vec<Ip> = Vec::new();
                        v.push(one);
                        v
                    },
                    None => copy_ips(&self.hosts[i].def.ips),
                };
                assert(ips@ =~= (match ip {
                    Some(one) => seq![one],
                    None => self@.groups[i as int].def.ips,
                }));
                if ips.len() == 0 {
                    return Err(PinError::NothingToRestore);
                }
                self.hosts[i].pinned_ip = ip;
                self.hosts[i].candidates = candidate::fresh_candidates(&ips);
                assert(self@.groups =~= old(self)@.pinned(name@, ip)->Ok_0.groups);
                Ok(())
            },
            None => Err(PinError::UnknownGroup),
        }
    }

    /// The definition of group `i` with its live candidate list.
    fn live_def_of(&self, i: usize) -> (r: HostDef)
        requires
            i < self.hosts.len(),
        ensures
            r@ == live_def(self@.groups[i as int]),
    {
        let mut def = self.hosts[i].def.clone();
        def.ips = candidate::candidate_ips(&self.hosts[i].candidates);
        def
    }

    /// Host definition with the live candidate IP list (after dashboard pins).
    pub fn def_for_host(&self, host: &str) -> (r: Option<HostDef>)
        ensures
            match r {
                Some(def) => self@.group_named(host@) is Some && def@ == live_def(
                    self@.groups[self@.group_named(host@)->0],
                ),
                None => self@.group_named(host@) is None,
            },
    {
        match self.index_of(host) {
            Some(i) => Some(self.live_def_of(i)),
            None => None,
        }
    }

    /// Address to connect to for `host` at `now`. `current` is the address that
    /// the request in progress was given; the error says what was not found.
    pub fn resolve_at(&self, current: Option<Ip>, host: &str, port: u16, now: u64) -> (r: Result<
        Target,
        String,
    >)
        ensures
            match r {
                Ok(target) => self@.resolved(current, host@, port, now) == Some(target),
                Err(message) => self@.resolved(current, host@, port, now) is None && message@
                    == not_found_message(host@, port),
            },
    {
        if let Some(ip) = current {
            return Ok(Target { ip, port });
        }
        if self.host_for(host).is_some() {
            if let Some(ip) = self.best_ip_at(host, now) {
                if let Some(p) = self.upstream_port(host) {
                    return Ok(Target { ip, port: p });
                }
            }
        }
        let head = text::joined("no managed endpoint candidate for ", host);
        let head = text::joined(head.as_str(), ":");
        let number = text::to_decimal(port as u64);
        Err(text::joined(head.as_str(), number.as_str()))
    }

    /// Address to connect to for `host` by the current time.
    pub fn resolve(&self, current: Option<Ip>, host: &str, port: u16) -> (r: Result<
        Target,
        String,
    >)
        ensures
            match r {
                Ok(target) => exists|now: u64| #[trigger]
                    self@.resolved(current, host@, port, now) == Some(target),
                Err(message) => message@ == not_found_message(host@, port) && exists|now: u64|
                    #[trigger] self@.resolved(current, host@, port, now) is None,
            },
    {
        let now = clock::now_unix();
        self.resolve_at(current, host, port, now)
    }

    /// The definitions of all groups with their live candidate lists.
    pub fn defs(&self) -> (r: Vec<HostDef>)
        ensures
            def_views(r@) == self@.defs(),
    {
        let mut out: Vec<HostDef> = Vec::new();
        let mut i: usize = 0;
        while i < self.hosts.len()
            invariant
                i <= self.hosts.len(),
                out.len() == i,
                forall|j: int| 0 <= j < i ==> (#[trigger] out@[j])@ == live_def(self@.groups[j]),
            decreases self.hosts.len() - i,
        {
            let def = self.live_def_of(i);
            out.push(def);
            i += 1;
        }
        assert(def_views(out@) =~= self@.defs());
        out
    }

    /// The state of group `i` at `now`.
    fn host_state(&self, i: usize, now: u64) -> (r: HostState)
        requires
            i < self.hosts.len(),
        ensures
            describes(r, self@.groups[i as int], now, self@.failure_penalty),
    {
        let h = &self.hosts[i];
        let mut domains: Vec<String> = Vec::new();
        let mut k: usize = 0;
        while k < h.def.domain_map.len()
            invariant
                k <= h.def.domain_map.len(),
                domains.len() == k,
                forall|j: int| 0 <= j < k ==> (#[trigger] domains@[j])@ == h.def.domain_map@[j].0@,
            decreases h.def.domain_map.len() - k,
        {
            domains.push(h.def.domain_map[k].0.clone());
            k += 1;
        }
        assert(text::texts(domains@) =~= client_domains(h.def@));
        HostState {
            name: h.def.name.clone(),
            domains,
            upstream_port: h.def.upstream_port,
            candidates: candidate::ranked_candidates(&h.candidates, now, self.failure_penalty),
            pinned_ip: h.pinned_ip,
        }
    }

    /// The state of every group at `now`.
    pub fn snapshot_at(&self, now: u64) -> (r: Vec<HostState>)
        ensures
            r.len() == self@.groups.len(),
            forall|i: int|
                0 <= i < r.len() ==> describes(
                    #[trigger] r@[i],
                    self@.groups[i],
                    now,
                    self@.failure_penalty,
                ),
    {
        let mut out: Vec<HostState> = Vec::new();
        let mut i: usize = 0;
        while i < self.hosts.len()
            invariant
                i <= self.hosts.len(),
                out.len() == i,
                forall|j: int|
                    0 <= j < i ==> describes(
                        #[trigger] out@[j],
                        self@.groups[j],
                        now,
                        self@.failure_penalty,
                    ),
            decreases self.hosts.len() - i,
        {
            let state = self.host_state(i, now);
            out.push(state);
            i += 1;
        }
        out
    }

    /// The state of every group, each by the time at which it is looked at.
    pub fn snapshot(&self) -> (r: Vec<HostState>)
        ensures
            r.len() == self@.groups.len(),
            forall|i: int|
                0 <= i < r.len() ==> describes_at_some_time(
                    #[trigger] r@[i],
                    self@.groups[i],
                    self@.failure_penalty,
                ),
    {
        let mut out: Vec<HostState> = Vec::new();
        let mut i: usize = 0;
        while i < self.hosts.len()
            invariant
                i <= self.hosts.len(),
                out.len() == i,
                forall|j: int|
                    0 <= j < i ==> describes_at_some_time(
                        #[trigger] out@[j],
                        self@.groups[j],
                        self@.failure_penalty,
                    ),
            decreases self.hosts.len() - i,
        {
            let now = clock::now_unix();
            let state = self.host_state(i, now);
            out.push(state);
            assert(describes(out@[i as int], self@.groups[i as int], now, self@.failure_penalty));
            i += 1;
        }
        out
    }
}

} // verus!
