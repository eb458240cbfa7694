//! What holds of the proxy as a whole.
pub mod fields;
pub mod forwarding;
pub mod managing;
pub mod passes;
pub mod ranking;
pub mod texts;

use vstd::prelude::*;

use crate::candidate::CandidateState;
use crate::candidate::Ip;
use crate::candidate;
use crate::clock;
use crate::headers;
use crate::pass;
use crate::proxy;
use crate::search;
use crate::selector::GroupView;
use crate::selector::HostDefView;
use crate::selector::SelectorView;
use crate::selector;
use crate::text;
use crate::uri;

verus! {

// ---------------------------------------------------------------------------
// Host names
// ---------------------------------------------------------------------------

proof fn lemma_lower_again(s: Seq<char>)
    ensures
        text::lower(text::lower(s)) == text::lower(s),
{
    assert(text::lower(text::lower(s)) =~= text::lower(s));
}

proof fn lemma_lower_before_trim(s: Seq<char>)
    ensures
        text::trim_end(text::lower(s), text::only('.')) == text::lower(
            text::trim_end(s, text::only('.')),
        ),
    decreases s.len(),
{
    if s.len() > 0 {
        assert(text::lower(s).drop_last() =~= text::lower(s.drop_last()));
        lemma_lower_before_trim(s.drop_last());
    } else {
        assert(text::lower(s) =~= s);
    }
}

/// Hosts that are written alike but for their case and for dots at their end are one
/// host to the selector.
pub proof fn case_and_trailing_dots_do_not_matter(sel: SelectorView, host: Seq<char>, now: u64)
    ensures
        selector::normalized(text::lower(host)) == selector::normalized(host),
        selector::normalized(host.push('.')) == selector::normalized(host),
        sel.host_for(text::lower(host)) == sel.host_for(host),
        sel.host_for(host.push('.')) == sel.host_for(host),
        sel.upstream_host_for(text::lower(host)) == sel.upstream_host_for(host),
        sel.upstream_host_for(host.push('.')) == sel.upstream_host_for(host),
        sel.best_ip(text::lower(host), now) == sel.best_ip(host, now),
        sel.best_ip(host.push('.'), now) == sel.best_ip(host, now),
{
    lemma_lower_before_trim(host);
    lemma_lower_again(text::trim_end(host, text::only('.')));
    assert(host.push('.').drop_last() =~= host);
}

/// A host is managed exactly where some group lists it or a domain above it.
pub proof fn managed_means_listed(sel: SelectorView, host: Seq<char>)
    ensures
        sel.host_for(host) is Some <==> exists|i: int|
            0 <= i < sel.groups.len() && selector::accepts(
                (#[trigger] sel.groups[i]).def,
                selector::normalized(host),
            ),
{
    search::lemma_first_index(sel.groups, selector::accepting(selector::normalized(host)));
}

proof fn lemma_trim_end_again(s: Seq<char>)
    ensures
        text::trim_end(text::trim_end(s, text::only('.')), text::only('.')) == text::trim_end(
            s,
            text::only('.'),
        ),
    decreases s.len(),
{
    if s.len() > 0 && s.last() == '.' {
        lemma_trim_end_again(s.drop_last());
    }
}

/// The host that a `Host` header names is written as the selector compares hosts: not
/// empty, in lower case, without a dot at its end; nor does it begin with a bracket.
pub proof fn named_hosts_are_normalized(uri: uri::UriView)
    ensures
        uri::lone_host(uri) matches Some(host) ==> {
            &&& host.len() > 0
            &&& selector::normalized(host) == host
            &&& text::lower(host) == host
            &&& host.last() != '.'
            &&& host.first() != '['
        },
{
    if let Some(host) = uri.host {
        let inner = text::trim_end(text::trim_start(host, text::only('[')), text::only(']'));
        lemma_lower_before_trim(text::trim_end(inner, text::only('.')));
        lemma_trim_end_again(inner);
        lemma_lower_again(text::trim_end(inner, text::only('.')));
        let start = text::trim_start(host, text::only('['));
        text::lemma_trim_start(host, text::only('['));
        text::lemma_trim_end(start, text::only(']'));
        text::lemma_trim_end(inner, text::only('.'));
    }
}

proof fn lemma_trim_end_of_tail(head: Seq<char>, tail: Seq<char>)
    requires
        text::trim_end(tail, text::only('.')).len() > 0,
    ensures
        text::trim_end(head + tail, text::only('.')) == head + text::trim_end(
            tail,
            text::only('.'),
        ),
    decreases tail.len(),
{
    if tail.last() == '.' {
        assert((head + tail).drop_last() =~= head + tail.drop_last());
        lemma_trim_end_of_tail(head, tail.drop_last());
    }
}

/// A name under a managed host is managed too.
pub proof fn subdomains_are_managed(sel: SelectorView, label: Seq<char>, host: Seq<char>)
    requires
        sel.host_for(host) is Some,
        selector::normalized(host).len() > 0,
    ensures
        sel.host_for(label + seq!['.'] + host) is Some,
{
    let wanted = selector::normalized(host);
    let longer = selector::normalized(label + seq!['.'] + host);
    let head = label + seq!['.'];
    lemma_trim_end_of_tail(head, host);
    assert(longer =~= text::lower(label) + seq!['.'] + wanted);
    managed_means_listed(sel, host);
    managed_means_listed(sel, label + seq!['.'] + host);
    let i = choose|i: int|
        0 <= i < sel.groups.len() && selector::accepts((#[trigger] sel.groups[i]).def, wanted);
    let def = sel.groups[i].def;
    let k = choose|k: int|
        0 <= k < def.domain_map.len() && selector::under_domain(
            wanted,
            (#[trigger] def.domain_map[k]).0,
        );
    let domain = selector::normalized(def.domain_map[k].0);
    let dotted = seq!['.'] + domain;
    if wanted == domain {
        assert(longer.skip(longer.len() - dotted.len()) =~= dotted);
    } else {
        assert(longer.skip(longer.len() - dotted.len()) =~= wanted.skip(
            wanted.len() - dotted.len(),
        ));
    }
    assert(selector::under_domain(longer, def.domain_map[k].0));
    assert(selector::accepts(def, longer));
}

/// The group pairs `upstream` with a domain that takes the normalized `host`.
pub open spec fn pairs_with(def: HostDefView, host: Seq<char>, upstream: Seq<char>) -> bool {
    exists|k: int|
        0 <= k < def.domain_map.len() && selector::under_domain(
            host,
            (#[trigger] def.domain_map[k]).0,
        ) && def.domain_map[k].1 == upstream
}

/// A managed host has an upstream host, one that its group pairs with a domain that
/// takes the host, and it has a port; a host that is not managed has no upstream host.
pub proof fn managed_hosts_have_upstreams(sel: SelectorView, host: Seq<char>)
    ensures
        sel.host_for(host) is Some <==> sel.upstream_host_for(host) is Some,
        sel.host_for(host) is Some ==> pairs_with(
            sel.host_for(host)->0,
            selector::normalized(host),
            sel.upstream_host_for(host)->0,
        ),
        sel.host_for(host) is Some ==> sel.upstream_port(host) is Some,
{
    let wanted = selector::normalized(host);
    search::lemma_first_index(sel.groups, selector::accepting(wanted));
    search::lemma_first_index(sel.groups, selector::answering(wanted));
    match sel.group_for(host) {
        Some(i) => {
            let def = sel.groups[i].def;
            assert(selector::accepting(wanted)(sel.groups[i]));
            assert(selector::accepts(def, wanted));
            assert(selector::answering(wanted)(sel.groups[i]));
            search::lemma_first_index(def.domain_map, selector::taking(wanted));
            let k = choose|k: int|
                0 <= k < def.domain_map.len() && selector::under_domain(
                    wanted,
                    (#[trigger] def.domain_map[k]).0,
                );
            assert(selector::taking(wanted)(def.domain_map[k]));
            let first = search::first_index(def.domain_map, selector::taking(wanted))->0;
            assert(selector::taking(wanted)(def.domain_map[first]));
            assert(selector::under_domain(wanted, def.domain_map[first].0));
            assert(pairs_with(def, wanted, def.domain_map[first].1));
        },
        None => {},
    }
}

/// A request for a host that is not managed is answered with 404, one for a managed host
/// never is.
pub proof fn not_found_means_unmanaged(sel: SelectorView, named: Seq<char>)
    ensures
        match proxy::admission(sel, Some(named)) {
            Ok(route) => sel.host_for(named) is Some && route.host == named,
            Err(reply) => sel.host_for(named) is None && reply.status == 404,
        },
{
    managed_hosts_have_upstreams(sel, named);
}

/// No address is looked up for a host that is not managed.
pub proof fn unmanaged_hosts_are_not_resolved(
    sel: SelectorView,
    host: Seq<char>,
    port: u16,
    now: u64,
)
    requires
        sel.host_for(host) is None,
    ensures
        sel.resolved(None, host, port, now) is None,
{
}

// ---------------------------------------------------------------------------
// The best candidate
// ---------------------------------------------------------------------------

/// The best of the first `n` candidates, if one of them may be chosen.
proof fn find_best(cands: Seq<CandidateState>, now: u64, penalty: u64, n: int) -> (r: Option<int>)
    requires
        0 <= n <= cands.len(),
    ensures
        match r {
            Some(i) => {
                &&& 0 <= i < n
                &&& candidate::eligible(cands, now, penalty, i)
                &&& forall|j: int|
                    0 <= j < n && candidate::eligible(cands, now, penalty, j) ==> {
                        &&& !candidate::score(#[trigger] cands[j], now, penalty).above(
                            candidate::score(cands[i], now, penalty),
                        )
                        &&& i < j ==> candidate::score(cands[i], now, penalty).above(
                            candidate::score(cands[j], now, penalty),
                        )
                    }
            },
            None => forall|j: int|
                0 <= j < n ==> !#[trigger] candidate::eligible(cands, now, penalty, j),
        },
    decreases n,
{
    if n == 0 {
        None
    } else {
        let before = find_best(cands, now, penalty, n - 1);
        if !candidate::eligible(cands, now, penalty, n - 1) {
            before
        } else {
            match before {
                None => Some(n - 1),
                Some(i) => if candidate::score(cands[i], now, penalty).above(
                    candidate::score(cands[n - 1], now, penalty),
                ) {
                    Some(i)
                } else {
                    Some(n - 1)
                },
            }
        }
    }
}

/// Among candidates there is a best one, and `best` is its address.
proof fn lemma_best_exists(cands: Seq<CandidateState>, now: u64, penalty: u64) -> (i: int)
    requires
        cands.len() > 0,
    ensures
        candidate::is_best(cands, now, penalty, i),
        candidate::best(cands, now, penalty) == Some(cands[i].ip),
{
    let found = find_best(cands, now, penalty, cands.len() as int);
    if found is None {
        if exists|j: int|
            0 <= j < cands.len() && candidate::healthy(#[trigger] cands[j], now, penalty) {
            let j = choose|j: int|
                0 <= j < cands.len() && candidate::healthy(#[trigger] cands[j], now, penalty);
            assert(candidate::eligible(cands, now, penalty, j));
        } else {
            assert(candidate::eligible(cands, now, penalty, 0));
        }
    }
    let i = found->0;
    candidate::lemma_best_is(cands, now, penalty, i);
    i
}

/// Where there are candidates one is chosen: a healthy one where there is one, and of
/// those none with a higher score.
pub proof fn the_best_healthy_candidate_is_chosen(
    cands: Seq<CandidateState>,
    now: u64,
    penalty: u64,
)
    requires
        cands.len() > 0,
    ensures
        exists|i: int|
            {
                &&& 0 <= i < cands.len()
                &&& candidate::best(cands, now, penalty) == Some((#[trigger] cands[i]).ip)
                &&& forall|j: int|
                    0 <= j < cands.len() && candidate::healthy(#[trigger] cands[j], now, penalty)
                        ==> candidate::healthy(cands[i], now, penalty) && !candidate::score(
                        cands[j],
                        now,
                        penalty,
                    ).above(candidate::score(cands[i], now, penalty))
            },
{
    let i = lemma_best_exists(cands, now, penalty);
    assert forall|j: int|
        0 <= j < cands.len() && candidate::healthy(
            #[trigger] cands[j],
            now,
            penalty,
        ) implies candidate::healthy(cands[i], now, penalty) && !candidate::score(
        cands[j],
        now,
        penalty,
    ).above(candidate::score(cands[i], now, penalty)) by {
        assert(candidate::eligible(cands, now, penalty, j));
    }
}

/// The first candidate is faster than the second, or equally fast and nearer.
pub open spec fn faster_or_nearer(a: CandidateState, b: CandidateState) -> bool {
    ||| candidate::or_zero(a.speed_mkbps) > candidate::or_zero(b.speed_mkbps)
    ||| candidate::or_zero(a.speed_mkbps) == candidate::or_zero(b.speed_mkbps)
        && candidate::or_zero(a.latency_ms) < candidate::or_zero(b.latency_ms)
}

/// Of two candidates that are not down the faster one scores higher, whatever the
/// latencies, and of two equally fast ones the nearer; one that is down scores lowest. A
/// healthy candidate is never the best while a healthy one is faster, or equally fast and
/// nearer.
pub proof fn speed_counts_first_and_latency_breaks_ties(
    cands: Seq<CandidateState>,
    now: u64,
    penalty: u64,
    i: int,
    j: int,
)
    requires
        0 <= i < cands.len(),
        0 <= j < cands.len(),
    ensures
        ({
            let up_i = !candidate::is_down(cands[i], now, penalty);
            let up_j = !candidate::is_down(cands[j], now, penalty);
            let above = candidate::score(cands[i], now, penalty).above(
                candidate::score(cands[j], now, penalty),
            );
            &&& up_i && up_j ==> above == faster_or_nearer(cands[i], cands[j])
            &&& up_i && !up_j ==> above
            &&& !up_i ==> !above
        }),
        candidate::healthy(cands[i], now, penalty) && candidate::healthy(cands[j], now, penalty)
            && faster_or_nearer(cands[i], cands[j]) ==> !candidate::is_best(cands, now, penalty, j),
{
    if candidate::healthy(cands[i], now, penalty) {
        assert(candidate::eligible(cands, now, penalty, i));
    }
}

/// Every address occurs once among the candidates.
pub open spec fn distinct_addresses(cands: Seq<CandidateState>) -> bool {
    candidate::addresses(cands).no_duplicates()
}

/// A candidate that failed is passed over until the penalty is over, as long as another
/// one is healthy.
pub proof fn failed_candidates_are_passed_over(
    sel: SelectorView,
    host: Seq<char>,
    ip: Ip,
    failed: u64,
    now: u64,
    other: int,
)
    requires
        sel.group_named(host) is Some,
        ({
            let cands = sel.groups[sel.group_named(host)->0].candidates;
            &&& distinct_addresses(cands)
            &&& 0 <= other < cands.len()
            &&& cands[other].ip != ip
            &&& candidate::healthy(cands[other], now, sel.failure_penalty)
        }),
        clock::elapsed(now as int, failed as int) <= sel.failure_penalty,
    ensures
        sel.updated(host, ip, None, None, false, failed).best_ip(host, now) != Some(ip),
{
    let g = sel.group_named(host)->0;
    let cands = sel.groups[g].candidates;
    let after = sel.updated(host, ip, None, None, false, failed);
    search::lemma_first_index(sel.groups, selector::answering(selector::normalized(host)));
    update_keeps_definitions(sel, host, ip, None, None, false, failed);
    lemma_same_groups(sel, after, host);
    let left = after.groups[g].candidates;
    search::lemma_first_index(cands, candidate::at_address(ip));
    match search::first_index(cands, candidate::at_address(ip)) {
        Some(k) => {
            assert(candidate::at_address(ip)(cands[k]));
            assert(left == cands.update(k, candidate::measured(cands[k], None, None, false, failed)));
            assert(left[other] == cands[other]);
            let i = lemma_best_exists(left, now, sel.failure_penalty);
            assert(candidate::eligible(left, now, sel.failure_penalty, i));
            assert(candidate::healthy(left[other], now, sel.failure_penalty));
            assert(candidate::healthy(left[i], now, sel.failure_penalty));
            assert(i != k);
            assert(candidate::addresses(cands)[i] == cands[i].ip);
            assert(candidate::addresses(cands)[k] == cands[k].ip);
        },
        None => {
            let i = lemma_best_exists(left, now, sel.failure_penalty);
            assert(!candidate::at_address(ip)(cands[i]));
        },
    }
}

// ---------------------------------------------------------------------------
// Updates and pins
// ---------------------------------------------------------------------------

/// The two selectors have the same definitions.
pub open spec fn same_definitions(a: SelectorView, b: SelectorView) -> bool {
    &&& a.groups.len() == b.groups.len()
    &&& forall|i: int| 0 <= i < a.groups.len() ==> (#[trigger] a.groups[i]).def == b.groups[i].def
    &&& a.failure_penalty == b.failure_penalty
}

/// Which group a host belongs to depends on the definitions alone.
proof fn lemma_same_groups(a: SelectorView, b: SelectorView, host: Seq<char>)
    requires
        same_definitions(a, b),
    ensures
        a.group_named(host) == b.group_named(host),
        a.group_for(host) == b.group_for(host),
{
    let wanted = selector::normalized(host);
    lemma_same_first(a.groups, b.groups, selector::answering(wanted));
    lemma_same_first(a.groups, b.groups, selector::accepting(wanted));
}

proof fn lemma_same_first(a: Seq<GroupView>, b: Seq<GroupView>, p: spec_fn(GroupView) -> bool)
    requires
        a.len() == b.len(),
        forall|i: int| 0 <= i < a.len() ==> p(#[trigger] a[i]) == p(b[i]),
    ensures
        search::first_index(a, p) == search::first_index(b, p),
    decreases a.len(),
{
    if a.len() > 0 {
        assert forall|i: int| 0 <= i < a.drop_last().len() implies p(#[trigger] a.drop_last()[i])
            == p(b.drop_last()[i]) by {
            assert(p(a[i]) == p(b[i]));
        }
        lemma_same_first(a.drop_last(), b.drop_last(), p);
        assert(p(a[a.len() - 1]) == p(b[a.len() - 1]));
    }
}

/// A measurement changes no definition and no pin, and which candidates there are it does
/// not change either.
pub proof fn update_keeps_definitions(
    sel: SelectorView,
    host: Seq<char>,
    ip: Ip,
    latency_ms: Option<u64>,
    speed_mkbps: Option<u64>,
    success: bool,
    now: u64,
)
    ensures
        ({
            let after = sel.updated(host, ip, latency_ms, speed_mkbps, success, now);
            &&& same_definitions(sel, after)
            &&& forall|i: int|
                0 <= i < sel.groups.len() ==> (#[trigger] sel.groups[i]).pinned_ip
                    == after.groups[i].pinned_ip && candidate::addresses(sel.groups[i].candidates)
                    == candidate::addresses(after.groups[i].candidates)
        }),
{
    let after = sel.updated(host, ip, latency_ms, speed_mkbps, success, now);
    search::lemma_first_index(sel.groups, selector::answering(selector::normalized(host)));
    match sel.group_named(host) {
        Some(g) => {
            let cands = sel.groups[g].candidates;
            search::lemma_first_index(cands, candidate::at_address(ip));
            assert(candidate::addresses(cands) =~= candidate::addresses(after.groups[g].candidates));
        },
        None => {},
    }
}

/// A measurement changes one candidate at most: the one at its address, in the group that
/// answers to the host.
pub proof fn update_touches_one_candidate(
    sel: SelectorView,
    host: Seq<char>,
    ip: Ip,
    latency_ms: Option<u64>,
    speed_mkbps: Option<u64>,
    success: bool,
    now: u64,
    i: int,
    k: int,
)
    requires
        0 <= i < sel.groups.len(),
        0 <= k < sel.groups[i].candidates.len(),
        sel.group_named(host) != Some(i) || sel.groups[i].candidates[k].ip != ip,
    ensures
        sel.updated(host, ip, latency_ms, speed_mkbps, success, now).groups[i].candidates[k]
            == sel.groups[i].candidates[k],
        sel.group_named(host) != Some(i) ==> sel.updated(
            host,
            ip,
            latency_ms,
            speed_mkbps,
            success,
            now,
        ).groups[i] == sel.groups[i],
{
    search::lemma_first_index(sel.groups, selector::answering(selector::normalized(host)));
    match sel.group_named(host) {
        Some(g) => {
            search::lemma_first_index(sel.groups[g].candidates, candidate::at_address(ip));
            match search::first_index(sel.groups[g].candidates, candidate::at_address(ip)) {
                Some(m) => {
                    assert(candidate::at_address(ip)(sel.groups[g].candidates[m]));
                },
                None => {},
            }
        },
        None => {},
    }
}

/// A pinned group uses its pin and nothing else, at all times; the other groups are as
/// they were.
pub proof fn pinned_groups_use_their_pin(sel: SelectorView, name: Seq<char>, ip: Ip, now: u64)
    requires
        sel.group_named(name) is Some,
    ensures
        sel.pinned(name, Some(ip)) is Ok,
        ({
            let g = sel.group_named(name)->0;
            let after = sel.pinned(name, Some(ip))->Ok_0;
            &&& same_definitions(sel, after)
            &&& after.best_ip(name, now) == Some(ip)
            &&& after.groups[g].pinned_ip == Some(ip)
            &&& after.defs()[g].ips == seq![ip]
            &&& forall|i: int|
                0 <= i < sel.groups.len() && i != g ==> after.groups[i] == #[trigger] sel.groups[i]
        }),
{
    let g = sel.group_named(name)->0;
    let after = sel.pinned(name, Some(ip))->Ok_0;
    search::lemma_first_index(sel.groups, selector::answering(selector::normalized(name)));
    assert(same_definitions(sel, after));
    lemma_same_groups(sel, after, name);
    let i = lemma_best_exists(after.groups[g].candidates, now, sel.failure_penalty);
    assert(after.defs()[g].ips =~= seq![ip]);
}

/// Lifting a pin gives the group its bundled candidates back, of which nothing is known;
/// what happened to the group before does not matter.
pub proof fn restored_groups_use_bundled_addresses(sel: SelectorView, name: Seq<char>, ip: Ip)
    requires
        sel.group_named(name) is Some,
        sel.groups[sel.group_named(name)->0].def.ips.len() > 0,
    ensures
        sel.pinned(name, None) is Ok,
        ({
            let g = sel.group_named(name)->0;
            let after = sel.pinned(name, None)->Ok_0;
            &&& same_definitions(sel, after)
            &&& after.groups[g] == selector::new_group(sel.groups[g].def)
            &&& after.defs()[g] == sel.groups[g].def
            &&& sel.pinned(name, Some(ip))->Ok_0.pinned(name, None) == sel.pinned(name, None)
        }),
{
    let g = sel.group_named(name)->0;
    let after = sel.pinned(name, None)->Ok_0;
    search::lemma_first_index(sel.groups, selector::answering(selector::normalized(name)));
    assert(same_definitions(sel, after));
    assert(after.defs()[g].ips =~= sel.groups[g].def.ips);
    let pinned = sel.pinned(name, Some(ip))->Ok_0;
    assert(same_definitions(sel, pinned));
    lemma_same_groups(sel, pinned, name);
    assert(pinned.pinned(name, None)->Ok_0.groups =~= after.groups);
}

/// The selector after results of a pass came in, in the order in which they came.
pub open spec fn learnt(
    sel: SelectorView,
    results: Seq<(pass::TaskView, pass::MeasureResult, u64)>,
) -> SelectorView
    decreases results.len(),
{
    if results.len() == 0 {
        sel
    } else {
        let (task, result, now) = results.last();
        learnt(sel, results.drop_last()).updated(
            task.name,
            task.ip,
            result.latency_ms,
            result.speed_mkbps,
            result.success,
            now,
        )
    }
}

proof fn lemma_learnt_in_one_group(
    sel: SelectorView,
    name: Seq<char>,
    g: int,
    results: Seq<(pass::TaskView, pass::MeasureResult, u64)>,
)
    requires
        sel.group_named(name) == Some(g),
        forall|r: int| 0 <= r < results.len() ==> (#[trigger] results[r]).0.name == name,
    ensures
        same_definitions(sel, learnt(sel, results)),
        forall|i: int|
            0 <= i < sel.groups.len() && i != g ==> learnt(sel, results).groups[i]
                == #[trigger] sel.groups[i],
    decreases results.len(),
{
    if results.len() > 0 {
        let before = results.drop_last();
        assert forall|r: int| 0 <= r < before.len() implies (#[trigger] before[r]).0.name
            == name by {
            assert(results[r].0.name == name);
        }
        lemma_learnt_in_one_group(sel, name, g, before);
        let mid = learnt(sel, before);
        let (task, result, now) = results.last();
        assert(results[results.len() - 1].0.name == name);
        lemma_same_groups(sel, mid, name);
        update_keeps_definitions(
            mid,
            name,
            task.ip,
            result.latency_ms,
            result.speed_mkbps,
            result.success,
            now,
        );
        search::lemma_first_index(mid.groups, selector::answering(selector::normalized(name)));
        search::lemma_first_index(mid.groups[g].candidates, candidate::at_address(task.ip));
    }
}

/// A pass over a URL measures only the group that owns the URL's host, and fetches that
/// URL; and where that group answers to its own name, the results touch no other group.
pub proof fn url_passes_touch_their_group_only(
    sel: SelectorView,
    raw: Seq<char>,
    results: Seq<(pass::TaskView, pass::MeasureResult, u64)>,
)
    requires
        pass::pass_tasks(sel, Some(raw)) is Ok,
        forall|r: int|
            0 <= r < results.len() ==> pass::pass_tasks(sel, Some(raw))->Ok_0.contains(
                (#[trigger] results[r]).0,
            ),
    ensures
        ({
            let g = sel.group_for(uri::uri_parse(raw)->Ok_0.host->0)->0;
            &&& forall|t: int|
                0 <= t < pass::pass_tasks(sel, Some(raw))->Ok_0.len() ==> {
                    &&& (#[trigger] pass::pass_tasks(sel, Some(raw))->Ok_0[t]).name
                        == sel.groups[g].def.name
                    &&& pass::pass_tasks(sel, Some(raw))->Ok_0[t].url == raw
                }
            &&& sel.group_named(sel.groups[g].def.name) == Some(g) ==> forall|i: int|
                0 <= i < sel.groups.len() && i != g ==> learnt(sel, results).groups[i]
                    == #[trigger] sel.groups[i]
        }),
{
    let parsed = uri::uri_parse(raw)->Ok_0;
    let targets = pass::targets(sel, Some(raw))->Ok_0;
    let given = Some((raw, parsed));
    let g = sel.group_for(parsed.host->0)->0;
    let name = sel.groups[g].def.name;
    let tasks = pass::pass_tasks(sel, Some(raw))->Ok_0;
    assert(targets.defs.drop_last() =~= Seq::<HostDefView>::empty());
    assert(pass::tasks_of_all(targets.defs.drop_last(), given) =~= Seq::<
        pass::TaskView,
    >::empty());
    assert(tasks =~= pass::tasks_of(targets.defs.last(), given));
    if sel.group_named(name) == Some(g) {
        assert forall|r: int| 0 <= r < results.len() implies (#[trigger] results[r]).0.name
            == name by {
            let t = choose|t: int| 0 <= t < tasks.len() && tasks[t] == results[r].0;
            assert(tasks[t].name == name);
        }
        lemma_learnt_in_one_group(sel, name, g, results);
    }
}

// ---------------------------------------------------------------------------
// Header fields
// ---------------------------------------------------------------------------

/// Fields that belong to one connection pass neither to the upstream nor back: the
/// hop-by-hop ones, and, but for the two that carry the client address, those that a
/// `Connection` field lists.
pub proof fn connection_fields_do_not_pass(
    fields: Map<Seq<char>, Seq<Seq<u8>>>,
    method: Seq<char>,
    client_ip: Seq<char>,
    name: Seq<char>,
)
    requires
        headers::stripped(name, headers::connection_fields(fields)),
    ensures
        !headers::returned(fields).contains_key(name),
        name != "x-forwarded-for"@ && name != "x-real-ip"@ ==> !headers::forwarded(
            fields,
            method,
            client_ip,
        ).contains_key(name),
{
}

/// The two fields that carry the client address are not hop-by-hop.
proof fn lemma_address_fields_pass()
    ensures
        !headers::hop_by_hop("x-forwarded-for"@),
        !headers::hop_by_hop("x-real-ip"@),
        "x-forwarded-for"@ != "host"@,
        "x-real-ip"@ != "host"@,
{
    reveal_strlit("x-forwarded-for");
    reveal_strlit("x-real-ip");
    reveal_strlit("connection");
    reveal_strlit("keep-alive");
    reveal_strlit("proxy-authenticate");
    reveal_strlit("proxy-authorization");
    reveal_strlit("proxy-connection");
    reveal_strlit("te");
    reveal_strlit("trailer");
    reveal_strlit("transfer-encoding");
    reveal_strlit("upgrade");
    reveal_strlit("host");
    assert(text::lower("x-forwarded-for"@) =~= "x-forwarded-for"@);
    assert(text::lower("x-real-ip"@) =~= "x-real-ip"@);
    assert("x-real-ip"@[0] == 'x');
    assert("x-forwarded-for"@[0] == 'x');
}

/// No hop-by-hop field reaches the upstream, nor does the client's `Host`; and the client
/// address there is the one that the proxy saw, whatever the client sent.
pub proof fn upstream_sees_the_clients_address(
    fields: Map<Seq<char>, Seq<Seq<u8>>>,
    method: Seq<char>,
    client_ip: Seq<char>,
)
    ensures
        forall|name: Seq<char>| #[trigger]
            headers::hop_by_hop(name) ==> !headers::forwarded(
                fields,
                method,
                client_ip,
            ).contains_key(name),
        !headers::forwarded(fields, method, client_ip).contains_key("host"@),
        headers::forwarded(fields, method, client_ip)["x-forwarded-for"@] == seq![
            headers::address_value(client_ip),
        ],
        headers::forwarded(fields, method, client_ip)["x-real-ip"@] == seq![
            headers::address_value(client_ip),
        ],
{
    lemma_address_fields_pass();
}

/// Every other field passes: a request field with its last value, a reply field with all
/// its values.
pub proof fn other_fields_pass(
    fields: Map<Seq<char>, Seq<Seq<u8>>>,
    method: Seq<char>,
    client_ip: Seq<char>,
    name: Seq<char>,
)
    requires
        fields.contains_key(name),
        !headers::stripped(name, headers::connection_fields(fields)),
    ensures
        headers::returned(fields).contains_key(name),
        headers::returned(fields)[name] == fields[name],
        headers::forwardable(name, method, headers::connection_fields(fields)) && name
            != "x-forwarded-for"@ && name != "x-real-ip"@ ==> headers::forwarded(
            fields,
            method,
            client_ip,
        ).contains_key(name) && headers::forwarded(fields, method, client_ip)[name] == seq![
            fields[name].last(),
        ],
{
}

// ---------------------------------------------------------------------------
// Attempts
// ---------------------------------------------------------------------------

/// How many attempts a request makes that is not through, if they come out as listed.
pub open spec fn attempts_made(x: proxy::ExchangeView, sel: SelectorView, outcomes: Seq<
    (u64, proxy::AttemptView),
>) -> nat
    decreases outcomes.len(),
{
    if outcomes.len() == 0 {
        0
    } else {
        let (now, attempt) = outcomes.first();
        let trying = x.attempting(sel, now);
        1 + if trying.next(attempt) is Again {
            attempts_made(
                trying.after(attempt),
                trying.taught(sel, attempt, now),
                outcomes.drop_first(),
            )
        } else {
            0
        }
    }
}

/// A request that is safe to repeat is tried three times at most, any other once, however
/// the attempts come out.
pub proof fn attempts_are_bounded(x: proxy::ExchangeView, sel: SelectorView, outcomes: Seq<
    (u64, proxy::AttemptView),
>)
    requires
        x.attempts < proxy::max_attempts(x.method),
    ensures
        x.attempts + attempts_made(x, sel, outcomes) <= proxy::max_attempts(x.method),
    decreases outcomes.len(),
{
    if outcomes.len() > 0 {
        let (now, attempt) = outcomes.first();
        let trying = x.attempting(sel, now);
        if trying.next(attempt) is Again {
            attempts_are_bounded(
                trying.after(attempt),
                trying.taught(sel, attempt, now),
                outcomes.drop_first(),
            );
        }
    }
}

/// An attempt that is made because the one before failed goes to another address, where
/// another healthy candidate is there and the penalty is not over.
pub proof fn retries_go_elsewhere(
    x: proxy::ExchangeView,
    sel: SelectorView,
    error: Seq<char>,
    failed: u64,
    now: u64,
    other: int,
)
    requires
        x.requested is Some,
        sel.group_named(x.host) is Some,
        ({
            let cands = sel.groups[sel.group_named(x.host)->0].candidates;
            &&& distinct_addresses(cands)
            &&& 0 <= other < cands.len()
            &&& Some(cands[other].ip) != x.requested
            &&& candidate::healthy(cands[other], now, sel.failure_penalty)
        }),
        clock::elapsed(now as int, failed as int) <= sel.failure_penalty,
    ensures
        ({
            let attempt = proxy::AttemptView::Failed(error);
            x.after(attempt).attempting(x.taught(sel, attempt, failed), now).requested
                != x.requested
        }),
{
    failed_candidates_are_passed_over(sel, x.host, x.requested->0, failed, now, other);
}

/// Whether the upstream answered or not, the client gets one answer, and the record shows
/// its status: that of the upstream, or 502.
pub proof fn clients_get_the_recorded_status(x: proxy::ExchangeView)
    ensures
        x.own_reply() is None <==> x.answer is Some,
        x.own_reply() is Some ==> x.own_reply()->0.status == x.account().meta.status,
        x.answer is Some ==> x.account().meta.status == x.answer->0.status,
{
}

} // verus!
