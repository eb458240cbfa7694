//! What holds of candidates and groups: which host belongs where, what measurements and
//! failures do, and which address comes first.
use vstd::prelude::*;

use crate::candidate::CandidateState;
use crate::candidate::Ip;
use crate::candidate;
use crate::laws::texts;
use crate::search;
use crate::selector::HostState;
use crate::selector::PinError;
use crate::selector::SelectorView;
use crate::selector::Target;
use crate::selector;
use crate::text;

verus! {

// ---------------------------------------------------------------------------
// Scores
// ---------------------------------------------------------------------------

/// A failure counts up to the end of the penalty: until then the candidate is not healthy,
/// and it is down if it is marked so.
pub proof fn failures_count_for_the_penalty(c: CandidateState, now: u64, penalty: u64)
    ensures
        candidate::healthy(c, now, penalty) <==> now > c.last_fail_ts + penalty,
        candidate::is_down(c, now, penalty) <==> c.down && now <= c.last_fail_ts + penalty,
{
}

/// The speed that a candidate is ranked by: none measured counts as none.
pub open spec fn speed_of(c: CandidateState) -> int {
    match c.speed_mkbps {
        Some(v) => v as int,
        None => 0,
    }
}

/// The latency that a candidate is ranked by: none measured counts as none.
pub open spec fn latency_of(c: CandidateState) -> int {
    match c.latency_ms {
        Some(v) => v as int,
        None => 0,
    }
}

/// The candidate is marked down and the penalty is not over.
pub open spec fn out_of_service(c: CandidateState, now: u64, penalty: u64) -> bool {
    c.down && now <= c.last_fail_ts + penalty
}

/// The first candidate ranks before the second: it is in service and the other is not, or
/// both are and it is faster, or equally fast and nearer.
pub open spec fn beats(a: CandidateState, b: CandidateState, now: u64, penalty: u64) -> bool {
    !out_of_service(a, now, penalty) && (out_of_service(b, now, penalty) || speed_of(a) > speed_of(
        b,
    ) || (speed_of(a) == speed_of(b) && latency_of(a) < latency_of(b)))
}

/// Scores compare as candidates do.
pub proof fn scores_compare_candidates(a: CandidateState, b: CandidateState, now: u64, penalty: u64)
    ensures
        candidate::score(a, now, penalty).above(candidate::score(b, now, penalty)) <==> beats(
            a,
            b,
            now,
            penalty,
        ),
        candidate::score(a, now, penalty) == candidate::score(b, now, penalty) <==> !beats(
            a,
            b,
            now,
            penalty,
        ) && !beats(b, a, now, penalty),
{
}

/// The penalty of the candidate's last failure is over.
pub open spec fn is_rested(c: CandidateState, now: u64, penalty: u64) -> bool {
    now > c.last_fail_ts + penalty
}

/// The candidate is one to choose from: its penalty is over, or nobody's is.
pub open spec fn in_pool(cands: Seq<CandidateState>, now: u64, penalty: u64, i: int) -> bool {
    is_rested(cands[i], now, penalty) || forall|j: int|
        0 <= j < cands.len() ==> !is_rested(#[trigger] cands[j], now, penalty)
}

/// The candidate is to choose from, none to choose from beats it, and none that comes
/// later equals it.
pub open spec fn wins(cands: Seq<CandidateState>, now: u64, penalty: u64, i: int) -> bool {
    &&& 0 <= i < cands.len()
    &&& in_pool(cands, now, penalty, i)
    &&& forall|j: int|
        0 <= j < cands.len() && in_pool(cands, now, penalty, j) ==> !beats(
            #[trigger] cands[j],
            cands[i],
            now,
            penalty,
        ) && (i < j ==> beats(cands[i], cands[j], now, penalty))
}

/// There is no best address only where there is no candidate; else it is that of the
/// candidate that wins.
pub proof fn the_winner_is_chosen(cands: Seq<CandidateState>, now: u64, penalty: u64)
    ensures
        cands.len() == 0 <==> candidate::best(cands, now, penalty) is None,
        cands.len() > 0 ==> exists|i: int| #[trigger]
            wins(cands, now, penalty, i) && candidate::best(cands, now, penalty) == Some(
                cands[i].ip,
            ),
        forall|i: int| #[trigger]
            wins(cands, now, penalty, i) ==> candidate::best(cands, now, penalty) == Some(
                cands[i].ip,
            ),
{
    assert forall|i: int| 0 <= i < cands.len() implies #[trigger] candidate::eligible(
        cands,
        now,
        penalty,
        i,
    ) == in_pool(cands, now, penalty, i) by {
        assert forall|j: int| 0 <= j < cands.len() implies candidate::healthy(
            #[trigger] cands[j],
            now,
            penalty,
        ) == is_rested(cands[j], now, penalty) by {
            failures_count_for_the_penalty(cands[j], now, penalty);
        }
    }
    assert forall|i: int| 0 <= i < cands.len() implies #[trigger] wins(cands, now, penalty, i)
        == candidate::is_best(cands, now, penalty, i) by {
        assert forall|j: int| 0 <= j < cands.len() implies beats(
            #[trigger] cands[j],
            cands[i],
            now,
            penalty,
        ) == candidate::score(cands[j], now, penalty).above(candidate::score(cands[i], now, penalty))
            && beats(cands[i], cands[j], now, penalty) == candidate::score(
            cands[i],
            now,
            penalty,
        ).above(candidate::score(cands[j], now, penalty)) by {
            scores_compare_candidates(cands[j], cands[i], now, penalty);
            scores_compare_candidates(cands[i], cands[j], now, penalty);
        }
        assert forall|j: int| 0 <= j < cands.len() implies candidate::eligible(
            cands,
            now,
            penalty,
            j,
        ) == #[trigger] in_pool(cands, now, penalty, j) by {}
    }
    if cands.len() > 0 {
        let i = super::lemma_best_exists(cands, now, penalty);
        assert(wins(cands, now, penalty, i));
    }
    assert forall|i: int| #[trigger] wins(cands, now, penalty, i) implies candidate::best(
        cands,
        now,
        penalty,
    ) == Some(cands[i].ip) by {
        candidate::lemma_best_is(cands, now, penalty, i);
    }
}

// ---------------------------------------------------------------------------
// Measurements and failures
// ---------------------------------------------------------------------------

/// The position of the first candidate at the address, in the group that answers to the
/// host.
pub open spec fn stands_at(sel: SelectorView, host: Seq<char>, ip: Ip, g: int, k: int) -> bool {
    &&& sel.group_named(host) == Some(g)
    &&& 0 <= g < sel.groups.len()
    &&& 0 <= k < sel.groups[g].candidates.len()
    &&& sel.groups[g].candidates[k].ip == ip
    &&& forall|j: int| 0 <= j < k ==> (#[trigger] sel.groups[g].candidates[j]).ip != ip
}

proof fn lemma_updated_at(
    sel: SelectorView,
    host: Seq<char>,
    ip: Ip,
    latency_ms: Option<u64>,
    speed_mkbps: Option<u64>,
    success: bool,
    now: u64,
    g: int,
    k: int,
)
    requires
        stands_at(sel, host, ip, g, k),
    ensures
        ({
            let after = sel.updated(host, ip, latency_ms, speed_mkbps, success, now);
            &&& after.groups.len() == sel.groups.len()
            &&& after.groups[g].candidates.len() == sel.groups[g].candidates.len()
            &&& after.groups[g].candidates[k] == candidate::measured(
                sel.groups[g].candidates[k],
                latency_ms,
                speed_mkbps,
                success,
                now,
            )
            &&& forall|j: int|
                0 <= j < sel.groups[g].candidates.len() && j != k
                    ==> #[trigger] after.groups[g].candidates[j] == sel.groups[g].candidates[j]
        }),
{
    search::lemma_first_is(sel.groups[g].candidates, candidate::at_address(ip), k);
}

/// A successful measurement replaces what was known: the speed and the latency that were
/// measured, whatever stood there before. What was not measured stays, failures are
/// forgotten, and the time of the last failure stays.
pub proof fn success_replaces_the_figures(
    sel: SelectorView,
    host: Seq<char>,
    ip: Ip,
    latency_ms: Option<u64>,
    speed_mkbps: Option<u64>,
    now: u64,
    g: int,
    k: int,
)
    requires
        stands_at(sel, host, ip, g, k),
    ensures
        ({
            let before = sel.groups[g].candidates[k];
            let after = sel.updated(
                host,
                ip,
                latency_ms,
                speed_mkbps,
                true,
                now,
            ).groups[g].candidates[k];
            &&& speed_mkbps is Some ==> after.speed_mkbps == speed_mkbps
            &&& speed_mkbps is None ==> after.speed_mkbps == before.speed_mkbps
            &&& latency_ms is Some ==> after.latency_ms == latency_ms
            &&& latency_ms is None ==> after.latency_ms == before.latency_ms
            &&& after.ip == ip
            &&& after.last_ok_ts == now
            &&& after.last_fail_ts == before.last_fail_ts
            &&& after.fails == 0
            &&& !after.down
        }),
{
    lemma_updated_at(sel, host, ip, latency_ms, speed_mkbps, true, now, g, k);
}

/// A failure is held against the candidate and leaves its figures: one more failure, as
/// far as can be counted, at this time, and the candidate is down until the penalty is
/// over, and down no longer.
pub proof fn failure_puts_the_candidate_down(
    sel: SelectorView,
    host: Seq<char>,
    ip: Ip,
    latency_ms: Option<u64>,
    speed_mkbps: Option<u64>,
    failed: u64,
    g: int,
    k: int,
    now: u64,
)
    requires
        stands_at(sel, host, ip, g, k),
        now >= failed,
    ensures
        ({
            let before = sel.groups[g].candidates[k];
            let after = sel.updated(
                host,
                ip,
                latency_ms,
                speed_mkbps,
                false,
                failed,
            ).groups[g].candidates[k];
            &&& after.speed_mkbps == before.speed_mkbps
            &&& after.latency_ms == before.latency_ms
            &&& after.ip == ip
            &&& after.last_ok_ts == before.last_ok_ts
            &&& after.last_fail_ts == failed
            &&& after.fails == if before.fails == u32::MAX {
                u32::MAX as int
            } else {
                before.fails + 1
            }
            &&& candidate::is_down(after, now, sel.failure_penalty) <==> now - failed
                <= sel.failure_penalty
            &&& candidate::healthy(after, now, sel.failure_penalty) <==> now - failed
                > sel.failure_penalty
        }),
{
    lemma_updated_at(sel, host, ip, latency_ms, speed_mkbps, false, failed, g, k);
}

/// A measurement of an address that is no candidate, or for a host that nobody answers to,
/// changes nothing.
pub proof fn strangers_are_not_measured(
    sel: SelectorView,
    host: Seq<char>,
    ip: Ip,
    latency_ms: Option<u64>,
    speed_mkbps: Option<u64>,
    success: bool,
    now: u64,
)
    requires
        forall|g: int, k: int| !#[trigger] stands_at(sel, host, ip, g, k),
    ensures
        sel.updated(host, ip, latency_ms, speed_mkbps, success, now) == sel,
{
    let wanted = selector::normalized(host);
    search::lemma_first_index(sel.groups, selector::answering(wanted));
    match sel.group_named(host) {
        Some(g) => {
            let cands = sel.groups[g].candidates;
            search::lemma_first_index(cands, candidate::at_address(ip));
            match search::first_index(cands, candidate::at_address(ip)) {
                Some(k) => {
                    assert(candidate::at_address(ip)(cands[k]));
                    assert forall|j: int| 0 <= j < k implies (
                    #[trigger] sel.groups[g].candidates[j]).ip != ip by {
                        assert(!candidate::at_address(ip)(cands[j]));
                    }
                    assert(stands_at(sel, host, ip, g, k));
                },
                None => {},
            }
        },
        None => {},
    }
}

/// Of two candidates whose penalties are over the one whose latest successful measurement
/// is slower is not chosen, whatever earlier measurements said.
pub proof fn the_latest_measurement_decides(
    sel: SelectorView,
    host: Seq<char>,
    fast: Ip,
    slow: Ip,
    fast_latency: Option<u64>,
    fast_speed: u64,
    slow_latency: Option<u64>,
    slow_speed: u64,
    first: u64,
    second: u64,
    now: u64,
    g: int,
    i: int,
    j: int,
)
    requires
        stands_at(sel, host, fast, g, i),
        stands_at(sel, host, slow, g, j),
        super::distinct_addresses(sel.groups[g].candidates),
        fast != slow,
        fast_speed > slow_speed,
        now > sel.groups[g].candidates[i].last_fail_ts + sel.failure_penalty,
        now > sel.groups[g].candidates[j].last_fail_ts + sel.failure_penalty,
    ensures
        sel.updated(host, fast, fast_latency, Some(fast_speed), true, first).updated(
            host,
            slow,
            slow_latency,
            Some(slow_speed),
            true,
            second,
        ).best_ip(host, now) != Some(slow),
        sel.updated(host, slow, slow_latency, Some(slow_speed), true, first).updated(
            host,
            fast,
            fast_latency,
            Some(fast_speed),
            true,
            second,
        ).best_ip(host, now) != Some(slow),
{
    lemma_latest_decides(
        sel,
        host,
        fast,
        slow,
        fast_latency,
        fast_speed,
        slow_latency,
        slow_speed,
        first,
        second,
        now,
        g,
        i,
        j,
        true,
    );
    lemma_latest_decides(
        sel,
        host,
        fast,
        slow,
        fast_latency,
        fast_speed,
        slow_latency,
        slow_speed,
        first,
        second,
        now,
        g,
        i,
        j,
        false,
    );
}

proof fn lemma_latest_decides(
    sel: SelectorView,
    host: Seq<char>,
    fast: Ip,
    slow: Ip,
    fast_latency: Option<u64>,
    fast_speed: u64,
    slow_latency: Option<u64>,
    slow_speed: u64,
    first: u64,
    second: u64,
    now: u64,
    g: int,
    i: int,
    j: int,
    fast_first: bool,
)
    requires
        stands_at(sel, host, fast, g, i),
        stands_at(sel, host, slow, g, j),
        super::distinct_addresses(sel.groups[g].candidates),
        fast != slow,
        fast_speed > slow_speed,
        now > sel.groups[g].candidates[i].last_fail_ts + sel.failure_penalty,
        now > sel.groups[g].candidates[j].last_fail_ts + sel.failure_penalty,
    ensures
        (if fast_first {
            sel.updated(host, fast, fast_latency, Some(fast_speed), true, first).updated(
                host,
                slow,
                slow_latency,
                Some(slow_speed),
                true,
                second,
            )
        } else {
            sel.updated(host, slow, slow_latency, Some(slow_speed), true, first).updated(
                host,
                fast,
                fast_latency,
                Some(fast_speed),
                true,
                second,
            )
        }).best_ip(host, now) != Some(slow),
{
    let (ip1, lat1, v1, k1) = if fast_first {
        (fast, fast_latency, fast_speed, i)
    } else {
        (slow, slow_latency, slow_speed, j)
    };
    let (ip2, lat2, v2, k2) = if fast_first {
        (slow, slow_latency, slow_speed, j)
    } else {
        (fast, fast_latency, fast_speed, i)
    };
    let mid = sel.updated(host, ip1, lat1, Some(v1), true, first);
    let end = mid.updated(host, ip2, lat2, Some(v2), true, second);
    super::update_keeps_definitions(sel, host, ip1, lat1, Some(v1), true, first);
    super::lemma_same_groups(sel, mid, host);
    success_replaces_the_figures(sel, host, ip1, lat1, Some(v1), first, g, k1);
    lemma_updated_at(sel, host, ip1, lat1, Some(v1), true, first, g, k1);
    let before = sel.groups[g].candidates;
    let half = mid.groups[g].candidates;
    assert forall|m: int| 0 <= m < before.len() implies (#[trigger] half[m]).ip == before[m].ip by {
        assert(candidate::addresses(half)[m] == candidate::addresses(before)[m]);
    }
    assert(stands_at(mid, host, ip2, g, k2)) by {
        assert forall|m: int| 0 <= m < k2 implies (#[trigger] mid.groups[g].candidates[m]).ip
            != ip2 by {
            assert(before[m].ip != ip2);
            assert(half[m].ip == before[m].ip);
        }
    }
    super::update_keeps_definitions(mid, host, ip2, lat2, Some(v2), true, second);
    super::lemma_same_groups(mid, end, host);
    success_replaces_the_figures(mid, host, ip2, lat2, Some(v2), second, g, k2);
    lemma_updated_at(mid, host, ip2, lat2, Some(v2), true, second, g, k2);
    let cands = end.groups[g].candidates;
    assert(k1 != k2);
    assert(cands[k1] == half[k1]);
    assert(is_rested(cands[i], now, sel.failure_penalty));
    assert(is_rested(cands[j], now, sel.failure_penalty));
    the_winner_is_chosen(cands, now, sel.failure_penalty);
    let w = choose|w: int| #[trigger]
        wins(cands, now, sel.failure_penalty, w) && candidate::best(
            cands,
            now,
            sel.failure_penalty,
        ) == Some(cands[w].ip);
    assert(in_pool(cands, now, sel.failure_penalty, i));
    assert(beats(cands[i], cands[j], now, sel.failure_penalty));
    assert(w != j);
    assert(candidate::addresses(before)[w] == candidate::addresses(half)[w]);
    assert(candidate::addresses(half)[w] == candidate::addresses(cands)[w]);
    assert(candidate::addresses(before)[j] == before[j].ip);
    assert(cands[w].ip == candidate::addresses(before)[w]);
}

/// Of a new candidate nothing is known, and there is one per address, in order.
pub proof fn new_candidates_are_unknown(ips: Seq<Ip>)
    ensures
        candidate::fresh(ips).len() == ips.len(),
        forall|i: int|
            0 <= i < ips.len() ==> {
                let c = #[trigger] candidate::fresh(ips)[i];
                &&& c.ip == ips[i]
                &&& c.latency_ms is None
                &&& c.speed_mkbps is None
                &&& c.last_ok_ts == 0
                &&& c.last_fail_ts == 0
                &&& c.fails == 0
                &&& !c.down
            },
{
}

// ---------------------------------------------------------------------------
// Hosts and groups
// ---------------------------------------------------------------------------

/// A host is compared without the dots at its end, all of them, and in lower case.
pub proof fn hosts_are_compared_without_trailing_dots(host: Seq<char>)
    ensures
        exists|n: int|
            {
                &&& 0 <= n <= host.len()
                &&& selector::normalized(host) == text::lower(#[trigger] host.take(n))
                &&& forall|i: int| n <= i < host.len() ==> #[trigger] host[i] == '.'
                &&& n > 0 ==> host[n - 1] != '.'
            },
{
    texts::trimming_one_character(host, '.');
}

/// The domain is that of the host, or one that the host lies under: something and a dot
/// stand before it.
pub open spec fn lists(domain: Seq<char>, host: Seq<char>) -> bool {
    ||| selector::normalized(host) == selector::normalized(domain)
    ||| exists|label: Seq<char>|
        selector::normalized(host) == #[trigger] (label + seq!['.']) + selector::normalized(domain)
}

/// A domain takes itself and what lies under it.
pub proof fn domains_take_what_lies_under_them(host: Seq<char>, domain: Seq<char>)
    ensures
        selector::under_domain(selector::normalized(host), domain) <==> lists(domain, host),
{
    let h = selector::normalized(host);
    let d = selector::normalized(domain);
    let dotted = seq!['.'] + d;
    texts::endings_can_be_completed(h, dotted);
    if text::has_suffix(h, dotted) {
        let head = choose|head: Seq<char>| h == #[trigger] (head + dotted);
        assert(head + dotted =~= (head + seq!['.']) + d);
        assert(h == (head + seq!['.']) + d);
    }
    if exists|label: Seq<char>| h == #[trigger] (label + seq!['.']) + d {
        let label = choose|label: Seq<char>| h == #[trigger] (label + seq!['.']) + d;
        assert((label + seq!['.']) + d =~= label + dotted);
        assert(h == label + dotted);
    }
}

/// The group lists the host at its pair `k`, and not before.
pub open spec fn lists_first(sel: SelectorView, host: Seq<char>, g: int, k: int) -> bool {
    &&& 0 <= g < sel.groups.len()
    &&& 0 <= k < sel.groups[g].def.domain_map.len()
    &&& lists(sel.groups[g].def.domain_map[k].0, host)
    &&& forall|m: int|
        0 <= m < k ==> !lists((#[trigger] sel.groups[g].def.domain_map[m]).0, host)
}

/// The first group that lists a host owns it, and the first pair there that takes the host
/// says which host to send to the CDN.
pub proof fn the_first_listing_decides(sel: SelectorView, host: Seq<char>)
    ensures
        sel.host_for(host) is None <==> forall|g: int, k: int|
            !#[trigger] lists_first(sel, host, g, k),
        sel.host_for(host) is Some ==> exists|g: int, k: int|
            {
                &&& #[trigger] lists_first(sel, host, g, k)
                &&& sel.host_for(host) == Some(sel.groups[g].def)
                &&& sel.upstream_host_for(host) == Some(sel.groups[g].def.domain_map[k].1)
                &&& forall|e: int, m: int|
                    #[trigger] lists_first(sel, host, e, m) ==> g <= e
            },
{
    let wanted = selector::normalized(host);
    search::lemma_first_index(sel.groups, selector::accepting(wanted));
    assert forall|g: int, k: int| #[trigger] lists_first(sel, host, g, k) implies (
    selector::accepting(wanted))(sel.groups[g]) by {
        domains_take_what_lies_under_them(host, sel.groups[g].def.domain_map[k].0);
        assert(selector::under_domain(wanted, sel.groups[g].def.domain_map[k].0));
        assert(selector::accepts(sel.groups[g].def, wanted));
    }
    match sel.group_for(host) {
        Some(g) => {
            let def = sel.groups[g].def;
            assert(selector::accepting(wanted)(sel.groups[g]));
            let some = choose|k: int|
                0 <= k < def.domain_map.len() && selector::under_domain(
                    wanted,
                    (#[trigger] def.domain_map[k]).0,
                );
            assert(selector::taking(wanted)(def.domain_map[some]));
            search::lemma_first_index(def.domain_map, selector::taking(wanted));
            let k = search::first_index(def.domain_map, selector::taking(wanted))->0;
            assert(selector::taking(wanted)(def.domain_map[k]));
            domains_take_what_lies_under_them(host, def.domain_map[k].0);
            assert forall|m: int| 0 <= m < k implies !lists(
                (#[trigger] sel.groups[g].def.domain_map[m]).0,
                host,
            ) by {
                assert(!selector::taking(wanted)(def.domain_map[m]));
                domains_take_what_lies_under_them(host, def.domain_map[m].0);
            }
            assert(lists_first(sel, host, g, k));
            assert forall|e: int, m: int| #[trigger] lists_first(sel, host, e, m) implies g
                <= e by {
                if e < g {
                    assert(!selector::accepting(wanted)(sel.groups[e]));
                }
            }
        },
        None => {
            assert forall|g: int, k: int| !#[trigger] lists_first(sel, host, g, k) by {
                if lists_first(sel, host, g, k) {
                    assert(!selector::accepting(wanted)(sel.groups[g]));
                }
            }
        },
    }
}

/// The group has the host for its name, in whatever case, or lists it.
pub open spec fn is_addressed(sel: SelectorView, host: Seq<char>, g: int) -> bool {
    &&& 0 <= g < sel.groups.len()
    &&& text::lower(sel.groups[g].def.name) == selector::normalized(host) || exists|k: int|
        0 <= k < sel.groups[g].def.domain_map.len() && lists(
            (#[trigger] sel.groups[g].def.domain_map[k]).0,
            host,
        )
}

/// The first group that is addressed by a name or a domain gives the best address and the
/// port; where none is, there is neither.
pub proof fn the_first_group_addressed_answers(sel: SelectorView, host: Seq<char>, now: u64)
    ensures
        (forall|g: int| !#[trigger] is_addressed(sel, host, g)) <==> sel.group_named(host) is None,
        sel.group_named(host) is None ==> sel.best_ip(host, now) is None && sel.upstream_port(
            host,
        ) is None,
        sel.group_named(host) matches Some(g) ==> {
            &&& is_addressed(sel, host, g)
            &&& forall|e: int| #[trigger] is_addressed(sel, host, e) ==> g <= e
            &&& sel.best_ip(host, now) == candidate::best(
                sel.groups[g].candidates,
                now,
                sel.failure_penalty,
            )
            &&& sel.upstream_port(host) == Some(sel.groups[g].def.upstream_port)
        },
{
    let wanted = selector::normalized(host);
    search::lemma_first_index(sel.groups, selector::answering(wanted));
    assert forall|g: int| 0 <= g < sel.groups.len() implies #[trigger] is_addressed(sel, host, g)
        == (selector::answering(wanted))(sel.groups[g]) by {
        let def = sel.groups[g].def;
        if exists|k: int| 0 <= k < def.domain_map.len() && lists((#[trigger] def.domain_map[k]).0, host) {
            let k = choose|k: int|
                0 <= k < def.domain_map.len() && lists((#[trigger] def.domain_map[k]).0, host);
            domains_take_what_lies_under_them(host, def.domain_map[k].0);
            assert(selector::accepts(def, wanted));
        }
        if selector::accepts(def, wanted) {
            let k = choose|k: int|
                0 <= k < def.domain_map.len() && selector::under_domain(
                    wanted,
                    (#[trigger] def.domain_map[k]).0,
                );
            domains_take_what_lies_under_them(host, def.domain_map[k].0);
            assert(lists(def.domain_map[k].0, host));
        }
    }
    match sel.group_named(host) {
        Some(g) => {
            assert(is_addressed(sel, host, g));
            assert forall|e: int| #[trigger] is_addressed(sel, host, e) implies g <= e by {
                if e < g {
                    assert(!(selector::answering(wanted))(sel.groups[e]));
                }
            }
        },
        None => {
            assert forall|g: int| !#[trigger] is_addressed(sel, host, g) by {
                if is_addressed(sel, host, g) {
                    assert(!(selector::answering(wanted))(sel.groups[g]));
                }
            }
        },
    }
}

/// An address that a request carries is used as it is, with the port that was asked for;
/// without one a managed host goes to its best address, at the port of its group, and
/// nothing else goes anywhere.
pub proof fn connections_go_to_candidates_only(
    sel: SelectorView,
    current: Option<Ip>,
    host: Seq<char>,
    port: u16,
    now: u64,
)
    ensures
        current matches Some(ip) ==> sel.resolved(current, host, port, now) == Some(
            Target { ip, port },
        ),
        current is None ==> {
            let target = sel.resolved(current, host, port, now);
            &&& target is Some <==> sel.host_for(host) is Some && sel.best_ip(host, now) is Some
            &&& target is Some ==> Some(target->0.ip) == sel.best_ip(host, now)
                && Some(target->0.port) == sel.upstream_port(host)
        },
{
    super::managed_hosts_have_upstreams(sel, host);
}

// ---------------------------------------------------------------------------
// Pins and what is shown
// ---------------------------------------------------------------------------

/// Pinning fails exactly where no group answers to the name, or where a pin is lifted off a
/// group that has no addresses of its own.
pub proof fn pins_are_refused_for_two_reasons(sel: SelectorView, name: Seq<char>, ip: Option<Ip>)
    ensures
        sel.pinned(name, ip) == Err::<SelectorView, PinError>(PinError::UnknownGroup)
            <==> sel.group_named(name) is None,
        sel.pinned(name, ip) == Err::<SelectorView, PinError>(PinError::NothingToRestore)
            <==> sel.group_named(name) is Some && ip is None && sel.groups[sel.group_named(
            name,
        )->0].def.ips.len() == 0,
{
}

/// A pin, or lifting one, starts its group afresh with the pinned address, or with the
/// group's own, and leaves all other groups and the definitions alone.
pub proof fn pins_start_their_group_afresh(sel: SelectorView, name: Seq<char>, ip: Option<Ip>)
    requires
        sel.pinned(name, ip) is Ok,
    ensures
        ({
            let after = sel.pinned(name, ip)->Ok_0;
            let g = sel.group_named(name)->0;
            let ips = match ip {
                Some(one) => seq![one],
                None => sel.groups[g].def.ips,
            };
            &&& 0 <= g < sel.groups.len()
            &&& after.groups.len() == sel.groups.len()
            &&& after.failure_penalty == sel.failure_penalty
            &&& after.groups[g].def == sel.groups[g].def
            &&& after.groups[g].pinned_ip == ip
            &&& after.groups[g].candidates.len() == ips.len()
            &&& forall|k: int|
                0 <= k < ips.len() ==> {
                    let c = #[trigger] after.groups[g].candidates[k];
                    &&& c.ip == ips[k]
                    &&& c.speed_mkbps is None
                    &&& c.latency_ms is None
                    &&& c.fails == 0
                    &&& c.last_fail_ts == 0
                    &&& c.last_ok_ts == 0
                    &&& !c.down
                }
            &&& forall|i: int|
                0 <= i < sel.groups.len() && i != g ==> after.groups[i] == #[trigger] sel.groups[i]
        }),
{
    search::lemma_first_index(sel.groups, selector::answering(selector::normalized(name)));
}

/// The definitions that are given out are those of the groups, with the addresses of the
/// candidates of the moment.
pub proof fn definitions_show_the_live_addresses(sel: SelectorView)
    ensures
        sel.defs().len() == sel.groups.len(),
        forall|i: int|
            0 <= i < sel.groups.len() ==> {
                let def = #[trigger] sel.defs()[i];
                let g = sel.groups[i];
                &&& def.name == g.def.name
                &&& def.domain_map == g.def.domain_map
                &&& def.upstream_port == g.def.upstream_port
                &&& def.test_url == g.def.test_url
                &&& def.ips.len() == g.candidates.len()
                &&& forall|k: int|
                    0 <= k < g.candidates.len() ==> #[trigger] def.ips[k] == g.candidates[k].ip
            },
{
}

/// A group starts with its own addresses as candidates, and without a pin.
pub proof fn groups_start_with_their_own_addresses(def: selector::HostDefView)
    ensures
        selector::new_group(def).def == def,
        selector::new_group(def).pinned_ip is None,
        selector::new_group(def).candidates.len() == def.ips.len(),
        forall|k: int|
            0 <= k < def.ips.len() ==> (#[trigger] selector::new_group(def).candidates[k]).ip
                == def.ips[k],
{
}

/// What is shown of a group is the group: its name, its client domains in order, its port,
/// its pin, and its candidates, each as often as it is there.
pub proof fn groups_are_shown_as_they_are(
    state: HostState,
    g: selector::GroupView,
    now: u64,
    penalty: u64,
)
    requires
        selector::describes(state, g, now, penalty),
    ensures
        state.name@ == g.def.name,
        state.upstream_port == g.def.upstream_port,
        state.pinned_ip == g.pinned_ip,
        state.domains.len() == g.def.domain_map.len(),
        forall|i: int|
            0 <= i < state.domains.len() ==> (#[trigger] state.domains@[i])@ == g.def.domain_map[i].0,
        state.candidates.len() == g.candidates.len(),
        forall|c: CandidateState|
            state.candidates@.to_multiset().count(c) == #[trigger] shown(
                g.candidates,
                now,
                penalty,
            ).to_multiset().count(c),
        forall|i: int, j: int|
            0 <= i < j < state.candidates.len() ==> !beats(
                #[trigger] state.candidates@[j],
                #[trigger] state.candidates@[i],
                now,
                penalty,
            ),
{
    broadcast use vstd::seq_lib::group_to_multiset_ensures;

    assert(candidate::all_refreshed(g.candidates, now, penalty) =~= shown(
        g.candidates,
        now,
        penalty,
    ));
    assert(text::texts(state.domains@).len() == selector::client_domains(g.def).len());
    assert(state.candidates@.to_multiset().len() == state.candidates@.len());
    assert(shown(g.candidates, now, penalty).to_multiset().len() == g.candidates.len());
    assert forall|i: int| 0 <= i < state.domains.len() implies (#[trigger] state.domains@[i])@
        == g.def.domain_map[i].0 by {
        assert(text::texts(state.domains@)[i] == selector::client_domains(g.def)[i]);
    }
    assert forall|i: int, j: int| 0 <= i < j < state.candidates.len() implies !beats(
        #[trigger] state.candidates@[j],
        #[trigger] state.candidates@[i],
        now,
        penalty,
    ) by {
        scores_compare_candidates(state.candidates@[j], state.candidates@[i], now, penalty);
    }
}

/// The candidates as they are shown: marked down only until the penalty is over.
pub open spec fn shown(cands: Seq<CandidateState>, now: u64, penalty: u64) -> Seq<CandidateState> {
    Seq::new(
        cands.len(),
        |i: int|
            CandidateState {
                ip: cands[i].ip,
                latency_ms: cands[i].latency_ms,
                speed_mkbps: cands[i].speed_mkbps,
                last_ok_ts: cands[i].last_ok_ts,
                last_fail_ts: cands[i].last_fail_ts,
                fails: cands[i].fails,
                down: out_of_service(cands[i], now, penalty),
            },
    )
}

/// Candidates that neither beats the other keep the order in which the group has them.
pub proof fn equal_candidates_keep_their_order(
    state: HostState,
    g: selector::GroupView,
    now: u64,
    penalty: u64,
    c: CandidateState,
)
    requires
        selector::describes(state, g, now, penalty),
    ensures
        state.candidates@.filter(|d: CandidateState| !beats(c, d, now, penalty) && !beats(
            d,
            c,
            now,
            penalty,
        )) == shown(g.candidates, now, penalty).filter(
            |d: CandidateState| !beats(c, d, now, penalty) && !beats(d, c, now, penalty),
        ),
{
    let even = |d: CandidateState| !beats(c, d, now, penalty) && !beats(d, c, now, penalty);
    let p = candidate::scoring(candidate::score(c, now, penalty), now, penalty);
    assert(p =~= even) by {
        assert forall|d: CandidateState| #[trigger] p(d) == even(d) by {
            scores_compare_candidates(c, d, now, penalty);
        }
    }
    assert(candidate::all_refreshed(g.candidates, now, penalty) =~= shown(
        g.candidates,
        now,
        penalty,
    ));
}

} // verus!
