//! Candidate addresses: their scores, the best one, their ranking and what a
//! measurement changes.

use vstd::prelude::*;
use crate::clock;
use crate::search;

verus! {

/// An IP address, as the number that its octets form.
#[derive(Clone, Copy, Debug, PartialEq, Eq, Structural)]
pub enum Ip {
    V4(u32),
    V6(u128),
}

/// What is known of one candidate address. Speeds are whole thousandths of a
/// kilobit per second.
#[derive(Clone, Copy, Debug)]
pub struct CandidateState {
    pub ip: Ip,
    pub latency_ms: Option<u64>,
    pub speed_mkbps: Option<u64>,
    pub last_ok_ts: u64,
    pub last_fail_ts: u64,
    pub fails: u32,
    pub down: bool,
}

/// How a candidate compares with others: by its speed and, at equal speed, by its
/// nearness, which is the latency below zero.
#[derive(Clone, Copy, Debug, PartialEq, Eq, PartialOrd, Ord, Structural)]
pub struct Score {
    pub speed: i128,
    pub nearness: i128,
}

impl Score {
    /// The score is higher: faster, or equally fast and nearer.
    pub open spec fn above(self, other: Score) -> bool {
        self.speed > other.speed || (self.speed == other.speed && self.nearness > other.nearness)
    }

    pub fn is_above(&self, other: &Score) -> (r: bool)
        ensures
            r == self.above(*other),
    {
        self.speed > other.speed || (self.speed == other.speed && self.nearness > other.nearness)
    }
}

/// The speed of a candidate that is down: below that of every other.
pub const DOWN_SPEED: i128 = -1;

/// An optional number that counts as zero where it is absent.
pub open spec fn or_zero(n: Option<u64>) -> int {
    match n {
        Some(v) => v as int,
        None => 0,
    }
}

/// The candidate is marked down and its last failure still counts.
pub open spec fn is_down(c: CandidateState, now: u64, penalty: u64) -> bool {
    c.down && clock::elapsed(now as int, c.last_fail_ts as int) <= penalty
}

/// The score of a candidate: download speed dominates, latency breaks ties. One that is
/// down scores below all others.
pub open spec fn score(c: CandidateState, now: u64, penalty: u64) -> Score {
    if is_down(c, now, penalty) {
        Score { speed: DOWN_SPEED, nearness: 0 }
    } else {
        Score {
            speed: or_zero(c.speed_mkbps) as i128,
            nearness: (0 - or_zero(c.latency_ms)) as i128,
        }
    }
}

/// The last failure lies further back than the penalty.
pub open spec fn healthy(c: CandidateState, now: u64, penalty: u64) -> bool {
    clock::elapsed(now as int, c.last_fail_ts as int) > penalty
}

/// The candidates to choose from: the healthy ones, or all where none is.
pub open spec fn eligible(cands: Seq<CandidateState>, now: u64, penalty: u64, i: int) -> bool {
    ||| healthy(cands[i], now, penalty)
    ||| forall|j: int| 0 <= j < cands.len() ==> !healthy(#[trigger] cands[j], now, penalty)
}

/// `i` is the best candidate: no eligible one scores higher, and no later one
/// as high.
pub open spec fn is_best(cands: Seq<CandidateState>, now: u64, penalty: u64, i: int) -> bool {
    &&& 0 <= i < cands.len()
    &&& eligible(cands, now, penalty, i)
    &&& forall|j: int|
        0 <= j < cands.len() && eligible(cands, now, penalty, j) ==> {
            &&& !score(#[trigger] cands[j], now, penalty).above(score(cands[i], now, penalty))
            &&& i < j ==> score(cands[i], now, penalty).above(score(cands[j], now, penalty))
        }
}

/// The address of the best candidate; absent where there is no candidate.
pub open spec fn best(cands: Seq<CandidateState>, now: u64, penalty: u64) -> Option<Ip> {
    if cands.len() == 0 {
        None
    } else {
        Some(cands[choose|i: int| is_best(cands, now, penalty, i)].ip)
    }
}

/// No two positions are the best: `best` names the address at any of them.
pub proof fn lemma_best_is(cands: Seq<CandidateState>, now: u64, penalty: u64, i: int)
    requires
        is_best(cands, now, penalty, i),
    ensures
        best(cands, now, penalty) == Some(cands[i].ip),
        forall|j: int| is_best(cands, now, penalty, j) ==> j == i,
{
    assert forall|j: int| is_best(cands, now, penalty, j) implies j == i by {
        let _ = cands[i];
        let _ = cands[j];
    }
}

pub fn score_at(c: &CandidateState, now: u64, penalty: u64) -> (r: Score)
    ensures
        r == score(*c, now, penalty),
{
    if c.down && now.saturating_sub(c.last_fail_ts) <= penalty {
        return Score { speed: DOWN_SPEED, nearness: 0 };
    }
    let speed: u64 = match c.speed_mkbps {
        Some(v) => v,
        None => 0,
    };
    let latency: u64 = match c.latency_ms {
        Some(v) => v,
        None => 0,
    };
    Score { speed: speed as i128, nearness: 0 - latency as i128 }
}

/// The position of the best candidate.
pub fn best_index(cands: &Vec<CandidateState>, now: u64, penalty: u64) -> (r: Option<usize>)
    ensures
        match r {
            Some(i) => is_best(cands@, now, penalty, i as int),
            None => cands.len() == 0,
        },
{
    let mut any_healthy = false;
    let mut i: usize = 0;
    while i < cands.len()
        invariant
            i <= cands.len(),
            any_healthy == exists|j: int| 0 <= j < i && healthy(#[trigger] cands@[j], now, penalty),
        decreases cands.len() - i,
    {
        if now.saturating_sub(cands[i].last_fail_ts) > penalty {
            any_healthy = true;
            assert(healthy(cands@[i as int], now, penalty));
        }
        i += 1;
    }
    let mut chosen: Option<usize> = None;
    let mut k: usize = 0;
    while k < cands.len()
        invariant
            k <= cands.len(),
            any_healthy == exists|j: int|
                0 <= j < cands.len() && healthy(#[trigger] cands@[j], now, penalty),
            match chosen {
                Some(b) => {
                    &&& b < k
                    &&& eligible(cands@, now, penalty, b as int)
                    &&& forall|j: int|
                        0 <= j < k && eligible(cands@, now, penalty, j) ==> {
                            &&& !score(#[trigger] cands@[j], now, penalty).above(
                                score(cands@[b as int], now, penalty),
                            )
                            &&& b < j ==> score(cands@[b as int], now, penalty).above(
                                score(cands@[j], now, penalty),
                            )
                        }
                },
                None => forall|j: int| 0 <= j < k ==> !eligible(cands@, now, penalty, j),
            },
        decreases cands.len() - k,
    {
        let ok = !any_healthy || now.saturating_sub(cands[k].last_fail_ts) > penalty;
        assert(ok == eligible(cands@, now, penalty, k as int));
        if ok {
            match chosen {
                None => {
                    chosen = Some(k);
                },
                Some(b) => {
                    let held = score_at(&cands[b], now, penalty);
                    if !held.is_above(&score_at(&cands[k], now, penalty)) {
                        chosen = Some(k);
                    }
                },
            }
        }
        k += 1;
    }
    proof {
        if chosen is None && cands.len() > 0 {
            if any_healthy {
                let j = choose|j: int|
                    0 <= j < cands.len() && healthy(#[trigger] cands@[j], now, penalty);
                assert(eligible(cands@, now, penalty, j));
            } else {
                assert(eligible(cands@, now, penalty, 0));
            }
        }
    }
    chosen
}

/// Candidates of which nothing is known yet.
pub open spec fn fresh(ips: Seq<Ip>) -> Seq<CandidateState> {
    Seq::new(
        ips.len(),
        |i: int|
            CandidateState {
                ip: ips[i],
                latency_ms: None,
                speed_mkbps: None,
                last_ok_ts: 0,
                last_fail_ts: 0,
                fails: 0,
                down: false,
            },
    )
}

pub fn fresh_candidates(ips: &Vec<Ip>) -> (r: Vec<CandidateState>)
    ensures
        r@ == fresh(ips@),
{
    let mut out: Vec<CandidateState> = Vec::new();
    let mut i: usize = 0;
    while i < ips.len()
        invariant
            i <= ips.len(),
            out@ == fresh(ips@.take(i as int)),
        decreases ips.len() - i,
    {
        out.push(
            CandidateState {
                ip: ips[i],
                latency_ms: None,
                speed_mkbps: None,
                last_ok_ts: 0,
                last_fail_ts: 0,
                fails: 0,
                down: false,
            },
        );
        i += 1;
    }
    assert(ips@.take(ips.len() as int) =~= ips@);
    out
}

/// The addresses of the candidates.
pub open spec fn addresses(cands: Seq<CandidateState>) -> Seq<Ip> {
    Seq::new(cands.len(), |i: int| cands[i].ip)
}

pub fn candidate_ips(cands: &Vec<CandidateState>) -> (r: Vec<Ip>)
    ensures
        r@ == addresses(cands@),
{
    let mut out: Vec<Ip> = Vec::new();
    let mut i: usize = 0;
    while i < cands.len()
        invariant
            i <= cands.len(),
            out@ == addresses(cands@.take(i as int)),
        decreases cands.len() - i,
    {
        out.push(cands[i].ip);
        i += 1;
    }
    assert(cands@.take(cands.len() as int) =~= cands@);
    out
}

/// The candidate after a measurement or a failed request at `now`.
pub open spec fn measured(
    c: CandidateState,
    latency_ms: Option<u64>,
    speed_mkbps: Option<u64>,
    success: bool,
    now: u64,
) -> CandidateState {
    if success {
        CandidateState {
            ip: c.ip,
            latency_ms: if latency_ms is Some {
                latency_ms
            } else {
                c.latency_ms
            },
            speed_mkbps: if speed_mkbps is Some {
                speed_mkbps
            } else {
                c.speed_mkbps
            },
            last_ok_ts: now,
            last_fail_ts: c.last_fail_ts,
            fails: 0,
            down: false,
        }
    } else {
        CandidateState {
            ip: c.ip,
            latency_ms: c.latency_ms,
            speed_mkbps: c.speed_mkbps,
            last_ok_ts: c.last_ok_ts,
            last_fail_ts: now,
            fails: if c.fails < u32::MAX {
                (c.fails + 1) as u32
            } else {
                u32::MAX
            },
            down: true,
        }
    }
}

/// The candidate after a measurement or a failed request at `now`.
pub fn measure_candidate(
    c: &CandidateState,
    latency_ms: Option<u64>,
    speed_mkbps: Option<u64>,
    success: bool,
    now: u64,
    penalty: u64,
) -> (r: CandidateState)
    ensures
        r == measured(*c, latency_ms, speed_mkbps, success, now),
{
    let mut r: CandidateState = *c;
    if success {
        if latency_ms.is_some() {
            r.latency_ms = latency_ms;
        }
        if speed_mkbps.is_some() {
            r.speed_mkbps = speed_mkbps;
        }
        r.last_ok_ts = now;
        r.fails = 0;
    } else {
        r.last_fail_ts = now;
        r.fails = r.fails.saturating_add(1);
    }
    r.down = now.saturating_sub(r.last_fail_ts) <= penalty && r.fails > 0;
    r
}

/// The candidates at the address `ip`.
pub open spec fn at_address(ip: Ip) -> spec_fn(CandidateState) -> bool {
    |c: CandidateState| c.ip == ip
}

pub fn find_candidate(cands: &Vec<CandidateState>, ip: Ip) -> (r: Option<usize>)
    ensures
        match r {
            Some(k) => search::first_index(cands@, at_address(ip)) == Some(k as int) && k < cands.len(),
            None => search::first_index(cands@, at_address(ip)) is None,
        },
{
    let mut k: usize = 0;
    while k < cands.len()
        invariant
            k <= cands.len(),
            forall|j: int| 0 <= j < k ==> (#[trigger] cands@[j]).ip != ip,
        decreases cands.len() - k,
    {
        if cands[k].ip == ip {
            proof {
                search::lemma_first_is(cands@, at_address(ip), k as int);
            }
            return Some(k);
        }
        k += 1;
    }
    proof {
        search::lemma_first_absent(cands@, at_address(ip));
    }
    None
}

// ---------------------------------------------------------------------------
// Ranking
// ---------------------------------------------------------------------------

/// The candidate with its `down` mark lifted once the penalty is over.
pub open spec fn refreshed(c: CandidateState, now: u64, penalty: u64) -> CandidateState {
    CandidateState { down: is_down(c, now, penalty), ..c }
}

/// Every candidate refreshed.
pub open spec fn all_refreshed(cands: Seq<CandidateState>, now: u64, penalty: u64) -> Seq<
    CandidateState,
> {
    Seq::new(cands.len(), |i: int| refreshed(cands[i], now, penalty))
}

/// The candidates whose score is `v`.
pub open spec fn scoring(v: Score, now: u64, penalty: u64) -> spec_fn(CandidateState) -> bool {
    |c: CandidateState| score(c, now, penalty) == v
}

/// `ranked` holds the candidates from the highest score to the lowest, and
/// those with one score in the order in which `cands` has them.
pub open spec fn is_ranking(
    cands: Seq<CandidateState>,
    ranked: Seq<CandidateState>,
    now: u64,
    penalty: u64,
) -> bool {
    &&& ranked.to_multiset() == cands.to_multiset()
    &&& forall|i: int, j: int|
        0 <= i < j < ranked.len() ==> !score(#[trigger] ranked[j], now, penalty).above(
            score(#[trigger] ranked[i], now, penalty),
        )
    &&& forall|v: Score| #[trigger]
        ranked.filter(scoring(v, now, penalty)) == cands.filter(scoring(v, now, penalty))
}

proof fn lemma_filter_none<A>(s: Seq<A>, p: spec_fn(A) -> bool)
    requires
        forall|i: int| 0 <= i < s.len() ==> !p(#[trigger] s[i]),
    ensures
        s.filter(p) == Seq::<A>::empty(),
    decreases s.len(),
{
    reveal(Seq::filter);
    if s.len() > 0 {
        assert forall|i: int| 0 <= i < s.drop_last().len() implies !p(
            #[trigger] s.drop_last()[i],
        ) by {
            assert(s.drop_last()[i] == s[i]);
        }
        lemma_filter_none(s.drop_last(), p);
    }
}

/// Where nothing from `at` on meets `p`, an element inserted there is the last
/// of those that meet `p`.
proof fn lemma_filter_insert<A>(s: Seq<A>, at: int, x: A, p: spec_fn(A) -> bool)
    requires
        0 <= at <= s.len(),
        p(x) ==> forall|i: int| at <= i < s.len() ==> !p(#[trigger] s[i]),
    ensures
        s.insert(at, x).filter(p) == (if p(x) {
            s.filter(p).push(x)
        } else {
            s.filter(p)
        }),
{
    reveal(Seq::filter);
    let head = s.subrange(0, at);
    let tail = s.subrange(at, s.len() as int);
    assert(head + tail =~= s);
    Seq::filter_distributes_over_add(head, tail, p);
    Seq::filter_distributes_over_add(head.push(x), tail, p);
    assert(head.push(x).drop_last() =~= head);
    if p(x) {
        assert forall|i: int| 0 <= i < tail.len() implies !p(#[trigger] tail[i]) by {
            assert(tail[i] == s[at + i]);
        }
        lemma_filter_none(tail, p);
        assert(s.insert(at, x).filter(p) =~= s.filter(p).push(x));
    }
}

proof fn lemma_insert_multiset<A>(s: Seq<A>, at: int, x: A)
    requires
        0 <= at <= s.len(),
    ensures
        s.insert(at, x).to_multiset() == s.to_multiset().insert(x),
{
    broadcast use vstd::seq_lib::group_to_multiset_ensures;

    let longer = s.insert(at, x);
    s.insert_ensures(at, x);
    assert(longer.remove(at) =~= s);
    assert(longer[at] == x);
    assert(longer.contains(x));
    assert(longer.to_multiset() =~= s.to_multiset().insert(x));
}

/// The candidates ranked, refreshed at `now`.
pub fn ranked_candidates(cands: &Vec<CandidateState>, now: u64, penalty: u64) -> (r: Vec<
    CandidateState,
>)
    ensures
        is_ranking(all_refreshed(cands@, now, penalty), r@, now, penalty),
{
    let mut out: Vec<CandidateState> = Vec::new();
    let mut i: usize = 0;
    let ghost model = all_refreshed(cands@, now, penalty);
    assert(model.take(0) =~= Seq::<CandidateState>::empty());
    while i < cands.len()
        invariant
            i <= cands.len(),
            model == all_refreshed(cands@, now, penalty),
            is_ranking(model.take(i as int), out@, now, penalty),
            out.len() == i,
        decreases cands.len() - i,
    {
        let mut c: CandidateState = cands[i];
        c.down = c.down && now.saturating_sub(c.last_fail_ts) <= penalty;
        assert(c == model[i as int]);
        let s = score_at(&c, now, penalty);
        let mut at: usize = 0;
        while at < out.len() && !s.is_above(&score_at(&out[at], now, penalty))
            invariant
                at <= out.len(),
                forall|j: int| 0 <= j < at ==> !s.above(score(#[trigger] out@[j], now, penalty)),
            decreases out.len() - at,
        {
            at += 1;
        }
        let ghost before = out@;
        out.insert(at, c);
        proof {
            let head = model.take(i as int);
            let next = model.take(i + 1);
            assert(next.drop_last() =~= head);
            assert(next =~= head.push(c));
            before.insert_ensures(at as int, c);
            assert(out@ =~= before.insert(at as int, c));
            lemma_insert_multiset(before, at as int, c);
            assert(next.to_multiset() == head.to_multiset().insert(c)) by {
                broadcast use vstd::seq_lib::group_to_multiset_ensures;

            }
            assert forall|v: Score| #[trigger]
                out@.filter(scoring(v, now, penalty)) == next.filter(scoring(v, now, penalty)) by {
                let p = scoring(v, now, penalty);
                assert(before.filter(p) == head.filter(p));
                if p(c) {
                    assert forall|j: int| at <= j < before.len() implies !p(#[trigger] before[j]) by {
                        assert(!score(before[j], now, penalty).above(
                            score(before[at as int], now, penalty),
                        ));
                    }
                }
                lemma_filter_insert(before, at as int, c, p);
                reveal(Seq::filter);
            }
            assert forall|a: int, b: int| 0 <= a < b < out.len() implies !score(
                #[trigger] out@[b],
                now,
                penalty,
            ).above(score(#[trigger] out@[a], now, penalty)) by {
                if b < at {
                    assert(out@[a] == before[a] && out@[b] == before[b]);
                } else if b == at {
                    assert(out@[a] == before[a]);
                } else if a < at {
                    assert(out@[a] == before[a] && out@[b] == before[b - 1]);
                } else if a == at {
                    assert(out@[b] == before[b - 1]);
                    assert(before[at as int] == before[b - 1] || !score(
                        before[b - 1],
                        now,
                        penalty,
                    ).above(score(before[at as int], now, penalty)));
                } else {
                    assert(out@[a] == before[a - 1] && out@[b] == before[b - 1]);
                }
            }
        }
        i += 1;
    }
    assert(model.take(cands.len() as int) =~= model);
    out
}

} // verus!
