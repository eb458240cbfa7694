//! What holds of speed tests: when passes run, what they measure, and what is made of it.
use vstd::prelude::*;

use crate::candidate::Ip;
use crate::metrics::MetricsView;
use crate::pass::Download;
use crate::pass::MeasureResult;
use crate::pass::PassView;
use crate::pass::Probe;
use crate::pass::TargetErrorView;
use crate::pass::TaskView;
use crate::pass;
use crate::record;
use crate::selector::HostDefView;
use crate::selector::SelectorView;
use crate::speedtest::ActionView;
use crate::speedtest::Finding;
use crate::speedtest::Scheduler;
use crate::speedtest::SpeedTestConfig;
use crate::speedtest::Stage;
use crate::speedtest::ACTIVITY_GRACE_NANOS;
use crate::speedtest;
use crate::text;
use crate::uri::UriView;
use crate::uri;

verus! {

broadcast use vstd::string::group_string_axioms;

// ---------------------------------------------------------------------------
// When passes run
// ---------------------------------------------------------------------------

/// The interval went by at the last step: the loop had waited with nothing owed, passes run
/// by themselves, and none was asked for.
pub open spec fn interval_over(
    cfg: SpeedTestConfig,
    auto: bool,
    findings: Seq<Finding>,
    owed_before: int,
) -> bool {
    &&& auto
    &&& findings.len() > 1
    &&& speedtest::loop_action(cfg, auto, findings.drop_last()) is Wait
    &&& !findings.last().triggered
    &&& owed_before == 0
}

/// How many scheduled passes are owed after a number of steps: those of the warm-up, of
/// which there is at least one, and one for each interval that went by, without those that
/// were started.
pub open spec fn owing(cfg: SpeedTestConfig, auto: bool, findings: Seq<Finding>) -> int
    decreases findings.len(),
{
    if findings.len() == 0 {
        if !auto {
            0
        } else if cfg.warmup_passes > 1 {
            cfg.warmup_passes as int
        } else {
            1
        }
    } else {
        let before = owing(cfg, auto, findings.drop_last());
        let due = if interval_over(cfg, auto, findings, before) {
            before + 1
        } else {
            before
        };
        if speedtest::is_scheduled_run(speedtest::loop_action(cfg, auto, findings)) {
            due - 1
        } else {
            due
        }
    }
}

/// Scheduled passes still to come where the loop stands.
spec fn to_come(s: Scheduler) -> int {
    match s.stage {
        Stage::Start => s.warmups as int,
        Stage::Due | Stage::ForcedDue => if s.warmups == 0 {
            1
        } else {
            s.warmups as int
        },
        Stage::Quiet | Stage::ForcedQuiet => 0,
        Stage::Scheduled => if s.warmups == 0 {
            0
        } else {
            s.warmups - 1
        },
    }
}

/// The stage goes with the action that led to it.
spec fn stage_fits(s: Scheduler, action: ActionView) -> bool {
    match action {
        ActionView::Wait(_) => s.stage == Stage::Due || s.stage == Stage::Quiet,
        ActionView::Run { forced, .. } => if forced {
            s.stage == Stage::ForcedDue || s.stage == Stage::ForcedQuiet
        } else {
            s.stage == Stage::Scheduled
        },
    }
}

proof fn lemma_owing(cfg: SpeedTestConfig, auto: bool, findings: Seq<Finding>)
    ensures
        ({
            let s = speedtest::loop_after(cfg, auto, findings);
            &&& owing(cfg, auto, findings) == to_come(s)
            &&& s.auto == auto
            &&& s.stage == Stage::Quiet || s.stage == Stage::ForcedQuiet ==> s.warmups == 0
            &&& !auto ==> s.stage == Stage::Start || s.stage == Stage::Quiet || s.stage
                == Stage::ForcedQuiet
            &&& findings.len() == 0 <==> s.stage == Stage::Start
            &&& findings.len() == 0 && auto ==> s.warmups > 0
            &&& findings.len() > 0 ==> stage_fits(
                s,
                speedtest::loop_action(cfg, auto, findings),
            )
        }),
    decreases findings.len(),
{
    if findings.len() > 0 {
        lemma_owing(cfg, auto, findings.drop_last());
    }
}

/// What the loop does at each step follows from what it did before and what is owed:
/// - a pass that is asked for during a wait runs at once, with its URL;
/// - after a scheduled pass it waits, for two seconds while the warm-up goes on;
/// - otherwise, where a pass is owed, it starts if the proxy is idle, and is postponed if
///   not, until it is time to try again;
/// - and where none is owed, the loop waits for the interval, or, if passes do not run by
///   themselves, without limit.
pub proof fn each_step_follows_from_what_is_owed(
    cfg: SpeedTestConfig,
    auto: bool,
    findings: Seq<Finding>,
)
    requires
        findings.len() > 0,
    ensures
        ({
            let before = findings.drop_last();
            let f = findings.last();
            let last = speedtest::loop_action(cfg, auto, before);
            let owed = owing(cfg, auto, before);
            let due = owed > 0 || interval_over(cfg, auto, findings, owed);
            let at_rest = ActionView::Wait(
                if auto {
                    Some(cfg.interval_sec)
                } else {
                    None
                },
            );
            speedtest::loop_action(cfg, auto, findings) == if before.len() > 0 && last is Wait
                && f.triggered {
                ActionView::Run { forced: true, url: f.url }
            } else if before.len() > 0 && speedtest::is_scheduled_run(last) {
                if owed > 0 {
                    ActionView::Wait(Some(2u64))
                } else {
                    at_rest
                }
            } else if due {
                if f.busy {
                    ActionView::Wait(Some(cfg.busy_retry_sec))
                } else {
                    ActionView::Run { forced: false, url: None }
                }
            } else {
                at_rest
            }
        }),
{
    lemma_owing(cfg, auto, findings.drop_last());
}

/// Where passes run by themselves, every wait has a limit: the interval, where nothing is
/// owed; else the time to try again, or the pause of the warm-up. Where they do not, no wait
/// has one.
pub proof fn waits_have_a_limit_where_passes_run_by_themselves(
    cfg: SpeedTestConfig,
    auto: bool,
    findings: Seq<Finding>,
)
    requires
        findings.len() > 0,
        speedtest::loop_action(cfg, auto, findings) is Wait,
    ensures
        ({
            let limit = speedtest::loop_action(cfg, auto, findings)->Wait_0;
            &&& auto <==> limit is Some
            &&& auto && owing(cfg, auto, findings) == 0 ==> limit == Some(cfg.interval_sec)
            &&& auto && owing(cfg, auto, findings) != 0 ==> limit == Some(cfg.busy_retry_sec)
                || limit == Some(2u64)
        }),
{
    lemma_owing(cfg, auto, findings);
    lemma_owing(cfg, auto, findings.drop_last());
}

/// Whatever came before, a wait that ends by itself where passes run by themselves leads to
/// a scheduled pass, or, while the proxy is busy, to its postponement.
pub proof fn waits_that_end_lead_to_a_pass(
    cfg: SpeedTestConfig,
    findings: Seq<Finding>,
    busy: bool,
    url: Option<Seq<char>>,
)
    requires
        findings.len() > 0,
        speedtest::loop_action(cfg, true, findings) is Wait,
    ensures
        ({
            let more = findings.push(Finding { busy, triggered: false, url });
            speedtest::loop_action(cfg, true, more) == if busy {
                ActionView::Wait(Some(cfg.busy_retry_sec))
            } else {
                ActionView::Run { forced: false, url: None }
            }
        }),
{
    let more = findings.push(Finding { busy, triggered: false, url });
    assert(more.drop_last() =~= findings);
    lemma_owing(cfg, true, findings);
}

/// A pass that was asked for does not change what is owed.
pub proof fn forced_passes_leave_the_schedule(
    cfg: SpeedTestConfig,
    auto: bool,
    findings: Seq<Finding>,
    f: Finding,
)
    requires
        findings.len() > 0,
        speedtest::loop_action(cfg, auto, findings) is Wait,
        f.triggered,
    ensures
        owing(cfg, auto, findings.push(f)) == owing(cfg, auto, findings),
{
    assert(findings.push(f).drop_last() =~= findings);
    lemma_owing(cfg, auto, findings);
}

/// The proxy counts as busy for passes for a minute after the last activity.
pub proof fn passes_leave_a_minute_to_downloads(m: MetricsView, now: u128)
    ensures
        m.busy(ACTIVITY_GRACE_NANOS as int, now) <==> m.active_requests > 0 || now
            < m.last_activity + 60 * 1_000_000_000,
{
}

/// Unless something else is said: a pass an hour after one of warm-up, tries a minute apart,
/// a third of the test file from up to sixty-four servers at a time, two seconds to connect
/// and ten to read, and a minute of penalty.
pub proof fn passes_run_hourly_by_default()
    ensures
        ({
            let cfg = speedtest::default_config();
            &&& cfg.interval_sec == 60 * 60
            &&& cfg.warmup_passes == 1
            &&& cfg.busy_retry_sec == 60
            &&& cfg.test_chunk_bytes == 10 * 1024 * 1024
            &&& cfg.max_concurrency == 64
            &&& cfg.connect_timeout_ms == 2 * 1000
            &&& cfg.read_timeout_ms == 10 * 1000
            &&& cfg.failure_penalty_sec == 60
        }),
{
}

/// Four words turn automatic passes off.
pub proof fn four_words_say_off(v: Seq<char>)
    ensures
        speedtest::says_off(v) <==> seq!["0"@, "false"@, "no"@, "off"@].contains(v),
{
    let words = seq!["0"@, "false"@, "no"@, "off"@];
    assert(words[0] == "0"@ && words[1] == "false"@ && words[2] == "no"@ && words[3] == "off"@);
}

// ---------------------------------------------------------------------------
// What a pass measures
// ---------------------------------------------------------------------------

/// The tasks are one for each address, in order, with that URL and host.
pub open spec fn one_task_per_address(
    tasks: Seq<TaskView>,
    name: Seq<char>,
    ips: Seq<Ip>,
    url: Seq<char>,
    host: Option<Seq<char>>,
) -> bool {
    &&& tasks.len() == ips.len()
    &&& forall|i: int|
        0 <= i < ips.len() ==> {
            &&& (#[trigger] tasks[i]).name == name
            &&& tasks[i].ip == ips[i]
            &&& tasks[i].url == url
            &&& tasks[i].host == match host {
                Some(h) => h,
                None => Seq::empty(),
            }
        }
}

/// A group is measured with the URL that was given, else with its own; a group whose own URL
/// is none is passed over.
pub proof fn groups_are_measured_with_their_url(
    def: HostDefView,
    given: Option<(Seq<char>, UriView)>,
)
    ensures
        ({
            let tasks = pass::tasks_of_all(seq![def], given);
            match given {
                Some((raw, uri)) => one_task_per_address(tasks, def.name, def.ips, raw, uri.host),
                None => match uri::uri_parse(def.test_url) {
                    Ok(uri) => one_task_per_address(
                        tasks,
                        def.name,
                        def.ips,
                        def.test_url,
                        uri.host,
                    ),
                    Err(_) => tasks.len() == 0,
                },
            }
        }),
{
    reveal_with_fuel(pass::tasks_of_all, 2);
    assert(seq![def].drop_last() =~= Seq::<HostDefView>::empty());
    assert(pass::tasks_of_all(seq![def], given) =~= pass::tasks_of(def, given));
}

/// The tasks of several groups are those of the first ones and then those of the others.
pub proof fn groups_are_measured_in_order(
    a: Seq<HostDefView>,
    b: Seq<HostDefView>,
    given: Option<(Seq<char>, UriView)>,
)
    ensures
        pass::tasks_of_all(a + b, given) == pass::tasks_of_all(a, given) + pass::tasks_of_all(
            b,
            given,
        ),
    decreases b.len(),
{
    if b.len() == 0 {
        assert(a + b =~= a);
        assert(pass::tasks_of_all(b, given) =~= Seq::empty());
        assert(pass::tasks_of_all(a, given) + Seq::<TaskView>::empty() =~= pass::tasks_of_all(
            a,
            given,
        ));
    } else {
        groups_are_measured_in_order(a, b.drop_last(), given);
        assert((a + b).drop_last() =~= a + b.drop_last());
        assert((a + b).last() == b.last());
        assert(pass::tasks_of_all(a + b, given) =~= pass::tasks_of_all(a, given)
            + pass::tasks_of_all(b, given));
    }
}

/// A pass that is given no URL measures every candidate of every group that has one.
pub proof fn full_passes_measure_every_candidate(sel: SelectorView, g: int, k: int)
    requires
        0 <= g < sel.groups.len(),
        0 <= k < sel.groups[g].candidates.len(),
        uri::uri_parse(sel.groups[g].def.test_url) is Ok,
    ensures
        pass::pass_tasks(sel, None) is Ok,
        exists|j: int|
            0 <= j < pass::pass_tasks(sel, None)->Ok_0.len() && {
                let t = #[trigger] pass::pass_tasks(sel, None)->Ok_0[j];
                &&& t.name == sel.groups[g].def.name
                &&& t.ip == sel.groups[g].candidates[k].ip
                &&& t.url == sel.groups[g].def.test_url
            },
{
    let defs = sel.defs();
    super::ranking::definitions_show_the_live_addresses(sel);
    let def = defs[g];
    let before = defs.take(g);
    let after = defs.skip(g + 1);
    assert(defs =~= before + seq![def] + after);
    groups_are_measured_in_order(before + seq![def], after, None);
    groups_are_measured_in_order(before, seq![def], None);
    groups_are_measured_with_their_url(def, None);
    let tasks = pass::tasks_of_all(defs, None);
    let own = pass::tasks_of_all(seq![def], None);
    let j = pass::tasks_of_all(before, None).len() + k;
    assert(tasks[j] == own[k]);
    assert(pass::pass_tasks(sel, None)->Ok_0[j] == own[k]);
}

/// A pass that is given a URL measures the candidates of the group that owns its host, all
/// of them with that URL. It is refused where the URL is none, names no host, or one that
/// belongs to no group.
pub proof fn url_passes_measure_the_owner_of_the_host(sel: SelectorView, raw: Seq<char>)
    ensures
        match uri::uri_parse(raw) {
            Err(reason) => pass::pass_tasks(sel, Some(raw)) == Err::<Seq<TaskView>, TargetErrorView>(
                TargetErrorView::InvalidUrl(reason),
            ),
            Ok(uri) => match uri.host {
                None => pass::pass_tasks(sel, Some(raw)) == Err::<Seq<TaskView>, TargetErrorView>(
                    TargetErrorView::NoHost,
                ),
                Some(host) => match sel.host_for(host) {
                    None => pass::pass_tasks(sel, Some(raw)) == Err::<
                        Seq<TaskView>,
                        TargetErrorView,
                    >(TargetErrorView::Unmanaged(host)),
                    Some(def) => pass::pass_tasks(sel, Some(raw)) is Ok && one_task_per_address(
                        pass::pass_tasks(sel, Some(raw))->Ok_0,
                        def.name,
                        def.ips,
                        raw,
                        Some(host),
                    ),
                },
            },
        },
{
    if let Ok(uri) = uri::uri_parse(raw) {
        if let Some(host) = uri.host {
            if let Some(def) = sel.host_for(host) {
                groups_are_measured_with_their_url(def, Some((raw, uri)));
            }
        }
    }
}

/// Of the waves of a pass all but the last are as wide as the settings say, and that is one
/// at least.
pub proof fn waves_are_full(cfg: SpeedTestConfig, pass: PassView)
    requires
        0 <= pass.next <= pass.tasks.len(),
        pass.width == pass::wave_width(cfg),
    ensures
        pass.width == if cfg.max_concurrency >= 1 {
            cfg.max_concurrency as int
        } else {
            1
        },
        forall|i: int|
            0 <= i < pass::waves(pass).len() - 1 ==> (#[trigger] pass::waves(pass)[i]).1
                - pass::waves(pass)[i].0 == pass.width,
    decreases pass.tasks.len() - pass.next,
{
    if pass.next < pass.tasks.len() {
        let rest = pass.after_wave(false);
        waves_are_full(cfg, rest);
        pass::waves_cover_every_task_once(rest);
        let all = pass::waves(pass);
        assert(all =~= seq![(pass.next, pass.wave_end())] + pass::waves(rest));
        assert forall|i: int| 0 <= i < all.len() - 1 implies (#[trigger] all[i]).1 - all[i].0
            == pass.width by {
            if i > 0 {
                assert(all[i] == pass::waves(rest)[i - 1]);
            }
        }
    }
}

/// A pass stays the same one from wave to wave, and gives its tasks out while it meets no
/// traffic or is forced.
pub proof fn passes_go_on(pass: PassView, busy: bool)
    ensures
        pass.after_wave(busy).tasks == pass.tasks,
        pass.after_wave(busy).width == pass.width,
        pass.after_wave(busy).forced == pass.forced,
        pass.wave(busy) is Some <==> pass.next < pass.tasks.len() && (pass.forced || !busy),
        pass.wave(busy) matches Some(w) ==> w.0 == pass.next && pass.after_wave(busy).next == w.1,
{
}

// ---------------------------------------------------------------------------
// Measuring
// ---------------------------------------------------------------------------

/// The sum of the lengths.
pub open spec fn total(lens: Seq<u64>) -> int
    decreases lens.len(),
{
    if lens.len() == 0 {
        0
    } else {
        total(lens.drop_last()) + lens.last()
    }
}

/// The download after all these pieces.
pub open spec fn after_pieces(d: Download, lens: Seq<u64>) -> Download
    decreases lens.len(),
{
    if lens.len() == 0 {
        d
    } else {
        after_pieces(d, lens.drop_last()).with_piece(lens.last())
    }
}

proof fn lemma_total_is_natural(lens: Seq<u64>)
    ensures
        total(lens) >= 0,
    decreases lens.len(),
{
    if lens.len() > 0 {
        lemma_total_is_natural(lens.drop_last());
    }
}

/// A download holds what it began with and all its pieces, up to what is wanted: after any
/// pieces, the lesser of the two.
pub proof fn downloads_hold_all_their_pieces(d: Download, lens: Seq<u64>)
    requires
        d.bytes <= d.wanted,
    ensures
        after_pieces(d, lens).wanted == d.wanted,
        after_pieces(d, lens).bytes == if d.bytes + total(lens) < d.wanted {
            d.bytes + total(lens)
        } else {
            d.wanted as int
        },
    decreases lens.len(),
{
    if lens.len() > 0 {
        downloads_hold_all_their_pieces(d, lens.drop_last());
        lemma_total_is_natural(lens.drop_last());
    }
}

/// It does not matter how the body is cut into pieces.
pub proof fn cuts_do_not_matter(d: Download, a: Seq<u64>, b: Seq<u64>)
    requires
        d.bytes <= d.wanted,
        total(a) == total(b),
    ensures
        after_pieces(d, a) == after_pieces(d, b),
{
    downloads_hold_all_their_pieces(d, a);
    downloads_hold_all_their_pieces(d, b);
}

/// As much of the file is fetched as the settings say, of what there is: at least a byte,
/// and at most thirty mebibytes.
pub proof fn parts_are_as_long_as_wanted(cfg: SpeedTestConfig)
    ensures
        ({
            let part = pass::chunk_bytes(cfg) as int;
            let file = 30 * 1024 * 1024;
            &&& 1 <= part <= file
            &&& cfg.test_chunk_bytes <= part || part == file
            &&& part <= cfg.test_chunk_bytes || part == 1
        }),
{
}

/// A request names the first and the last byte of a part of the file. A draw below the number
/// of places where such a part fits is the place, and each draw counts as the one that many
/// before it.
pub proof fn requests_name_a_part_of_the_file(cfg: SpeedTestConfig, draw: u64)
    ensures
        ({
            let part = pass::chunk_bytes(cfg) as int;
            let places = 30 * 1024 * 1024 - part + 1;
            let from = pass::range_start(cfg, draw);
            &&& 0 <= from < places
            &&& draw < places ==> from == draw
            &&& draw + places <= u64::MAX ==> pass::range_start(cfg, (draw + places) as u64) == from
            &&& pass::range_value(cfg, draw) == "bytes="@ + text::decimal(from as nat) + "-"@
                + text::decimal((from + part - 1) as nat)
        }),
{
    let part = pass::chunk_bytes(cfg) as int;
    let places = 30 * 1024 * 1024 - part + 1;
    vstd::arithmetic::div_mod::lemma_mod_bound(draw as int, places);
    if draw < places {
        vstd::arithmetic::div_mod::lemma_small_mod(draw as nat, places as nat);
    }
    if draw + places <= u64::MAX {
        vstd::arithmetic::div_mod::lemma_mod_add_multiples_vanish(draw as int, places);
    }
}

/// The body may take as many milliseconds as the settings say, and no more.
pub proof fn bodies_have_their_milliseconds(cfg: SpeedTestConfig, elapsed_nanos: u128)
    ensures
        elapsed_nanos < pass::read_timeout_nanos(cfg) <==> elapsed_nanos / 1_000_000
            < cfg.read_timeout_ms,
{
}

/// Success is a status of the two hundreds.
pub proof fn the_two_hundreds_are_success(status: u16)
    ensures
        pass::status_is_success(status) <==> status / 100 == 2,
{
}

/// An answer gives the latency, a body the speed, and some of a body success.
pub proof fn probes_give_what_they_saw(probe: Probe)
    ensures
        ({
            let r: MeasureResult = pass::judged(probe);
            &&& r.latency_ms is Some <==> !(probe is NoAnswer)
            &&& r.speed_mkbps is Some <==> probe is Body
            &&& probe matches Probe::Rejected { latency_ms } ==> r.latency_ms == Some(latency_ms)
            &&& probe matches Probe::Body { latency_ms, bytes, nanos } ==> r.latency_ms == Some(
                latency_ms,
            ) && r.speed_mkbps == Some(record::rate_mkbps(bytes, nanos))
            &&& r.success <==> probe is Body && probe->bytes > 0
        }),
{
}

} // verus!
