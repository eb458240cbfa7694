//! Speed tests: the settings, passes on demand, and when a pass runs.
use vstd::prelude::*;

use crate::metrics::MetricsStore;
use crate::text;

verus! {

broadcast use vstd::string::group_string_axioms;

#[derive(Debug, Clone, Copy)]
pub struct SpeedTestConfig {
    pub interval_sec: u64,
    pub connect_timeout_ms: u64,
    pub read_timeout_ms: u64,
    pub test_chunk_bytes: u64,
    pub warmup_passes: usize,
    pub failure_penalty_sec: u64,
    pub max_concurrency: usize,
    /// How long to wait before retrying a pass that was postponed because the
    /// proxy was serving downloads.
    pub busy_retry_sec: u64,
}

/// The settings that hold unless something else is said.
pub open spec fn default_config() -> SpeedTestConfig {
    SpeedTestConfig {
        interval_sec: 3600,
        connect_timeout_ms: 2_000,
        read_timeout_ms: 10_000,
        test_chunk_bytes: 10_485_760,
        warmup_passes: 1,
        failure_penalty_sec: 60,
        max_concurrency: 64,
        busy_retry_sec: 60,
    }
}

impl Default for SpeedTestConfig {
    fn default() -> (r: Self)
        ensures
            r == default_config(),
    {
        SpeedTestConfig {
            interval_sec: 3600,
            connect_timeout_ms: 2_000,
            read_timeout_ms: 10_000,
            test_chunk_bytes: 10_485_760,
            warmup_passes: 1,
            failure_penalty_sec: 60,
            max_concurrency: 64,
            busy_retry_sec: 60,
        }
    }
}

/// A speed test pass is never started while the proxy has served a request within this
/// window of nanoseconds, so that active downloads are not starved and measurements are
/// not skewed by concurrent transfers.
pub const ACTIVITY_GRACE_NANOS: u128 = 60_000_000_000;

pub const AUTO_SPEEDTEST_ENV: &'static str = "XBOXPROXY_AUTO_SPEEDTEST";

/// The setting turns automatic passes off.
pub open spec fn says_off(v: Seq<char>) -> bool {
    v == "0"@ || v == "false"@ || v == "no"@ || v == "off"@
}

/// Whether passes run by themselves: yes, unless the setting says no, in whatever
/// case and with white space around it or not.
pub fn parse_auto_speedtest(raw: Option<&str>) -> (r: bool)
    ensures
        r == match raw {
            None => true,
            Some(v) => !says_off(text::lower(text::trimmed(v@))),
        },
{
    match raw {
        None => true,
        Some(v) => {
            let v = text::to_lower(&text::trim(v));
            !(text::same_text(&v, "0") || text::same_text(&v, "false") || text::same_text(&v, "no")
                || text::same_text(&v, "off"))
        },
    }
}

// ---------------------------------------------------------------------------
// Passes on demand
// ---------------------------------------------------------------------------

#[verifier::ext_equal]
pub struct ControlView {
    pub running: bool,
    pub pending_url: Option<Seq<char>>,
}

/// Whether a pass is running, and what the next one that was asked for is to test.
#[derive(Debug)]
pub struct SpeedTestControl {
    running: bool,
    /// When `Some`, the next manual pass uses this URL and updates only the matching
    /// endpoint group. `None` tests every group with its bundled URL.
    pending_url: Option<String>,
}

impl View for SpeedTestControl {
    type V = ControlView;

    closed spec fn view(&self) -> ControlView {
        ControlView { running: self.running, pending_url: text::opt_text(self.pending_url) }
    }
}

impl SpeedTestControl {
    pub fn new() -> (r: SpeedTestControl)
        ensures
            r@ == (ControlView { running: false, pending_url: None }),
    {
        SpeedTestControl { running: false, pending_url: None }
    }

    /// Asks for a pass. `url` restricts it to the group that owns that host; `None`
    /// tests every group.
    pub fn trigger(&mut self, url: Option<String>)
        ensures
            final(self)@ == (ControlView { pending_url: text::opt_text(url), ..old(self)@ }),
    {
        self.pending_url = url;
    }

    /// What the pass that was asked for is to test.
    pub fn take_url(&mut self) -> (r: Option<String>)
        ensures
            text::opt_text(r) == old(self)@.pending_url,
            final(self)@ == (ControlView { pending_url: None, ..old(self)@ }),
    {
        self.pending_url.take()
    }

    pub fn is_running(&self) -> (r: bool)
        ensures
            r == self@.running,
    {
        self.running
    }

    /// Notes that a pass starts or ends.
    pub fn set_running(&mut self, running: bool)
        ensures
            final(self)@ == (ControlView { running, ..old(self)@ }),
    {
        self.running = running;
    }
}

/// Whether the loop that runs passes is there at all, and whether it runs any by itself.
#[derive(Debug, Clone, Copy, PartialEq, Eq, Structural)]
pub struct LoopMode {
    pub enabled: bool,
    pub auto: bool,
}

/// The mode to start with: pinned addresses turn speed tests off altogether; the
/// setting turns off only the passes that nobody asks for.
pub fn loop_mode(pinned: bool, auto_setting: bool) -> (r: LoopMode)
    ensures
        r.enabled == !pinned,
        r.auto == (auto_setting && !pinned),
{
    LoopMode { enabled: !pinned, auto: auto_setting && !pinned }
}

// ---------------------------------------------------------------------------
// When passes run
// ---------------------------------------------------------------------------

/// Seconds between two passes of the warm-up.
pub const WARMUP_PAUSE_SEC: u64 = 2;

/// Where the loop stands.
#[derive(Debug, Clone, Copy, PartialEq, Eq, Structural)]
pub enum Stage {
    /// Nothing happened yet.
    Start,
    /// A scheduled pass is due and waits for its time.
    Due,
    /// Nothing is due.
    Quiet,
    /// A scheduled pass runs.
    Scheduled,
    /// A pass that was asked for runs, while a scheduled one is due.
    ForcedDue,
    /// A pass that was asked for runs.
    ForcedQuiet,
}

/// What the loop does next.
#[derive(Debug)]
pub enum Action {
    /// Wait until a pass is asked for, or, where a number is given, until that many
    /// seconds have gone by.
    Wait(Option<u64>),
    /// Run a pass: one that was asked for runs to its end whatever else goes on.
    Run { forced: bool, url: Option<String> },
}

#[verifier::ext_equal]
pub enum ActionView {
    Wait(Option<u64>),
    Run { forced: bool, url: Option<Seq<char>> },
}

impl View for Action {
    type V = ActionView;

    open spec fn view(&self) -> ActionView {
        match *self {
            Action::Wait(limit) => ActionView::Wait(limit),
            Action::Run { forced, url } => ActionView::Run { forced, url: text::opt_text(url) },
        }
    }
}

/// The loop that runs passes: a warm-up at the start and then a pass per interval,
/// where `auto` is set, and those that are asked for.
#[derive(Debug, Clone, Copy, PartialEq, Eq, Structural)]
pub struct Scheduler {
    pub auto: bool,
    /// Passes of the warm-up that are not through.
    pub warmups: usize,
    pub stage: Stage,
}

/// The passes of the warm-up.
pub open spec fn warmup_count(cfg: SpeedTestConfig, auto: bool) -> usize {
    if !auto {
        0
    } else if cfg.warmup_passes == 0 {
        1
    } else {
        cfg.warmup_passes
    }
}

impl Scheduler {
    pub open spec fn initial(cfg: SpeedTestConfig, auto: bool) -> Scheduler {
        Scheduler { auto, warmups: warmup_count(cfg, auto), stage: Stage::Start }
    }

    /// A scheduled pass runs, unless the proxy is busy: then it is postponed.
    pub open spec fn due(self, cfg: SpeedTestConfig, busy: bool) -> (Scheduler, ActionView) {
        if busy {
            (
                Scheduler { stage: Stage::Due, ..self },
                ActionView::Wait(Some(cfg.busy_retry_sec)),
            )
        } else {
            (
                Scheduler { stage: Stage::Scheduled, ..self },
                ActionView::Run { forced: false, url: None },
            )
        }
    }

    /// Nothing is due until the interval has gone by.
    pub open spec fn quiet(self, cfg: SpeedTestConfig) -> (Scheduler, ActionView) {
        (
            Scheduler { stage: Stage::Quiet, ..self },
            ActionView::Wait(
                if self.auto {
                    Some(cfg.interval_sec)
                } else {
                    None
                },
            ),
        )
    }

    /// The pass that was asked for runs.
    pub open spec fn forced(self, stage: Stage, url: Option<Seq<char>>) -> (Scheduler, ActionView) {
        (Scheduler { stage, ..self }, ActionView::Run { forced: true, url })
    }

    /// The next step: `triggered` says that a wait ended because a pass was asked for,
    /// `busy` that the proxy is busy, `url` what was asked for.
    pub open spec fn stepped(
        self,
        cfg: SpeedTestConfig,
        busy: bool,
        triggered: bool,
        url: Option<Seq<char>>,
    ) -> (Scheduler, ActionView) {
        match self.stage {
            Stage::Start => if self.auto {
                self.due(cfg, busy)
            } else {
                self.quiet(cfg)
            },
            Stage::Due => if triggered {
                self.forced(Stage::ForcedDue, url)
            } else {
                self.due(cfg, busy)
            },
            Stage::Quiet => if triggered {
                self.forced(Stage::ForcedQuiet, url)
            } else if self.auto {
                self.due(cfg, busy)
            } else {
                self.quiet(cfg)
            },
            Stage::Scheduled => if self.warmups > 1 {
                (
                    Scheduler { warmups: (self.warmups - 1) as usize, stage: Stage::Due, ..self },
                    ActionView::Wait(Some(WARMUP_PAUSE_SEC)),
                )
            } else {
                (Scheduler { warmups: 0, ..self }).quiet(cfg)
            },
            Stage::ForcedDue => self.due(cfg, busy),
            Stage::ForcedQuiet => self.quiet(cfg),
        }
    }

    pub fn new(cfg: &SpeedTestConfig, auto: bool) -> (r: Scheduler)
        ensures
            r == Scheduler::initial(*cfg, auto),
    {
        let warmups: usize = if !auto {
            0
        } else if cfg.warmup_passes == 0 {
            1
        } else {
            cfg.warmup_passes
        };
        Scheduler { auto, warmups, stage: Stage::Start }
    }

    fn run_if_idle(&mut self, cfg: &SpeedTestConfig, busy: bool) -> (r: Action)
        ensures
            (*final(self), r@) == old(self).due(*cfg, busy),
    {
        if busy {
            self.stage = Stage::Due;
            Action::Wait(Some(cfg.busy_retry_sec))
        } else {
            self.stage = Stage::Scheduled;
            Action::Run { forced: false, url: None }
        }
    }

    fn rest(&mut self, cfg: &SpeedTestConfig) -> (r: Action)
        ensures
            (*final(self), r@) == old(self).quiet(*cfg),
    {
        self.stage = Stage::Quiet;
        if self.auto {
            Action::Wait(Some(cfg.interval_sec))
        } else {
            Action::Wait(None)
        }
    }

    fn run_forced(&mut self, stage: Stage, control: &mut SpeedTestControl) -> (r: Action)
        ensures
            (*final(self), r@) == old(self).forced(stage, old(control)@.pending_url),
            final(control)@ == (ControlView { pending_url: None, ..old(control)@ }),
    {
        self.stage = stage;
        let url = control.take_url();
        Action::Run { forced: true, url }
    }

    /// Says what to do once the last wait or the last pass is over, and notes whether
    /// a pass runs from now on.
    pub fn next_at(
        &mut self,
        cfg: &SpeedTestConfig,
        control: &mut SpeedTestControl,
        metrics: &MetricsStore,
        triggered: bool,
        now: u128,
    ) -> (r: Action)
        ensures
            (*final(self), r@) == old(self).stepped(
                *cfg,
                metrics@.busy(ACTIVITY_GRACE_NANOS as int, now),
                triggered,
                old(control)@.pending_url,
            ),
            final(control)@ == (ControlView {
                running: r@ is Run,
                pending_url: if r@ is Run && r@->forced {
                    None
                } else {
                    old(control)@.pending_url
                },
            }),
    {
        let busy = metrics.is_busy_at(ACTIVITY_GRACE_NANOS, now);
        let action = match self.stage {
            Stage::Start => if self.auto {
                self.run_if_idle(cfg, busy)
            } else {
                self.rest(cfg)
            },
            Stage::Due => if triggered {
                self.run_forced(Stage::ForcedDue, control)
            } else {
                self.run_if_idle(cfg, busy)
            },
            Stage::Quiet => if triggered {
                self.run_forced(Stage::ForcedQuiet, control)
            } else if self.auto {
                self.run_if_idle(cfg, busy)
            } else {
                self.rest(cfg)
            },
            Stage::Scheduled => if self.warmups > 1 {
                self.warmups = self.warmups - 1;
                self.stage = Stage::Due;
                Action::Wait(Some(WARMUP_PAUSE_SEC))
            } else {
                self.warmups = 0;
                self.rest(cfg)
            },
            Stage::ForcedDue => self.run_if_idle(cfg, busy),
            Stage::ForcedQuiet => self.rest(cfg),
        };
        match &action {
            Action::Run { .. } => control.set_running(true),
            Action::Wait(_) => control.set_running(false),
        }
        action
    }
}

// ---------------------------------------------------------------------------
// What holds of every run
// ---------------------------------------------------------------------------

/// What the loop finds at a step.
pub struct Finding {
    pub busy: bool,
    pub triggered: bool,
    pub url: Option<Seq<char>>,
}

/// Where the loop stands after a number of steps.
pub open spec fn loop_after(cfg: SpeedTestConfig, auto: bool, findings: Seq<Finding>) -> Scheduler
    decreases findings.len(),
{
    if findings.len() == 0 {
        Scheduler::initial(cfg, auto)
    } else {
        let f = findings.last();
        loop_after(cfg, auto, findings.drop_last()).stepped(cfg, f.busy, f.triggered, f.url).0
    }
}

/// What the loop does at the last of a number of steps.
pub open spec fn loop_action(cfg: SpeedTestConfig, auto: bool, findings: Seq<Finding>) -> ActionView {
    let f = findings.last();
    loop_after(cfg, auto, findings.drop_last()).stepped(cfg, f.busy, f.triggered, f.url).1
}

/// The action starts a pass that nobody asked for.
pub open spec fn is_scheduled_run(action: ActionView) -> bool {
    action is Run && !action->forced
}

/// How many passes that nobody asked for were started.
pub open spec fn scheduled_runs(cfg: SpeedTestConfig, auto: bool, findings: Seq<Finding>) -> nat
    decreases findings.len(),
{
    if findings.len() == 0 {
        0
    } else {
        scheduled_runs(cfg, auto, findings.drop_last()) + if is_scheduled_run(
            loop_action(cfg, auto, findings),
        ) {
            1nat
        } else {
            0
        }
    }
}

/// How many times the interval went by without a pass being asked for.
pub open spec fn intervals_gone(cfg: SpeedTestConfig, auto: bool, findings: Seq<Finding>) -> nat
    decreases findings.len(),
{
    if findings.len() == 0 {
        0
    } else {
        let before = loop_after(cfg, auto, findings.drop_last());
        intervals_gone(cfg, auto, findings.drop_last()) + if before.stage == Stage::Quiet
            && before.auto && !findings.last().triggered {
            1nat
        } else {
            0
        }
    }
}

/// Scheduled passes that are still to come before the loop waits for the interval.
spec fn owed(s: Scheduler) -> int {
    match s.stage {
        Stage::Start => s.warmups as int,
        Stage::Due | Stage::ForcedDue => if s.warmups == 0 {
            1
        } else {
            s.warmups as int
        },
        Stage::Quiet | Stage::ForcedQuiet => 0,
        Stage::Scheduled => if s.warmups == 0 {
            0
        } else {
            s.warmups - 1
        },
    }
}

proof fn lemma_passes_balance(cfg: SpeedTestConfig, auto: bool, findings: Seq<Finding>)
    ensures
        scheduled_runs(cfg, auto, findings) + owed(loop_after(cfg, auto, findings)) == warmup_count(
            cfg,
            auto,
        ) + intervals_gone(cfg, auto, findings),
        ({
            let s = loop_after(cfg, auto, findings);
            &&& s.auto == auto
            &&& s.stage == Stage::Quiet || s.stage == Stage::ForcedQuiet ==> s.warmups == 0
            &&& !auto ==> s.stage == Stage::Start || s.stage == Stage::Quiet || s.stage
                == Stage::ForcedQuiet
        }),
    decreases findings.len(),
{
    if findings.len() > 0 {
        lemma_passes_balance(cfg, auto, findings.drop_last());
    }
}

/// Beyond the warm-up there is no more than one scheduled pass per interval that went
/// by.
pub proof fn one_scheduled_pass_per_interval(
    cfg: SpeedTestConfig,
    auto: bool,
    findings: Seq<Finding>,
)
    ensures
        scheduled_runs(cfg, auto, findings) <= warmup_count(cfg, auto) + intervals_gone(
            cfg,
            auto,
            findings,
        ),
{
    lemma_passes_balance(cfg, auto, findings);
}

/// No scheduled pass ever starts while the proxy is busy.
pub proof fn scheduled_passes_start_idle(cfg: SpeedTestConfig, auto: bool, findings: Seq<Finding>)
    requires
        findings.len() > 0,
        is_scheduled_run(loop_action(cfg, auto, findings)),
    ensures
        !findings.last().busy,
{
}

/// With automatic passes off, only those that are asked for run.
pub proof fn only_forced_passes_without_auto(cfg: SpeedTestConfig, findings: Seq<Finding>)
    ensures
        scheduled_runs(cfg, false, findings) == 0,
        findings.len() > 0 ==> !is_scheduled_run(loop_action(cfg, false, findings)),
    decreases findings.len(),
{
    lemma_passes_balance(cfg, false, findings);
    if findings.len() > 0 {
        only_forced_passes_without_auto(cfg, findings.drop_last());
        lemma_passes_balance(cfg, false, findings.drop_last());
    }
}

/// A pass that is asked for while the loop waits runs at once, with the URL that was
/// given, though the proxy be busy.
pub proof fn forced_passes_run_at_once(
    cfg: SpeedTestConfig,
    auto: bool,
    findings: Seq<Finding>,
    busy: bool,
    url: Option<Seq<char>>,
)
    requires
        findings.len() > 0,
        loop_action(cfg, auto, findings) is Wait,
    ensures
        loop_action(cfg, auto, findings.push(Finding { busy, triggered: true, url }))
            == (ActionView::Run { forced: true, url }),
{
    let more = findings.push(Finding { busy, triggered: true, url });
    assert(more.drop_last() =~= findings);
}

} // verus!
