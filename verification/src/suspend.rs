//! Predictive warehouse auto-suspend: the decisions around the model.
//!
//! Arrivals are recorded after a result, never for cache hits (a fully
//! cached dashboard must let its warehouse sleep) and never for
//! metadata-only statements (a monitor polling `SHOW WAREHOUSES` would
//! otherwise keep every warehouse busy forever). A background sweep asks
//! the model about every warehouse; in `suggest-only` mode it records the
//! suggestion, in `enforce` mode it runs `ALTER WAREHOUSE … SUSPEND`
//! through chukei's own service session. A per-warehouse cooldown keeps a
//! standing recommendation from acting twice.
use crate::config::SuspendMode;
use crate::keyed::{as_map, distinct_keys, has_key, lemma_at, lemma_push, lemma_update};
use crate::plugin::{QueryContext, ResultSnapshot};
use crate::sql::parse::{kind_runs_on_warehouse, runs_on_warehouse};
use crate::text::{opt_view, str_eq};
use vstd::prelude::*;
use vstd::string::StringExecFns;

verus! {

/// The suspend plugin's name on the bus.
pub fn plugin_name() -> (r: &'static str)
    ensures
        r@ == "suspend"@,
{
    "suspend"
}

/// The suspend plugin's bus order: it runs after cache, router and
/// rewrite, and before attribution.
pub fn plugin_order() -> (r: i32)
    ensures
        r == 50,
        Some(r) == crate::plugin::registry::plugin_order_of("suspend"@),
{
    proof {
        crate::plugin::registry::lemma_plugin_orders();
    }
    50
}

/// A configured cooldown of `secs` seconds in milliseconds, saturated at
/// `u64::MAX`.
pub open spec fn cooldown_ms_of(secs: u64) -> u64 {
    if secs * 1000 > u64::MAX {
        u64::MAX
    } else {
        (secs * 1000) as u64
    }
}

/// The per-warehouse cooldown (`plugins.suspend.cooldown_secs`) in
/// milliseconds.
pub fn cooldown_ms(secs: u64) -> (r: u64)
    ensures
        r == cooldown_ms_of(secs),
{
    if secs > u64::MAX / 1000 {
        u64::MAX
    } else {
        secs * 1000
    }
}

/// The warehouse a completed query counts as an arrival on: none for
/// cache hits, for statements that run on cloud services only, or when the
/// session has no warehouse.
pub open spec fn arrival_on(
    served_from_cache: bool,
    runs_on_wh: bool,
    warehouse: Option<Seq<char>>,
) -> Option<Seq<char>> {
    if served_from_cache || !runs_on_wh {
        None
    } else {
        warehouse
    }
}

/// Which warehouse, if any, a completed query's arrival is recorded on.
pub fn arrival_warehouse(ctx: &QueryContext<'_>, result: &ResultSnapshot) -> (r: Option<String>)
    ensures
        opt_view(r) == arrival_on(
            result.served_from_cache,
            kind_runs_on_warehouse(ctx.analysis.kind),
            opt_view(ctx.session.warehouse),
        ),
{
    if result.served_from_cache || !runs_on_warehouse(&ctx.analysis.kind) {
        return None;
    }
    match &ctx.session.warehouse {
        Some(w) => Some(w.clone()),
        None => None,
    }
}

/// The statement that suspends `warehouse`, its name quoted.
pub open spec fn suspend_sql(warehouse: Seq<char>) -> Seq<char> {
    "ALTER WAREHOUSE \""@ + warehouse + "\" SUSPEND"@
}

pub fn suspend_statement(warehouse: &str) -> (r: String)
    ensures
        r@ == suspend_sql(warehouse@),
{
    let mut s = String::from_str("ALTER WAREHOUSE \"");
    s.append(warehouse);
    s.append("\" SUSPEND");
    s
}

/// What the sweep does with a recommendation.
#[derive(Debug, PartialEq, Eq)]
pub enum SweepAction {
    /// `suggest-only`: note it and start the cooldown.
    Suggest,
    /// `enforce`: run this statement through the service session.
    Execute(String),
    /// `enforce` without a service session: nothing can be done.
    NoServiceSession,
}

pub fn plan_sweep(mode: SuspendMode, has_service: bool, warehouse: &str) -> (r: SweepAction)
    ensures
        mode == SuspendMode::SuggestOnly ==> r == SweepAction::Suggest,
        mode == SuspendMode::Enforce && !has_service ==> r == SweepAction::NoServiceSession,
        mode == SuspendMode::Enforce && has_service ==> (r matches SweepAction::Execute(sql) && sql@
            == suspend_sql(warehouse@)),
{
    match mode {
        SuspendMode::SuggestOnly => SweepAction::Suggest,
        SuspendMode::Enforce => if has_service {
            SweepAction::Execute(suspend_statement(warehouse))
        } else {
            SweepAction::NoServiceSession
        },
    }
}

/// How a suspend statement fared.
#[derive(Debug, Clone, Copy, PartialEq, Eq, Structural)]
pub enum SuspendOutcome {
    /// Upstream answered `success: true`.
    Suspended,
    /// Upstream answered, but not with success.
    Rejected,
    /// The call itself failed.
    Failed,
}

/// Whether an action's outcome starts the warehouse's cooldown: a
/// suggestion, a suspend and a rejected statement do; a failed call is
/// retried on the next sweep.
pub open spec fn starts_cooldown(action_was_suggest: bool, outcome: SuspendOutcome) -> bool {
    action_was_suggest || outcome != SuspendOutcome::Failed
}

pub fn cooldown_after(action_was_suggest: bool, outcome: SuspendOutcome) -> (r: bool)
    ensures
        r == starts_cooldown(action_was_suggest, outcome),
{
    action_was_suggest || outcome != SuspendOutcome::Failed
}

/// Last action time per warehouse.
#[derive(Debug)]
pub struct Cooldowns {
    entries: Vec<(String, u64)>,
}

pub open spec fn cooldown_pairs(v: Seq<(String, u64)>) -> Seq<(Seq<char>, u64)> {
    v.map_values(|p: (String, u64)| (p.0@, p.1))
}

impl Cooldowns {
    #[verifier::type_invariant]
    closed spec fn wf(&self) -> bool {
        distinct_keys(cooldown_pairs(self.entries@))
    }
}

impl View for Cooldowns {
    type V = Map<Seq<char>, u64>;

    closed spec fn view(&self) -> Map<Seq<char>, u64> {
        as_map(cooldown_pairs(self.entries@))
    }
}

/// A warehouse acted on at `at` is still cooling down at `now`, under a
/// cooldown of `cooldown_ms`.
pub open spec fn cooling_at(at: u64, now: u64, cooldown_ms: u64) -> bool {
    (if now >= at {
        now - at
    } else {
        0
    }) < cooldown_ms
}

fn position(v: &Vec<(String, u64)>, warehouse: &str) -> (r: Option<usize>)
    ensures
        match r {
            Some(i) => i < v@.len() && cooldown_pairs(v@)[i as int].0 == warehouse@,
            None => !has_key(cooldown_pairs(v@), warehouse@),
        },
{
    let mut i: usize = 0;
    while i < v.len()
        invariant
            i <= v.len(),
            forall|j: int| 0 <= j < i ==> cooldown_pairs(v@)[j].0 != warehouse@,
        decreases v.len() - i,
    {
        if str_eq(v[i].0.as_str(), warehouse) {
            return Some(i);
        }
        i = i + 1;
    }
    None
}

impl Cooldowns {
    pub fn new() -> (r: Self)
        ensures
            r@ == Map::<Seq<char>, u64>::empty(),
    {
        let r = Cooldowns { entries: Vec::new() };
        assert(cooldown_pairs(r.entries@) =~= Seq::<(Seq<char>, u64)>::empty());
        assert(r@ =~= Map::<Seq<char>, u64>::empty());
        r
    }

    /// Whether `warehouse` was acted on less than `cooldown_ms` before `now`.
    pub fn cooling(&self, warehouse: &str, now_ms: u64, cooldown_ms: u64) -> (r: bool)
        ensures
            r == (self@.contains_key(warehouse@) && cooling_at(self@[warehouse@], now_ms, cooldown_ms)),
    {
        proof {
            use_type_invariant(self);
        }
        match position(&self.entries, warehouse) {
            Some(i) => {
                proof {
                    lemma_at(cooldown_pairs(self.entries@), i as int);
                }
                now_ms.saturating_sub(self.entries[i].1) < cooldown_ms
            },
            None => false,
        }
    }

    /// `warehouse` was acted on at `now_ms`.
    pub fn start(&mut self, warehouse: String, now_ms: u64)
        ensures
            final(self)@ == old(self)@.insert(warehouse@, now_ms),
    {
        proof {
            use_type_invariant(&*self);
        }
        let mut entries: Vec<(String, u64)> = Vec::new();
        std::mem::swap(&mut entries, &mut self.entries);
        let ghost ps = cooldown_pairs(entries@);
        match position(&entries, warehouse.as_str()) {
            Some(i) => {
                proof {
                    lemma_update(ps, i as int, now_ms);
                }
                entries.set(i, (warehouse, now_ms));
                assert(cooldown_pairs(entries@) =~= ps.update(i as int, (ps[i as int].0, now_ms)));
            },
            None => {
                proof {
                    lemma_push(ps, warehouse@, now_ms);
                }
                let ghost w = warehouse@;
                entries.push((warehouse, now_ms));
                assert(cooldown_pairs(entries@) =~= ps.push((w, now_ms)));
            },
        }
        self.entries = entries;
    }
}


/// What one warehouse's turn in a sweep came to.
#[derive(Debug, Clone, Copy, PartialEq, Eq)]
pub enum TurnOutcome {
    /// Cooling down, or no recommendation: nothing counted, nothing done.
    Quiet,
    /// A suggestion was noted (`suggest-only`).
    Suggested,
    /// `enforce` without a service session: nothing could be done.
    NoService,
    /// A suspend statement was sent, with this outcome.
    Executed(SuspendOutcome),
}

/// One warehouse's turn: its name, the time, whether the model recommends
/// a suspend, and how a suspend statement would fare.
pub type TurnEvent = (Seq<char>, u64, bool, SuspendOutcome);

/// A warehouse in `cooldowns` is cooling down at `now`.
pub open spec fn is_cooling(cooldowns: Map<Seq<char>, u64>, w: Seq<char>, now: u64, cooldown_ms: u64) -> bool {
    cooldowns.contains_key(w) && cooling_at(cooldowns[w], now, cooldown_ms)
}

/// One turn of the sweep on the last-action times `m`: quiet while the
/// warehouse cools down or without a recommendation; otherwise the planned
/// action, and the warehouse's cooldown starts where `starts_cooldown` says.
pub open spec fn sweep_turn_of(
    m: Map<Seq<char>, u64>,
    cooldown_ms: u64,
    mode: SuspendMode,
    has_service: bool,
    e: TurnEvent,
) -> (Map<Seq<char>, u64>, TurnOutcome) {
    let (w, now, recommended, outcome) = e;
    if is_cooling(m, w, now, cooldown_ms) || !recommended {
        (m, TurnOutcome::Quiet)
    } else if mode == SuspendMode::SuggestOnly {
        (m.insert(w, now), TurnOutcome::Suggested)
    } else if !has_service {
        (m, TurnOutcome::NoService)
    } else if starts_cooldown(false, outcome) {
        (m.insert(w, now), TurnOutcome::Executed(outcome))
    } else {
        (m, TurnOutcome::Executed(outcome))
    }
}

/// A run of turns from the last-action times `m`: the times after it and
/// each turn's outcome.
pub open spec fn sweep_run(
    m: Map<Seq<char>, u64>,
    cooldown_ms: u64,
    mode: SuspendMode,
    has_service: bool,
    evs: Seq<TurnEvent>,
) -> (Map<Seq<char>, u64>, Seq<TurnOutcome>)
    decreases evs.len(),
{
    if evs.len() == 0 {
        (m, seq![])
    } else {
        let prev = sweep_run(m, cooldown_ms, mode, has_service, evs.drop_last());
        let t = sweep_turn_of(prev.0, cooldown_ms, mode, has_service, evs.last());
        (t.0, prev.1.push(t.1))
    }
}

/// The action a warehouse's turn takes: none while it cools down (under the
/// configured cooldown) or without a recommendation, else the planned one.
pub fn sweep_turn(
    cooldowns: &Cooldowns,
    cooldown_ms: u64,
    mode: SuspendMode,
    has_service: bool,
    warehouse: &str,
    now_ms: u64,
    recommended: bool,
) -> (r: Option<SweepAction>)
    ensures
        r is None <==> (is_cooling(cooldowns@, warehouse@, now_ms, cooldown_ms) || !recommended),
        r matches Some(a) ==> {
            &&& mode == SuspendMode::SuggestOnly ==> a == SweepAction::Suggest
            &&& mode == SuspendMode::Enforce && !has_service ==> a == SweepAction::NoServiceSession
            &&& mode == SuspendMode::Enforce && has_service ==> (a matches SweepAction::Execute(sql)
                && sql@ == suspend_sql(warehouse@))
        },
{
    if cooldowns.cooling(warehouse, now_ms, cooldown_ms) || !recommended {
        None
    } else {
        Some(plan_sweep(mode, has_service, warehouse))
    }
}

impl Cooldowns {
    /// After an action on `warehouse` at `now_ms`: its cooldown starts
    /// where `starts_cooldown` says.
    pub fn record_turn(&mut self, warehouse: String, now_ms: u64, action_was_suggest: bool, outcome: SuspendOutcome)
        ensures
            final(self)@ == if starts_cooldown(action_was_suggest, outcome) {
                old(self)@.insert(warehouse@, now_ms)
            } else {
                old(self)@
            },
    {
        if cooldown_after(action_was_suggest, outcome) {
            self.start(warehouse, now_ms);
        }
    }
}

/// In `suggest-only` mode a run of sweeps never sends a statement: every
/// turn is quiet or a suggestion.
pub proof fn law_suggest_only_never_executes(
    m: Map<Seq<char>, u64>,
    cooldown_ms: u64,
    has_service: bool,
    evs: Seq<TurnEvent>,
)
    ensures
        forall|i: int|
            0 <= i < evs.len() ==> {
                let o = #[trigger] sweep_run(m, cooldown_ms, SuspendMode::SuggestOnly, has_service, evs).1[i];
                o == TurnOutcome::Quiet || o == TurnOutcome::Suggested
            },
        sweep_run(m, cooldown_ms, SuspendMode::SuggestOnly, has_service, evs).1.len() == evs.len(),
    decreases evs.len(),
{
    if evs.len() > 0 {
        law_suggest_only_never_executes(m, cooldown_ms, has_service, evs.drop_last());
        let prev = sweep_run(m, cooldown_ms, SuspendMode::SuggestOnly, has_service, evs.drop_last());
        let r = sweep_run(m, cooldown_ms, SuspendMode::SuggestOnly, has_service, evs);
        assert forall|i: int| 0 <= i < evs.len() implies r.1[i] == TurnOutcome::Quiet || r.1[i]
            == TurnOutcome::Suggested by {
            if i < evs.len() - 1 {
                assert(r.1[i] == prev.1[i]);
            }
        }
    }
}

/// Turns whose times never go back.
pub open spec fn in_time_order(evs: Seq<TurnEvent>) -> bool {
    forall|a: int, b: int| 0 <= a <= b < evs.len() ==> (#[trigger] evs[a]).1 <= (#[trigger] evs[b]).1
}

/// The turn at `i` started the warehouse's cooldown.
pub open spec fn started_cooldown(o: TurnOutcome) -> bool {
    o == TurnOutcome::Suggested || (o matches TurnOutcome::Executed(x) && starts_cooldown(false, x))
}

proof fn lemma_run_prefix(
    m: Map<Seq<char>, u64>,
    cd: u64,
    mode: SuspendMode,
    hs: bool,
    evs: Seq<TurnEvent>,
    k: int,
)
    requires
        0 <= k <= evs.len(),
    ensures
        sweep_run(m, cd, mode, hs, evs).1.len() == evs.len(),
        forall|i: int| 0 <= i < k ==> sweep_run(m, cd, mode, hs, evs.take(k)).1[i] == sweep_run(m, cd, mode, hs, evs).1[i],
    decreases evs.len(),
{
    if evs.len() > 0 {
        if k == evs.len() {
            assert(evs.take(k) =~= evs);
            lemma_run_prefix(m, cd, mode, hs, evs.drop_last(), 0);
        } else {
            lemma_run_prefix(m, cd, mode, hs, evs.drop_last(), k);
            assert(evs.drop_last().take(k) =~= evs.take(k));
            let r = sweep_run(m, cd, mode, hs, evs);
            let prev = sweep_run(m, cd, mode, hs, evs.drop_last());
            assert forall|i: int| 0 <= i < k implies sweep_run(m, cd, mode, hs, evs.take(k)).1[i] == r.1[i] by {
                assert(r.1[i] == prev.1[i]);
            }
        }
    }
}

/// Once a turn at `i` started a warehouse's cooldown, its last-action time
/// after any later prefix is the time of some turn from `i` on.
proof fn lemma_last_action_since(
    m: Map<Seq<char>, u64>,
    cd: u64,
    mode: SuspendMode,
    hs: bool,
    evs: Seq<TurnEvent>,
    i: int,
    k: int,
)
    requires
        0 <= i < k <= evs.len(),
        started_cooldown(sweep_run(m, cd, mode, hs, evs.take(i + 1)).1[i]),
    ensures
        sweep_run(m, cd, mode, hs, evs.take(k)).0.contains_key(evs[i].0),
        exists|t: int|
            i <= t < k && sweep_run(m, cd, mode, hs, evs.take(k)).0[evs[i].0] == #[trigger] evs[t].1,
    decreases k - i,
{
    let w = evs[i].0;
    if k == i + 1 {
        let pre = evs.take(i + 1);
        assert(pre.drop_last() =~= evs.take(i));
        assert(pre.last() == evs[i]);
        let prev = sweep_run(m, cd, mode, hs, evs.take(i));
        lemma_run_prefix(m, cd, mode, hs, evs.take(i), i);
        assert(sweep_run(m, cd, mode, hs, pre).1[i] == sweep_turn_of(prev.0, cd, mode, hs, evs[i]).1);
        assert(sweep_run(m, cd, mode, hs, pre).0[w] == evs[i].1);
    } else {
        lemma_last_action_since(m, cd, mode, hs, evs, i, k - 1);
        let pre = evs.take(k);
        assert(pre.drop_last() =~= evs.take(k - 1));
        assert(pre.last() == evs[k - 1]);
        let prev = sweep_run(m, cd, mode, hs, evs.take(k - 1)).0;
        let t = choose|t: int| i <= t < k - 1 && prev[w] == #[trigger] evs[t].1;
        let now = sweep_run(m, cd, mode, hs, pre).0;
        if now[w] == evs[k - 1].1 {
            assert(evs[k - 1].1 == evs[k - 1].1);
        } else {
            assert(now[w] == prev[w]);
            assert(now[w] == evs[t].1);
        }
    }
}

/// The configured cooldown holds over a run of sweeps: once a turn on a
/// warehouse started its cooldown, every later turn on it within
/// `cooldown_ms` is quiet (turns in time order).
pub proof fn law_cooldown_between_actions(
    m: Map<Seq<char>, u64>,
    cooldown_ms: u64,
    mode: SuspendMode,
    has_service: bool,
    evs: Seq<TurnEvent>,
    i: int,
    j: int,
)
    requires
        in_time_order(evs),
        0 <= i < j < evs.len(),
        evs[i].0 == evs[j].0,
        started_cooldown(sweep_run(m, cooldown_ms, mode, has_service, evs).1[i]),
        evs[j].1 < evs[i].1 + cooldown_ms,
    ensures
        sweep_run(m, cooldown_ms, mode, has_service, evs).1[j] == TurnOutcome::Quiet,
{
    lemma_run_prefix(m, cooldown_ms, mode, has_service, evs, i + 1);
    lemma_run_prefix(m, cooldown_ms, mode, has_service, evs, j + 1);
    lemma_last_action_since(m, cooldown_ms, mode, has_service, evs, i, j);
    let w = evs[i].0;
    let before = sweep_run(m, cooldown_ms, mode, has_service, evs.take(j)).0;
    let t = choose|t: int| i <= t < j && before[w] == #[trigger] evs[t].1;
    assert(evs[i].1 <= evs[t].1 && evs[t].1 <= evs[j].1);
    assert(is_cooling(before, w, evs[j].1, cooldown_ms));
    let pre = evs.take(j + 1);
    assert(pre.drop_last() =~= evs.take(j));
    assert(pre.last() == evs[j]);
    lemma_run_prefix(m, cooldown_ms, mode, has_service, evs.take(j), j);
}


/// Every answered action starts the warehouse's cooldown: after a
/// suggestion, a successful suspend or a rejected statement, later turns on
/// that warehouse within the configured cooldown do nothing (turns in time
/// order), so a standing recommendation is not acted on again at every
/// sweep.
pub proof fn law_answered_actions_start_the_cooldown(
    m: Map<Seq<char>, u64>,
    cooldown_ms: u64,
    mode: SuspendMode,
    has_service: bool,
    evs: Seq<TurnEvent>,
    i: int,
    j: int,
)
    requires
        in_time_order(evs),
        0 <= i < j < evs.len(),
        evs[i].0 == evs[j].0,
        evs[j].1 < evs[i].1 + cooldown_ms,
        ({
            let o = sweep_run(m, cooldown_ms, mode, has_service, evs).1[i];
            o == TurnOutcome::Suggested || o == TurnOutcome::Executed(SuspendOutcome::Suspended)
                || o == TurnOutcome::Executed(SuspendOutcome::Rejected)
        }),
    ensures
        sweep_run(m, cooldown_ms, mode, has_service, evs).1[j] == TurnOutcome::Quiet,
{
    law_cooldown_between_actions(m, cooldown_ms, mode, has_service, evs, i, j);
}

/// Only a failed call leaves the cooldown unstarted: a turn whose suspend
/// statement failed keeps every warehouse's last-action time, and a turn
/// that suggested or whose statement was answered records the turn's time
/// for its warehouse.
pub proof fn law_only_failed_calls_leave_the_cooldown_unstarted(
    m: Map<Seq<char>, u64>,
    cooldown_ms: u64,
    mode: SuspendMode,
    has_service: bool,
    e: TurnEvent,
)
    ensures
        ({
            let (after, o) = sweep_turn_of(m, cooldown_ms, mode, has_service, e);
            &&& o == TurnOutcome::Executed(SuspendOutcome::Failed) ==> after == m
            &&& (o == TurnOutcome::Suggested || o == TurnOutcome::Executed(SuspendOutcome::Suspended)
                || o == TurnOutcome::Executed(SuspendOutcome::Rejected)) ==> after == m.insert(e.0, e.1)
            &&& (o == TurnOutcome::Quiet || o == TurnOutcome::NoService) ==> after == m
        }),
{
}

} // verus!
