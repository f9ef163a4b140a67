//! The health registry: the harness's honest read of its own machinery.

use vstd::prelude::*;

use crate::text;
use crate::text_map::Dup;
use crate::text_map::TextMap;

verus! {

/// Health of one secrets provider.
#[derive(Debug)]
pub struct SecretHealth {
    pub last_ok: Option<i64>,
    pub last_error: Option<String>,
    /// Failures in a row since the last success.
    pub consecutive_failures: u32,
    pub last_checked: Option<i64>,
}

/// Health of one stimulus or duty.
#[derive(Debug)]
pub struct StimulusHealth {
    pub last_fired: Option<i64>,
    pub last_ok: Option<i64>,
    pub fire_count: u64,
    pub error_count: u64,
    /// Errors in a row since the last success.
    pub consecutive_failures: u32,
    pub last_error: Option<String>,
}

/// The configuration of one registered duty.
#[derive(Debug)]
pub struct DutyInfo {
    pub id: String,
    pub trigger: String,
    pub entry: String,
}

impl Dup for SecretHealth {
    fn dup(&self) -> (r: Self) {
        SecretHealth {
            last_ok: self.last_ok,
            last_error: text::opt_copy(&self.last_error),
            consecutive_failures: self.consecutive_failures,
            last_checked: self.last_checked,
        }
    }
}

impl Dup for StimulusHealth {
    fn dup(&self) -> (r: Self) {
        StimulusHealth {
            last_fired: self.last_fired,
            last_ok: self.last_ok,
            fire_count: self.fire_count,
            error_count: self.error_count,
            consecutive_failures: self.consecutive_failures,
            last_error: text::opt_copy(&self.last_error),
        }
    }
}

impl Dup for DutyInfo {
    fn dup(&self) -> (r: Self) {
        DutyInfo { id: self.id.clone(), trigger: self.trigger.clone(), entry: self.entry.clone() }
    }
}

impl Clone for SecretHealth {
    fn clone(&self) -> (r: Self)
        ensures
            r == *self,
    {
        self.dup()
    }
}

impl Clone for StimulusHealth {
    fn clone(&self) -> (r: Self)
        ensures
            r == *self,
    {
        self.dup()
    }
}

impl Default for SecretHealth {
    fn default() -> (r: Self)
        ensures
            r == unchecked(),
    {
        SecretHealth { last_ok: None, last_error: None, consecutive_failures: 0, last_checked: None }
    }
}

impl Default for StimulusHealth {
    fn default() -> (r: Self)
        ensures
            r == unfired(),
    {
        StimulusHealth {
            last_fired: None,
            last_ok: None,
            fire_count: 0,
            error_count: 0,
            consecutive_failures: 0,
            last_error: None,
        }
    }
}

/// A provider that was never exercised.
pub open spec fn unchecked() -> SecretHealth {
    SecretHealth { last_ok: None, last_error: None, consecutive_failures: 0, last_checked: None }
}

/// A duty that never fired.
pub open spec fn unfired() -> StimulusHealth {
    StimulusHealth {
        last_fired: None,
        last_ok: None,
        fire_count: 0,
        error_count: 0,
        consecutive_failures: 0,
        last_error: None,
    }
}

/// A provider that has succeeded and is in no failure streak.
pub open spec fn secret_ok(h: SecretHealth) -> bool {
    h.consecutive_failures == 0 && h.last_ok is Some
}

/// A duty in no failure streak.
pub open spec fn stimulus_ok(h: StimulusHealth) -> bool {
    h.consecutive_failures == 0
}

impl SecretHealth {
    /// Whether the provider has succeeded and is in no failure streak.
    pub fn is_ok(&self) -> (r: bool)
        ensures
            r == secret_ok(*self),
    {
        self.consecutive_failures == 0 && self.last_ok.is_some()
    }
}

impl StimulusHealth {
    /// Whether the duty is in no failure streak.
    pub fn is_ok(&self) -> (r: bool)
        ensures
            r == stimulus_ok(*self),
    {
        self.consecutive_failures == 0
    }
}

/// A copy of the whole registry at one time.
pub struct HealthSnapshot {
    pub duties: Vec<DutyInfo>,
    pub secrets: TextMap<SecretHealth>,
    pub stimuli: TextMap<StimulusHealth>,
    pub cycles_ok: u64,
    pub cycles_err: u64,
    pub booted_at: i64,
}

/// The contents of the registry.
#[verifier::ext_equal]
pub struct HealthView {
    pub duties: Seq<DutyInfo>,
    pub secrets: Map<Seq<char>, SecretHealth>,
    pub stimuli: Map<Seq<char>, StimulusHealth>,
    pub cycles_ok: u64,
    pub cycles_err: u64,
    pub booted_at: i64,
}

impl View for HealthSnapshot {
    type V = HealthView;

    open spec fn view(&self) -> HealthView {
        HealthView {
            duties: self.duties@,
            secrets: self.secrets@,
            stimuli: self.stimuli@,
            cycles_ok: self.cycles_ok,
            cycles_err: self.cycles_err,
            booted_at: self.booted_at,
        }
    }
}

/// The registry that every subsystem reports to.
pub struct HealthRegistry {
    state: HealthSnapshot,
}

impl View for HealthRegistry {
    type V = HealthView;

    closed spec fn view(&self) -> HealthView {
        self.state@
    }
}

/// What is known of a provider.
pub open spec fn secret_at(v: HealthView, name: Seq<char>) -> SecretHealth {
    if v.secrets.dom().contains(name) {
        v.secrets[name]
    } else {
        unchecked()
    }
}

/// What is known of a duty.
pub open spec fn stimulus_at(v: HealthView, id: Seq<char>) -> StimulusHealth {
    if v.stimuli.dom().contains(id) {
        v.stimuli[id]
    } else {
        unfired()
    }
}

/// One more, up to the largest 32-bit count.
pub open spec fn next32(n: u32) -> u32 {
    if n < u32::MAX {
        (n + 1) as u32
    } else {
        n
    }
}

/// One more, up to the largest 64-bit count.
pub open spec fn next64(n: u64) -> u64 {
    if n < u64::MAX {
        (n + 1) as u64
    } else {
        n
    }
}

/// The registry with another record for one provider and everything else as it was.
pub open spec fn with_secret(v: HealthView, name: Seq<char>, h: SecretHealth) -> HealthView {
    HealthView { secrets: v.secrets.insert(name, h), ..v }
}

/// The registry with another record for one duty and everything else as it was.
pub open spec fn with_stimulus(v: HealthView, id: Seq<char>, h: StimulusHealth) -> HealthView {
    HealthView { stimuli: v.stimuli.insert(id, h), ..v }
}

/// A registry that knows nothing but when it was booted.
pub open spec fn fresh(booted_at: i64) -> HealthView {
    HealthView {
        duties: Seq::empty(),
        secrets: Map::empty(),
        stimuli: Map::empty(),
        cycles_ok: 0,
        cycles_err: 0,
        booted_at,
    }
}

/// The registry with another roster of duties.
pub open spec fn with_duties(v: HealthView, duties: Seq<DutyInfo>) -> HealthView {
    HealthView { duties, ..v }
}

/// The registry with one more finished wake counted.
pub open spec fn cycle_counted(v: HealthView, ok: bool) -> HealthView {
    if ok {
        HealthView { cycles_ok: next64(v.cycles_ok), ..v }
    } else {
        HealthView { cycles_err: next64(v.cycles_err), ..v }
    }
}

/// The registry after a duty fired.
pub open spec fn stimulus_fired(v: HealthView, id: Seq<char>, now: i64) -> HealthView {
    with_stimulus(
        v,
        id,
        StimulusHealth {
            last_fired: Some(now),
            fire_count: next64(stimulus_at(v, id).fire_count),
            ..stimulus_at(v, id)
        },
    )
}

/// The registry after a provider succeeded.
pub open spec fn secret_recovered(v: HealthView, name: Seq<char>, now: i64) -> HealthView {
    with_secret(
        v,
        name,
        SecretHealth {
            last_ok: Some(now),
            last_error: None,
            consecutive_failures: 0,
            last_checked: Some(now),
        },
    )
}

/// Whether `after` is the registry after a provider failed with that message.
pub open spec fn secret_failed(
    before: HealthView,
    after: HealthView,
    name: Seq<char>,
    err: Seq<char>,
    now: i64,
) -> bool {
    let h = after.secrets[name];
    &&& text::opt(h.last_error) == Some(err)
    &&& h == (SecretHealth {
        last_error: h.last_error,
        consecutive_failures: next32(secret_at(before, name).consecutive_failures),
        last_checked: Some(now),
        ..secret_at(before, name)
    })
    &&& after == with_secret(before, name, h)
}

/// The registry after a duty's cycle succeeded.
pub open spec fn stimulus_recovered(v: HealthView, id: Seq<char>, now: i64) -> HealthView {
    with_stimulus(
        v,
        id,
        StimulusHealth {
            last_ok: Some(now),
            consecutive_failures: 0,
            last_error: None,
            ..stimulus_at(v, id)
        },
    )
}

/// Whether `after` is the registry after a duty failed with that message.
pub open spec fn stimulus_failed(before: HealthView, after: HealthView, id: Seq<char>, err: Seq<char>) -> bool {
    let h = after.stimuli[id];
    &&& text::opt(h.last_error) == Some(err)
    &&& h == (StimulusHealth {
        last_error: h.last_error,
        error_count: next64(stimulus_at(before, id).error_count),
        consecutive_failures: next32(stimulus_at(before, id).consecutive_failures),
        ..stimulus_at(before, id)
    })
    &&& after == with_stimulus(before, id, h)
}

impl HealthRegistry {
    /// A registry that knows nothing but when it was booted.
    pub fn new(booted_at: i64) -> (r: Self)
        ensures
            r@ == fresh(booted_at),
    {
        HealthRegistry {
            state: HealthSnapshot {
                duties: Vec::new(),
                secrets: TextMap::new(),
                stimuli: TextMap::new(),
                cycles_ok: 0,
                cycles_err: 0,
                booted_at,
            },
        }
    }

    fn secret(&self, name: &str) -> (r: SecretHealth)
        ensures
            r == secret_at(self@, name@),
    {
        match self.state.secrets.get(name) {
            Some(h) => h.dup(),
            None => SecretHealth::default(),
        }
    }

    fn stimulus(&self, id: &str) -> (r: StimulusHealth)
        ensures
            r == stimulus_at(self@, id@),
    {
        match self.state.stimuli.get(id) {
            Some(h) => h.dup(),
            None => StimulusHealth::default(),
        }
    }

    /// A provider materialised a token: its failure streak is over.
    pub fn record_secret_ok(&mut self, name: &str, now: i64)
        ensures
            final(self)@ == secret_recovered(old(self)@, name@, now),
    {
        self.state.secrets.insert(
            name,
            SecretHealth {
                last_ok: Some(now),
                last_error: None,
                consecutive_failures: 0,
                last_checked: Some(now),
            },
        );
    }

    /// A provider failed: its streak grows and the reason is kept.
    pub fn record_secret_err(&mut self, name: &str, err: &str, now: i64)
        ensures
            secret_failed(old(self)@, final(self)@, name@, err@, now),
    {
        let mut h = self.secret(name);
        h.last_checked = Some(now);
        h.consecutive_failures = h.consecutive_failures.saturating_add(1);
        h.last_error = Some(err.to_owned());
        self.state.secrets.insert(name, h);
        assert(self@.secrets[name@] == h);
    }

    /// A duty fired.
    pub fn record_stimulus_fired(&mut self, id: &str, now: i64)
        ensures
            final(self)@ == stimulus_fired(old(self)@, id@, now),
    {
        let mut h = self.stimulus(id);
        h.last_fired = Some(now);
        h.fire_count = h.fire_count.saturating_add(1);
        self.state.stimuli.insert(id, h);
    }

    /// A duty's cycle completed: its failure streak is over.
    pub fn record_stimulus_ok(&mut self, id: &str, now: i64)
        ensures
            final(self)@ == stimulus_recovered(old(self)@, id@, now),
    {
        let mut h = self.stimulus(id);
        h.last_ok = Some(now);
        h.consecutive_failures = 0;
        h.last_error = None;
        self.state.stimuli.insert(id, h);
    }

    /// A duty's cycle or ingest failed.
    pub fn record_stimulus_err(&mut self, id: &str, err: &str)
        ensures
            stimulus_failed(old(self)@, final(self)@, id@, err@),
    {
        let mut h = self.stimulus(id);
        h.error_count = h.error_count.saturating_add(1);
        h.consecutive_failures = h.consecutive_failures.saturating_add(1);
        h.last_error = Some(err.to_owned());
        self.state.stimuli.insert(id, h);
        assert(self@.stimuli[id@] == h);
    }

    /// Replaces the roster of configured duties.
    pub fn set_duties(&mut self, duties: Vec<DutyInfo>)
        ensures
            final(self)@ == with_duties(old(self)@, duties@),
    {
        self.state.duties = duties;
    }

    /// Counts one finished wake.
    pub fn record_cycle(&mut self, ok: bool)
        ensures
            final(self)@ == cycle_counted(old(self)@, ok),
    {
        if ok {
            self.state.cycles_ok = self.state.cycles_ok.saturating_add(1);
        } else {
            self.state.cycles_err = self.state.cycles_err.saturating_add(1);
        }
    }

    /// A copy of the registry as it is.
    pub fn snapshot(&self) -> (r: HealthSnapshot)
        ensures
            r@ == self@,
    {
        let mut duties: Vec<DutyInfo> = Vec::new();
        let mut i: usize = 0;
        while i < self.state.duties.len()
            invariant
                i <= self.state.duties.len(),
                duties@ == self.state.duties@.take(i as int),
            decreases self.state.duties.len() - i,
        {
            duties.push(self.state.duties[i].dup());
            i += 1;
            assert(duties@ == self.state.duties@.take(i as int));
        }
        assert(duties@ == self.state.duties@);
        HealthSnapshot {
            duties,
            secrets: self.state.secrets.dup(),
            stimuli: self.state.stimuli.dup(),
            cycles_ok: self.state.cycles_ok,
            cycles_err: self.state.cycles_err,
            booted_at: self.state.booted_at,
        }
    }
}

/// Whether `after` is the registry after one report to it.
pub open spec fn one_report(before: HealthView, after: HealthView) -> bool {
    ||| exists|name: Seq<char>, now: i64| after == #[trigger] secret_recovered(before, name, now)
    ||| exists|name: Seq<char>, err: Seq<char>, now: i64| #[trigger]
        secret_failed(before, after, name, err, now)
    ||| exists|id: Seq<char>, now: i64| after == #[trigger] stimulus_fired(before, id, now)
    ||| exists|id: Seq<char>, now: i64| after == #[trigger] stimulus_recovered(before, id, now)
    ||| exists|id: Seq<char>, err: Seq<char>| #[trigger] stimulus_failed(before, after, id, err)
    ||| exists|duties: Seq<DutyInfo>| after == #[trigger] with_duties(before, duties)
    ||| exists|ok: bool| after == #[trigger] cycle_counted(before, ok)
}

/// A registry's states since boot: it starts fresh, and each one follows by one report.
pub open spec fn history(states: Seq<HealthView>) -> bool {
    &&& states.len() > 0
    &&& exists|booted_at: i64| states[0] == #[trigger] fresh(booted_at)
    &&& forall|i: int| 0 < i < states.len() ==> one_report(states[i - 1], #[trigger] states[i])
}

/// A provider's record agrees with itself: it was checked, and it is healthy exactly where it is in
/// no streak, which is exactly where it has no error.
pub open spec fn coherent_secret(h: SecretHealth) -> bool {
    &&& secret_ok(h) == (h.consecutive_failures == 0)
    &&& (h.consecutive_failures == 0) == (h.last_error is None)
    &&& h.last_checked is Some
}

/// A duty's record agrees with itself: it has an error exactly where it is in a streak, no streak is
/// longer than its errors, and it never fired exactly where it counts no fire.
pub open spec fn coherent_stimulus(h: StimulusHealth) -> bool {
    &&& (h.consecutive_failures == 0) == (h.last_error is None)
    &&& h.consecutive_failures <= h.error_count
    &&& (h.fire_count == 0) == (h.last_fired is None)
}

/// Every record agrees with itself.
pub open spec fn coherent(v: HealthView) -> bool {
    &&& forall|k: Seq<char>| #[trigger] v.secrets.dom().contains(k) ==> coherent_secret(v.secrets[k])
    &&& forall|k: Seq<char>| #[trigger] v.stimuli.dom().contains(k) ==> coherent_stimulus(v.stimuli[k])
}

/// A report keeps every record coherent.
pub proof fn a_report_keeps_the_registry_coherent(before: HealthView, after: HealthView)
    requires
        coherent(before),
        one_report(before, after),
    ensures
        coherent(after),
{
    assert(coherent_stimulus(unfired()));
    assert forall|k: Seq<char>| coherent_stimulus(#[trigger] stimulus_at(before, k)) by {}
    assert forall|k: Seq<char>| #[trigger] after.secrets.dom().contains(k) implies coherent_secret(
        after.secrets[k],
    ) by {
        if before.secrets.dom().contains(k) {
            assert(coherent_secret(before.secrets[k]));
        }
    }
    assert forall|k: Seq<char>| #[trigger] after.stimuli.dom().contains(k) implies coherent_stimulus(
        after.stimuli[k],
    ) by {
        assert(coherent_stimulus(stimulus_at(before, k)));
        if before.stimuli.dom().contains(k) {
            assert(coherent_stimulus(before.stimuli[k]));
        }
    }
}

/// In every registry that was made fresh and then reported to, in whatever order, every record agrees
/// with itself.
pub proof fn every_registry_is_coherent(states: Seq<HealthView>)
    requires
        history(states),
    ensures
        coherent(states.last()),
    decreases states.len(),
{
    if states.len() > 1 {
        let d = states.drop_last();
        assert(d[0] == states[0]);
        assert forall|i: int| 0 < i < d.len() implies one_report(d[i - 1], #[trigger] d[i]) by {
            assert(one_report(states[i - 1], states[i]));
        }
        every_registry_is_coherent(d);
        let n = states.len() - 1;
        assert(one_report(states[n - 1], states[n]));
        a_report_keeps_the_registry_coherent(d.last(), states.last());
    }
}

/// A coarse duration: days and hours, hours and minutes, or minutes. A negative one counts as none.
pub open spec fn duration(secs: int) -> Seq<char> {
    let s = if secs < 0 {
        0
    } else {
        secs
    };
    let d = s / 86400;
    let h = (s % 86400) / 3600;
    let m = (s % 3600) / 60;
    if d > 0 {
        text::decimal(d) + "d"@ + text::decimal(h) + "h"@
    } else if h > 0 {
        text::decimal(h) + "h"@ + text::decimal(m) + "m"@
    } else {
        text::decimal(m) + "m"@
    }
}

/// How long ago something was, to the minute.
pub open spec fn since(now: i64, ts: i64) -> Seq<char> {
    if now - ts < 60 {
        "just now"@
    } else {
        duration(now - ts) + " ago"@
    }
}

/// How long ago something was, if it ever was.
pub open spec fn since_opt(now: i64, ts: Option<i64>) -> Seq<char> {
    match ts {
        Some(t) => since(now, t),
        None => "never"@,
    }
}

fn dur(secs: i128) -> (r: String)
    ensures
        r@ == duration(secs as int),
{
    let s: u128 = if secs < 0 {
        0
    } else {
        secs as u128
    };
    let d: u128 = s / 86400;
    let h: u128 = (s % 86400) / 3600;
    let m: u128 = (s % 3600) / 60;
    if d > 0 {
        let mut r = text::nat_text(d);
        r.append("d");
        r.append(&text::nat_text(h));
        r.append("h");
        r
    } else if h > 0 {
        let mut r = text::nat_text(h);
        r.append("h");
        r.append(&text::nat_text(m));
        r.append("m");
        r
    } else {
        let mut r = text::nat_text(m);
        r.append("m");
        r
    }
}

fn ago(now: i64, ts: i64) -> (r: String)
    ensures
        r@ == since(now, ts),
{
    let d: i128 = now as i128 - ts as i128;
    if d < 60 {
        "just now".to_owned()
    } else {
        let mut r = dur(d);
        r.append(" ago");
        r
    }
}

fn opt_ago(now: i64, ts: Option<i64>) -> (r: String)
    ensures
        r@ == since_opt(now, ts),
{
    match ts {
        Some(t) => ago(now, t),
        None => "never".to_owned(),
    }
}

/// The last error, or a question mark where none is known.
pub open spec fn reason(e: Option<String>) -> Seq<char> {
    match e {
        Some(s) => s@,
        None => "?"@,
    }
}

/// A failure streak and its last reason.
pub open spec fn streak(failures: u32, e: Option<String>) -> Seq<char> {
    "FAILING ("@ + text::decimal(failures as int) + " in a row) — last: \""@ + reason(e) + "\""@
}

fn write_streak(failures: u32, e: &Option<String>) -> (r: String)
    ensures
        r@ == streak(failures, *e),
{
    let mut r = "FAILING (".to_owned();
    r.append(&text::nat_text(failures as u128));
    r.append(" in a row) — last: \"");
    match e {
        Some(s) => {
            r.append(s);
        },
        None => {
            r.append("?");
        },
    }
    r.append("\"");
    r
}

/// The line of one provider.
pub open spec fn secret_line(name: Seq<char>, h: SecretHealth, now: i64) -> Seq<char> {
    "  - "@ + name + ": "@ + (if secret_ok(h) {
        "ok (last ok "@ + since_opt(now, h.last_ok) + ")"@
    } else {
        streak(h.consecutive_failures, h.last_error) + " — last ok "@ + since_opt(now, h.last_ok)
    }) + "\n"@
}

/// The lines of the providers with these names.
pub open spec fn secret_lines(v: HealthView, names: Seq<Seq<char>>, now: i64) -> Seq<char>
    decreases names.len(),
{
    if names.len() == 0 {
        Seq::empty()
    } else {
        secret_lines(v, names.drop_last(), now) + secret_line(names.last(), v.secrets[names.last()], now)
    }
}

/// The names of the providers, in order.
pub open spec fn secret_names(v: HealthView) -> Seq<Seq<char>> {
    crate::text_map::in_order(v.secrets.dom())
}

/// The names of the duties that have records, in order.
pub open spec fn stimulus_names(v: HealthView) -> Seq<Seq<char>> {
    crate::text_map::in_order(v.stimuli.dom())
}

/// The report on the providers: one line where all are well, a line each where any is not.
pub open spec fn secrets_report(v: HealthView, now: i64) -> Seq<char> {
    let names = secret_names(v);
    if names.len() == 0 {
        "\nSecrets: (none configured)\n"@
    } else if forall|i: int| 0 <= i < names.len() ==> secret_ok(v.secrets[#[trigger] names[i]]) {
        "\nSecrets: all ok — "@ + text::joined(names, ", "@) + "\n"@
    } else {
        "\nSecrets:\n"@ + secret_lines(v, names, now)
    }
}

/// How a configured duty is doing.
pub open spec fn duty_status(v: HealthView, id: Seq<char>, now: i64) -> Seq<char> {
    if !v.stimuli.dom().contains(id) {
        "never fired since boot"@
    } else {
        let h = v.stimuli[id];
        if stimulus_ok(h) {
            "ok — "@ + text::decimal(h.fire_count as int) + " fires, last "@ + since_opt(now, h.last_fired)
        } else {
            streak(h.consecutive_failures, h.last_error) + " — last fired "@ + since_opt(now, h.last_fired)
        }
    }
}

/// The line of one configured duty.
pub open spec fn duty_line(v: HealthView, d: DutyInfo, now: i64) -> Seq<char> {
    "  - "@ + d.id@ + " ["@ + d.trigger@ + " → "@ + d.entry@ + "]: "@ + duty_status(v, d.id@, now) + "\n"@
}

/// The lines of the configured duties.
pub open spec fn duty_lines(v: HealthView, duties: Seq<DutyInfo>, now: i64) -> Seq<char>
    decreases duties.len(),
{
    if duties.len() == 0 {
        Seq::empty()
    } else {
        duty_lines(v, duties.drop_last(), now) + duty_line(v, duties.last(), now)
    }
}

/// Whether a duty of that id is configured.
pub open spec fn configured(duties: Seq<DutyInfo>, id: Seq<char>) -> bool {
    exists|i: int| 0 <= i < duties.len() && (#[trigger] duties[i]).id@ == id
}

/// The line of a stimulus outside the roster.
pub open spec fn stray_line(id: Seq<char>, h: StimulusHealth, now: i64) -> Seq<char> {
    "  - "@ + id + ": "@ + (if stimulus_ok(h) {
        "ok — last "@ + since_opt(
            now,
            if h.last_ok is Some {
                h.last_ok
            } else {
                h.last_fired
            },
        )
    } else {
        streak(h.consecutive_failures, h.last_error)
    }) + "\n"@
}

/// The lines of the stimuli with these names that are outside the roster.
pub open spec fn stray_lines(v: HealthView, names: Seq<Seq<char>>, now: i64) -> Seq<char>
    decreases names.len(),
{
    if names.len() == 0 {
        Seq::empty()
    } else {
        let rest = stray_lines(v, names.drop_last(), now);
        if configured(v.duties, names.last()) {
            rest
        } else {
            rest + stray_line(names.last(), v.stimuli[names.last()], now)
        }
    }
}

/// The whole report: uptime and wakes, the providers, the roster, and what is outside it.
pub open spec fn report(v: HealthView, now: i64) -> Seq<char> {
    "Uptime "@ + duration(now - v.booted_at) + ". Cycles since boot: "@ + text::decimal(v.cycles_ok as int)
        + " ok, "@ + text::decimal(v.cycles_err as int) + " errored.\n"@ + secrets_report(v, now) + "\nStimuli ("@
        + text::decimal(v.duties.len() as int) + " duties):\n"@ + duty_lines(v, v.duties, now) + stray_lines(
        v,
        stimulus_names(v),
        now,
    )
}

fn write_secret(name: &str, h: &SecretHealth, now: i64) -> (r: String)
    ensures
        r@ == secret_line(name@, *h, now),
{
    let status = if h.is_ok() {
        let mut t = "ok (last ok ".to_owned();
        t.append(&opt_ago(now, h.last_ok));
        t.append(")");
        t
    } else {
        let mut t = write_streak(h.consecutive_failures, &h.last_error);
        t.append(" — last ok ");
        t.append(&opt_ago(now, h.last_ok));
        t
    };
    let mut r = "  - ".to_owned();
    r.append(name);
    r.append(": ");
    r.append(&status);
    r.append("\n");
    r
}

fn write_stray(id: &str, h: &StimulusHealth, now: i64) -> (r: String)
    ensures
        r@ == stray_line(id@, *h, now),
{
    let status = if h.is_ok() {
        let mut t = "ok — last ".to_owned();
        let at = if h.last_ok.is_some() {
            h.last_ok
        } else {
            h.last_fired
        };
        t.append(&opt_ago(now, at));
        t
    } else {
        write_streak(h.consecutive_failures, &h.last_error)
    };
    let mut r = "  - ".to_owned();
    r.append(id);
    r.append(": ");
    r.append(&status);
    r.append("\n");
    r
}

impl HealthSnapshot {
    fn all_secrets_ok(&self) -> (r: bool)
        ensures
            r == (forall|i: int|
                0 <= i < secret_names(self@).len() ==> secret_ok(self@.secrets[#[trigger] secret_names(self@)[i]])),
    {
        let n: usize = self.secrets.len();
        let mut i: usize = 0;
        while i < n
            invariant
                i <= n == self.secrets.keys().len(),
                forall|j: int| 0 <= j < i ==> secret_ok(self@.secrets[#[trigger] secret_names(self@)[j]]),
            decreases n - i,
        {
            if !self.secrets.value_at(i).is_ok() {
                assert(!secret_ok(self@.secrets[secret_names(self@)[i as int]]));
                return false;
            }
            i += 1;
        }
        true
    }

    fn write_secrets(&self, now: i64) -> (r: String)
        ensures
            r@ == secrets_report(self@, now),
    {
        let n: usize = self.secrets.len();
        if n == 0 {
            return "\nSecrets: (none configured)\n".to_owned();
        }
        let ghost names = secret_names(self@);
        if self.all_secrets_ok() {
            let mut list: Vec<String> = Vec::new();
            let mut i: usize = 0;
            while i < n
                invariant
                    i <= n == self.secrets.keys().len(),
                    names == self.secrets.keys(),
                    text::views(list@) == names.take(i as int),
                decreases n - i,
            {
                let k = self.secrets.key_at(i).clone();
                let ghost before = list@;
                list.push(k);
                assert(text::views(list@) == text::views(before).push(k@));
                i += 1;
                assert(text::views(list@) == names.take(i as int));
            }
            assert(names.take(i as int) == names);
            let mut r = "\nSecrets: all ok — ".to_owned();
            r.append(&text::join(&list, ", "));
            r.append("\n");
            return r;
        }
        let mut lines = String::new();
        let mut i: usize = 0;
        while i < n
            invariant
                i <= n == self.secrets.keys().len(),
                names == self.secrets.keys(),
                lines@ == secret_lines(self@, names.take(i as int), now),
            decreases n - i,
        {
            lines.append(&write_secret(self.secrets.key_at(i), self.secrets.value_at(i), now));
            assert(names.take(i + 1).drop_last() == names.take(i as int));
            i += 1;
        }
        assert(names.take(i as int) == names);
        let mut r = "\nSecrets:\n".to_owned();
        r.append(&lines);
        r
    }

    fn write_duty(&self, d: &DutyInfo, now: i64) -> (r: String)
        ensures
            r@ == duty_line(self@, *d, now),
    {
        let status = match self.stimuli.get(&d.id) {
            None => "never fired since boot".to_owned(),
            Some(h) => if h.is_ok() {
                let mut t = "ok — ".to_owned();
                t.append(&text::nat_text(h.fire_count as u128));
                t.append(" fires, last ");
                t.append(&opt_ago(now, h.last_fired));
                t
            } else {
                let mut t = write_streak(h.consecutive_failures, &h.last_error);
                t.append(" — last fired ");
                t.append(&opt_ago(now, h.last_fired));
                t
            },
        };
        let mut r = "  - ".to_owned();
        r.append(&d.id);
        r.append(" [");
        r.append(&d.trigger);
        r.append(" → ");
        r.append(&d.entry);
        r.append("]: ");
        r.append(&status);
        r.append("\n");
        r
    }

    fn write_duties(&self, now: i64) -> (r: String)
        ensures
            r@ == duty_lines(self@, self.duties@, now),
    {
        let mut r = String::new();
        let mut i: usize = 0;
        while i < self.duties.len()
            invariant
                i <= self.duties.len(),
                r@ == duty_lines(self@, self.duties@.take(i as int), now),
            decreases self.duties.len() - i,
        {
            r.append(&self.write_duty(&self.duties[i], now));
            assert(self.duties@.take(i + 1).drop_last() == self.duties@.take(i as int));
            i += 1;
        }
        assert(self.duties@.take(i as int) == self.duties@);
        r
    }

    fn is_configured(&self, id: &str) -> (r: bool)
        ensures
            r == configured(self.duties@, id@),
    {
        let mut i: usize = 0;
        while i < self.duties.len()
            invariant
                i <= self.duties.len(),
                forall|j: int| 0 <= j < i ==> (#[trigger] self.duties@[j]).id@ != id@,
            decreases self.duties.len() - i,
        {
            if text::same(&self.duties[i].id, id) {
                return true;
            }
            i += 1;
        }
        false
    }

    fn write_strays(&self, now: i64) -> (r: String)
        ensures
            r@ == stray_lines(self@, stimulus_names(self@), now),
    {
        let n: usize = self.stimuli.len();
        let ghost names = stimulus_names(self@);
        let mut r = String::new();
        let mut i: usize = 0;
        while i < n
            invariant
                i <= n == self.stimuli.keys().len(),
                names == self.stimuli.keys(),
                r@ == stray_lines(self@, names.take(i as int), now),
            decreases n - i,
        {
            assert(names.take(i + 1).drop_last() == names.take(i as int));
            let id = self.stimuli.key_at(i);
            if !self.is_configured(id) {
                r.append(&write_stray(id, self.stimuli.value_at(i), now));
            }
            i += 1;
        }
        assert(names.take(i as int) == names);
        r
    }

    /// The report that Reflect and the operator read: terse where all is well, detailed where not.
    pub fn render(&self, now: i64) -> (r: String)
        ensures
            r@ == report(self@, now),
    {
        let mut r = "Uptime ".to_owned();
        r.append(&dur(now as i128 - self.booted_at as i128));
        r.append(". Cycles since boot: ");
        r.append(&text::nat_text(self.cycles_ok as u128));
        r.append(" ok, ");
        r.append(&text::nat_text(self.cycles_err as u128));
        r.append(" errored.\n");
        r.append(&self.write_secrets(now));
        r.append("\nStimuli (");
        r.append(&text::nat_text(self.duties.len() as u128));
        r.append(" duties):\n");
        r.append(&self.write_duties(now));
        r.append(&self.write_strays(now));
        r
    }
}

/// A success ends a failure streak, however long, and touches no other record.
pub proof fn a_success_ends_a_streak(v: HealthView, name: Seq<char>, now: i64)
    ensures
        secret_ok(secret_at(secret_recovered(v, name, now), name)),
        stimulus_ok(stimulus_at(stimulus_recovered(v, name, now), name)),
        forall|other: Seq<char>|
            other != name ==> #[trigger] secret_at(secret_recovered(v, name, now), other) == secret_at(v, other),
        forall|other: Seq<char>|
            other != name ==> #[trigger] stimulus_at(stimulus_recovered(v, name, now), other) == stimulus_at(
                v,
                other,
            ),
{
}

/// A failure opens or lengthens a streak, remembers the last success, and touches no other record.
pub proof fn a_failure_keeps_the_last_success(
    before: HealthView,
    after: HealthView,
    name: Seq<char>,
    err: Seq<char>,
    now: i64,
)
    requires
        secret_failed(before, after, name, err, now),
    ensures
        !secret_ok(secret_at(after, name)),
        secret_at(after, name).consecutive_failures >= secret_at(before, name).consecutive_failures,
        secret_at(after, name).last_ok == secret_at(before, name).last_ok,
        forall|other: Seq<char>| other != name ==> #[trigger] secret_at(after, other) == secret_at(before, other),
        after.stimuli == before.stimuli,
{
}

/// A success of a provider is remembered with its time and ends its streak; its last failure leaves the
/// time of the last success, counts the streak up by one and remembers why. No other record changes.
pub proof fn a_provider_is_remembered(
    before: HealthView,
    after: HealthView,
    name: Seq<char>,
    other: Seq<char>,
    err: Seq<char>,
    now: i64,
)
    ensures
        ({
            let v = secret_recovered(before, name, now);
            &&& v.secrets.contains_key(name)
            &&& v.secrets[name].last_ok == Some(now)
            &&& v.secrets[name].last_checked == Some(now)
            &&& v.secrets[name].last_error is None
            &&& v.secrets[name].consecutive_failures == 0
            &&& v.stimuli == before.stimuli
            &&& v.duties == before.duties
            &&& v.cycles_ok == before.cycles_ok
            &&& v.cycles_err == before.cycles_err
            &&& v.booted_at == before.booted_at
            &&& other != name ==> (v.secrets.contains_key(other) <==> before.secrets.contains_key(other))
            &&& other != name && before.secrets.contains_key(other) ==> v.secrets[other] == before.secrets[other]
        }),
        secret_failed(before, after, name, err, now) ==> {
            let n = if before.secrets.contains_key(name) {
                before.secrets[name].consecutive_failures
            } else {
                0
            };
            &&& after.secrets.contains_key(name)
            &&& text::opt(after.secrets[name].last_error) == Some(err)
            &&& n < u32::MAX ==> after.secrets[name].consecutive_failures == n + 1
            &&& after.secrets[name].last_checked == Some(now)
            &&& before.secrets.contains_key(name) ==> after.secrets[name].last_ok == before.secrets[name].last_ok
            &&& !before.secrets.contains_key(name) ==> after.secrets[name].last_ok is None
            &&& after.stimuli == before.stimuli
            &&& other != name && before.secrets.contains_key(other) ==> after.secrets.contains_pair(
                other,
                before.secrets[other],
            )
        },
{
}

/// A duty that fires counts one fire more at its time, one that fails counts one error more and one more
/// in its streak, and one that succeeds ends its streak and keeps its counts. No other record changes.
pub proof fn a_duty_is_remembered(
    before: HealthView,
    after: HealthView,
    id: Seq<char>,
    other: Seq<char>,
    err: Seq<char>,
    now: i64,
)
    ensures
        ({
            let v = stimulus_fired(before, id, now);
            let h = v.stimuli[id];
            let b = stimulus_at(before, id);
            &&& v.stimuli.contains_key(id)
            &&& h.last_fired == Some(now)
            &&& b.fire_count < u64::MAX ==> h.fire_count == b.fire_count + 1
            &&& h.last_ok == b.last_ok
            &&& h.error_count == b.error_count
            &&& h.consecutive_failures == b.consecutive_failures
            &&& v.secrets == before.secrets
            &&& other != id && before.stimuli.contains_key(other) ==> v.stimuli.contains_pair(
                other,
                before.stimuli[other],
            )
        }),
        ({
            let v = stimulus_recovered(before, id, now);
            let h = v.stimuli[id];
            let b = stimulus_at(before, id);
            &&& v.stimuli.contains_key(id)
            &&& h.last_ok == Some(now)
            &&& h.consecutive_failures == 0
            &&& h.last_error is None
            &&& h.last_fired == b.last_fired
            &&& h.fire_count == b.fire_count
            &&& h.error_count == b.error_count
            &&& v.secrets == before.secrets
            &&& v.cycles_ok == before.cycles_ok
            &&& v.cycles_err == before.cycles_err
            &&& other != id && before.stimuli.contains_key(other) ==> v.stimuli.contains_pair(
                other,
                before.stimuli[other],
            )
        }),
        stimulus_failed(before, after, id, err) ==> {
            let h = after.stimuli[id];
            let b = stimulus_at(before, id);
            &&& after.stimuli.contains_key(id)
            &&& text::opt(h.last_error) == Some(err)
            &&& b.error_count < u64::MAX ==> h.error_count == b.error_count + 1
            &&& b.consecutive_failures < u32::MAX ==> h.consecutive_failures == b.consecutive_failures + 1
            &&& h.last_ok == b.last_ok
            &&& h.last_fired == b.last_fired
            &&& h.fire_count == b.fire_count
            &&& after.secrets == before.secrets
            &&& after.cycles_ok == before.cycles_ok
            &&& after.cycles_err == before.cycles_err
            &&& other != id && before.stimuli.contains_key(other) ==> after.stimuli.contains_pair(
                other,
                before.stimuli[other],
            )
        },
        !before.stimuli.contains_key(id) ==> ({
            let b = stimulus_at(before, id);
            b.last_fired is None && b.last_ok is None && b.fire_count == 0 && b.error_count == 0
                && b.consecutive_failures == 0 && b.last_error is None
        }),
        before.stimuli.contains_key(id) ==> stimulus_at(before, id) == before.stimuli[id],
{
}

/// A wake is counted on its own side, and a new roster changes nothing but the roster.
pub proof fn a_wake_is_counted_on_its_side(v: HealthView, duties: Seq<DutyInfo>, booted_at: i64)
    ensures
        v.cycles_ok < u64::MAX ==> cycle_counted(v, true).cycles_ok == v.cycles_ok + 1,
        cycle_counted(v, true).cycles_err == v.cycles_err,
        v.cycles_err < u64::MAX ==> cycle_counted(v, false).cycles_err == v.cycles_err + 1,
        cycle_counted(v, false).cycles_ok == v.cycles_ok,
        cycle_counted(v, true).secrets == v.secrets && cycle_counted(v, true).stimuli == v.stimuli,
        cycle_counted(v, false).secrets == v.secrets && cycle_counted(v, false).stimuli == v.stimuli,
        with_duties(v, duties).duties == duties,
        with_duties(v, duties).secrets == v.secrets,
        with_duties(v, duties).stimuli == v.stimuli,
        with_duties(v, duties).cycles_ok == v.cycles_ok,
        fresh(booted_at).booted_at == booted_at,
        fresh(booted_at).cycles_ok == 0 && fresh(booted_at).cycles_err == 0,
        fresh(booted_at).secrets.dom().is_empty() && fresh(booted_at).stimuli.dom().is_empty(),
        fresh(booted_at).duties.len() == 0,
{
}

/// A duration shows its two largest parts, days and hours or hours and minutes, or its minutes alone.
pub proof fn a_duration_shows_its_largest_parts(d: int, h: int, m: int, s: int)
    requires
        0 <= d,
        0 <= h < 24,
        0 <= m < 60,
        0 <= s < 60,
    ensures
        d > 0 ==> duration(d * 86400 + h * 3600 + m * 60 + s) == text::decimal(d) + "d"@ + text::decimal(h) + "h"@,
        d == 0 && h > 0 ==> duration(h * 3600 + m * 60 + s) == text::decimal(h) + "h"@ + text::decimal(m) + "m"@,
        d == 0 && h == 0 ==> duration(m * 60 + s) == text::decimal(m) + "m"@,
        duration(-s) == text::decimal(0) + "m"@,
{
    let x = d * 86400 + h * 3600 + m * 60 + s;
    assert(x / 86400 == d && x % 86400 == h * 3600 + m * 60 + s);
    assert((h * 3600 + m * 60 + s) / 3600 == h);
    assert(x % 3600 == m * 60 + s);
    assert((m * 60 + s) / 60 == m);
    assert((h * 3600 + m * 60 + s) % 3600 == m * 60 + s);
}

/// What is less than a minute ago is just now, what is longer ago says how long, and what never was says
/// so.
pub proof fn a_time_says_how_long_ago(now: i64, ts: i64)
    ensures
        now < ts + 60 ==> since_opt(now, Some(ts)) == "just now"@,
        now >= ts + 60 ==> since_opt(now, Some(ts)) == duration(now - ts) + " ago"@,
        since_opt(now, None) == "never"@,
{
}

/// A provider is well where it has succeeded and is in no streak, and a duty where it is in none.
pub proof fn what_is_well(s: SecretHealth, h: StimulusHealth)
    ensures
        secret_ok(s) <==> s.consecutive_failures == 0 && s.last_ok is Some,
        stimulus_ok(h) <==> h.consecutive_failures == 0,
{
}

/// The line of a provider says that it is well and since when, or how often it failed in a row, why, and
/// when it was last well.
pub proof fn a_provider_has_its_line(name: Seq<char>, h: SecretHealth, e: String, now: i64)
    ensures
        secret_ok(h) ==> secret_line(name, h, now) == "  - "@ + name + ": "@ + "ok (last ok "@ + since_opt(
            now,
            h.last_ok,
        ) + ")"@ + "\n"@,
        !secret_ok(h) && h.last_error == Some(e) ==> secret_line(name, h, now) == "  - "@ + name + ": "@
            + "FAILING ("@ + text::decimal(h.consecutive_failures as int) + " in a row) — last: \""@ + e@ + "\""@
            + " — last ok "@ + since_opt(now, h.last_ok) + "\n"@,
{
    let p = "  - "@ + name + ": "@;
    if secret_ok(h) {
        let q = "ok (last ok "@ + since_opt(now, h.last_ok) + ")"@;
        assert(p + q + "\n"@ == p + "ok (last ok "@ + since_opt(now, h.last_ok) + ")"@ + "\n"@);
    } else if h.last_error == Some(e) {
        let s = "FAILING ("@ + text::decimal(h.consecutive_failures as int) + " in a row) — last: \""@ + e@ + "\""@;
        let q = s + " — last ok "@ + since_opt(now, h.last_ok);
        assert(p + q + "\n"@ == p + "FAILING ("@ + text::decimal(h.consecutive_failures as int)
            + " in a row) — last: \""@ + e@ + "\""@ + " — last ok "@ + since_opt(now, h.last_ok) + "\n"@);
    }
}

/// The line of a configured duty names its trigger and its entry, and says that it never fired, how often
/// it did and when last, or how often it failed in a row and why.
pub proof fn a_duty_has_its_line(v: HealthView, d: DutyInfo, e: String, now: i64)
    ensures
        ({
            let head = "  - "@ + d.id@ + " ["@ + d.trigger@ + " → "@ + d.entry@ + "]: "@;
            &&& !v.stimuli.contains_key(d.id@) ==> duty_line(v, d, now) == head + "never fired since boot"@ + "\n"@
            &&& v.stimuli.contains_key(d.id@) && stimulus_ok(v.stimuli[d.id@]) ==> duty_line(v, d, now) == head + (
            "ok — "@ + text::decimal(v.stimuli[d.id@].fire_count as int) + " fires, last "@ + since_opt(
                now,
                v.stimuli[d.id@].last_fired,
            )) + "\n"@
            &&& v.stimuli.contains_key(d.id@) && !stimulus_ok(v.stimuli[d.id@]) && v.stimuli[d.id@].last_error
                == Some(e) ==> duty_line(v, d, now) == head + ("FAILING ("@ + text::decimal(
                v.stimuli[d.id@].consecutive_failures as int,
            ) + " in a row) — last: \""@ + e@ + "\""@ + " — last fired "@ + since_opt(
                now,
                v.stimuli[d.id@].last_fired,
            )) + "\n"@
        }),
{
}

/// A report holds what is known: the wakes on both sides, the length of the roster, and behind it a line
/// for each duty of the roster in its order; then one for each record outside of it.
pub proof fn a_report_holds_what_is_known(v: HealthView, now: i64)
    ensures
        report(v, now) == "Uptime "@ + duration(now - v.booted_at) + ". Cycles since boot: "@ + text::decimal(
            v.cycles_ok as int,
        ) + " ok, "@ + text::decimal(v.cycles_err as int) + " errored.\n"@ + secrets_report(v, now)
            + "\nStimuli ("@ + text::decimal(v.duties.len() as int) + " duties):\n"@ + duty_lines(v, v.duties, now)
            + stray_lines(v, stimulus_names(v), now),
        secret_names(v).len() == 0 ==> secrets_report(v, now) == "\nSecrets: (none configured)\n"@,
        secret_names(v).len() > 0 && (forall|i: int|
            0 <= i < secret_names(v).len() ==> secret_ok(v.secrets[#[trigger] secret_names(v)[i]])) ==> secrets_report(
            v,
            now,
        ) == "\nSecrets: all ok — "@ + text::joined(secret_names(v), ", "@) + "\n"@,
        (exists|i: int|
            0 <= i < secret_names(v).len() && !secret_ok(v.secrets[#[trigger] secret_names(v)[i]])) ==> secrets_report(
            v,
            now,
        ) == "\nSecrets:\n"@ + secret_lines(v, secret_names(v), now),
{
}

/// The lines of a report stand one behind the other: one more provider or duty adds its own line, and a
/// record is added as a stray exactly where no duty of the roster has its id.
pub proof fn one_more_record_is_one_more_line(
    v: HealthView,
    names: Seq<Seq<char>>,
    name: Seq<char>,
    duties: Seq<DutyInfo>,
    d: DutyInfo,
    now: i64,
)
    ensures
        secret_lines(v, Seq::empty(), now) == Seq::<char>::empty(),
        secret_lines(v, names.push(name), now) == secret_lines(v, names, now) + secret_line(
            name,
            v.secrets[name],
            now,
        ),
        duty_lines(v, Seq::empty(), now) == Seq::<char>::empty(),
        duty_lines(v, duties.push(d), now) == duty_lines(v, duties, now) + duty_line(v, d, now),
        stray_lines(v, Seq::empty(), now) == Seq::<char>::empty(),
        (exists|i: int| 0 <= i < v.duties.len() && (#[trigger] v.duties[i]).id@ == name) ==> stray_lines(
            v,
            names.push(name),
            now,
        ) == stray_lines(v, names, now),
        (forall|i: int| 0 <= i < v.duties.len() ==> (#[trigger] v.duties[i]).id@ != name) ==> stray_lines(
            v,
            names.push(name),
            now,
        ) == stray_lines(v, names, now) + stray_line(name, v.stimuli[name], now),
{
    assert(names.push(name).drop_last() == names);
    assert(duties.push(d).drop_last() == duties);
}

/// The line of a record outside the roster says that it is well and when it last was, or last fired where
/// it never was, or how often it failed in a row and why.
pub proof fn a_stray_has_its_line(id: Seq<char>, h: StimulusHealth, e: String, now: i64)
    ensures
        stimulus_ok(h) && h.last_ok is Some ==> stray_line(id, h, now) == "  - "@ + id + ": "@ + ("ok — last "@
            + since_opt(now, h.last_ok)) + "\n"@,
        stimulus_ok(h) && h.last_ok is None ==> stray_line(id, h, now) == "  - "@ + id + ": "@ + ("ok — last "@
            + since_opt(now, h.last_fired)) + "\n"@,
        !stimulus_ok(h) && h.last_error == Some(e) ==> stray_line(id, h, now) == "  - "@ + id + ": "@ + ("FAILING ("@
            + text::decimal(h.consecutive_failures as int) + " in a row) — last: \""@ + e@ + "\""@) + "\n"@,
{
}

/// A count goes up by one, and stays where it is at the largest there is.
pub proof fn a_count_stops_at_the_largest(n: u32, m: u64)
    ensures
        n < u32::MAX ==> next32(n) == n + 1,
        next32(u32::MAX) == u32::MAX,
        m < u64::MAX ==> next64(m) == m + 1,
        next64(u64::MAX) == u64::MAX,
{
}

} // verus!
