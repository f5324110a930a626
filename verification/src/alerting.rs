//! Which alerts are raised, repeated and cleared, and which errors are
//! reported.

use vstd::prelude::*;
use vstd::string::*;

use crate::clock::WallTime;
use crate::condition::{condition_of, parse_check, Comparison, Limit};
use crate::matrix::{check_start, Login, Matrix, Outgoing, RoomCheck};
use crate::solark::RegData;
use crate::text::{debug_text, quoted, tenths_decimal, tenths_text};
use crate::text_map::{precedes, TextMap};

verus! {

/// An alert as it is configured.
#[derive(Debug)]
pub struct AlertDesc {
    /// The value that is watched.
    pub metric: String,
    /// A comparison, and behind it the integer to compare with.
    pub check: String,
    /// The limit where no integer stands in `check`.
    pub limit: Option<Limit>,
    /// What the message says.
    pub msg: String,
    /// How many seconds the condition has to hold before a message is sent.
    pub delaysecs: u64,
}

/// The alerts, and how long to wait before a message is repeated: in seconds,
/// or else in minutes.
#[derive(Debug)]
pub struct AlertSettings {
    pub enable: bool,
    pub alerts: Vec<AlertDesc>,
    pub alert_timeout_secs: Option<u64>,
    pub alert_timeout_min: Option<u64>,
}

/// What is wrong with the settings.
#[derive(Debug, Clone, Copy, PartialEq, Eq, Structural)]
pub enum ConfigError {
    /// The alert at this place watches a value that is not read.
    UnknownMetric(usize),
    /// The check of the alert at this place is not a condition.
    BadCheck(usize),
    /// There is no time to wait before a message is repeated.
    NoTimeout,
    /// That time is too long.
    TimeoutTooLong,
}

/// The first thing wrong with the alerts from `from` on.
pub open spec fn alerts_problem(
    alerts: Seq<AlertDesc>,
    lookup: Map<Seq<char>, usize>,
    from: int,
) -> Option<ConfigError>
    decreases alerts.len() - from,
{
    if from < 0 || from >= alerts.len() {
        None
    } else if !lookup.contains_key(alerts[from].metric@) {
        Some(ConfigError::UnknownMetric(from as usize))
    } else if condition_of(alerts[from].check@, alerts[from].limit) is None {
        Some(ConfigError::BadCheck(from as usize))
    } else {
        alerts_problem(alerts, lookup, from + 1)
    }
}

impl AlertSettings {
    /// The seconds to wait before a message is repeated.
    pub open spec fn timeout(self) -> Result<int, ConfigError> {
        match (self.alert_timeout_secs, self.alert_timeout_min) {
            (Some(secs), _) => Ok(secs as int),
            (None, Some(min)) => if 60 * min <= u64::MAX {
                Ok(60 * min)
            } else {
                Err(ConfigError::TimeoutTooLong)
            },
            (None, None) => Err(ConfigError::NoTimeout),
        }
    }

    /// The first thing wrong with the settings, given the places of the values.
    pub open spec fn problem(self, lookup: Map<Seq<char>, usize>) -> Option<ConfigError> {
        match alerts_problem(self.alerts@, lookup, 0) {
            Some(e) => Some(e),
            None => match self.timeout() {
                Ok(_) => None,
                Err(e) => Some(e),
            },
        }
    }

    /// Computes `timeout`.
    fn timeout_secs(&self) -> (r: Result<u64, ConfigError>)
        ensures
            match r {
                Ok(secs) => self.timeout() == Ok::<int, ConfigError>(secs as int),
                Err(e) => self.timeout() == Err::<int, ConfigError>(e),
            },
    {
        match (self.alert_timeout_secs, self.alert_timeout_min) {
            (Some(secs), _) => Ok(secs),
            (None, Some(min)) => if min <= u64::MAX / 60 {
                Ok(min * 60)
            } else {
                Err(ConfigError::TimeoutTooLong)
            },
            (None, None) => Err(ConfigError::NoTimeout),
        }
    }

    /// Computes `problem`.
    pub fn find_problem(&self, metricmap: &TextMap<usize>) -> (r: Option<ConfigError>)
        requires
            metricmap.wf(),
        ensures
            r == self.problem(metricmap@),
    {
        let mut i: usize = 0;
        while i < self.alerts.len()
            invariant
                metricmap.wf(),
                i <= self.alerts@.len(),
                alerts_problem(self.alerts@, metricmap@, 0) == alerts_problem(
                    self.alerts@,
                    metricmap@,
                    i as int,
                ),
            decreases self.alerts@.len() - i,
        {
            let a = &self.alerts[i];
            if metricmap.get(a.metric.as_str()).is_none() {
                return Some(ConfigError::UnknownMetric(i));
            }
            if parse_check(a.check.as_str(), a.limit).is_none() {
                return Some(ConfigError::BadCheck(i));
            }
            i += 1;
        }
        match self.timeout_secs() {
            Err(e) => Some(e),
            Ok(_) => None,
        }
    }
}

/// Where an alert stands.
#[derive(Debug, Clone, Copy, PartialEq, Eq, Structural)]
pub enum AlertState {
    /// The condition does not hold.
    Idle,
    /// The condition has held since then, and no message has been sent.
    Pending(WallTime),
    /// The condition holds, and the last message was sent then.
    Firing(WallTime),
}

/// What a message about an alert says.
#[derive(Debug, Clone, Copy, PartialEq, Eq, Structural)]
pub enum Notice {
    Alert,
    Realert,
    Cleared,
}

/// Where an alert stands after its condition was found to hold or not.
pub open spec fn next_state(
    state: AlertState,
    holds: bool,
    now: WallTime,
    delay: nat,
    timeout: nat,
) -> AlertState {
    match (holds, state) {
        (true, AlertState::Firing(t)) => if now.at() > t.deadline(timeout) {
            AlertState::Firing(now)
        } else {
            state
        },
        (true, AlertState::Pending(t)) => if now.at() > t.deadline(delay) {
            AlertState::Firing(now)
        } else {
            state
        },
        (true, AlertState::Idle) => if delay == 0 {
            AlertState::Firing(now)
        } else {
            AlertState::Pending(now)
        },
        (false, _) => AlertState::Idle,
    }
}

/// What is said when its condition was found to hold or not.
pub open spec fn notice(
    state: AlertState,
    holds: bool,
    now: WallTime,
    delay: nat,
    timeout: nat,
) -> Option<Notice> {
    match (holds, state) {
        (true, AlertState::Firing(t)) => if now.at() > t.deadline(timeout) {
            Some(Notice::Realert)
        } else {
            None
        },
        (true, AlertState::Pending(t)) => if now.at() > t.deadline(delay) {
            Some(Notice::Alert)
        } else {
            None
        },
        (true, AlertState::Idle) => if delay == 0 {
            Some(Notice::Alert)
        } else {
            None
        },
        (false, AlertState::Firing(_)) => Some(Notice::Cleared),
        (false, _) => None,
    }
}

/// Computes `next_state` and `notice`.
pub fn transition(
    state: AlertState,
    holds: bool,
    now: WallTime,
    delay: u64,
    timeout: u64,
) -> (r: (AlertState, Option<Notice>))
    ensures
        r.0 == next_state(state, holds, now, delay as nat, timeout as nat),
        r.1 == notice(state, holds, now, delay as nat, timeout as nat),
{
    match (holds, state) {
        (true, AlertState::Firing(t)) => if now.is_past(t, timeout) {
            (AlertState::Firing(now), Some(Notice::Realert))
        } else {
            (state, None)
        },
        (true, AlertState::Pending(t)) => if now.is_past(t, delay) {
            (AlertState::Firing(now), Some(Notice::Alert))
        } else {
            (state, None)
        },
        (true, AlertState::Idle) => if delay == 0 {
            (AlertState::Firing(now), Some(Notice::Alert))
        } else {
            (AlertState::Pending(now), None)
        },
        (false, AlertState::Firing(_)) => (AlertState::Idle, Some(Notice::Cleared)),
        (false, _) => (AlertState::Idle, None),
    }
}

/// How a message begins.
pub open spec fn heading(notice: Notice) -> Seq<char> {
    match notice {
        Notice::Alert => "Alert: "@,
        Notice::Realert => "Realert: "@,
        Notice::Cleared => "Alert Cleared: "@,
    }
}

/// A message: what it says and the name of the value, both quoted, and the
/// value.
pub open spec fn message(
    notice: Notice,
    quoted_msg: Seq<char>,
    quoted_metric: Seq<char>,
    tenths: int,
) -> Seq<char> {
    heading(notice) + quoted_msg + ", "@ + quoted_metric + "="@ + tenths_decimal(tenths)
}

/// Writes a message from its quoted parts.
pub fn write_message(
    notice: Notice,
    quoted_msg: &str,
    quoted_metric: &str,
    tenths: i32,
) -> (r: String)
    ensures
        r@ == message(notice, quoted_msg@, quoted_metric@, tenths as int),
{
    let mut text = match notice {
        Notice::Alert => "Alert: ".to_owned(),
        Notice::Realert => "Realert: ".to_owned(),
        Notice::Cleared => "Alert Cleared: ".to_owned(),
    };
    text.append(quoted_msg);
    text.append(", ");
    text.append(quoted_metric);
    text.append("=");
    text.append(tenths_text(tenths).as_str());
    text
}

/// An alert at work.
#[derive(Debug)]
pub struct Alert {
    pub metric: String,
    /// The place of the value among those of a round.
    pub midx: usize,
    pub comparison: Comparison,
    pub limit: Limit,
    pub state: AlertState,
    pub msg: String,
    pub delay_secs: u64,
}

/// `Alert` with its texts.
pub struct AlertModel {
    pub metric: Seq<char>,
    pub midx: usize,
    pub comparison: Comparison,
    pub limit: Limit,
    pub state: AlertState,
    pub msg: Seq<char>,
    pub delay_secs: u64,
}

impl Alert {
    pub open spec fn view(&self) -> AlertModel {
        AlertModel {
            metric: self.metric@,
            midx: self.midx,
            comparison: self.comparison,
            limit: self.limit,
            state: self.state,
            msg: self.msg@,
            delay_secs: self.delay_secs,
        }
    }
}

/// The alerts of a list, with their texts.
pub open spec fn models(alerts: Seq<Alert>) -> Seq<AlertModel> {
    alerts.map_values(|a: Alert| a@)
}

/// The alert that `desc` describes, before anything was seen.
pub open spec fn fresh_alert(desc: AlertDesc, lookup: Map<Seq<char>, usize>) -> AlertModel {
    let condition = condition_of(desc.check@, desc.limit)->0;
    AlertModel {
        metric: desc.metric@,
        midx: lookup[desc.metric@],
        comparison: condition.0,
        limit: condition.1,
        state: AlertState::Idle,
        msg: desc.msg@,
        delay_secs: desc.delaysecs,
    }
}

impl AlertModel {
    /// The condition holds of the values `data`.
    pub open spec fn holds(self, data: Seq<RegData>) -> bool {
        self.limit.admits(self.comparison, data[self.midx as int].tenths())
    }

    /// The alert after the values `data` were seen.
    pub open spec fn after(self, data: Seq<RegData>, now: WallTime, timeout: nat) -> AlertModel {
        AlertModel {
            state: next_state(self.state, self.holds(data), now, self.delay_secs as nat, timeout),
            ..self
        }
    }

    /// What is said about the values `data`.
    pub open spec fn notice(self, data: Seq<RegData>, now: WallTime, timeout: nat) -> Option<
        Notice,
    > {
        notice(self.state, self.holds(data), now, self.delay_secs as nat, timeout)
    }

    /// The message that says it.
    pub open spec fn text(self, data: Seq<RegData>, now: WallTime, timeout: nat) -> Seq<char> {
        message(
            self.notice(data, now, timeout)->0,
            debug_text(self.msg),
            debug_text(self.metric),
            data[self.midx as int].tenths(),
        )
    }
}

/// The alerts of which those from `from` up to `to` have seen `data`.
pub open spec fn advanced(
    alerts: Seq<AlertModel>,
    data: Seq<RegData>,
    now: WallTime,
    timeout: nat,
    from: int,
    to: int,
) -> Seq<AlertModel> {
    Seq::new(
        alerts.len(),
        |i: int|
            if from <= i < to {
                alerts[i].after(data, now, timeout)
            } else {
                alerts[i]
            },
    )
}

/// None of the alerts from `from` up to `to` says anything about `data`.
pub open spec fn silent(
    alerts: Seq<AlertModel>,
    data: Seq<RegData>,
    now: WallTime,
    timeout: nat,
    from: int,
    to: int,
) -> bool {
    forall|i: int|
        from <= i < to ==> (#[trigger] alerts[i]).notice(data, now, timeout) is None
}

/// What `advanced` says of each alert of a list.
proof fn lemma_seen(
    before: Seq<Alert>,
    after: Seq<Alert>,
    data: Seq<RegData>,
    now: WallTime,
    timeout: nat,
    from: int,
    to: int,
)
    requires
        0 <= from,
        to <= before.len(),
        before.len() == after.len(),
        models(after) == advanced(models(before), data, now, timeout, from, to),
    ensures
        forall|i: int|
            0 <= i < after.len() ==> (#[trigger] after[i])@ == if from <= i < to {
                before[i]@.after(data, now, timeout)
            } else {
                before[i]@
            },
        forall|i: int|
            0 <= i < before.len() ==> models(before)[i] == (#[trigger] before[i])@,
{
    assert forall|i: int| 0 <= i < after.len() implies (#[trigger] after[i])@ == if from <= i
        < to {
        before[i]@.after(data, now, timeout)
    } else {
        before[i]@
    } by {
        assert(models(after)[i] == after[i]@);
        assert(models(before)[i] == before[i]@);
    }
}

/// An error that was last reported at `sent` may be dropped at `now`.
pub open spec fn expired(sent: WallTime, now: WallTime, timeout: nat) -> bool {
    now.at() > sent.deadline(timeout)
}

/// The error `msg` is to be reported at `now`: it has not been within the
/// waiting time.
pub open spec fn error_due(
    msgs: Map<Seq<char>, WallTime>,
    msg: Seq<char>,
    now: WallTime,
    timeout: nat,
) -> bool {
    !(msgs.contains_key(msg) && now.at() < msgs[msg].deadline(timeout))
}

/// The errors on record after `msg` came up at `now`.
pub open spec fn after_error(
    msgs: Map<Seq<char>, WallTime>,
    msg: Seq<char>,
    now: WallTime,
    timeout: nat,
) -> Map<Seq<char>, WallTime> {
    if error_due(msgs, msg, now, timeout) {
        msgs.insert(msg, now)
    } else {
        msgs
    }
}

/// `msg` is on record, has expired, and precedes every other that has.
pub open spec fn is_first_expired(
    msgs: Map<Seq<char>, WallTime>,
    msg: Seq<char>,
    now: WallTime,
    timeout: nat,
) -> bool {
    &&& msgs.contains_key(msg)
    &&& expired(msgs[msg], now, timeout)
    &&& forall|other: Seq<char>|
        #![trigger msgs.contains_key(other)]
        msgs.contains_key(other) && expired(msgs[other], now, timeout) && other != msg ==> precedes(
            msg,
            other,
        )
}

/// `after` is the record `before` without the first that has expired, or the
/// record itself where none has.
pub open spec fn is_collected(
    before: Map<Seq<char>, WallTime>,
    after: Map<Seq<char>, WallTime>,
    now: WallTime,
    timeout: nat,
) -> bool {
    ||| exists|msg: Seq<char>| #[trigger]
        is_first_expired(before, msg, now, timeout) && after == before.remove(msg)
    ||| after == before && forall|msg: Seq<char>| #[trigger]
        before.contains_key(msg) ==> !expired(before[msg], now, timeout)
}

/// The alerts, the account they are sent from, and the errors on record.
#[derive(Debug)]
pub struct Alerting {
    pub enable: bool,
    pub alerter: Matrix,
    pub alerts: Vec<Alert>,
    /// When each error was last reported.
    pub msgs: TextMap<WallTime>,
    pub alert_timeout_secs: u64,
}

impl Alerting {
    /// The record of errors is in order.
    pub open spec fn wf(self) -> bool {
        self.msgs.wf()
    }

    /// The seconds to wait before a message is repeated.
    pub open spec fn timeout(self) -> nat {
        self.alert_timeout_secs as nat
    }

    /// Every alert finds its value in a round of `n` values.
    pub open spec fn fits(self, n: nat) -> bool {
        forall|i: int| 0 <= i < self.alerts@.len() ==> (#[trigger] self.alerts@[i]).midx < n
    }

    /// Sets the alerts up, none of which has seen anything, from settings
    /// without a problem. `metricmap` gives the place of each value in a round.
    pub fn new(
        cfg: &AlertSettings,
        alerter: Matrix,
        metricmap: TextMap<usize>,
    ) -> (r: Result<Self, ConfigError>)
        requires
            metricmap.wf(),
            cfg.problem(metricmap@) is None,
        ensures
            match r {
                Ok(a) => {
                    &&& a.wf()
                    &&& a.enable == cfg.enable
                    &&& a.alerter == alerter
                    &&& a.msgs@ == Map::<Seq<char>, WallTime>::empty()
                    &&& cfg.timeout() == Ok::<int, ConfigError>(a.alert_timeout_secs as int)
                    &&& a.alerts@.len() == cfg.alerts@.len()
                    &&& models(a.alerts@) == cfg.alerts@.map_values(
                        |d: AlertDesc| fresh_alert(d, metricmap@),
                    )
                    &&& forall|i: int|
                        0 <= i < a.alerts@.len() ==> {
                            let alert = #[trigger] a.alerts@[i];
                            let desc = cfg.alerts@[i];
                            &&& alert.metric@ == desc.metric@
                            &&& metricmap@.contains_key(desc.metric@)
                            &&& alert.midx == metricmap@[desc.metric@]
                            &&& condition_of(desc.check@, desc.limit) == Some(
                                (alert.comparison, alert.limit),
                            )
                            &&& alert.state is Idle
                            &&& alert.msg@ == desc.msg@
                            &&& alert.delay_secs == desc.delaysecs
                        }
                    &&& cfg.alert_timeout_secs matches Some(secs) ==> a.alert_timeout_secs == secs
                    &&& cfg.alert_timeout_secs is None ==> (cfg.alert_timeout_min matches Some(min)
                        && a.alert_timeout_secs == 60 * min)
                },
                Err(_) => false,
            },
    {
        let mut alerts: Vec<Alert> = Vec::with_capacity(cfg.alerts.len());
        let mut i: usize = 0;
        while i < cfg.alerts.len()
            invariant
                metricmap.wf(),
                i <= cfg.alerts@.len(),
                alerts@.len() == i,
                alerts_problem(cfg.alerts@, metricmap@, i as int) is None,
                forall|j: int|
                    0 <= j < i ==> (#[trigger] alerts@[j])@ == fresh_alert(
                        cfg.alerts@[j],
                        metricmap@,
                    ),
                forall|j: int|
                    0 <= j < i ==> metricmap@.contains_key((#[trigger] cfg.alerts@[j]).metric@)
                        && condition_of(cfg.alerts@[j].check@, cfg.alerts@[j].limit) is Some,
            decreases cfg.alerts@.len() - i,
        {
            let a = &cfg.alerts[i];
            let midx: usize = match metricmap.get(a.metric.as_str()) {
                Some(place) => place,
                None => {
                    assert(false);
                    vstd::pervasive::unreached()
                },
            };
            let (comparison, limit) = match parse_check(a.check.as_str(), a.limit) {
                Some(condition) => condition,
                None => {
                    assert(false);
                    vstd::pervasive::unreached()
                },
            };
            alerts.push(
                Alert {
                    metric: a.metric.clone(),
                    midx,
                    comparison,
                    limit,
                    state: AlertState::Idle,
                    msg: a.msg.clone(),
                    delay_secs: a.delaysecs,
                },
            );
            i += 1;
        }
        assert(models(alerts@) =~= cfg.alerts@.map_values(
            |d: AlertDesc| fresh_alert(d, metricmap@),
        ));
        proof {
            assert forall|j: int| 0 <= j < alerts@.len() implies condition_of(
                cfg.alerts@[j].check@,
                cfg.alerts@[j].limit,
            ) == Some(((#[trigger] alerts@[j]).comparison, alerts@[j].limit)) by {
                assert(alerts@[j]@ == fresh_alert(cfg.alerts@[j], metricmap@));
                assert(metricmap@.contains_key(cfg.alerts@[j].metric@));
            }
            assert forall|j: int| 0 <= j < alerts@.len() implies {
                let alert = #[trigger] alerts@[j];
                let desc = cfg.alerts@[j];
                &&& alert.metric@ == desc.metric@
                &&& metricmap@.contains_key(desc.metric@)
                &&& alert.midx == metricmap@[desc.metric@]
                &&& alert.state is Idle
                &&& alert.msg@ == desc.msg@
                &&& alert.delay_secs == desc.delaysecs
            } by {
                assert(alerts@[j]@ == fresh_alert(cfg.alerts@[j], metricmap@));
                assert(metricmap@.contains_key(cfg.alerts@[j].metric@));
            }
        }
        match cfg.timeout_secs() {
            Err(e) => Err(e),
            Ok(alert_timeout_secs) => Ok(
                Alerting {
                    enable: cfg.enable,
                    alerter,
                    alerts,
                    msgs: TextMap::new(),
                    alert_timeout_secs,
                },
            ),
        }
    }

    /// Computes `fits`.
    pub fn is_ready_for(&self, n: usize) -> (r: bool)
        ensures
            r == self.fits(n as nat),
    {
        let mut i: usize = 0;
        while i < self.alerts.len()
            invariant
                i <= self.alerts@.len(),
                forall|j: int| 0 <= j < i ==> (#[trigger] self.alerts@[j]).midx < n,
            decreases self.alerts@.len() - i,
        {
            if self.alerts[i].midx >= n {
                return false;
            }
            i += 1;
        }
        true
    }

    /// Shows the values `data` to the alerts from `from` on, up to the first
    /// that has something to say. Its message comes back with the place to
    /// continue from; nothing comes back when there are no more messages. With
    /// alerts switched off nothing happens.
    pub fn check(&mut self, data: &Vec<RegData>, now: WallTime, from: usize) -> (r: Option<
        (usize, String),
    >)
        requires
            old(self).enable ==> old(self).fits(data@.len()),
        ensures
            final(self).enable == old(self).enable,
            final(self).alerter == old(self).alerter,
            final(self).msgs == old(self).msgs,
            final(self).alert_timeout_secs == old(self).alert_timeout_secs,
            final(self).alerts@.len() == old(self).alerts@.len(),
            final(self).fits(data@.len()) == old(self).fits(data@.len()),
            !old(self).enable ==> r is None && final(self).alerts == old(self).alerts,
            old(self).enable ==> {
                let alerts = models(old(self).alerts@);
                let timeout = old(self).timeout();
                match r {
                    Some((next, text)) => {
                        &&& from < next <= alerts.len()
                        &&& silent(alerts, data@, now, timeout, from as int, next - 1)
                        &&& alerts[next - 1].notice(data@, now, timeout) is Some
                        &&& text@ == alerts[next - 1].text(data@, now, timeout)
                        &&& models(final(self).alerts@) == advanced(
                            alerts,
                            data@,
                            now,
                            timeout,
                            from as int,
                            next as int,
                        )
                    },
                    None => {
                        &&& silent(alerts, data@, now, timeout, from as int, alerts.len() as int)
                        &&& models(final(self).alerts@) == advanced(
                            alerts,
                            data@,
                            now,
                            timeout,
                            from as int,
                            alerts.len() as int,
                        )
                    },
                }
            },
            forall|i: int|
                0 <= i < final(self).alerts@.len() ==> {
                    let a = old(self).alerts@[i];
                    let b = #[trigger] final(self).alerts@[i];
                    let seen = old(self).enable && from <= i && (r matches Some(found) ==> i
                        < found.0);
                    &&& b.metric@ == a.metric@
                    &&& b.midx == a.midx
                    &&& b.comparison == a.comparison
                    &&& b.limit == a.limit
                    &&& b.msg@ == a.msg@
                    &&& b.delay_secs == a.delay_secs
                    &&& b.state == if seen {
                        next_state(
                            a.state,
                            a.limit.admits(a.comparison, data@[a.midx as int].tenths()),
                            now,
                            a.delay_secs as nat,
                            old(self).alert_timeout_secs as nat,
                        )
                    } else {
                        a.state
                    }
                    &&& seen ==> {
                        let said = notice(
                            a.state,
                            a.limit.admits(a.comparison, data@[a.midx as int].tenths()),
                            now,
                            a.delay_secs as nat,
                            old(self).alert_timeout_secs as nat,
                        );
                        if r matches Some(found) && i == found.0 - 1 {
                            said is Some && (r->0).1@ == message(
                                said->0,
                                debug_text(a.msg@),
                                debug_text(a.metric@),
                                data@[a.midx as int].tenths(),
                            )
                        } else {
                            said is None
                        }
                    }
                },
            r matches Some(found) ==> from < found.0 <= old(self).alerts@.len(),
    {
        if !self.enable {
            return None;
        }
        let ghost before = models(self.alerts@);
        let ghost timeout = self.timeout();
        let mut i: usize = from;
        assert(models(self.alerts@) =~= advanced(before, data@, now, timeout, from as int, i as int));
        while i < self.alerts.len()
            invariant
                from <= i,
                i <= self.alerts@.len() || i == from,
                self.enable,
                self.enable == old(self).enable,
                old(self).fits(data@.len()),
                self.alerter == old(self).alerter,
                self.msgs == old(self).msgs,
                self.alert_timeout_secs == old(self).alert_timeout_secs,
                timeout == self.timeout(),
                before == models(old(self).alerts@),
                self.alerts@.len() == before.len(),
                self.fits(data@.len()),
                models(self.alerts@) == advanced(before, data@, now, timeout, from as int, i as int),
                silent(before, data@, now, timeout, from as int, i as int),
            decreases self.alerts@.len() - i,
        {
            let ghost earlier = self.alerts@;
            assert(models(earlier)[i as int] == before[i as int]);
            assert(earlier[i as int]@ == before[i as int]);
            let tenths: i32 = data[self.alerts[i].midx].in_tenths();
            let holds: bool = self.alerts[i].limit.is_met(self.alerts[i].comparison, tenths);
            let (state, notice) = transition(
                self.alerts[i].state,
                holds,
                now,
                self.alerts[i].delay_secs,
                self.alert_timeout_secs,
            );
            self.alerts[i].state = state;
            proof {
                assert(self.alerts@.len() == earlier.len());
                assert(forall|j: int| 0 <= j < earlier.len() && j != i ==> self.alerts@[j] == earlier[j]);
                assert(self.alerts@[i as int]@ == before[i as int].after(data@, now, timeout));
                assert forall|j: int| 0 <= j < before.len() implies models(self.alerts@)[j]
                    == advanced(before, data@, now, timeout, from as int, i + 1)[j] by {
                    if j != i {
                        assert(models(earlier)[j] == models(self.alerts@)[j]);
                    }
                }
                assert(models(self.alerts@) =~= advanced(
                    before,
                    data@,
                    now,
                    timeout,
                    from as int,
                    i + 1,
                ));
                assert(self.fits(data@.len()));
            }
            if let Some(kind) = notice {
                let msg = quoted(self.alerts[i].msg.as_str());
                let metric = quoted(self.alerts[i].metric.as_str());
                let text = write_message(kind, msg.as_str(), metric.as_str(), tenths);
                proof {
                    lemma_seen(
                        old(self).alerts@,
                        self.alerts@,
                        data@,
                        now,
                        timeout,
                        from as int,
                        i + 1,
                    );
                    assert(models(old(self).alerts@)[i as int] == old(self).alerts@[i as int]@);
                }
                return Some((i + 1, text));
            }
            i += 1;
        }
        proof {
            assert(models(self.alerts@) =~= advanced(
                before,
                data@,
                now,
                timeout,
                from as int,
                before.len() as int,
            ));
            lemma_seen(
                old(self).alerts@,
                self.alerts@,
                data@,
                now,
                timeout,
                from as int,
                before.len() as int,
            );
        }
        None
    }

    /// What to send for a message; nothing where the account is switched off.
    pub fn alert(&self, msg: &str) -> (r: Option<Outgoing>)
        ensures
            r is Some <==> self.alerter.cfg.enable,
            r matches Some(out) ==> out.says(msg@, self.alerter),
    {
        self.alerter.send(msg)
    }

    /// Whether the error `msg` is to be reported. One that was reported less
    /// than the waiting time ago is not; any other goes on record.
    pub fn error(&mut self, msg: &str, now: WallTime) -> (r: bool)
        requires
            old(self).wf(),
        ensures
            final(self).wf(),
            r == error_due(old(self).msgs@, msg@, now, old(self).timeout()),
            final(self).msgs@ == after_error(old(self).msgs@, msg@, now, old(self).timeout()),
            final(self).msgs@ == if r {
                old(self).msgs@.insert(msg@, now)
            } else {
                old(self).msgs@
            },
            r <==> !old(self).msgs@.contains_key(msg@) || {
                let sent = old(self).msgs@[msg@];
                (now.secs - sent.secs) * 1_000_000_000 + (now.nanos - sent.nanos)
                    >= old(self).alert_timeout_secs * 1_000_000_000
            },
            final(self).enable == old(self).enable,
            final(self).alerter == old(self).alerter,
            final(self).alerts == old(self).alerts,
            final(self).alert_timeout_secs == old(self).alert_timeout_secs,
    {
        if let Some(sent) = self.msgs.get(msg) {
            if now.is_within(sent, self.alert_timeout_secs) {
                return false;
            }
        }
        self.msgs.insert(msg.to_owned(), now);
        true
    }

    /// Takes the first error off the record that was reported longer ago than
    /// the waiting time.
    pub fn gc(&mut self, now: WallTime)
        requires
            old(self).wf(),
        ensures
            final(self).wf(),
            is_collected(old(self).msgs@, final(self).msgs@, now, old(self).timeout()),
            final(self).enable == old(self).enable,
            final(self).alerter == old(self).alerter,
            final(self).alerts == old(self).alerts,
            final(self).alert_timeout_secs == old(self).alert_timeout_secs,
    {
        let ghost before = self.msgs;
        let ghost timeout = self.timeout();
        let mut i: usize = 0;
        while i < self.msgs.entries.len()
            invariant
                *self == *old(self),
                before == self.msgs,
                before.wf(),
                timeout == self.timeout(),
                i <= before.entries@.len(),
                forall|j: int|
                    0 <= j < i ==> !expired((#[trigger] before.entries@[j]).1, now, timeout),
            decreases before.entries@.len() - i,
        {
            if now.is_past(self.msgs.entries[i].1, self.alert_timeout_secs) {
                proof {
                    let first = before.key(i as int);
                    before.lemma_entry(i as int);
                    assert forall|other: Seq<char>|
                        #![trigger before@.contains_key(other)]
                        before@.contains_key(other) && expired(before@[other], now, timeout)
                            && other != first implies precedes(first, other) by {
                        let j = before.place_of(other);
                        before.lemma_entry(j);
                        assert(i < j);
                        assert(precedes(before.key(i as int), before.key(j)));
                    }
                    assert(is_first_expired(before@, first, now, timeout));
                }
                self.msgs.remove_at(i);
                return;
            }
            i += 1;
        }
        proof {
            assert forall|msg: Seq<char>| #[trigger] before@.contains_key(msg) implies !expired(
                before@[msg],
                now,
                timeout,
            ) by {
                before.lemma_entry(before.place_of(msg));
            }
        }
    }

    /// The account's login to make, if any.
    pub fn connect(&self) -> (r: Option<Login>)
        ensures
            r is Some <==> !self.alerter.connected && self.alerter.cfg.enable,
            r matches Some(login) ==> login.is_for(self.alerter.cfg),
    {
        self.alerter.connect()
    }

    /// Drops the account's login.
    pub fn disconnect(&mut self)
        ensures
            !final(self).alerter.connected,
            final(self).alerter.cfg == old(self).alerter.cfg,
            final(self).alerter.allowed_users == old(self).alerter.allowed_users,
            final(self).enable == old(self).enable,
            final(self).alerts == old(self).alerts,
            final(self).msgs == old(self).msgs,
            final(self).alert_timeout_secs == old(self).alert_timeout_secs,
    {
        self.alerter.disconnect();
    }

    /// Begins a check of the account's rooms, if one is due.
    pub fn check_rooms(&self) -> (r: Option<RoomCheck>)
        ensures
            r is Some <==> self.alerter.connected && self.alerter.cfg.enable,
            r matches Some(check) ==> check@ == check_start(),
    {
        self.alerter.check_rooms()
    }
}

} // verus!
