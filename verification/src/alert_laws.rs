//! What holds of alerts and reported errors over many rounds.

use vstd::prelude::*;

use crate::alerting::{
    advanced, after_error, alerts_problem, error_due, expired, fresh_alert, heading, is_collected,
    is_first_expired, message, models, next_state, notice, silent, Alert, AlertDesc, AlertModel,
    AlertSettings, AlertState, Alerting, ConfigError, Notice,
};
use crate::clock::WallTime;
use crate::condition::{condition_of, Comparison, Limit};
use crate::solark::{is_lookup, metrics, readings, RegData, SolarkReg};
use crate::text::{debug_text, tenths_decimal};
use crate::text_map::{precedes, precedes_is_irreflexive, precedes_is_transitive};

verus! {

/// What one alert sees: at each reading of the clock, whether its condition
/// holds.
pub struct Sighting {
    pub holds: bool,
    pub at: WallTime,
}

/// Where an alert stands that has seen `seen` and nothing before.
pub open spec fn state_after(seen: Seq<Sighting>, delay: nat, timeout: nat) -> AlertState
    decreases seen.len(),
{
    if seen.len() == 0 {
        AlertState::Idle
    } else {
        next_state(
            state_after(seen.drop_last(), delay, timeout),
            seen.last().holds,
            seen.last().at,
            delay,
            timeout,
        )
    }
}

/// What it says at the sighting `k`.
pub open spec fn said_at(seen: Seq<Sighting>, k: int, delay: nat, timeout: nat) -> Option<Notice> {
    notice(state_after(seen.take(k), delay, timeout), seen[k].holds, seen[k].at, delay, timeout)
}

/// All that it says, in order.
pub open spec fn said(seen: Seq<Sighting>, delay: nat, timeout: nat) -> Seq<Notice>
    decreases seen.len(),
{
    if seen.len() == 0 {
        Seq::empty()
    } else {
        let before = said(seen.drop_last(), delay, timeout);
        match said_at(seen, seen.len() - 1, delay, timeout) {
            Some(n) => before.push(n),
            None => before,
        }
    }
}

/// An alert is firing exactly where it has said something and the last was
/// not that it is cleared.
pub proof fn the_last_notice_tells_the_state(seen: Seq<Sighting>, delay: nat, timeout: nat)
    ensures
        state_after(seen, delay, timeout) is Firing <==> {
            let all = said(seen, delay, timeout);
            all.len() > 0 && all.last() != Notice::Cleared
        },
    decreases seen.len(),
{
    if seen.len() > 0 {
        the_last_notice_tells_the_state(seen.drop_last(), delay, timeout);
        assert(seen.take(seen.len() - 1) =~= seen.drop_last());
    }
}

/// The notice at `i` is a new alert exactly where it is the first of all or
/// follows a clearing.
pub open spec fn is_raised_in_turn(all: Seq<Notice>, i: int) -> bool {
    all[i] == Notice::Alert <==> (i == 0 || all[i - 1] == Notice::Cleared)
}

/// An alert is raised first of all and after each clearing, and nowhere else;
/// so every reminder and every clearing belongs to an alert that was raised
/// and not cleared since.
pub proof fn alerts_and_clearings_alternate(seen: Seq<Sighting>, delay: nat, timeout: nat)
    ensures
        forall|i: int|
            0 <= i < said(seen, delay, timeout).len() ==> #[trigger] is_raised_in_turn(
                said(seen, delay, timeout),
                i,
            ),
    decreases seen.len(),
{
    if seen.len() > 0 {
        let before = said(seen.drop_last(), delay, timeout);
        let all = said(seen, delay, timeout);
        alerts_and_clearings_alternate(seen.drop_last(), delay, timeout);
        the_last_notice_tells_the_state(seen.drop_last(), delay, timeout);
        assert(seen.take(seen.len() - 1) =~= seen.drop_last());
        assert forall|i: int| 0 <= i < all.len() implies #[trigger] is_raised_in_turn(all, i) by {
            if i < before.len() {
                assert(is_raised_in_turn(before, i));
            }
        }
    }
}

/// The condition came to hold at the sighting `k` and has held since.
pub open spec fn holds_since(seen: Seq<Sighting>, k: int) -> bool {
    &&& 0 <= k < seen.len()
    &&& k == 0 || !seen[k - 1].holds
    &&& forall|i: int| k <= i < seen.len() ==> (#[trigger] seen[i]).holds
}

proof fn lemma_pending(seen: Seq<Sighting>, delay: nat, timeout: nat) -> (k: int)
    requires
        state_after(seen, delay, timeout) is Pending,
    ensures
        holds_since(seen, k),
        state_after(seen, delay, timeout) == AlertState::Pending(seen[k].at),
    decreases seen.len(),
{
    let rest = seen.drop_last();
    if state_after(rest, delay, timeout) is Pending {
        let k = lemma_pending(rest, delay, timeout);
        assert forall|i: int| k <= i < seen.len() implies (#[trigger] seen[i]).holds by {
            if i < rest.len() {
                assert(rest[i].holds);
            }
        }
        k
    } else {
        lemma_idle(rest, delay, timeout);
        seen.len() - 1
    }
}

proof fn lemma_idle(seen: Seq<Sighting>, delay: nat, timeout: nat)
    ensures
        state_after(seen, delay, timeout) is Idle <==> seen.len() == 0 || !seen.last().holds,
{
}

/// An alert with a delay is raised only where its condition has held at every
/// sighting since one that lies more than the delay back.
pub proof fn an_alert_waits_for_its_delay(seen: Seq<Sighting>, delay: nat, timeout: nat)
    requires
        seen.len() > 0,
        delay > 0,
        said_at(seen, seen.len() - 1, delay, timeout) == Some(Notice::Alert),
    ensures
        exists|k: int| #[trigger]
            holds_since(seen, k) && seen.last().at.at() > seen[k].at.deadline(delay),
{
    let rest = seen.drop_last();
    assert(seen.take(seen.len() - 1) =~= rest);
    let k = lemma_pending(rest, delay, timeout);
    assert forall|i: int| k <= i < seen.len() implies (#[trigger] seen[i]).holds by {
        if i < rest.len() {
            assert(rest[i].holds);
        }
    }
    assert(holds_since(seen, k));
}

/// A condition that has held for more than the delay is not passed over: the
/// alert is firing. Without a delay it fires at once.
pub proof fn a_lasting_condition_is_alerted(seen: Seq<Sighting>, k: int, delay: nat, timeout: nat)
    requires
        holds_since(seen, k),
        delay == 0 || seen.last().at.at() > seen[k].at.deadline(delay),
    ensures
        state_after(seen, delay, timeout) is Firing,
{
    lemma_held(seen, k, delay, timeout);
    if k < seen.len() - 1 {
        let rest = seen.drop_last();
        assert(holds_since(rest, k)) by {
            assert forall|i: int| k <= i < rest.len() implies (#[trigger] rest[i]).holds by {
                assert(seen[i].holds);
            }
        }
        lemma_held(rest, k, delay, timeout);
        assert(seen[seen.len() - 1].holds);
    }
}

proof fn lemma_held(seen: Seq<Sighting>, k: int, delay: nat, timeout: nat)
    requires
        holds_since(seen, k),
    ensures
        ({
            let state = state_after(seen, delay, timeout);
            state is Firing || (delay > 0 && state == AlertState::Pending(seen[k].at))
        }),
    decreases seen.len(),
{
    let rest = seen.drop_last();
    assert(seen[seen.len() - 1].holds);
    if k == seen.len() - 1 {
        lemma_idle(rest, delay, timeout);
    } else {
        assert(holds_since(rest, k)) by {
            assert forall|i: int| k <= i < rest.len() implies (#[trigger] rest[i]).holds by {
                assert(seen[i].holds);
            }
        }
        lemma_held(rest, k, delay, timeout);
    }
}

/// While the condition goes on holding, the next message is a reminder, and it
/// comes exactly where the waiting time has passed since the last message.
pub proof fn a_reminder_follows_the_timeout(seen: Seq<Sighting>, delay: nat, timeout: nat)
    requires
        seen.len() > 0,
        seen.last().holds,
        state_after(seen.drop_last(), delay, timeout) is Firing,
    ensures
        exists|k: int|
            {
                &&& 0 <= k < seen.len() - 1
                &&& #[trigger] said_at(seen, k, delay, timeout) is Some
                &&& forall|i: int|
                    k < i < seen.len() - 1 ==> #[trigger] said_at(seen, i, delay, timeout) is None
                &&& said_at(seen, seen.len() - 1, delay, timeout) == (if seen.last().at.at()
                    > seen[k].at.deadline(timeout) {
                    Some(Notice::Realert)
                } else {
                    None
                })
            },
{
    let rest = seen.drop_last();
    let k = lemma_firing(rest, delay, timeout);
    assert(seen.take(seen.len() - 1) =~= rest);
    assert forall|i: int| 0 <= i < rest.len() implies said_at(seen, i, delay, timeout) == said_at(
        rest,
        i,
        delay,
        timeout,
    ) by {
        assert(seen.take(i) =~= rest.take(i));
    }
    assert(said_at(seen, k, delay, timeout) is Some);
}

proof fn lemma_firing(seen: Seq<Sighting>, delay: nat, timeout: nat) -> (k: int)
    requires
        state_after(seen, delay, timeout) is Firing,
    ensures
        0 <= k < seen.len(),
        said_at(seen, k, delay, timeout) is Some,
        forall|i: int| k < i < seen.len() ==> #[trigger] said_at(seen, i, delay, timeout) is None,
        state_after(seen, delay, timeout) == AlertState::Firing(seen[k].at),
    decreases seen.len(),
{
    let rest = seen.drop_last();
    let last = seen.len() - 1;
    assert(seen.take(last) =~= rest);
    if said_at(seen, last, delay, timeout) is Some {
        last
    } else {
        let k = lemma_firing(rest, delay, timeout);
        assert forall|i: int| 0 <= i < rest.len() implies said_at(seen, i, delay, timeout)
            == said_at(rest, i, delay, timeout) by {
            assert(seen.take(i) =~= rest.take(i));
        }
        k
    }
}

/// The messages of the alerts from `from` on about the values `data`.
pub open spec fn messages(
    alerts: Seq<AlertModel>,
    data: Seq<RegData>,
    now: WallTime,
    timeout: nat,
    from: int,
) -> Seq<Seq<char>>
    decreases alerts.len() - from,
{
    if from < 0 || from >= alerts.len() {
        Seq::empty()
    } else {
        let rest = messages(alerts, data, now, timeout, from + 1);
        if alerts[from].notice(data, now, timeout) is Some {
            seq![alerts[from].text(data, now, timeout)] + rest
        } else {
            rest
        }
    }
}

proof fn lemma_messages_behind(
    alerts: Seq<AlertModel>,
    other: Seq<AlertModel>,
    data: Seq<RegData>,
    now: WallTime,
    timeout: nat,
    from: int,
)
    requires
        0 <= from,
        alerts.len() == other.len(),
        forall|i: int| from <= i < alerts.len() ==> alerts[i] == other[i],
    ensures
        messages(alerts, data, now, timeout, from) == messages(other, data, now, timeout, from),
    decreases alerts.len() - from,
{
    if from < alerts.len() {
        lemma_messages_behind(alerts, other, data, now, timeout, from + 1);
    }
}

/// Where a call of `check` from `from` on stops with a message: behind the
/// first alert that has something to say.
pub open spec fn stop(
    alerts: Seq<AlertModel>,
    data: Seq<RegData>,
    now: WallTime,
    timeout: nat,
    from: int,
) -> Option<int>
    decreases alerts.len() - from,
{
    if from < 0 || from >= alerts.len() {
        None
    } else if alerts[from].notice(data, now, timeout) is Some {
        Some(from + 1)
    } else {
        stop(alerts, data, now, timeout, from + 1)
    }
}

/// What the calls of a pass bring, each from where the last one stopped, and
/// the alerts they leave.
pub open spec fn pass(
    alerts: Seq<AlertModel>,
    data: Seq<RegData>,
    now: WallTime,
    timeout: nat,
    from: int,
) -> (Seq<Seq<char>>, Seq<AlertModel>)
    decreases alerts.len() - from,
    when 0 <= from
    via pass_ends
{
    match stop(alerts, data, now, timeout, from) {
        Some(next) => {
            let rest = pass(
                advanced(alerts, data, now, timeout, from, next),
                data,
                now,
                timeout,
                next,
            );
            (seq![alerts[next - 1].text(data, now, timeout)] + rest.0, rest.1)
        },
        None => (
            Seq::empty(),
            advanced(alerts, data, now, timeout, from, alerts.len() as int),
        ),
    }
}

#[via_fn]
proof fn pass_ends(
    alerts: Seq<AlertModel>,
    data: Seq<RegData>,
    now: WallTime,
    timeout: nat,
    from: int,
) {
    lemma_stop(alerts, data, now, timeout, from);
}

proof fn lemma_stop(
    alerts: Seq<AlertModel>,
    data: Seq<RegData>,
    now: WallTime,
    timeout: nat,
    from: int,
)
    requires
        0 <= from,
    ensures
        match stop(alerts, data, now, timeout, from) {
            Some(next) => {
                &&& from < next <= alerts.len()
                &&& silent(alerts, data, now, timeout, from, next - 1)
                &&& alerts[next - 1].notice(data, now, timeout) is Some
                &&& messages(alerts, data, now, timeout, from) == seq![
                    alerts[next - 1].text(data, now, timeout),
                ] + messages(alerts, data, now, timeout, next)
            },
            None => {
                &&& silent(alerts, data, now, timeout, from, alerts.len() as int)
                &&& messages(alerts, data, now, timeout, from) == Seq::<Seq<char>>::empty()
            },
        },
    decreases alerts.len() - from,
{
    if from < alerts.len() && alerts[from].notice(data, now, timeout) is None {
        lemma_stop(alerts, data, now, timeout, from + 1);
    }
}

/// `stop` is where `check` stops: what its contract says of a message holds of
/// no other place, and what it says of none holds only where there is none.
pub proof fn check_stops_at_the_first_message(
    alerts: Seq<AlertModel>,
    data: Seq<RegData>,
    now: WallTime,
    timeout: nat,
    from: int,
    next: int,
)
    requires
        0 <= from,
    ensures
        from < next <= alerts.len() && silent(alerts, data, now, timeout, from, next - 1)
            && alerts[next - 1].notice(data, now, timeout) is Some ==> stop(
            alerts,
            data,
            now,
            timeout,
            from,
        ) == Some(next),
        silent(alerts, data, now, timeout, from, alerts.len() as int) ==> stop(
            alerts,
            data,
            now,
            timeout,
            from,
        ) is None,
{
    lemma_stop(alerts, data, now, timeout, from);
    if let Some(found) = stop(alerts, data, now, timeout, from) {
        assert(alerts[found - 1].notice(data, now, timeout) is Some);
        if from < next <= alerts.len() && silent(alerts, data, now, timeout, from, next - 1)
            && alerts[next - 1].notice(data, now, timeout) is Some {
            assert(found == next);
        }
    }
}

/// The calls of a pass bring every message once and in order, each as its
/// alert stood before the pass, and show the values to every alert once.
pub proof fn a_pass_brings_every_message_once(
    alerts: Seq<AlertModel>,
    data: Seq<RegData>,
    now: WallTime,
    timeout: nat,
    from: int,
)
    requires
        0 <= from,
    ensures
        pass(alerts, data, now, timeout, from).0 == messages(alerts, data, now, timeout, from),
        pass(alerts, data, now, timeout, from).1 == advanced(
            alerts,
            data,
            now,
            timeout,
            from,
            alerts.len() as int,
        ),
    decreases alerts.len() - from,
{
    lemma_stop(alerts, data, now, timeout, from);
    if let Some(next) = stop(alerts, data, now, timeout, from) {
        let seen = advanced(alerts, data, now, timeout, from, next);
        a_pass_brings_every_message_once(seen, data, now, timeout, next);
        lemma_messages_behind(alerts, seen, data, now, timeout, next);
        assert(advanced(seen, data, now, timeout, next, alerts.len() as int) =~= advanced(
            alerts,
            data,
            now,
            timeout,
            from,
            alerts.len() as int,
        ));
    }
}

/// A round that is shown to the alerts.
pub struct Round {
    pub data: Seq<RegData>,
    pub at: WallTime,
}

/// The alerts after a pass over each of `rounds` in turn.
pub open spec fn after_rounds(
    alerts: Seq<AlertModel>,
    rounds: Seq<Round>,
    timeout: nat,
) -> Seq<AlertModel>
    decreases rounds.len(),
{
    if rounds.len() == 0 {
        alerts
    } else {
        let before = after_rounds(alerts, rounds.drop_last(), timeout);
        pass(before, rounds.last().data, rounds.last().at, timeout, 0).1
    }
}

/// What an alert sees in `rounds`.
pub open spec fn sightings(alert: AlertModel, rounds: Seq<Round>) -> Seq<Sighting> {
    Seq::new(
        rounds.len(),
        |k: int| Sighting { holds: alert.holds(rounds[k].data), at: rounds[k].at },
    )
}

/// An alert that had seen nothing, and to which `rounds` were shown, stands
/// where its sightings lead; nothing else of it has changed.
pub proof fn an_alert_stands_where_its_sightings_lead(
    alerts: Seq<AlertModel>,
    rounds: Seq<Round>,
    timeout: nat,
    i: int,
)
    requires
        0 <= i < alerts.len(),
        alerts[i].state == AlertState::Idle,
    ensures
        after_rounds(alerts, rounds, timeout).len() == alerts.len(),
        after_rounds(alerts, rounds, timeout)[i] == (AlertModel {
            state: state_after(
                sightings(alerts[i], rounds),
                alerts[i].delay_secs as nat,
                timeout,
            ),
            ..alerts[i]
        }),
    decreases rounds.len(),
{
    if rounds.len() > 0 {
        let rest = rounds.drop_last();
        let last = rounds.last();
        let before = after_rounds(alerts, rest, timeout);
        an_alert_stands_where_its_sightings_lead(alerts, rest, timeout, i);
        a_pass_brings_every_message_once(before, last.data, last.at, timeout, 0);
        assert(sightings(alerts[i], rounds).drop_last() =~= sightings(alerts[i], rest));
    }
}

/// What such an alert says in the round `k` is what it says at that sighting.
pub proof fn an_alert_says_what_its_sightings_call_for(
    alerts: Seq<AlertModel>,
    rounds: Seq<Round>,
    timeout: nat,
    i: int,
    k: int,
)
    requires
        0 <= i < alerts.len(),
        alerts[i].state == AlertState::Idle,
        0 <= k < rounds.len(),
    ensures
        after_rounds(alerts, rounds.take(k), timeout)[i].notice(
            rounds[k].data,
            rounds[k].at,
            timeout,
        ) == said_at(sightings(alerts[i], rounds), k, alerts[i].delay_secs as nat, timeout),
{
    an_alert_stands_where_its_sightings_lead(alerts, rounds.take(k), timeout, i);
    assert(sightings(alerts[i], rounds).take(k) =~= sightings(alerts[i], rounds.take(k)));
}

/// With a lookup made from the registers, every alert of settings that have no
/// problem watches the value of a register with its own metric, and finds it
/// in every full round.
pub proof fn alerts_watch_their_own_metric(
    registers: Seq<SolarkReg>,
    answers: Seq<Seq<u16>>,
    lookup: Map<Seq<char>, usize>,
    alerts: Seq<AlertDesc>,
    i: int,
)
    requires
        is_lookup(metrics(registers), lookup),
        alerts_problem(alerts, lookup, 0) is None,
        0 <= i < alerts.len(),
    ensures
        fresh_alert(alerts[i], lookup).midx < readings(registers, answers).len(),
        registers[fresh_alert(alerts[i], lookup).midx as int].metric@ == alerts[i].metric@,
{
    lemma_no_problem(alerts, lookup, 0, i);
    assert(lookup.contains_key(alerts[i].metric@));
}

proof fn lemma_no_problem(
    alerts: Seq<AlertDesc>,
    lookup: Map<Seq<char>, usize>,
    from: int,
    i: int,
)
    requires
        alerts_problem(alerts, lookup, from) is None,
        0 <= from <= i < alerts.len(),
    ensures
        is_usable(alerts[i], lookup),
    decreases i - from,
{
    if from < i {
        lemma_no_problem(alerts, lookup, from + 1, i);
    }
}

proof fn lemma_all_usable(alerts: Seq<AlertDesc>, lookup: Map<Seq<char>, usize>, from: int)
    requires
        0 <= from,
        forall|i: int| 0 <= i < alerts.len() ==> is_usable(#[trigger] alerts[i], lookup),
    ensures
        alerts_problem(alerts, lookup, from) is None,
    decreases alerts.len() - from,
{
    if from < alerts.len() {
        assert(is_usable(alerts[from], lookup));
        lemma_all_usable(alerts, lookup, from + 1);
    }
}

/// The alert watches a value that is read, and its check is a condition.
pub open spec fn is_usable(alert: AlertDesc, lookup: Map<Seq<char>, usize>) -> bool {
    &&& lookup.contains_key(alert.metric@)
    &&& condition_of(alert.check@, alert.limit) is Some
}

/// Settings have no problem exactly where every alert watches a value that is
/// read and has a condition, and there is a waiting time.
pub proof fn settings_are_usable_when_each_alert_is(
    cfg: AlertSettings,
    lookup: Map<Seq<char>, usize>,
)
    ensures
        cfg.problem(lookup) is None <==> cfg.timeout() is Ok && forall|i: int|
            0 <= i < cfg.alerts@.len() ==> is_usable(#[trigger] cfg.alerts@[i], lookup),
{
    if alerts_problem(cfg.alerts@, lookup, 0) is None {
        assert forall|i: int| 0 <= i < cfg.alerts@.len() implies is_usable(
            #[trigger] cfg.alerts@[i],
            lookup,
        ) by {
            lemma_no_problem(cfg.alerts@, lookup, 0, i);
        }
    } else if forall|i: int|
        0 <= i < cfg.alerts@.len() ==> is_usable(#[trigger] cfg.alerts@[i], lookup) {
        lemma_all_usable(cfg.alerts@, lookup, 0);
    }
}

/// What happens to the record of errors.
pub enum RecordOp {
    /// An error comes up.
    Error(Seq<char>, WallTime),
    /// The record is tidied.
    Collect(WallTime),
}

impl RecordOp {
    /// When it happens.
    pub open spec fn when(self) -> WallTime {
        match self {
            RecordOp::Error(_, now) => now,
            RecordOp::Collect(now) => now,
        }
    }

    /// It takes the record `before` to `after`.
    pub open spec fn leads(
        self,
        before: Map<Seq<char>, WallTime>,
        after: Map<Seq<char>, WallTime>,
        timeout: nat,
    ) -> bool {
        match self {
            RecordOp::Error(msg, now) => after == after_error(before, msg, now, timeout),
            RecordOp::Collect(now) => is_collected(before, after, now, timeout),
        }
    }
}

/// `records` is what `ops` make of the record one after the other.
pub open spec fn is_record_history(
    records: Seq<Map<Seq<char>, WallTime>>,
    ops: Seq<RecordOp>,
    timeout: nat,
) -> bool {
    &&& records.len() == ops.len() + 1
    &&& forall|i: int|
        0 <= i < ops.len() ==> (#[trigger] ops[i]).leads(records[i], records[i + 1], timeout)
}

/// An error that went on record is not reported again before the waiting time
/// has passed, whatever else comes up and however often the record is tidied
/// in the meantime.
pub proof fn a_reported_error_is_held_back(
    records: Seq<Map<Seq<char>, WallTime>>,
    ops: Seq<RecordOp>,
    msg: Seq<char>,
    now: WallTime,
    timeout: nat,
)
    requires
        is_record_history(records, ops, timeout),
        records[0].contains_key(msg),
        forall|i: int|
            0 <= i < ops.len() ==> (#[trigger] ops[i]).when().at() < records[0][msg].deadline(
                timeout,
            ),
        now.at() < records[0][msg].deadline(timeout),
    ensures
        !error_due(records.last(), msg, now, timeout),
        records.last().contains_key(msg),
        records.last()[msg] == records[0][msg],
    decreases ops.len(),
{
    if ops.len() > 0 {
        let last = ops.len() - 1;
        assert forall|i: int| 0 <= i < ops.drop_last().len() implies (
        #[trigger] ops.drop_last()[i]).leads(
            records.drop_last()[i],
            records.drop_last()[i + 1],
            timeout,
        ) by {
            assert(ops[i].leads(records[i], records[i + 1], timeout));
        }
        assert forall|i: int| 0 <= i < ops.drop_last().len() implies (
        #[trigger] ops.drop_last()[i]).when().at() < records[0][msg].deadline(timeout) by {
            assert(ops[i].when().at() < records[0][msg].deadline(timeout));
        }
        a_reported_error_is_held_back(records.drop_last(), ops.drop_last(), msg, now, timeout);
        assert(ops[last].leads(records[last], records[last + 1], timeout));
        assert(ops[last].when().at() < records[0][msg].deadline(timeout));
    }
}

/// Once the waiting time has passed, an error is reported again.
pub proof fn an_error_is_reported_again_after_the_timeout(
    msgs: Map<Seq<char>, WallTime>,
    msg: Seq<char>,
    now: WallTime,
    timeout: nat,
)
    requires
        msgs.contains_key(msg) ==> now.at() >= msgs[msg].deadline(timeout),
    ensures
        error_due(msgs, msg, now, timeout),
        after_error(msgs, msg, now, timeout)[msg] == now,
{
}

/// Tidying the record never changes which errors are reported from then on.
pub proof fn tidying_changes_no_report(
    before: Map<Seq<char>, WallTime>,
    after: Map<Seq<char>, WallTime>,
    now: WallTime,
    timeout: nat,
    msg: Seq<char>,
    later: WallTime,
)
    requires
        is_collected(before, after, now, timeout),
        now.at() <= later.at(),
    ensures
        error_due(after, msg, later, timeout) == error_due(before, msg, later, timeout),
{
}

/// The messages on record that have expired.
pub open spec fn expired_messages(
    msgs: Map<Seq<char>, WallTime>,
    now: WallTime,
    timeout: nat,
) -> Set<Seq<char>> {
    msgs.dom().filter(|msg: Seq<char>| expired(msgs[msg], now, timeout))
}

/// Each tidying takes one expired message off the record as long as there is
/// one, and no other.
pub proof fn tidying_takes_one_expired_message(
    before: Map<Seq<char>, WallTime>,
    after: Map<Seq<char>, WallTime>,
    now: WallTime,
    timeout: nat,
)
    requires
        before.dom().finite(),
        is_collected(before, after, now, timeout),
    ensures
        after.dom().finite(),
        after.submap_of(before),
        expired_messages(before, now, timeout).len() == 0 ==> after == before,
        expired_messages(before, now, timeout).len() > 0 ==> {
            &&& expired_messages(after, now, timeout).len() + 1 == expired_messages(
                before,
                now,
                timeout,
            ).len()
            &&& after.dom().len() + 1 == before.dom().len()
        },
{
    let all = expired_messages(before, now, timeout);
    let left = expired_messages(after, now, timeout);
    assert(all.finite());
    if exists|msg: Seq<char>| #[trigger]
        is_first_expired(before, msg, now, timeout) && after == before.remove(msg) {
        let msg = choose|msg: Seq<char>| #[trigger]
            is_first_expired(before, msg, now, timeout) && after == before.remove(msg);
        assert(left =~= all.remove(msg));
        assert(all.contains(msg));
        assert(after.dom() =~= before.dom().remove(msg));
    } else {
        assert(all =~= Set::empty());
    }
}

/// How often the record is tidied.
pub open spec fn tidyings(ops: Seq<RecordOp>) -> nat
    decreases ops.len(),
{
    if ops.len() == 0 {
        0
    } else {
        tidyings(ops.drop_last()) + if ops.last() is Collect {
            1nat
        } else {
            0nat
        }
    }
}

/// How many errors come up.
pub open spec fn errors(ops: Seq<RecordOp>) -> nat
    decreases ops.len(),
{
    if ops.len() == 0 {
        0
    } else {
        errors(ops.drop_last()) + if ops.last() is Error {
            1nat
        } else {
            0nat
        }
    }
}

/// Nothing happens to the record before `now`.
pub open spec fn none_before(ops: Seq<RecordOp>, now: WallTime) -> bool {
    forall|i: int| 0 <= i < ops.len() ==> now.at() <= (#[trigger] ops[i]).when().at()
}

/// As long as a message is left that had expired at `now`, each tidying makes
/// the record smaller by one.
proof fn lemma_record_shrinks(
    records: Seq<Map<Seq<char>, WallTime>>,
    ops: Seq<RecordOp>,
    now: WallTime,
    timeout: nat,
    msg: Seq<char>,
)
    requires
        is_record_history(records, ops, timeout),
        records[0].dom().finite(),
        none_before(ops, now),
    ensures
        records.last().dom().finite(),
        records.last().contains_key(msg) && expired(records.last()[msg], now, timeout)
            ==> records.last().dom().len() + tidyings(ops) <= records[0].dom().len() + errors(ops),
    decreases ops.len(),
{
    if ops.len() > 0 {
        let last = ops.len() - 1;
        let before = records[last];
        let after = records[last + 1];
        assert forall|i: int| 0 <= i < ops.drop_last().len() implies (
        #[trigger] ops.drop_last()[i]).leads(
            records.drop_last()[i],
            records.drop_last()[i + 1],
            timeout,
        ) by {
            assert(ops[i].leads(records[i], records[i + 1], timeout));
        }
        assert forall|i: int| 0 <= i < ops.drop_last().len() implies now.at() <= (
        #[trigger] ops.drop_last()[i]).when().at() by {
            assert(now.at() <= ops[i].when().at());
        }
        lemma_record_shrinks(records.drop_last(), ops.drop_last(), now, timeout, msg);
        assert(ops[last].leads(before, after, timeout));
        assert(now.at() <= ops[last].when().at());
        match ops[last] {
            RecordOp::Error(text, at) => {
                if error_due(before, text, at, timeout) {
                    assert(after.dom() =~= before.dom().insert(text));
                }
            },
            RecordOp::Collect(at) => {
                if exists|first: Seq<char>| #[trigger]
                    is_first_expired(before, first, at, timeout) && after == before.remove(first) {
                    let first = choose|first: Seq<char>| #[trigger]
                        is_first_expired(before, first, at, timeout) && after == before.remove(
                            first,
                        );
                    assert(after.dom() =~= before.dom().remove(first));
                }
            },
        }
    }
}

/// The record does not keep expired messages for good: once it has been tidied
/// as often as it had messages at `now`, and once more for each error that has
/// come up since, no message is left that had expired at `now`.
pub proof fn expired_messages_do_not_stay(
    records: Seq<Map<Seq<char>, WallTime>>,
    ops: Seq<RecordOp>,
    now: WallTime,
    timeout: nat,
)
    requires
        is_record_history(records, ops, timeout),
        records[0].dom().finite(),
        none_before(ops, now),
        tidyings(ops) >= records[0].dom().len() + errors(ops),
    ensures
        forall|msg: Seq<char>| #[trigger]
            records.last().contains_key(msg) ==> !expired(records.last()[msg], now, timeout),
{
    assert forall|msg: Seq<char>| #[trigger] records.last().contains_key(msg) implies !expired(
        records.last()[msg],
        now,
        timeout,
    ) by {
        lemma_record_shrinks(records, ops, now, timeout, msg);
        if records.last().dom().len() == 0 {
            assert(records.last().dom() =~= Set::empty());
        }
    }
}

/// At most one message is the first that has expired, so tidying has one
/// outcome.
pub proof fn tidying_has_one_outcome(
    before: Map<Seq<char>, WallTime>,
    one: Map<Seq<char>, WallTime>,
    other: Map<Seq<char>, WallTime>,
    now: WallTime,
    timeout: nat,
)
    requires
        is_collected(before, one, now, timeout),
        is_collected(before, other, now, timeout),
    ensures
        one == other,
{
    assert forall|a: Seq<char>, b: Seq<char>|
        #[trigger] is_first_expired(before, a, now, timeout) && #[trigger] is_first_expired(
            before,
            b,
            now,
            timeout,
        ) implies a == b by {
        if a != b {
            assert(before.contains_key(a) && before.contains_key(b));
            precedes_is_transitive(a, b, a);
            precedes_is_irreflexive(a);
        }
    }
}

/// A condition that begins to hold raises the alert at once where there is no
/// delay, and otherwise starts the delay.
pub proof fn a_beginning_raises_or_waits(now: WallTime, delay: nat, timeout: nat)
    ensures
        delay == 0 ==> next_state(AlertState::Idle, true, now, delay, timeout)
            == AlertState::Firing(now) && notice(AlertState::Idle, true, now, delay, timeout)
            == Some(Notice::Alert),
        delay > 0 ==> next_state(AlertState::Idle, true, now, delay, timeout)
            == AlertState::Pending(now) && notice(AlertState::Idle, true, now, delay, timeout)
            is None,
{
}

/// While the condition holds, a pending alert is raised once more than its
/// delay has gone by, and a firing one repeated once more than the timeout has
/// gone by since its last message; before that nothing is said and nothing
/// changes.
pub proof fn lasting_conditions_wait_exactly(
    since: WallTime,
    now: WallTime,
    delay: nat,
    timeout: nat,
)
    ensures
        ({
            let gone = (now.secs - since.secs) * 1_000_000_000 + (now.nanos - since.nanos);
            let pending = AlertState::Pending(since);
            let firing = AlertState::Firing(since);
            &&& gone > delay * 1_000_000_000 ==> {
                &&& next_state(pending, true, now, delay, timeout) == AlertState::Firing(now)
                &&& notice(pending, true, now, delay, timeout) == Some(Notice::Alert)
            }
            &&& gone <= delay * 1_000_000_000 ==> {
                &&& next_state(pending, true, now, delay, timeout) == pending
                &&& notice(pending, true, now, delay, timeout) is None
            }
            &&& gone > timeout * 1_000_000_000 ==> {
                &&& next_state(firing, true, now, delay, timeout) == AlertState::Firing(now)
                &&& notice(firing, true, now, delay, timeout) == Some(Notice::Realert)
            }
            &&& gone <= timeout * 1_000_000_000 ==> {
                &&& next_state(firing, true, now, delay, timeout) == firing
                &&& notice(firing, true, now, delay, timeout) is None
            }
        }),
{
}

/// A condition that does not hold leaves the alert idle, whatever it was, and
/// is told of exactly where the alert was firing.
pub proof fn an_end_is_told_of_once(state: AlertState, now: WallTime, delay: nat, timeout: nat)
    ensures
        next_state(state, false, now, delay, timeout) is Idle,
        state is Firing ==> notice(state, false, now, delay, timeout) == Some(Notice::Cleared),
        !(state is Firing) ==> notice(state, false, now, delay, timeout) is None,
{
}

/// Seen rounds change an alert in its state alone, which follows from whether
/// its own value stands to its own limit as its comparison says.
pub proof fn an_alert_goes_by_its_own_value(
    alert: AlertModel,
    data: Seq<RegData>,
    now: WallTime,
    timeout: nat,
    n: i128,
)
    requires
        alert.limit == Limit::At(n),
    ensures
        ({
            let value = data[alert.midx as int].tenths();
            let holds = match alert.comparison {
                Comparison::AtLeast => value >= n,
                Comparison::AtMost => value <= n,
                Comparison::Equal => value == n,
                Comparison::NotEqual => value != n,
                Comparison::Above => value > n,
                Comparison::Below => value < n,
            };
            let after = alert.after(data, now, timeout);
            let delay = alert.delay_secs as nat;
            &&& alert.holds(data) == holds
            &&& after.state == next_state(alert.state, holds, now, delay, timeout)
            &&& alert.notice(data, now, timeout) == notice(
                alert.state,
                holds,
                now,
                delay,
                timeout,
            )
            &&& after.metric == alert.metric
            &&& after.midx == alert.midx
            &&& after.comparison == alert.comparison
            &&& after.limit == alert.limit
            &&& after.msg == alert.msg
            &&& after.delay_secs == alert.delay_secs
        }),
{
}

/// With any other limit too, an alert goes by its own value.
pub proof fn an_alert_goes_by_its_own_limit(
    alert: AlertModel,
    data: Seq<RegData>,
    now: WallTime,
    timeout: nat,
)
    ensures
        ({
            let holds = alert.limit.admits(
                alert.comparison,
                data[alert.midx as int].tenths(),
            );
            let delay = alert.delay_secs as nat;
            &&& alert.holds(data) == holds
            &&& alert.after(data, now, timeout) == AlertModel {
                state: next_state(alert.state, holds, now, delay, timeout),
                ..alert
            }
            &&& alert.notice(data, now, timeout) == notice(
                alert.state,
                holds,
                now,
                delay,
                timeout,
            )
            &&& alert.text(data, now, timeout) == message(
                notice(alert.state, holds, now, delay, timeout)->0,
                debug_text(alert.msg),
                debug_text(alert.metric),
                data[alert.midx as int].tenths(),
            )
        }),
{
}

/// A message says what it is about, quotes the alert's text and the name of
/// its value, and gives the value.
pub proof fn a_message_is_made_of_its_parts(
    msg: Seq<char>,
    metric: Seq<char>,
    tenths: int,
    kind: Notice,
)
    ensures
        ({
            let behind = msg + ", "@ + metric + "="@ + tenths_decimal(tenths);
            &&& message(Notice::Alert, msg, metric, tenths) == "Alert: "@ + behind
            &&& message(Notice::Realert, msg, metric, tenths) == "Realert: "@ + behind
            &&& message(Notice::Cleared, msg, metric, tenths) == "Alert Cleared: "@ + behind
            &&& message(kind, msg, metric, tenths) == heading(kind) + behind
        }),
{
    let behind = msg + ", "@ + metric + "="@ + tenths_decimal(tenths);
    assert(message(Notice::Alert, msg, metric, tenths) =~= "Alert: "@ + behind);
    assert(message(Notice::Realert, msg, metric, tenths) =~= "Realert: "@ + behind);
    assert(message(Notice::Cleared, msg, metric, tenths) =~= "Alert Cleared: "@ + behind);
    assert(message(kind, msg, metric, tenths) =~= heading(kind) + behind);
}

/// The model of an alert has the alert's own fields.
pub proof fn a_model_has_the_fields_of_its_alert(alerts: Seq<Alert>, i: int)
    requires
        0 <= i < alerts.len(),
    ensures
        models(alerts).len() == alerts.len(),
        models(alerts)[i].metric == alerts[i].metric@,
        models(alerts)[i].midx == alerts[i].midx,
        models(alerts)[i].comparison == alerts[i].comparison,
        models(alerts)[i].limit == alerts[i].limit,
        models(alerts)[i].state == alerts[i].state,
        models(alerts)[i].msg == alerts[i].msg@,
        models(alerts)[i].delay_secs == alerts[i].delay_secs,
{
}

/// A new alert has what its description says, and has seen nothing.
pub proof fn a_new_alert_is_as_described(desc: AlertDesc, lookup: Map<Seq<char>, usize>)
    requires
        condition_of(desc.check@, desc.limit) is Some,
    ensures
        fresh_alert(desc, lookup).metric == desc.metric@,
        fresh_alert(desc, lookup).midx == lookup[desc.metric@],
        condition_of(desc.check@, desc.limit) == Some(
            (fresh_alert(desc, lookup).comparison, fresh_alert(desc, lookup).limit),
        ),
        fresh_alert(desc, lookup).state is Idle,
        fresh_alert(desc, lookup).msg == desc.msg@,
        fresh_alert(desc, lookup).delay_secs == desc.delaysecs,
{
}

/// The waiting time is the seconds that are configured, or else sixty times
/// the minutes; it has to be there and to fit in 64 bits.
pub proof fn the_timeout_is_what_the_settings_say(cfg: AlertSettings)
    ensures
        cfg.alert_timeout_secs matches Some(secs) ==> cfg.timeout() == Ok::<int, ConfigError>(
            secs as int,
        ),
        cfg.alert_timeout_secs is None && cfg.alert_timeout_min is Some ==> {
            let secs = 60 * cfg.alert_timeout_min->0;
            cfg.timeout() == if secs < 0x1_0000_0000_0000_0000 {
                Ok::<int, ConfigError>(secs)
            } else {
                Err(ConfigError::TimeoutTooLong)
            }
        },
        cfg.alert_timeout_secs is None && cfg.alert_timeout_min is None ==> cfg.timeout()
            == Err::<int, ConfigError>(ConfigError::NoTimeout),
{
}

/// The problem that is found is the first one: every alert before it is fine,
/// and the alert itself has that fault. The waiting time is looked at last.
pub proof fn the_first_problem_is_found(
    cfg: AlertSettings,
    lookup: Map<Seq<char>, usize>,
    i: usize,
)
    requires
        cfg.alerts@.len() <= usize::MAX,
    ensures
        cfg.problem(lookup) == Some(ConfigError::UnknownMetric(i)) <==> i < cfg.alerts@.len()
            && !lookup.contains_key(cfg.alerts@[i as int].metric@) && forall|j: int|
            0 <= j < i ==> is_usable(#[trigger] cfg.alerts@[j], lookup),
        cfg.problem(lookup) == Some(ConfigError::BadCheck(i)) <==> i < cfg.alerts@.len()
            && lookup.contains_key(cfg.alerts@[i as int].metric@) && condition_of(
            cfg.alerts@[i as int].check@,
            cfg.alerts@[i as int].limit,
        ) is None && forall|j: int|
            0 <= j < i ==> is_usable(#[trigger] cfg.alerts@[j], lookup),
        (forall|j: int| 0 <= j < cfg.alerts@.len() ==> is_usable(#[trigger] cfg.alerts@[j], lookup))
            ==> match cfg.timeout() {
            Ok(_) => cfg.problem(lookup) is None,
            Err(e) => cfg.problem(lookup) == Some(e),
        },
{
    lemma_first_problem(cfg.alerts@, lookup, 0, i);
    if forall|j: int| 0 <= j < cfg.alerts@.len() ==> is_usable(#[trigger] cfg.alerts@[j], lookup) {
        lemma_all_usable(cfg.alerts@, lookup, 0);
    }
}

proof fn lemma_first_problem(
    alerts: Seq<AlertDesc>,
    lookup: Map<Seq<char>, usize>,
    from: int,
    i: usize,
)
    requires
        0 <= from,
        alerts.len() <= usize::MAX,
    ensures
        alerts_problem(alerts, lookup, from) == Some(ConfigError::UnknownMetric(i)) <==> from <= i
            < alerts.len() && !lookup.contains_key(alerts[i as int].metric@) && forall|j: int|
            from <= j < i ==> is_usable(#[trigger] alerts[j], lookup),
        alerts_problem(alerts, lookup, from) == Some(ConfigError::BadCheck(i)) <==> from <= i
            < alerts.len() && lookup.contains_key(alerts[i as int].metric@) && condition_of(
            alerts[i as int].check@,
            alerts[i as int].limit,
        ) is None && forall|j: int| from <= j < i ==> is_usable(#[trigger] alerts[j], lookup),
        !(alerts_problem(alerts, lookup, from) matches Some(ConfigError::NoTimeout)),
        !(alerts_problem(alerts, lookup, from) matches Some(ConfigError::TimeoutTooLong)),
    decreases alerts.len() - from,
{
    if from < alerts.len() {
        lemma_first_problem(alerts, lookup, from + 1, i);
        assert(from < i ==> (is_usable(alerts[from], lookup) || exists|j: int|
            from <= j < i && !is_usable(#[trigger] alerts[j], lookup)));
    }
}

/// What the alerts wait for and look at is what they hold.
pub proof fn the_alerts_go_by_their_own_settings(a: Alerting, n: nat)
    ensures
        a.timeout() == a.alert_timeout_secs,
        a.fits(n) <==> forall|i: int|
            0 <= i < a.alerts@.len() ==> (#[trigger] a.alerts@[i]).midx < n,
{
}

/// An error is reported exactly where it is not on record, or at least the
/// waiting time has gone by since it was; then it goes on record with the new
/// time, and otherwise the record stays as it is.
pub proof fn errors_are_held_back_exactly(
    msgs: Map<Seq<char>, WallTime>,
    msg: Seq<char>,
    now: WallTime,
    timeout: nat,
)
    ensures
        ({
            let sent = msgs[msg];
            let gone = (now.secs - sent.secs) * 1_000_000_000 + (now.nanos - sent.nanos);
            let due = !msgs.contains_key(msg) || gone >= timeout * 1_000_000_000;
            &&& error_due(msgs, msg, now, timeout) == due
            &&& due ==> after_error(msgs, msg, now, timeout) == msgs.insert(msg, now)
            &&& !due ==> after_error(msgs, msg, now, timeout) == msgs
        }),
{
}

/// Tidying takes off, of all messages that were reported longer ago than the
/// waiting time, the one whose bytes come first, and nothing else; with no
/// such message it changes nothing.
pub proof fn tidying_takes_the_first_overdue_message(
    before: Map<Seq<char>, WallTime>,
    after: Map<Seq<char>, WallTime>,
    now: WallTime,
    timeout: nat,
    msg: Seq<char>,
    other: Seq<char>,
)
    requires
        is_collected(before, after, now, timeout),
    ensures
        ({
            let sent = before[msg];
            let overdue = (now.secs - sent.secs) * 1_000_000_000 + (now.nanos - sent.nanos)
                > timeout * 1_000_000_000;
            let taken = before.contains_key(msg) && !after.contains_key(msg);
            &&& after.contains_key(msg) ==> before.contains_key(msg) && after[msg] == before[msg]
            &&& taken ==> overdue
            &&& before.contains_key(msg) && overdue ==> after != before
            &&& taken && before.contains_key(other) && !after.contains_key(other) ==> msg == other
            &&& taken && before.contains_key(other) && other != msg && (now.secs
                - before[other].secs) * 1_000_000_000 + (now.nanos - before[other].nanos) > timeout
                * 1_000_000_000 ==> precedes(msg, other)
        }),
{
    if before.contains_key(msg) && expired(before[msg], now, timeout) {
        let first = choose|first: Seq<char>| #[trigger]
            is_first_expired(before, first, now, timeout) && after == before.remove(first);
        assert(before.contains_key(first) && !after.contains_key(first));
    }
}

} // verus!
