//! The course of the program: what is done about failures, and when the rooms
//! of the chat account are looked at.

use vstd::prelude::*;
use vstd::string::*;

use crate::clock::WallTime;

verus! {

/// Where something failed.
#[derive(Debug, Clone, Copy, PartialEq, Eq, Structural)]
pub enum Source {
    Startup,
    Modbus,
    Influx,
    Alerting,
}

/// How the report of a failure begins.
pub open spec fn label(source: Source) -> Seq<char> {
    match source {
        Source::Startup => "Startup Error: "@,
        Source::Modbus => "Modbus Error: "@,
        Source::Influx => "Influx Error: "@,
        Source::Alerting => "Alerting Error: "@,
    }
}

/// The report of the failure `error`.
pub fn error_report(source: Source, error: &str) -> (r: String)
    ensures
        r@ == label(source) + error@,
{
    let mut text = match source {
        Source::Startup => "Startup Error: ".to_owned(),
        Source::Modbus => "Modbus Error: ".to_owned(),
        Source::Influx => "Influx Error: ".to_owned(),
        Source::Alerting => "Alerting Error: ".to_owned(),
    };
    text.append(error);
    text
}

/// Where the settings are read from when no file is named.
pub open spec fn default_config_path() -> Seq<char> {
    "/etc/solark_monitor.toml"@
}

/// The file that the settings are read from: the first argument behind the
/// program's name, where there is one.
pub fn config_path(args: &Vec<String>) -> (r: String)
    ensures
        r@ == if args@.len() < 2 {
            default_config_path()
        } else {
            args@[1]@
        },
        args@.len() < 2 ==> r@ == "/etc/solark_monitor.toml"@,
{
    if args.len() < 2 {
        "/etc/solark_monitor.toml".to_owned()
    } else {
        args[1].clone()
    }
}

/// Something to be done in the course of a round.
#[derive(Debug)]
pub enum Action {
    /// Report an error.
    Report(String),
    /// Close the line to the inverter.
    DisconnectSolark,
    /// Drop the client of the database.
    DisconnectInflux,
    /// Drop the login of the chat account.
    DisconnectAlerting,
    /// Tidy the record of reported errors.
    Gc,
}

/// `Action` with its text.
pub enum ActionModel {
    Report(Seq<char>),
    DisconnectSolark,
    DisconnectInflux,
    DisconnectAlerting,
    Gc,
}

impl Action {
    pub open spec fn view(&self) -> ActionModel {
        match *self {
            Action::Report(text) => ActionModel::Report(text@),
            Action::DisconnectSolark => ActionModel::DisconnectSolark,
            Action::DisconnectInflux => ActionModel::DisconnectInflux,
            Action::DisconnectAlerting => ActionModel::DisconnectAlerting,
            Action::Gc => ActionModel::Gc,
        }
    }
}

/// The actions of a list, with their texts.
pub open spec fn action_models(list: Seq<Action>) -> Seq<ActionModel> {
    list.map_values(|a: Action| a@)
}

/// What a failure calls for: it is reported, and the connection dropped that
/// failed. Nothing where there was none.
pub open spec fn answer_to(
    source: Source,
    error: Option<Seq<char>>,
    drop: ActionModel,
) -> Seq<ActionModel> {
    match error {
        Some(text) => seq![ActionModel::Report(label(source) + text), drop],
        None => Seq::empty(),
    }
}

/// The text of an error, if there is one.
pub open spec fn error_text(error: Option<String>) -> Option<Seq<char>> {
    match error {
        Some(text) => Some(text@),
        None => None,
    }
}

/// The reports of the failures to set things up, in the order in which the
/// inverter, the database and the chat account are given.
pub open spec fn startup_texts(errors: Seq<Option<String>>) -> Seq<Seq<char>>
    decreases errors.len(),
{
    if errors.len() == 0 {
        Seq::empty()
    } else {
        let before = startup_texts(errors.drop_last());
        match errors.last() {
            Some(text) => before.push(label(Source::Startup) + text@),
            None => before,
        }
    }
}

/// Computes `startup_texts`.
pub fn startup_reports(errors: &Vec<Option<String>>) -> (r: Vec<String>)
    ensures
        r@.map_values(|s: String| s@) == startup_texts(errors@),
{
    let mut reports: Vec<String> = Vec::new();
    let mut i: usize = 0;
    assert(reports@.map_values(|s: String| s@) =~= startup_texts(errors@.take(0)));
    while i < errors.len()
        invariant
            i <= errors@.len(),
            reports@.map_values(|s: String| s@) == startup_texts(errors@.take(i as int)),
        decreases errors@.len() - i,
    {
        if let Some(text) = &errors[i] {
            reports.push(error_report(Source::Startup, text.as_str()));
        }
        i += 1;
        proof {
            assert(errors@.take(i as int).drop_last() =~= errors@.take(i - 1));
            assert(reports@.map_values(|s: String| s@) =~= startup_texts(errors@.take(i as int)));
        }
    }
    assert(errors@.take(i as int) =~= errors@);
    reports
}

/// What is done once the inverter has been read, with the error of that, if
/// any, and whether the round goes on: a failed read ends it, so that nothing
/// is written, shown to the alerts or tidied, and no room is looked at.
pub fn after_read(error: &Option<String>) -> (r: (Vec<Action>, bool))
    ensures
        action_models(r.0@) == answer_to(
            Source::Modbus,
            error_text(*error),
            ActionModel::DisconnectSolark,
        ),
        r.1 == (error is None),
        error is None ==> r.0@.len() == 0,
        error matches Some(text) ==> r.0@.len() == 2 && r.0@[1] is DisconnectSolark && (r.0@[0]
            matches Action::Report(report) && report@ == "Modbus Error: "@ + text@),
{
    let mut actions: Vec<Action> = Vec::new();
    if let Some(text) = error {
        actions.push(Action::Report(error_report(Source::Modbus, text.as_str())));
        actions.push(Action::DisconnectSolark);
    }
    assert(action_models(actions@) =~= answer_to(
        Source::Modbus,
        error_text(*error),
        ActionModel::DisconnectSolark,
    ));
    proof {
        let models = action_models(actions@);
        assert(models.len() == actions@.len());
        if let Some(text) = error {
            assert(models[0] == actions@[0]@);
            assert(models[1] == actions@[1]@);
        }
    }
    (actions, error.is_none())
}

/// What is done once the values have been written and shown to the alerts,
/// with the errors of the two, if any.
pub fn after_round(write_error: &Option<String>, alert_error: &Option<String>) -> (r: Vec<Action>)
    ensures
        action_models(r@) == answer_to(
            Source::Influx,
            error_text(*write_error),
            ActionModel::DisconnectInflux,
        ) + answer_to(
            Source::Alerting,
            error_text(*alert_error),
            ActionModel::DisconnectAlerting,
        ) + seq![ActionModel::Gc],
{
    let mut actions: Vec<Action> = Vec::new();
    if let Some(text) = write_error {
        actions.push(Action::Report(error_report(Source::Influx, text.as_str())));
        actions.push(Action::DisconnectInflux);
    }
    if let Some(text) = alert_error {
        actions.push(Action::Report(error_report(Source::Alerting, text.as_str())));
        actions.push(Action::DisconnectAlerting);
    }
    actions.push(Action::Gc);
    assert(action_models(actions@) =~= answer_to(
        Source::Influx,
        error_text(*write_error),
        ActionModel::DisconnectInflux,
    ) + answer_to(Source::Alerting, error_text(*alert_error), ActionModel::DisconnectAlerting)
        + seq![ActionModel::Gc]);
    actions
}

/// When the rooms of the chat account are to be looked at.
#[derive(Debug)]
pub struct RoomTimer {
    /// The seconds before the first look; with 0 there is none.
    pub secs: u64,
    /// The nanosecond since the Unix epoch behind which a look is due.
    pub next: i128,
}

impl RoomTimer {
    /// A timer that runs from `now` on.
    pub fn new(secs: u64, now: WallTime) -> (r: Self)
        ensures
            r.secs == secs,
            r.next as int == now.deadline(secs as nat),
            r.next == (now.secs + secs) * 1_000_000_000 + now.nanos,
    {
        RoomTimer { secs, next: now.deadline_nanos(secs) }
    }

    /// A look is due at `now`.
    pub open spec fn due(self, now: WallTime) -> bool {
        self.secs != 0 && now.at() > self.next
    }

    /// Computes `due`.
    pub fn is_due(&self, now: WallTime) -> (r: bool)
        ensures
            r == self.due(now),
            r == (self.secs != 0 && now.secs * 1_000_000_000 + now.nanos > self.next),
    {
        self.secs != 0 && now.deadline_nanos(0) > self.next
    }

    /// Takes note of a look at `now`.
    pub fn looked(&mut self, now: WallTime)
        ensures
            final(self).secs == old(self).secs,
            final(self).next as int == now.at(),
            final(self).next == now.secs * 1_000_000_000 + now.nanos,
    {
        self.next = now.deadline_nanos(0);
    }
}

/// After a look at the rooms the next one is due as soon as the clock has
/// moved on; without a waiting time none ever is.
pub proof fn looks_follow_each_other(timer: RoomTimer, looked: WallTime, now: WallTime)
    requires
        timer.next as int == looked.at(),
    ensures
        timer.due(now) <==> timer.secs != 0 && now.at() > looked.at(),
{
}

/// The report of a failure names where it was and gives it in full.
pub proof fn a_report_names_its_source(error: Seq<char>)
    ensures
        label(Source::Startup) + error == "Startup Error: "@ + error,
        label(Source::Modbus) + error == "Modbus Error: "@ + error,
        label(Source::Influx) + error == "Influx Error: "@ + error,
        label(Source::Alerting) + error == "Alerting Error: "@ + error,
{
}

/// A failure is reported first and the connection dropped then; without one
/// nothing is done.
pub proof fn a_failure_is_reported_and_dropped(error: Seq<char>, drop: ActionModel)
    ensures
        answer_to(Source::Modbus, Some(error), drop) == seq![
            ActionModel::Report("Modbus Error: "@ + error),
            drop,
        ],
        answer_to(Source::Influx, Some(error), drop) == seq![
            ActionModel::Report("Influx Error: "@ + error),
            drop,
        ],
        answer_to(Source::Alerting, Some(error), drop) == seq![
            ActionModel::Report("Alerting Error: "@ + error),
            drop,
        ],
        forall|source: Source| (#[trigger] answer_to(source, None, drop)).len() == 0,
{
}

/// The failures at startup are reported one for each, in their order.
pub proof fn startup_failures_are_reported_in_order(errors: Seq<Option<String>>, text: String)
    ensures
        startup_texts(Seq::empty()).len() == 0,
        startup_texts(errors.push(None)) == startup_texts(errors),
        startup_texts(errors.push(Some(text))) == startup_texts(errors).push(
            "Startup Error: "@ + text@,
        ),
{
    assert(errors.push(None).drop_last() =~= errors);
    assert(errors.push(Some(text)).drop_last() =~= errors);
}

/// An action is seen as it is, and a list of actions in its order.
pub proof fn actions_are_seen_as_they_are(list: Seq<Action>, text: String, i: int)
    ensures
        action_models(list).len() == list.len(),
        0 <= i < list.len() ==> action_models(list)[i] == list[i]@,
        Action::Report(text)@ == ActionModel::Report(text@),
        Action::DisconnectSolark@ is DisconnectSolark,
        Action::DisconnectInflux@ is DisconnectInflux,
        Action::DisconnectAlerting@ is DisconnectAlerting,
        Action::Gc@ is Gc,
        error_text(Some(text)) == Some(text@),
        error_text(None) is None,
{
}

/// A look is due exactly where looks are wanted at all and the clock has gone
/// past the time that is set.
pub proof fn a_look_is_due_past_its_time(timer: RoomTimer, now: WallTime)
    ensures
        timer.due(now) <==> timer.secs > 0 && now.secs * 1_000_000_000 + now.nanos > timer.next,
{
}

} // verus!
