//! The chat account that alerts are sent from: who may talk to it, which rooms
//! it stays in, and what it sends.

use matrix_sdk::ruma::events::room::message::RoomMessageEventContent;
use vstd::prelude::*;

use crate::delivery::{delivery_start, Delivery, SendStep};

verus! {

/// The account and who may talk to it.
#[derive(Debug)]
pub struct MatrixSettings {
    pub enable: bool,
    pub user: String,
    pub passwd: String,
    pub server: String,
    pub allowed_users: Vec<String>,
    pub room_check_secs: u64,
}

/// The texts of a list of strings.
pub open spec fn texts(list: Seq<String>) -> Seq<Seq<char>> {
    list.map_values(|s: String| s@)
}

/// A copy of a list of strings.
fn copy_list(list: &Vec<String>) -> (r: Vec<String>)
    ensures
        texts(r@) == texts(list@),
{
    let r = list.clone();
    assert(texts(r@) =~= texts(list@));
    r
}

impl MatrixSettings {
    /// Both hold the same settings.
    pub open spec fn same(self, other: Self) -> bool {
        &&& self.enable == other.enable
        &&& self.user@ == other.user@
        &&& self.passwd@ == other.passwd@
        &&& self.server@ == other.server@
        &&& texts(self.allowed_users@) == texts(other.allowed_users@)
        &&& self.room_check_secs == other.room_check_secs
    }
}

impl Clone for MatrixSettings {
    fn clone(&self) -> (r: Self)
        ensures
            r.same(*self),
    {
        MatrixSettings {
            enable: self.enable,
            user: self.user.clone(),
            passwd: self.passwd.clone(),
            server: self.server.clone(),
            allowed_users: copy_list(&self.allowed_users),
            room_check_secs: self.room_check_secs,
        }
    }
}

/// `matrix_sdk`'s content of a message.
#[verifier::external_type_specification]
#[verifier::external_body]
pub struct ExRoomMessageEventContent(RoomMessageEventContent);

/// The text of a content that is nothing but plain text: without formatting,
/// without a relation to another message, without mentions.
pub uninterp spec fn plain_text(content: RoomMessageEventContent) -> Option<Seq<char>>;

/// `RoomMessageEventContent::text_plain` makes a content that is nothing but
/// the given text.
#[verifier::external_body]
fn text_message(msg: &str) -> (r: RoomMessageEventContent)
    ensures
        plain_text(r) == Some(msg@),
{
    RoomMessageEventContent::text_plain(msg)
}

/// What logging in takes.
#[derive(Debug)]
pub struct Login {
    pub server: String,
    pub user: String,
    pub passwd: String,
}

impl Login {
    /// It is what `cfg` says.
    pub open spec fn is_for(self, cfg: MatrixSettings) -> bool {
        &&& self.server@ == cfg.server@
        &&& self.user@ == cfg.user@
        &&& self.passwd@ == cfg.passwd@
    }
}

/// A message on its way: the login to make first where there is none, and what
/// goes to every joined room.
#[derive(Debug)]
pub struct Outgoing {
    pub login: Option<Login>,
    pub content: RoomMessageEventContent,
}

impl Outgoing {
    /// It carries the text `msg` and nothing else, from the account `from`.
    pub open spec fn says(self, msg: Seq<char>, from: Matrix) -> bool {
        &&& plain_text(self.content) == Some(msg)
        &&& self.login is Some <==> !from.connected
        &&& self.login matches Some(login) ==> login.is_for(from.cfg)
    }

    /// Begins to deliver the message.
    pub fn delivery(&self) -> (r: Delivery)
        ensures
            r == delivery_start(self.login is Some),
    {
        Delivery {
            step: if self.login.is_some() {
                SendStep::Connect
            } else {
                SendStep::ListRooms
            },
            rooms: 0,
        }
    }
}

/// What a check of the rooms does next. Rooms are counted in the list that was
/// asked for last, members in the list of their room.
#[derive(Debug, Clone, Copy, PartialEq, Eq, Structural)]
pub enum RoomStep {
    /// Synchronise with the server.
    Sync,
    /// List the rooms that were joined.
    ListJoined,
    /// List the members of a joined room.
    FetchMembers(usize),
    /// Leave a joined room in which there is nobody else.
    LeaveEmpty(usize),
    /// Leave a joined room on account of one of its members.
    LeaveStranger(usize, usize),
    /// List the rooms that there are invitations to.
    ListInvited,
    /// Find out who sent an invitation.
    FetchInviter(usize),
    /// Accept an invitation.
    Join(usize),
    /// Leave a room that could not be joined, so that the invitation goes away.
    LeaveUnjoined(usize),
    /// Turn down the invitation of a stranger.
    Refuse(usize),
    /// Synchronise again.
    SyncAgain,
    /// Nothing: everything has been done.
    Finished,
    /// Nothing: a step failed, and its failure is what the check comes to.
    Aborted,
}

/// What came of a step.
#[derive(Debug)]
pub enum RoomEvent {
    /// It was done.
    Done,
    /// There are so many rooms.
    Rooms(usize),
    /// These are the members.
    Members(Vec<String>),
    /// This is who sent the invitation.
    Inviter(String),
    /// It could not be done.
    Failed,
}

/// `RoomEvent` with its texts.
pub enum RoomAnswer {
    Done,
    Rooms(usize),
    Members(Seq<Seq<char>>),
    Inviter(Seq<char>),
    Failed,
}

impl RoomEvent {
    pub open spec fn view(&self) -> RoomAnswer {
        match *self {
            RoomEvent::Done => RoomAnswer::Done,
            RoomEvent::Rooms(n) => RoomAnswer::Rooms(n),
            RoomEvent::Members(ids) => RoomAnswer::Members(texts(ids@)),
            RoomEvent::Inviter(id) => RoomAnswer::Inviter(id@),
            RoomEvent::Failed => RoomAnswer::Failed,
        }
    }
}

/// Nobody among `ids` but `own`.
pub open spec fn nobody_else(own: Seq<char>, ids: Seq<Seq<char>>) -> bool {
    forall|i: int| 0 <= i < ids.len() ==> ids[i] == own
}

/// The places in `ids` of those who are not in `allowed`, in order.
pub open spec fn strangers(allowed: Seq<Seq<char>>, ids: Seq<Seq<char>>) -> Seq<usize>
    decreases ids.len(),
{
    if ids.len() == 0 {
        Seq::empty()
    } else {
        let before = strangers(allowed, ids.drop_last());
        if allowed.contains(ids.last()) {
            before
        } else {
            before.push((ids.len() - 1) as usize)
        }
    }
}

/// A check of the rooms under way.
#[derive(Debug)]
pub struct RoomCheck {
    /// What is to be done now.
    pub step: RoomStep,
    /// How many rooms were joined, once that is known.
    pub joined: usize,
    /// How many invitations there are, once that is known.
    pub invited: usize,
    /// The strangers of the room at hand that have not been acted on.
    pub pending: Vec<usize>,
    /// Whether anything was left, joined or refused.
    pub sync_again: bool,
}

/// `RoomCheck` with its list as a sequence.
#[verifier::ext_equal]
pub struct CheckState {
    pub step: RoomStep,
    pub joined: usize,
    pub invited: usize,
    pub pending: Seq<usize>,
    pub sync_again: bool,
}

impl CheckState {
    /// On to the joined room `room`, or to the invitations after the last.
    pub open spec fn to_joined(self, room: int) -> CheckState {
        CheckState {
            step: if room < self.joined {
                RoomStep::FetchMembers(room as usize)
            } else {
                RoomStep::ListInvited
            },
            ..self
        }
    }

    /// On to the next stranger of `room`, or to the next room after the last.
    pub open spec fn to_stranger(self, room: usize) -> CheckState {
        if self.pending.len() > 0 {
            CheckState {
                step: RoomStep::LeaveStranger(room, self.pending[0]),
                pending: self.pending.drop_first(),
                ..self
            }
        } else {
            self.to_joined(room + 1)
        }
    }

    /// On to the invitation `room`, or to the end after the last.
    pub open spec fn to_invited(self, room: int) -> CheckState {
        CheckState {
            step: if room < self.invited {
                RoomStep::FetchInviter(room as usize)
            } else if self.sync_again {
                RoomStep::SyncAgain
            } else {
                RoomStep::Finished
            },
            ..self
        }
    }

    /// Something was left, joined or refused.
    pub open spec fn changed(self) -> CheckState {
        CheckState { sync_again: true, ..self }
    }

    /// The check after `answer`, for the account `own` that those in `allowed`
    /// may talk to. A room that cannot be joined is left; the failure of any
    /// other step ends the check. An answer to another step changes nothing.
    pub open spec fn after(
        self,
        own: Seq<char>,
        allowed: Seq<Seq<char>>,
        answer: RoomAnswer,
    ) -> CheckState {
        match (self.step, answer) {
            (RoomStep::Sync, RoomAnswer::Done) => CheckState { step: RoomStep::ListJoined, ..self },
            (RoomStep::ListJoined, RoomAnswer::Rooms(n)) => CheckState {
                joined: n,
                ..self
            }.to_joined(0),
            (RoomStep::FetchMembers(room), RoomAnswer::Members(ids)) => {
                let seen = CheckState { pending: strangers(allowed, ids), ..self };
                if nobody_else(own, ids) {
                    CheckState { step: RoomStep::LeaveEmpty(room), ..seen }
                } else {
                    seen.to_stranger(room)
                }
            },
            (RoomStep::LeaveEmpty(room), RoomAnswer::Done) => self.changed().to_stranger(room),
            (RoomStep::LeaveStranger(room, _), RoomAnswer::Done) => self.changed().to_stranger(
                room,
            ),
            (RoomStep::ListInvited, RoomAnswer::Rooms(n)) => CheckState {
                invited: n,
                ..self
            }.to_invited(0),
            (RoomStep::FetchInviter(room), RoomAnswer::Inviter(id)) => CheckState {
                step: if allowed.contains(id) {
                    RoomStep::Join(room)
                } else {
                    RoomStep::Refuse(room)
                },
                ..self
            },
            (RoomStep::Join(room), RoomAnswer::Done) => self.changed().to_invited(room + 1),
            (RoomStep::Join(room), RoomAnswer::Failed) => CheckState {
                step: RoomStep::LeaveUnjoined(room),
                ..self
            },
            (RoomStep::LeaveUnjoined(room), RoomAnswer::Done) => self.changed().to_invited(
                room + 1,
            ),
            (RoomStep::Refuse(room), RoomAnswer::Done) => self.changed().to_invited(room + 1),
            (RoomStep::SyncAgain, RoomAnswer::Done) => CheckState {
                step: RoomStep::Finished,
                ..self
            },
            (RoomStep::Finished, _) => self,
            (RoomStep::Aborted, _) => self,
            (_, RoomAnswer::Failed) => CheckState { step: RoomStep::Aborted, ..self },
            _ => self,
        }
    }
}

/// The check that has not begun.
pub open spec fn check_start() -> CheckState {
    CheckState {
        step: RoomStep::Sync,
        joined: 0,
        invited: 0,
        pending: Seq::empty(),
        sync_again: false,
    }
}

impl RoomCheck {
    pub open spec fn view(&self) -> CheckState {
        CheckState {
            step: self.step,
            joined: self.joined,
            invited: self.invited,
            pending: self.pending@,
            sync_again: self.sync_again,
        }
    }

    fn to_stranger(&mut self, room: usize)
        ensures
            final(self)@ == old(self)@.to_stranger(room),
    {
        if self.pending.len() > 0 {
            let member: usize = self.pending.remove(0);
            self.step = RoomStep::LeaveStranger(room, member);
            assert(self.pending@ =~= old(self).pending@.drop_first());
        } else if room < self.joined && self.joined - room > 1 {
            self.step = RoomStep::FetchMembers(room + 1);
        } else {
            self.step = RoomStep::ListInvited;
        }
    }

    /// On to the invitation after `room`, now that something has been done
    /// about that one.
    fn after_invitation(&mut self, room: usize)
        ensures
            final(self)@ == old(self)@.changed().to_invited(room + 1),
    {
        self.sync_again = true;
        if room < self.invited && self.invited - room > 1 {
            self.step = RoomStep::FetchInviter(room + 1);
        } else {
            self.step = RoomStep::SyncAgain;
        }
    }
}

/// The chat account, as far as this side knows it.
#[derive(Debug)]
pub struct Matrix {
    pub cfg: MatrixSettings,
    /// Those who may talk to the account, and the account itself.
    pub allowed_users: Vec<String>,
    /// Whether it is logged in.
    pub connected: bool,
}

impl Matrix {
    /// Those who may talk to the account, and the account itself.
    pub open spec fn allowed(self) -> Seq<Seq<char>> {
        texts(self.allowed_users@)
    }

    /// An account that is not logged in.
    pub fn new(cfg: &MatrixSettings) -> (r: Self)
        ensures
            r.cfg.same(*cfg),
            r.allowed() == texts(cfg.allowed_users@).push(cfg.user@),
            r.allowed_users@.len() == cfg.allowed_users@.len() + 1,
            forall|i: int|
                0 <= i < cfg.allowed_users@.len() ==> (#[trigger] r.allowed_users@[i])@
                    == cfg.allowed_users@[i]@,
            r.allowed_users@.last()@ == cfg.user@,
            !r.connected,
    {
        let mut allowed_users = copy_list(&cfg.allowed_users);
        let ghost before = allowed_users@;
        allowed_users.push(cfg.user.clone());
        assert(texts(allowed_users@) =~= texts(before).push(cfg.user@));
        proof {
            assert forall|i: int| 0 <= i < cfg.allowed_users@.len() implies (
            #[trigger] allowed_users@[i])@ == cfg.allowed_users@[i]@ by {
                assert(texts(before)[i] == before[i]@);
                assert(texts(cfg.allowed_users@)[i] == cfg.allowed_users@[i]@);
                assert(texts(before)[i] == texts(cfg.allowed_users@)[i]);
            }
            assert(texts(before).len() == texts(cfg.allowed_users@).len());
        }
        Matrix { cfg: cfg.clone(), allowed_users, connected: false }
    }

    /// The login to make; nothing where there is one, or where the account is
    /// switched off.
    pub fn connect(&self) -> (r: Option<Login>)
        ensures
            r is Some <==> !self.connected && self.cfg.enable,
            r matches Some(login) ==> login.is_for(self.cfg),
    {
        if self.connected || !self.cfg.enable {
            return None;
        }
        Some(
            Login {
                server: self.cfg.server.clone(),
                user: self.cfg.user.clone(),
                passwd: self.cfg.passwd.clone(),
            },
        )
    }

    /// Takes note that the login was made, and begins the check of the rooms
    /// that follows it.
    pub fn logged_in(&mut self) -> (r: Option<RoomCheck>)
        ensures
            final(self).cfg == old(self).cfg,
            final(self).allowed_users == old(self).allowed_users,
            final(self).connected,
            r is Some <==> old(self).cfg.enable,
            r matches Some(check) ==> check@ == check_start(),
    {
        self.connected = true;
        self.check_rooms()
    }

    /// Drops the login.
    pub fn disconnect(&mut self)
        ensures
            final(self).cfg == old(self).cfg,
            final(self).allowed_users == old(self).allowed_users,
            !final(self).connected,
    {
        self.connected = false;
    }

    /// What to send for the text `msg`; nothing where the account is switched
    /// off.
    pub fn send(&self, msg: &str) -> (r: Option<Outgoing>)
        ensures
            r is Some <==> self.cfg.enable,
            r matches Some(out) ==> out.says(msg@, *self),
    {
        if !self.cfg.enable {
            return None;
        }
        Some(Outgoing { login: self.connect(), content: text_message(msg) })
    }

    /// Begins a check of the rooms; nothing where the account is not logged in
    /// or switched off.
    pub fn check_rooms(&self) -> (r: Option<RoomCheck>)
        ensures
            r is Some <==> self.connected && self.cfg.enable,
            r matches Some(check) ==> check@ == check_start(),
            r matches Some(check) ==> check.step is Sync && check.pending@.len() == 0
                && !check.sync_again,
    {
        if !self.connected || !self.cfg.enable {
            return None;
        }
        Some(
            RoomCheck {
                step: RoomStep::Sync,
                joined: 0,
                invited: 0,
                pending: Vec::new(),
                sync_again: false,
            },
        )
    }

    /// Whether `id` may talk to the account.
    pub fn is_allowed(&self, id: &String) -> (r: bool)
        ensures
            r == self.allowed().contains(id@),
            r <==> exists|i: int|
                0 <= i < self.allowed_users@.len() && (#[trigger] self.allowed_users@[i])@ == id@,
    {
        let mut i: usize = 0;
        while i < self.allowed_users.len()
            invariant
                i <= self.allowed_users@.len(),
                forall|j: int| 0 <= j < i ==> self.allowed()[j] != id@,
            decreases self.allowed_users@.len() - i,
        {
            if self.allowed_users[i] == *id {
                assert(self.allowed()[i as int] == id@);
                return true;
            }
            i += 1;
        }
        assert forall|j: int| 0 <= j < self.allowed_users@.len() implies (
        #[trigger] self.allowed_users@[j])@ != id@ by {
            assert(self.allowed()[j] != id@);
        }
        false
    }

    /// Whether `ids` holds nobody but the account.
    fn is_alone(&self, ids: &Vec<String>) -> (r: bool)
        ensures
            r == nobody_else(self.cfg.user@, texts(ids@)),
    {
        let mut i: usize = 0;
        while i < ids.len()
            invariant
                i <= ids@.len(),
                forall|j: int| 0 <= j < i ==> texts(ids@)[j] == self.cfg.user@,
            decreases ids@.len() - i,
        {
            if ids[i] != self.cfg.user {
                assert(texts(ids@)[i as int] != self.cfg.user@);
                return false;
            }
            i += 1;
        }
        true
    }

    /// Computes `strangers`.
    fn find_strangers(&self, ids: &Vec<String>) -> (r: Vec<usize>)
        ensures
            r@ == strangers(self.allowed(), texts(ids@)),
    {
        let mut found: Vec<usize> = Vec::new();
        let ghost all = texts(ids@);
        let mut i: usize = 0;
        while i < ids.len()
            invariant
                i <= ids@.len(),
                all == texts(ids@),
                found@ == strangers(self.allowed(), all.take(i as int)),
            decreases ids@.len() - i,
        {
            if !self.is_allowed(&ids[i]) {
                found.push(i);
            }
            i += 1;
            assert(all.take(i as int).drop_last() =~= all.take(i - 1));
        }
        assert(all.take(i as int) =~= all);
        found
    }

    /// Takes a check of the rooms one step on.
    pub fn continue_check(&self, check: &mut RoomCheck, event: &RoomEvent)
        ensures
            final(check)@ == old(check)@.after(self.cfg.user@, self.allowed(), event@),
    {
        match (check.step, event) {
            (RoomStep::Sync, RoomEvent::Done) => {
                check.step = RoomStep::ListJoined;
            },
            (RoomStep::ListJoined, RoomEvent::Rooms(n)) => {
                check.joined = *n;
                check.step = if *n > 0 {
                    RoomStep::FetchMembers(0)
                } else {
                    RoomStep::ListInvited
                };
            },
            (RoomStep::FetchMembers(room), RoomEvent::Members(ids)) => {
                check.pending = self.find_strangers(ids);
                if self.is_alone(ids) {
                    check.step = RoomStep::LeaveEmpty(room);
                } else {
                    check.to_stranger(room);
                }
            },
            (RoomStep::LeaveEmpty(room), RoomEvent::Done) => {
                check.sync_again = true;
                check.to_stranger(room);
            },
            (RoomStep::LeaveStranger(room, _), RoomEvent::Done) => {
                check.sync_again = true;
                check.to_stranger(room);
            },
            (RoomStep::ListInvited, RoomEvent::Rooms(n)) => {
                check.invited = *n;
                check.step = if *n > 0 {
                    RoomStep::FetchInviter(0)
                } else if check.sync_again {
                    RoomStep::SyncAgain
                } else {
                    RoomStep::Finished
                };
            },
            (RoomStep::FetchInviter(room), RoomEvent::Inviter(id)) => {
                check.step = if self.is_allowed(id) {
                    RoomStep::Join(room)
                } else {
                    RoomStep::Refuse(room)
                };
            },
            (RoomStep::Join(room), RoomEvent::Done) => {
                check.after_invitation(room);
            },
            (RoomStep::Join(room), RoomEvent::Failed) => {
                check.step = RoomStep::LeaveUnjoined(room);
            },
            (RoomStep::LeaveUnjoined(room), RoomEvent::Done) => {
                check.after_invitation(room);
            },
            (RoomStep::Refuse(room), RoomEvent::Done) => {
                check.after_invitation(room);
            },
            (RoomStep::SyncAgain, RoomEvent::Done) => {
                check.step = RoomStep::Finished;
            },
            (RoomStep::Finished, _) => {},
            (RoomStep::Aborted, _) => {},
            (_, RoomEvent::Failed) => {
                check.step = RoomStep::Aborted;
            },
            _ => {},
        }
    }
}

/// A message carries its text alone, and the login of its account where the
/// account is not logged in.
pub proof fn a_message_says_its_text(out: Outgoing, msg: Seq<char>, from: Matrix)
    requires
        out.says(msg, from),
    ensures
        plain_text(out.content) == Some(msg),
        out.login is Some <==> !from.connected,
        out.login matches Some(login) ==> login.server@ == from.cfg.server@ && login.user@
            == from.cfg.user@ && login.passwd@ == from.cfg.passwd@,
{
}

/// A login is made with what the settings say.
pub proof fn a_login_is_what_the_settings_say(login: Login, cfg: MatrixSettings)
    requires
        login.is_for(cfg),
    ensures
        login.server@ == cfg.server@,
        login.user@ == cfg.user@,
        login.passwd@ == cfg.passwd@,
{
}

/// Copied settings agree in every field.
pub proof fn the_same_settings_agree(a: MatrixSettings, b: MatrixSettings, i: int)
    requires
        a.same(b),
    ensures
        a.enable == b.enable,
        a.user@ == b.user@,
        a.passwd@ == b.passwd@,
        a.server@ == b.server@,
        a.room_check_secs == b.room_check_secs,
        a.allowed_users@.len() == b.allowed_users@.len(),
        0 <= i < a.allowed_users@.len() ==> a.allowed_users@[i]@ == b.allowed_users@[i]@,
{
    assert(texts(a.allowed_users@).len() == texts(b.allowed_users@).len());
    if 0 <= i < a.allowed_users@.len() {
        assert(texts(a.allowed_users@)[i] == a.allowed_users@[i]@);
        assert(texts(b.allowed_users@)[i] == b.allowed_users@[i]@);
    }
}

/// The texts of a list are those of its strings; those who may talk to an
/// account are those on its list.
pub proof fn texts_are_those_of_the_strings(list: Seq<String>, m: Matrix, i: int)
    ensures
        texts(list).len() == list.len(),
        0 <= i < list.len() ==> texts(list)[i] == list[i]@,
        m.allowed().len() == m.allowed_users@.len(),
        0 <= i < m.allowed_users@.len() ==> m.allowed()[i] == m.allowed_users@[i]@,
{
}

/// What came of a step is taken as it is.
pub proof fn events_are_taken_as_they_are(n: usize, ids: Vec<String>, id: String, i: int)
    ensures
        RoomEvent::Done@ is Done,
        RoomEvent::Failed@ is Failed,
        RoomEvent::Rooms(n)@ == RoomAnswer::Rooms(n),
        RoomEvent::Inviter(id)@ == RoomAnswer::Inviter(id@),
        RoomEvent::Members(ids)@ matches RoomAnswer::Members(list) && list.len() == ids@.len()
            && (0 <= i < ids@.len() ==> list[i] == ids@[i]@),
{
}

/// A check is seen with its own fields, and begins with the synchronisation.
pub proof fn a_check_is_seen_as_it_is(check: RoomCheck)
    ensures
        check@.step == check.step,
        check@.joined == check.joined,
        check@.invited == check.invited,
        check@.pending == check.pending@,
        check@.sync_again == check.sync_again,
        check_start().step is Sync,
        check_start().joined == 0,
        check_start().invited == 0,
        check_start().pending.len() == 0,
        !check_start().sync_again,
{
}

} // verus!
