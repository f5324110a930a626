//! What a check of the rooms does from beginning to end.

use vstd::prelude::*;

use crate::matrix::{check_start, nobody_else, strangers, CheckState, RoomAnswer, RoomStep};

verus! {

/// The account and the rooms that a check meets.
pub struct RoomWorld {
    /// The account.
    pub own: Seq<char>,
    /// Those who may talk to it, and the account itself.
    pub allowed: Seq<Seq<char>>,
    /// The members of each joined room.
    pub members: Seq<Seq<Seq<char>>>,
    /// Who sent each invitation.
    pub inviters: Seq<Seq<char>>,
    /// Whether each room with an invitation can be joined.
    pub joinable: Seq<bool>,
}

impl RoomWorld {
    /// The lists can be counted, and the account counts as allowed.
    pub open spec fn valid(self) -> bool {
        &&& self.members.len() <= usize::MAX
        &&& self.inviters.len() <= usize::MAX
        &&& self.joinable.len() == self.inviters.len()
        &&& self.allowed.contains(self.own)
    }

    /// What this world answers to a step.
    pub open spec fn answer(self, step: RoomStep) -> RoomAnswer {
        match step {
            RoomStep::ListJoined => RoomAnswer::Rooms(self.members.len() as usize),
            RoomStep::FetchMembers(room) => RoomAnswer::Members(self.members[room as int]),
            RoomStep::ListInvited => RoomAnswer::Rooms(self.inviters.len() as usize),
            RoomStep::FetchInviter(room) => RoomAnswer::Inviter(self.inviters[room as int]),
            RoomStep::Join(room) => if self.joinable[room as int] {
                RoomAnswer::Done
            } else {
                RoomAnswer::Failed
            },
            _ => RoomAnswer::Done,
        }
    }

    /// The check `s` one step on.
    pub open spec fn next(self, s: CheckState) -> CheckState {
        s.after(self.own, self.allowed, self.answer(s.step))
    }

    /// The check `s` after `n` steps.
    pub open spec fn reached(self, s: CheckState, n: nat) -> CheckState
        decreases n,
    {
        if n == 0 {
            s
        } else {
            self.reached(self.next(s), (n - 1) as nat)
        }
    }

    /// The first `n` steps of the check `s`.
    pub open spec fn steps(self, s: CheckState, n: nat) -> Seq<RoomStep>
        decreases n,
    {
        if n == 0 {
            Seq::empty()
        } else {
            seq![s.step] + self.steps(self.next(s), (n - 1) as nat)
        }
    }

    /// How the joined room `room` is left: once where nobody else is there,
    /// and once for each stranger.
    pub open spec fn leaves(self, room: usize) -> Seq<RoomStep> {
        let ids = self.members[room as int];
        let empty = if nobody_else(self.own, ids) {
            seq![RoomStep::LeaveEmpty(room)]
        } else {
            Seq::empty()
        };
        empty + strangers(self.allowed, ids).map_values(
            |m: usize| RoomStep::LeaveStranger(room, m),
        )
    }

    /// What is done about the joined rooms from `room` on.
    pub open spec fn joined_plan(self, room: nat) -> Seq<RoomStep>
        decreases self.members.len() - room,
    {
        if room >= self.members.len() {
            Seq::empty()
        } else {
            seq![RoomStep::FetchMembers(room as usize)] + self.leaves(room as usize)
                + self.joined_plan(room + 1)
        }
    }

    /// Some joined room from `room` on is left.
    pub open spec fn some_left(self, room: nat) -> bool {
        exists|r: int| room <= r < self.members.len() && #[trigger] self.leaves(r as usize).len() > 0
    }

    /// What is done about the invitation `room` once its sender is known.
    pub open spec fn reply(self, room: usize) -> Seq<RoomStep> {
        if !self.allowed.contains(self.inviters[room as int]) {
            seq![RoomStep::Refuse(room)]
        } else if self.joinable[room as int] {
            seq![RoomStep::Join(room)]
        } else {
            seq![RoomStep::Join(room), RoomStep::LeaveUnjoined(room)]
        }
    }

    /// What is done about the invitations from `room` on.
    pub open spec fn invited_plan(self, room: nat) -> Seq<RoomStep>
        decreases self.inviters.len() - room,
    {
        if room >= self.inviters.len() {
            Seq::empty()
        } else {
            seq![RoomStep::FetchInviter(room as usize)] + self.reply(room as usize)
                + self.invited_plan(room + 1)
        }
    }

    /// Whether the check ends with a second synchronisation.
    pub open spec fn syncs_again(self) -> bool {
        self.some_left(0) || self.inviters.len() > 0
    }

    /// Everything that a check does, in order.
    pub open spec fn plan(self) -> Seq<RoomStep> {
        let end = if self.syncs_again() {
            seq![RoomStep::SyncAgain, RoomStep::Finished]
        } else {
            seq![RoomStep::Finished]
        };
        seq![RoomStep::Sync, RoomStep::ListJoined] + self.joined_plan(0) + seq![
            RoomStep::ListInvited,
        ] + self.invited_plan(0) + end
    }

    proof fn lemma_split(self, s: CheckState, a: nat, b: nat)
        ensures
            self.steps(s, a + b) == self.steps(s, a) + self.steps(self.reached(s, a), b),
            self.reached(s, a + b) == self.reached(self.reached(s, a), b),
        decreases a,
    {
        if a == 0 {
            assert(self.steps(s, b) =~= self.steps(s, 0) + self.steps(s, b));
        } else {
            self.lemma_split(self.next(s), (a - 1) as nat, b);
            assert(self.steps(s, a + b) =~= self.steps(s, a) + self.steps(self.reached(s, a), b));
        }
    }

    proof fn lemma_one(self, s: CheckState)
        ensures
            self.steps(s, 1) == seq![s.step],
            self.reached(s, 1) == self.next(s),
    {
        reveal_with_fuel(RoomWorld::steps, 2);
        reveal_with_fuel(RoomWorld::reached, 2);
        assert(self.steps(s, 1) =~= seq![s.step]);
    }

    proof fn lemma_strangers(self, s: CheckState, room: usize)
        ensures
            self.steps(s.to_stranger(room), s.pending.len()) == s.pending.map_values(
                |m: usize| RoomStep::LeaveStranger(room, m),
            ),
            self.reached(s.to_stranger(room), s.pending.len()) == (CheckState {
                pending: Seq::empty(),
                sync_again: s.sync_again || s.pending.len() > 0,
                ..s
            }).to_joined(room + 1),
        decreases s.pending.len(),
    {
        let name = |m: usize| RoomStep::LeaveStranger(room, m);
        if s.pending.len() == 0 {
            assert(s.pending.map_values(name) =~= Seq::<RoomStep>::empty());
            assert(s.pending =~= Seq::empty());
        } else {
            let now = s.to_stranger(room);
            let rest = (CheckState { pending: s.pending.drop_first(), ..now }).changed();
            assert(self.next(now) == rest.to_stranger(room));
            self.lemma_strangers(rest, room);
            assert(s.pending.map_values(name) =~= seq![name(s.pending[0])]
                + s.pending.drop_first().map_values(name));
        }
    }

    proof fn lemma_joined(self, s: CheckState, room: nat)
        requires
            self.valid(),
            s.joined == self.members.len(),
            s.pending.len() == 0,
            room <= self.members.len(),
        ensures
            self.steps(s.to_joined(room as int), self.joined_plan(room).len()) == self.joined_plan(
                room,
            ),
            self.reached(s.to_joined(room as int), self.joined_plan(room).len()) == (CheckState {
                step: RoomStep::ListInvited,
                sync_again: s.sync_again || self.some_left(room),
                ..s
            }),
        decreases self.members.len() - room,
    {
        assert(s.pending =~= Seq::empty());
        if room < self.members.len() {
            let r = room as usize;
            let ids = self.members[room as int];
            let found = strangers(self.allowed, ids);
            let s0 = s.to_joined(room as int);
            let s1 = self.next(s0);
            let seen = CheckState { pending: found, ..s0 };
            let left = self.leaves(r);
            let named = found.map_values(|m: usize| RoomStep::LeaveStranger(r, m));
            let done = CheckState { sync_again: s.sync_again || left.len() > 0, ..s };
            if nobody_else(self.own, ids) {
                self.lemma_strangers(s1.changed(), r);
                assert(self.next(s1) == s1.changed().to_stranger(r));
                assert(left =~= seq![s1.step] + named);
                assert(self.steps(s1, left.len()) =~= left);
                assert(self.reached(s1, left.len()) == self.reached(
                    self.next(s1),
                    found.len(),
                ));
            } else {
                self.lemma_strangers(seen, r);
                assert(left =~= named);
            }
            assert(self.steps(s1, left.len()) == left);
            assert(self.reached(s1, left.len()) == done.to_joined((room + 1) as int));
            self.lemma_joined(done, room + 1);
            self.lemma_one(s0);
            self.lemma_split(s0, 1, left.len());
            let rest = self.joined_plan(room + 1);
            self.lemma_split(s0, 1 + left.len(), rest.len());
            assert(self.joined_plan(room) =~= seq![s0.step] + left + rest);
            assert(self.some_left(room) == (left.len() > 0 || self.some_left(room + 1))) by {
                if self.some_left(room) {
                    let w = choose|w: int|
                        room <= w < self.members.len() && #[trigger] self.leaves(w as usize).len()
                            > 0;
                    assert(w == room || room + 1 <= w);
                }
                if left.len() > 0 {
                    assert(self.leaves(room as int as usize).len() > 0);
                }
            }
        } else {
            assert(!self.some_left(room));
        }
    }

    proof fn lemma_invited(self, s: CheckState, room: nat)
        requires
            self.valid(),
            s.invited == self.inviters.len(),
            room <= self.inviters.len(),
        ensures
            self.steps(s.to_invited(room as int), self.invited_plan(room).len())
                == self.invited_plan(room),
            self.reached(s.to_invited(room as int), self.invited_plan(room).len()) == (CheckState {
                sync_again: s.sync_again || room < self.inviters.len(),
                ..s
            }).to_invited(self.inviters.len() as int),
        decreases self.inviters.len() - room,
    {
        if room < self.inviters.len() {
            let r = room as usize;
            let s0 = s.to_invited(room as int);
            let s1 = self.next(s0);
            let acts = self.reply(r);
            self.lemma_one(s0);
            self.lemma_one(s1);
            if acts.len() == 2 {
                let s2 = self.next(s1);
                self.lemma_one(s2);
                self.lemma_split(s1, 1, 1);
            }
            assert(self.steps(s1, acts.len()) =~= acts);
            assert(self.reached(s1, acts.len()) =~= s.changed().to_invited((room + 1) as int));
            self.lemma_invited(s.changed(), room + 1);
            self.lemma_split(s0, 1, acts.len());
            let rest = self.invited_plan(room + 1);
            self.lemma_split(s0, 1 + acts.len(), rest.len());
            assert(self.invited_plan(room) =~= seq![s0.step] + acts + rest);
        } else {
            assert(s.to_invited(room as int) =~= (CheckState {
                sync_again: s.sync_again || room < self.inviters.len(),
                ..s
            }).to_invited(self.inviters.len() as int));
        }
    }

    /// A check in which every step succeeds but for rooms that cannot be
    /// joined goes through `plan`, step by step, and is finished then.
    pub proof fn a_check_follows_the_plan(self)
        requires
            self.valid(),
        ensures
            self.steps(check_start(), self.plan().len()) == self.plan(),
            self.reached(check_start(), self.plan().len()).step == RoomStep::Finished,
    {
        let s0 = check_start();
        let s1 = self.next(s0);
        let s2 = self.next(s1);
        let a = self.joined_plan(0);
        let b = self.invited_plan(0);
        self.lemma_one(s0);
        self.lemma_one(s1);
        self.lemma_split(s0, 1, 1);
        let counted = CheckState { joined: self.members.len() as usize, ..s1 };
        assert(s2 == counted.to_joined(0));
        self.lemma_joined(counted, 0);
        self.lemma_split(s0, 2, a.len());
        let s3 = self.reached(s2, a.len());
        self.lemma_one(s3);
        self.lemma_split(s0, 2 + a.len(), 1);
        let s4 = self.next(s3);
        let invited = CheckState { invited: self.inviters.len() as usize, ..s3 };
        assert(s4 == invited.to_invited(0));
        self.lemma_invited(invited, 0);
        self.lemma_split(s0, 3 + a.len(), b.len());
        let s5 = self.reached(s4, b.len());
        let s6 = self.next(s5);
        self.lemma_one(s5);
        self.lemma_one(s6);
        self.lemma_split(s5, 1, 1);
        self.lemma_split(s0, 3 + a.len() + b.len(), 1);
        self.lemma_split(s0, 3 + a.len() + b.len(), 2);
        assert(self.steps(s0, self.plan().len()) =~= self.plan());
    }

    proof fn lemma_count(self, s: CheckState, n: nat)
        ensures
            self.steps(s, n).len() == n,
        decreases n,
    {
        if n > 0 {
            self.lemma_count(self.next(s), (n - 1) as nat);
        }
    }

    /// When a step fails that is not the joining of a room, the check has done
    /// what the plan holds up to that step, ends there, and does nothing more
    /// whatever comes.
    pub proof fn a_failed_step_ends_the_check(self, n: nat, later: RoomAnswer)
        requires
            self.valid(),
            n < self.plan().len(),
            !(self.plan()[n as int] is Join),
            self.plan()[n as int] != RoomStep::Finished,
        ensures
            self.steps(check_start(), n + 1) == self.plan().take((n + 1) as int),
            ({
                let s = self.reached(check_start(), n);
                let end = s.after(self.own, self.allowed, RoomAnswer::Failed);
                &&& s.step == self.plan()[n as int]
                &&& end == CheckState { step: RoomStep::Aborted, ..s }
                &&& end.after(self.own, self.allowed, later) == end
            }),
    {
        let s0 = check_start();
        let plan = self.plan();
        self.a_check_follows_the_plan();
        self.lemma_split(s0, n + 1, (plan.len() - n - 1) as nat);
        self.lemma_count(s0, n + 1);
        assert(plan.take((n + 1) as int) =~= self.steps(s0, n + 1));
        self.lemma_split(s0, n, 1);
        self.lemma_count(s0, n);
        let s = self.reached(s0, n);
        self.lemma_one(s);
        assert(self.steps(s0, n + 1)[n as int] == s.step);
        self.lemma_plan_steps(RoomStep::Aborted);
        self.lemma_joined_steps(0, RoomStep::Aborted);
        self.lemma_invited_steps(0, RoomStep::Aborted);
        assert forall|r: usize| r < self.members.len() implies !(#[trigger] self.about_joined(
            r,
            RoomStep::Aborted,
        )) by {
            let found = strangers(self.allowed, self.members[r as int]);
            let named = found.map_values(|m: usize| RoomStep::LeaveStranger(r, m));
            assert(forall|i: int| 0 <= i < named.len() ==> named[i] != RoomStep::Aborted);
        }
        assert forall|r: usize| r < self.inviters.len() implies !(#[trigger] self.about_invited(
            r,
            RoomStep::Aborted,
        )) by {
            self.lemma_reply(r, RoomStep::Aborted);
        }
        assert(!plan.contains(RoomStep::Aborted));
        assert(plan[n as int] != RoomStep::Aborted);
    }

    /// `step` belongs to what is done about the joined room `room`.
    spec fn about_joined(self, room: usize, step: RoomStep) -> bool {
        step == RoomStep::FetchMembers(room) || self.leaves(room).contains(step)
    }

    /// `step` belongs to what is done about the invitation `room`.
    spec fn about_invited(self, room: usize, step: RoomStep) -> bool {
        step == RoomStep::FetchInviter(room) || self.reply(room).contains(step)
    }

    proof fn lemma_joined_steps(self, from: nat, step: RoomStep)
        requires
            self.valid(),
        ensures
            self.joined_plan(from).contains(step) <==> exists|r: usize|
                from <= r < self.members.len() && #[trigger] self.about_joined(r, step),
        decreases self.members.len() - from,
    {
        if from < self.members.len() {
            let r = from as usize;
            let first = seq![RoomStep::FetchMembers(r)];
            let rest = self.joined_plan(from + 1);
            self.lemma_joined_steps(from + 1, step);
            lemma_concat(first, self.leaves(r), step);
            lemma_concat(first + self.leaves(r), rest, step);
            lemma_single(RoomStep::FetchMembers(r), step);
            assert(self.joined_plan(from).contains(step) == (self.about_joined(r, step)
                || rest.contains(step)));
        }
    }

    proof fn lemma_invited_steps(self, from: nat, step: RoomStep)
        requires
            self.valid(),
        ensures
            self.invited_plan(from).contains(step) <==> exists|r: usize|
                from <= r < self.inviters.len() && #[trigger] self.about_invited(r, step),
        decreases self.inviters.len() - from,
    {
        if from < self.inviters.len() {
            let r = from as usize;
            let first = seq![RoomStep::FetchInviter(r)];
            let rest = self.invited_plan(from + 1);
            self.lemma_invited_steps(from + 1, step);
            lemma_concat(first, self.reply(r), step);
            lemma_concat(first + self.reply(r), rest, step);
            lemma_single(RoomStep::FetchInviter(r), step);
            assert(self.invited_plan(from).contains(step) == (self.about_invited(r, step)
                || rest.contains(step)));
        }
    }

    proof fn lemma_reply(self, r: usize, step: RoomStep)
        ensures
            self.reply(r).contains(step) ==> {
                ||| step == RoomStep::Join(r)
                ||| step == RoomStep::Refuse(r)
                ||| step == RoomStep::LeaveUnjoined(r)
            },
            self.reply(r).contains(RoomStep::Join(r)) == self.allowed.contains(
                self.inviters[r as int],
            ),
            self.reply(r).contains(RoomStep::Refuse(r)) == !self.allowed.contains(
                self.inviters[r as int],
            ),
            self.reply(r).contains(RoomStep::LeaveUnjoined(r)) == (self.allowed.contains(
                self.inviters[r as int],
            ) && !self.joinable[r as int]),
    {
        let acts = self.reply(r);
        assert(acts.len() == 2 ==> acts[1] == RoomStep::LeaveUnjoined(r));
        assert(acts[0] == if self.allowed.contains(self.inviters[r as int]) {
            RoomStep::Join(r)
        } else {
            RoomStep::Refuse(r)
        });
    }

    proof fn lemma_plan_steps(self, step: RoomStep)
        ensures
            self.plan().contains(step) <==> {
                ||| step == RoomStep::Sync
                ||| step == RoomStep::ListJoined
                ||| self.joined_plan(0).contains(step)
                ||| step == RoomStep::ListInvited
                ||| self.invited_plan(0).contains(step)
                ||| step == RoomStep::SyncAgain && self.syncs_again()
                ||| step == RoomStep::Finished
            },
    {
        let a = seq![RoomStep::Sync, RoomStep::ListJoined];
        let b = self.joined_plan(0);
        let c = seq![RoomStep::ListInvited];
        let d = self.invited_plan(0);
        let e = if self.syncs_again() {
            seq![RoomStep::SyncAgain, RoomStep::Finished]
        } else {
            seq![RoomStep::Finished]
        };
        lemma_concat(a, b, step);
        lemma_concat(a + b, c, step);
        lemma_concat(a + b + c, d, step);
        lemma_concat(a + b + c + d, e, step);
        assert(a[0] == RoomStep::Sync);
        assert(a[1] == RoomStep::ListJoined);
        assert(c[0] == RoomStep::ListInvited);
        assert(e[e.len() - 1] == RoomStep::Finished);
        assert(self.syncs_again() ==> e[0] == RoomStep::SyncAgain);
    }

    proof fn lemma_leaves(self, r: usize, step: RoomStep)
        requires
            self.valid(),
            r < self.members.len(),
            self.members[r as int].len() <= usize::MAX,
        ensures
            self.leaves(r).contains(step) <==> match step {
                RoomStep::LeaveEmpty(room) => room == r && nobody_else(
                    self.own,
                    self.members[r as int],
                ),
                RoomStep::LeaveStranger(room, m) => room == r && m < self.members[r as int].len()
                    && !self.allowed.contains(self.members[r as int][m as int]),
                _ => false,
            },
    {
        let ids = self.members[r as int];
        let found = strangers(self.allowed, ids);
        let name = |m: usize| RoomStep::LeaveStranger(r, m);
        let named = found.map_values(name);
        let empty = if nobody_else(self.own, ids) {
            seq![RoomStep::LeaveEmpty(r)]
        } else {
            Seq::empty()
        };
        lemma_concat(empty, named, step);
        assert(nobody_else(self.own, ids) ==> empty[0] == RoomStep::LeaveEmpty(r));
        if named.contains(step) {
            let i = choose|i: int| 0 <= i < named.len() && named[i] == step;
            assert(step == name(found[i]));
            strangers_are_those_not_allowed(self.allowed, ids, found[i]);
            assert(found.contains(found[i]));
        }
        if let RoomStep::LeaveStranger(room, m) = step {
            strangers_are_those_not_allowed(self.allowed, ids, m);
            if found.contains(m) && room == r {
                let i = choose|i: int| 0 <= i < found.len() && found[i] == m;
                assert(named[i] == step);
            }
        }
    }

    /// An invitation is accepted exactly where an allowed user sent it, and
    /// refused exactly where somebody else did. One that was accepted is left
    /// again exactly where the room cannot be joined.
    pub proof fn invitations_are_accepted_from_allowed_users_only(self, room: usize)
        requires
            self.valid(),
            forall|r: int| 0 <= r < self.members.len() ==> (#[trigger] self.members[r]).len()
                <= usize::MAX,
        ensures
            self.plan().contains(RoomStep::Join(room)) <==> room < self.inviters.len()
                && self.allowed.contains(self.inviters[room as int]),
            self.plan().contains(RoomStep::Refuse(room)) <==> room < self.inviters.len()
                && !self.allowed.contains(self.inviters[room as int]),
            self.plan().contains(RoomStep::LeaveUnjoined(room)) <==> room < self.inviters.len()
                && self.allowed.contains(self.inviters[room as int])
                && !self.joinable[room as int],
    {
        let join = RoomStep::Join(room);
        let refuse = RoomStep::Refuse(room);
        let unjoined = RoomStep::LeaveUnjoined(room);
        self.lemma_plan_steps(unjoined);
        self.lemma_joined_steps(0, unjoined);
        self.lemma_invited_steps(0, unjoined);
        assert forall|r: usize| r < self.members.len() implies !(#[trigger] self.about_joined(
            r,
            unjoined,
        )) by {
            self.lemma_leaves(r, unjoined);
        }
        assert forall|r: usize| r < self.inviters.len() && #[trigger] self.about_invited(
            r,
            unjoined,
        ) implies r == room && self.allowed.contains(self.inviters[room as int])
            && !self.joinable[room as int] by {
            self.lemma_reply(r, unjoined);
        }
        self.lemma_plan_steps(join);
        self.lemma_plan_steps(refuse);
        self.lemma_joined_steps(0, join);
        self.lemma_joined_steps(0, refuse);
        self.lemma_invited_steps(0, join);
        self.lemma_invited_steps(0, refuse);
        assert forall|r: usize| r < self.members.len() implies !(#[trigger] self.about_joined(
            r,
            join,
        )) by {
            self.lemma_leaves(r, join);
        }
        assert forall|r: usize| r < self.members.len() implies !(#[trigger] self.about_joined(
            r,
            refuse,
        )) by {
            self.lemma_leaves(r, refuse);
        }
        assert forall|r: usize| r < self.inviters.len() && #[trigger] self.about_invited(
            r,
            join,
        ) implies r == room && self.allowed.contains(self.inviters[room as int]) by {
            self.lemma_reply(r, join);
        }
        assert forall|r: usize| r < self.inviters.len() && #[trigger] self.about_invited(
            r,
            refuse,
        ) implies r == room && !self.allowed.contains(self.inviters[room as int]) by {
            self.lemma_reply(r, refuse);
        }
        if room < self.inviters.len() {
            self.lemma_reply(room, join);
            assert(self.about_invited(room, join) || self.about_invited(room, refuse));
            assert(self.about_invited(room, unjoined) == self.reply(room).contains(unjoined));
        }
    }

    /// A joined room is left exactly where nobody else is in it or one of its
    /// members is not allowed: once for being empty, and once on account of
    /// each such member. So a room that is kept has somebody else in it, and
    /// nobody who is not allowed.
    pub proof fn rooms_are_left_when_empty_or_for_strangers(self, room: usize, member: usize)
        requires
            self.valid(),
            forall|r: int| 0 <= r < self.members.len() ==> (#[trigger] self.members[r]).len()
                <= usize::MAX,
        ensures
            self.plan().contains(RoomStep::LeaveEmpty(room)) <==> room < self.members.len()
                && nobody_else(self.own, self.members[room as int]),
            self.plan().contains(RoomStep::LeaveStranger(room, member)) <==> room
                < self.members.len() && member < self.members[room as int].len()
                && !self.allowed.contains(self.members[room as int][member as int]),
            room < self.members.len() && nobody_else(self.own, self.members[room as int])
                ==> self.leaves(room) == seq![RoomStep::LeaveEmpty(room)],
            room < self.members.len() ==> (self.leaves(room).len() == 0 <==> !nobody_else(
                self.own,
                self.members[room as int],
            ) && forall|m: int|
                0 <= m < self.members[room as int].len() ==> self.allowed.contains(
                    #[trigger] self.members[room as int][m],
                )),
    {
        let empty = RoomStep::LeaveEmpty(room);
        let stranger = RoomStep::LeaveStranger(room, member);
        self.lemma_plan_steps(empty);
        self.lemma_plan_steps(stranger);
        self.lemma_joined_steps(0, empty);
        self.lemma_joined_steps(0, stranger);
        self.lemma_invited_steps(0, empty);
        self.lemma_invited_steps(0, stranger);
        assert forall|r: usize| r < self.members.len() implies (#[trigger] self.about_joined(
            r,
            empty,
        ) <==> room == r && nobody_else(self.own, self.members[r as int])) by {
            self.lemma_leaves(r, empty);
        }
        assert forall|r: usize| r < self.members.len() implies (#[trigger] self.about_joined(
            r,
            stranger,
        ) <==> room == r && member < self.members[r as int].len() && !self.allowed.contains(
            self.members[r as int][member as int],
        )) by {
            self.lemma_leaves(r, stranger);
        }
        assert forall|r: usize| r < self.inviters.len() implies !(#[trigger] self.about_invited(
            r,
            empty,
        )) by {
            self.lemma_reply(r, empty);
        }
        assert forall|r: usize| r < self.inviters.len() implies !(#[trigger] self.about_invited(
            r,
            stranger,
        )) by {
            self.lemma_reply(r, stranger);
        }
        if room < self.members.len() {
            assert(self.about_joined(room, empty) == nobody_else(
                self.own,
                self.members[room as int],
            ));
            assert(self.about_joined(room, stranger) == (member < self.members[room as int].len()
                && !self.allowed.contains(self.members[room as int][member as int])));
            let ids = self.members[room as int];
            let found = strangers(self.allowed, ids);
            if nobody_else(self.own, ids) {
                if found.len() > 0 {
                    strangers_are_those_not_allowed(self.allowed, ids, found[0]);
                    assert(found.contains(found[0]));
                }
                assert(self.leaves(room) =~= seq![empty]);
            }
            if self.leaves(room).len() == 0 {
                assert forall|m: int| 0 <= m < ids.len() implies self.allowed.contains(
                    #[trigger] ids[m],
                ) by {
                    strangers_are_those_not_allowed(self.allowed, ids, m as usize);
                    assert(found.len() == 0);
                }
            } else if !nobody_else(self.own, ids) {
                strangers_are_those_not_allowed(self.allowed, ids, found[0]);
                assert(found.contains(found[0]));
            }
        }
    }

    /// The check synchronises a second time exactly where it has left, joined
    /// or refused a room.
    pub proof fn a_change_is_followed_by_a_sync(self)
        requires
            self.valid(),
            forall|r: int| 0 <= r < self.members.len() ==> (#[trigger] self.members[r]).len()
                <= usize::MAX,
        ensures
            self.plan().contains(RoomStep::SyncAgain) <==> exists|step: RoomStep| #[trigger]
                self.plan().contains(step) && changes_rooms(step),
    {
        let again = RoomStep::SyncAgain;
        self.lemma_plan_steps(again);
        self.lemma_joined_steps(0, again);
        self.lemma_invited_steps(0, again);
        assert forall|r: usize| r < self.members.len() implies !(#[trigger] self.about_joined(
            r,
            again,
        )) by {
            self.lemma_leaves(r, again);
        }
        assert forall|r: usize| r < self.inviters.len() implies !(#[trigger] self.about_invited(
            r,
            again,
        )) by {
            self.lemma_reply(r, again);
        }
        if self.some_left(0) {
            let w = choose|w: int|
                0 <= w < self.members.len() && #[trigger] self.leaves(w as usize).len() > 0;
            let r = w as usize;
            let step = self.leaves(r)[0];
            assert(self.leaves(r).contains(step));
            self.lemma_leaves(r, step);
            self.lemma_plan_steps(step);
            self.lemma_joined_steps(0, step);
            assert(self.about_joined(r, step));
            assert(self.plan().contains(step) && changes_rooms(step));
        }
        if self.inviters.len() > 0 {
            let step = self.reply(0)[0];
            assert(self.reply(0).contains(step));
            self.lemma_reply(0, step);
            self.lemma_plan_steps(step);
            self.lemma_invited_steps(0, step);
            assert(self.about_invited(0, step));
            assert(self.plan().contains(step) && changes_rooms(step));
        }
        assert forall|step: RoomStep| #[trigger] self.plan().contains(step) && changes_rooms(
            step,
        ) implies self.syncs_again() by {
            self.lemma_plan_steps(step);
            self.lemma_joined_steps(0, step);
            self.lemma_invited_steps(0, step);
            if self.joined_plan(0).contains(step) {
                let r = choose|r: usize|
                    r < self.members.len() && #[trigger] self.about_joined(r, step);
                assert(self.leaves(r).contains(step));
                assert(self.leaves(r as int as usize).len() > 0);
            }
        }
    }
}

/// `step` leaves, joins or refuses a room.
pub open spec fn changes_rooms(step: RoomStep) -> bool {
    ||| step is LeaveEmpty
    ||| step is LeaveStranger
    ||| step is Join
    ||| step is LeaveUnjoined
    ||| step is Refuse
}

proof fn lemma_concat(a: Seq<RoomStep>, b: Seq<RoomStep>, step: RoomStep)
    ensures
        (a + b).contains(step) <==> a.contains(step) || b.contains(step),
{
    if a.contains(step) {
        let i = choose|i: int| 0 <= i < a.len() && a[i] == step;
        assert((a + b)[i] == step);
    }
    if b.contains(step) {
        let i = choose|i: int| 0 <= i < b.len() && b[i] == step;
        assert((a + b)[a.len() + i] == step);
    }
}

proof fn lemma_single(a: RoomStep, step: RoomStep)
    ensures
        seq![a].contains(step) <==> a == step,
{
    assert(seq![a][0] == a);
}

/// `strangers` holds the places of those who are not allowed, and no others.
pub proof fn strangers_are_those_not_allowed(
    allowed: Seq<Seq<char>>,
    ids: Seq<Seq<char>>,
    m: usize,
)
    requires
        ids.len() <= usize::MAX,
    ensures
        strangers(allowed, ids).contains(m) <==> m < ids.len() && !allowed.contains(
            ids[m as int],
        ),
    decreases ids.len(),
{
    if ids.len() > 0 {
        let before = strangers(allowed, ids.drop_last());
        let last = (ids.len() - 1) as usize;
        strangers_are_those_not_allowed(allowed, ids.drop_last(), m);
        if !allowed.contains(ids.last()) {
            let all = before.push(last);
            assert(all[all.len() - 1] == last);
            if before.contains(m) {
                let i = choose|i: int| 0 <= i < before.len() && before[i] == m;
                assert(all[i] == m);
            }
            if all.contains(m) && m != last {
                let i = choose|i: int| 0 <= i < all.len() && all[i] == m;
                assert(before[i] == m);
            }
        }
    }
}

/// The places of strangers are counted from the front, each once.
pub proof fn strangers_are_in_order(allowed: Seq<Seq<char>>, ids: Seq<Seq<char>>)
    requires
        ids.len() <= usize::MAX,
    ensures
        forall|i: int, j: int|
            0 <= i < j < strangers(allowed, ids).len() ==> #[trigger] strangers(allowed, ids)[i]
                < #[trigger] strangers(allowed, ids)[j],
        forall|i: int|
            0 <= i < strangers(allowed, ids).len() ==> #[trigger] strangers(allowed, ids)[i]
                < ids.len(),
    decreases ids.len(),
{
    if ids.len() > 0 {
        let rest = ids.drop_last();
        let before = strangers(allowed, rest);
        let all = strangers(allowed, ids);
        strangers_are_in_order(allowed, rest);
        assert forall|i: int| 0 <= i < before.len() implies #[trigger] all[i] == before[i]
            && before[i] < rest.len() by {
            assert(strangers(allowed, rest)[i] < rest.len());
        }
        assert forall|i: int, j: int| 0 <= i < j < all.len() implies #[trigger] all[i]
            < #[trigger] all[j] by {
            if j < before.len() {
                assert(strangers(allowed, rest)[i] < strangers(allowed, rest)[j]);
            }
        }
        assert forall|i: int| 0 <= i < all.len() implies #[trigger] all[i] < ids.len() by {
            if i < before.len() {
                assert(before[i] < rest.len());
            }
        }
    }
}

/// A room is empty exactly where each of its members, if any, is the account.
pub proof fn a_room_without_others_is_empty(own: Seq<char>, ids: Seq<Seq<char>>)
    ensures
        nobody_else(own, ids) <==> !exists|i: int| 0 <= i < ids.len() && ids[i] != own,
{
}

/// The check synchronises, lists the joined rooms, later the invitations, and
/// goes on to the first of each list that is not empty.
pub proof fn lists_are_begun_at_the_front(
    s: CheckState,
    own: Seq<char>,
    allowed: Seq<Seq<char>>,
    n: usize,
)
    ensures
        s.step is Sync ==> s.after(own, allowed, RoomAnswer::Done) == (CheckState {
            step: RoomStep::ListJoined,
            ..s
        }),
        s.step is ListJoined ==> s.after(own, allowed, RoomAnswer::Rooms(n)) == (CheckState {
            step: if n > 0 {
                RoomStep::FetchMembers(0)
            } else {
                RoomStep::ListInvited
            },
            joined: n,
            ..s
        }),
        s.step is ListInvited ==> s.after(own, allowed, RoomAnswer::Rooms(n)) == (CheckState {
            step: if n > 0 {
                RoomStep::FetchInviter(0)
            } else if s.sync_again {
                RoomStep::SyncAgain
            } else {
                RoomStep::Finished
            },
            invited: n,
            ..s
        }),
        s.step is SyncAgain ==> s.after(own, allowed, RoomAnswer::Done) == (CheckState {
            step: RoomStep::Finished,
            ..s
        }),
{
}

/// The members of a room decide about it: where nobody is there but the
/// account the room is left as empty; otherwise it is left for its first
/// stranger; and where there is none, the next room is looked at. The other
/// strangers are kept for later.
pub proof fn the_members_decide_about_a_room(
    s: CheckState,
    own: Seq<char>,
    allowed: Seq<Seq<char>>,
    room: usize,
    ids: Seq<Seq<char>>,
    m: usize,
)
    requires
        s.step == RoomStep::FetchMembers(room),
        ids.len() <= usize::MAX,
    ensures
        ({
            let next = s.after(own, allowed, RoomAnswer::Members(ids));
            let alone = forall|i: int| 0 <= i < ids.len() ==> ids[i] == own;
            let all_allowed = forall|i: int|
                0 <= i < ids.len() ==> allowed.contains(#[trigger] ids[i]);
            let first = m < ids.len() && !allowed.contains(ids[m as int]) && forall|i: int|
                0 <= i < m ==> allowed.contains(#[trigger] ids[i]);
            &&& next.joined == s.joined
            &&& next.invited == s.invited
            &&& next.sync_again == s.sync_again
            &&& alone ==> next.step == RoomStep::LeaveEmpty(room)
            &&& alone ==> (next.pending.contains(m) <==> m < ids.len() && !allowed.contains(
                ids[m as int],
            ))
            &&& !alone && first ==> next.step == RoomStep::LeaveStranger(room, m)
            &&& !alone && first ==> !next.pending.contains(m)
            &&& !alone && !first && m < ids.len() && !allowed.contains(ids[m as int])
                ==> next.pending.contains(m)
            &&& m >= ids.len() || allowed.contains(ids[m as int]) ==> !next.pending.contains(m)
            &&& !alone && all_allowed ==> next.pending.len() == 0 && next.step == if room + 1
                < s.joined {
                RoomStep::FetchMembers((room + 1) as usize)
            } else {
                RoomStep::ListInvited
            }
            &&& forall|i: int, j: int|
                0 <= i < j < next.pending.len() ==> #[trigger] next.pending[i]
                    < #[trigger] next.pending[j]
        }),
{
    let found = strangers(allowed, ids);
    let next = s.after(own, allowed, RoomAnswer::Members(ids));
    strangers_are_in_order(allowed, ids);
    strangers_are_those_not_allowed(allowed, ids, m);
    if found.len() > 0 {
        let head = found[0];
        assert(found.contains(head));
        strangers_are_those_not_allowed(allowed, ids, head);
        assert(!allowed.contains(ids[head as int]));
        if found.contains(m) {
            let at = found.index_of(m);
            assert(found[at] == m);
            if at > 0 {
                assert(head < m);
                assert(found.drop_first()[at - 1] == m);
            }
        }
        if found.drop_first().contains(m) {
            let at = found.drop_first().index_of(m);
            assert(found[at + 1] == m);
            assert(head < m);
        }
        assert forall|i: int| 0 <= i < head implies allowed.contains(#[trigger] ids[i]) by {
            if !allowed.contains(ids[i]) {
                strangers_are_those_not_allowed(allowed, ids, i as usize);
                let at = found.index_of(i as usize);
                assert(found[at] == i as usize);
            }
        }
    }
}

/// Once a room has been left it is left again for the next stranger that was
/// kept, until none is; then the next room is looked at. That something was
/// left is not forgotten.
pub proof fn a_room_is_left_for_each_stranger_in_turn(
    s: CheckState,
    own: Seq<char>,
    allowed: Seq<Seq<char>>,
    room: usize,
    member: usize,
)
    requires
        s.step == RoomStep::LeaveEmpty(room) || s.step == RoomStep::LeaveStranger(room, member),
    ensures
        ({
            let next = s.after(own, allowed, RoomAnswer::Done);
            &&& next.joined == s.joined
            &&& next.invited == s.invited
            &&& next.sync_again
            &&& s.pending.len() > 0 ==> next.step == RoomStep::LeaveStranger(room, s.pending[0])
                && next.pending == s.pending.subrange(1, s.pending.len() as int)
            &&& s.pending.len() == 0 ==> next.pending.len() == 0 && next.step == if room + 1
                < s.joined {
                RoomStep::FetchMembers((room + 1) as usize)
            } else {
                RoomStep::ListInvited
            }
        }),
{
}

/// An invitation is accepted where its sender is on the list and refused
/// otherwise; a room that cannot be joined is left. Then the next invitation
/// is looked at, and behind the last the check synchronises again.
pub proof fn an_invitation_is_answered(
    s: CheckState,
    own: Seq<char>,
    allowed: Seq<Seq<char>>,
    room: usize,
    id: Seq<char>,
)
    ensures
        s.step == RoomStep::FetchInviter(room) ==> s.after(own, allowed, RoomAnswer::Inviter(id))
            == (CheckState {
            step: if exists|i: int| 0 <= i < allowed.len() && allowed[i] == id {
                RoomStep::Join(room)
            } else {
                RoomStep::Refuse(room)
            },
            ..s
        }),
        s.step == RoomStep::Join(room) ==> s.after(own, allowed, RoomAnswer::Failed)
            == (CheckState { step: RoomStep::LeaveUnjoined(room), ..s }),
        s.step == RoomStep::Join(room) || s.step == RoomStep::LeaveUnjoined(room) || s.step
            == RoomStep::Refuse(room) ==> s.after(own, allowed, RoomAnswer::Done) == (CheckState {
            step: if room + 1 < s.invited {
                RoomStep::FetchInviter((room + 1) as usize)
            } else {
                RoomStep::SyncAgain
            },
            sync_again: true,
            ..s
        }),
{
}

/// Any other failure ends the check, an ended check stays as it is, and so
/// does one that is answered what it did not ask.
pub proof fn only_what_was_asked_is_heard(
    s: CheckState,
    own: Seq<char>,
    allowed: Seq<Seq<char>>,
    answer: RoomAnswer,
)
    ensures
        s.step is Finished || s.step is Aborted ==> s.after(own, allowed, answer) == s,
        answer is Failed && !(s.step is Join || s.step is Finished || s.step is Aborted)
            ==> s.after(own, allowed, answer) == (CheckState { step: RoomStep::Aborted, ..s }),
        answer is Rooms && !(s.step is ListJoined || s.step is ListInvited) ==> s.after(
            own,
            allowed,
            answer,
        ) == s,
        answer is Members && !(s.step is FetchMembers) ==> s.after(own, allowed, answer) == s,
        answer is Inviter && !(s.step is FetchInviter) ==> s.after(own, allowed, answer) == s,
        answer is Done && (s.step is ListJoined || s.step is ListInvited || s.step is FetchMembers
            || s.step is FetchInviter) ==> s.after(own, allowed, answer) == s,
{
}

} // verus!
