//! How a message gets to the joined rooms.

use vstd::prelude::*;

verus! {

/// What the delivery of a message does next.
#[derive(Debug, Clone, Copy, PartialEq, Eq, Structural)]
pub enum SendStep {
    /// Log in, and carry out the check of the rooms that follows.
    Connect,
    /// List the rooms that were joined.
    ListRooms,
    /// Send the message to a room, counted in that list.
    ToRoom(usize),
    /// Nothing: every room has the message.
    Delivered,
    /// Nothing: a step failed, and its failure is what the delivery comes to.
    Failed,
}

/// What came of a step.
#[derive(Debug, Clone, Copy, PartialEq, Eq, Structural)]
pub enum SendEvent {
    /// It was done.
    Done,
    /// There are so many rooms.
    Rooms(usize),
    /// It could not be done.
    Failed,
}

/// The delivery of a message under way.
#[derive(Debug, Clone, Copy, PartialEq, Eq, Structural)]
pub struct Delivery {
    /// What is to be done now.
    pub step: SendStep,
    /// How many rooms there are, once that is known.
    pub rooms: usize,
}

/// The delivery that has not begun, where a login is to be made first or not.
pub open spec fn delivery_start(login: bool) -> Delivery {
    Delivery {
        step: if login {
            SendStep::Connect
        } else {
            SendStep::ListRooms
        },
        rooms: 0,
    }
}

impl Delivery {
    /// On to the room `room`, or to the end after the last.
    pub open spec fn to_room(self, room: int) -> Delivery {
        Delivery {
            step: if room < self.rooms {
                SendStep::ToRoom(room as usize)
            } else {
                SendStep::Delivered
            },
            ..self
        }
    }

    /// The delivery after `event`. The failure of a step ends it; an event of
    /// another step changes nothing.
    pub open spec fn after(self, event: SendEvent) -> Delivery {
        match (self.step, event) {
            (SendStep::Delivered, _) => self,
            (SendStep::Failed, _) => self,
            (_, SendEvent::Failed) => Delivery { step: SendStep::Failed, ..self },
            (SendStep::Connect, SendEvent::Done) => Delivery {
                step: SendStep::ListRooms,
                ..self
            },
            (SendStep::ListRooms, SendEvent::Rooms(n)) => Delivery { rooms: n, ..self }.to_room(0),
            (SendStep::ToRoom(room), SendEvent::Done) => self.to_room(room + 1),
            _ => self,
        }
    }

    /// Takes the delivery one step on.
    pub fn advance(&mut self, event: SendEvent)
        ensures
            *final(self) == old(self).after(event),
    {
        match (self.step, event) {
            (SendStep::Delivered, _) => {},
            (SendStep::Failed, _) => {},
            (_, SendEvent::Failed) => {
                self.step = SendStep::Failed;
            },
            (SendStep::Connect, SendEvent::Done) => {
                self.step = SendStep::ListRooms;
            },
            (SendStep::ListRooms, SendEvent::Rooms(n)) => {
                self.rooms = n;
                self.step = if n > 0 {
                    SendStep::ToRoom(0)
                } else {
                    SendStep::Delivered
                };
            },
            (SendStep::ToRoom(room), SendEvent::Done) => {
                self.step = if room < self.rooms && self.rooms - room > 1 {
                    SendStep::ToRoom(room + 1)
                } else {
                    SendStep::Delivered
                };
            },
            _ => {},
        }
    }
}

/// What a delivery meets.
pub struct SendWorld {
    /// Whether a login is to be made first.
    pub login: bool,
    /// Whether the login succeeds, with the check of the rooms behind it.
    pub connects: bool,
    /// Whether sending to each joined room succeeds.
    pub sends: Seq<bool>,
}

impl SendWorld {
    /// The rooms can be counted.
    pub open spec fn valid(self) -> bool {
        self.sends.len() <= usize::MAX
    }

    /// There is a login, or one can be made.
    pub open spec fn is_reached(self) -> bool {
        self.login ==> self.connects
    }

    /// What this world answers to a step.
    pub open spec fn answer(self, step: SendStep) -> SendEvent {
        match step {
            SendStep::Connect => if self.connects {
                SendEvent::Done
            } else {
                SendEvent::Failed
            },
            SendStep::ListRooms => SendEvent::Rooms(self.sends.len() as usize),
            SendStep::ToRoom(room) => if self.sends[room as int] {
                SendEvent::Done
            } else {
                SendEvent::Failed
            },
            _ => SendEvent::Done,
        }
    }

    /// The first `n` steps of the delivery `d`.
    pub open spec fn steps(self, d: Delivery, n: nat) -> Seq<SendStep>
        decreases n,
    {
        if n == 0 {
            Seq::empty()
        } else {
            seq![d.step] + self.steps(d.after(self.answer(d.step)), (n - 1) as nat)
        }
    }

    /// What is done from the room `room` on: the message goes from room to
    /// room until it cannot be sent to one.
    pub open spec fn rooms_plan(self, room: nat) -> Seq<SendStep>
        decreases self.sends.len() - room,
    {
        if room >= self.sends.len() {
            seq![SendStep::Delivered]
        } else if self.sends[room as int] {
            seq![SendStep::ToRoom(room as usize)] + self.rooms_plan(room + 1)
        } else {
            seq![SendStep::ToRoom(room as usize), SendStep::Failed]
        }
    }

    /// Everything that a delivery does, in order.
    pub open spec fn plan(self) -> Seq<SendStep> {
        let listed = seq![SendStep::ListRooms] + self.rooms_plan(0);
        if !self.login {
            listed
        } else if self.connects {
            seq![SendStep::Connect] + listed
        } else {
            seq![SendStep::Connect, SendStep::Failed]
        }
    }

    proof fn lemma_rooms(self, d: Delivery, room: nat)
        requires
            self.valid(),
            d.rooms == self.sends.len(),
            room <= self.sends.len(),
        ensures
            self.steps(d.to_room(room as int), self.rooms_plan(room).len()) == self.rooms_plan(
                room,
            ),
        decreases self.sends.len() - room,
    {
        reveal_with_fuel(SendWorld::steps, 3);
        let plan = self.rooms_plan(room);
        if room < self.sends.len() && self.sends[room as int] {
            self.lemma_rooms(d, room + 1);
            assert(d.to_room(room as int).to_room((room + 1) as int) == d.to_room((room + 1) as int));
        }
        assert(self.steps(d.to_room(room as int), plan.len()) =~= plan);
    }

    /// A delivery goes through `plan`, step by step.
    pub proof fn a_delivery_follows_the_plan(self)
        requires
            self.valid(),
        ensures
            self.steps(delivery_start(self.login), self.plan().len()) == self.plan(),
    {
        reveal_with_fuel(SendWorld::steps, 3);
        let start = delivery_start(self.login);
        let listing = Delivery { step: SendStep::ListRooms, ..start };
        let counted = Delivery { rooms: self.sends.len() as usize, ..listing };
        self.lemma_rooms(counted, 0);
        let rest = self.rooms_plan(0);
        assert(self.steps(listing, 1 + rest.len()) =~= seq![SendStep::ListRooms] + rest);
        assert(self.steps(start, self.plan().len()) =~= self.plan());
    }

    proof fn lemma_served(self, from: nat, room: usize)
        requires
            self.valid(),
        ensures
            self.rooms_plan(from).contains(SendStep::ToRoom(room)) <==> from <= room
                < self.sends.len() && forall|j: int| from <= j < room ==> self.sends[j],
            self.rooms_plan(from).len() > 0,
            self.rooms_plan(from).last() == (if forall|j: int|
                from <= j < self.sends.len() ==> self.sends[j] {
                SendStep::Delivered
            } else {
                SendStep::Failed
            }),
        decreases self.sends.len() - from,
    {
        let step = SendStep::ToRoom(room);
        let plan = self.rooms_plan(from);
        if from < self.sends.len() {
            let first = SendStep::ToRoom(from as usize);
            assert(plan[0] == first);
            if self.sends[from as int] {
                let rest = self.rooms_plan(from + 1);
                self.lemma_served(from + 1, room);
                if rest.contains(step) {
                    let i = rest.index_of(step);
                    assert(plan[i + 1] == step);
                }
                if plan.contains(step) && step != first {
                    let i = plan.index_of(step);
                    assert(rest[i - 1] == step);
                }
                assert(plan.contains(step) == (step == first || rest.contains(step)));
            } else {
                assert(plan.contains(step) == (step == first));
            }
        }
    }

    /// The message is sent to a room exactly where the account is reached and
    /// it could be sent to every room before. The delivery succeeds exactly
    /// where it could be sent to all of them, and fails otherwise.
    pub proof fn a_failed_send_ends_the_delivery(self, room: usize)
        requires
            self.valid(),
        ensures
            self.plan().contains(SendStep::ToRoom(room)) <==> self.is_reached() && room
                < self.sends.len() && forall|j: int| 0 <= j < room ==> self.sends[j],
            self.plan().last() == (if self.is_reached() && forall|j: int|
                0 <= j < self.sends.len() ==> self.sends[j] {
                SendStep::Delivered
            } else {
                SendStep::Failed
            }),
    {
        let step = SendStep::ToRoom(room);
        let plan = self.plan();
        let rest = self.rooms_plan(0);
        self.lemma_served(0, room);
        if self.is_reached() {
            let ahead: int = if self.login {
                2
            } else {
                1
            };
            if rest.contains(step) {
                let i = rest.index_of(step);
                assert(plan[i + ahead] == step);
            }
            if plan.contains(step) {
                let i = plan.index_of(step);
                assert(rest[i - ahead] == step);
            }
        }
    }
}

/// A delivery that has ended stays as it is.
pub proof fn an_ended_delivery_does_nothing_more(d: Delivery, event: SendEvent)
    requires
        d.step == SendStep::Delivered || d.step == SendStep::Failed,
    ensures
        d.after(event) == d,
{
}

/// A delivery logs in where it has to, lists the rooms, and goes through them
/// one by one from the first to the last.
pub proof fn a_delivery_goes_from_room_to_room(d: Delivery, room: usize, n: usize)
    ensures
        delivery_start(true).step is Connect,
        delivery_start(false).step is ListRooms,
        d.step is Connect ==> d.after(SendEvent::Done) == (Delivery {
            step: SendStep::ListRooms,
            rooms: d.rooms,
        }),
        d.step is ListRooms ==> d.after(SendEvent::Rooms(n)) == (Delivery {
            step: if n > 0 {
                SendStep::ToRoom(0)
            } else {
                SendStep::Delivered
            },
            rooms: n,
        }),
        d.step == SendStep::ToRoom(room) ==> d.after(SendEvent::Done) == (Delivery {
            step: if room + 1 < d.rooms {
                SendStep::ToRoom((room + 1) as usize)
            } else {
                SendStep::Delivered
            },
            rooms: d.rooms,
        }),
{
}

/// Any failure ends a delivery that is under way, and an event of another step
/// is not heard.
pub proof fn only_the_step_at_hand_counts(d: Delivery, event: SendEvent)
    ensures
        event is Failed && !(d.step is Delivered) ==> d.after(event) == (Delivery {
            step: SendStep::Failed,
            rooms: d.rooms,
        }),
        event is Done && d.step is ListRooms ==> d.after(event) == d,
        event is Rooms && !(d.step is ListRooms) ==> d.after(event) == d,
{
}

} // verus!
