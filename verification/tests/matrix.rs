use matrix_sdk::ruma::events::room::message::MessageType;
use solark_monitor::delivery::{SendEvent, SendStep};
use solark_monitor::matrix::{Matrix, MatrixSettings, RoomEvent, RoomStep};

fn settings(enable: bool) -> MatrixSettings {
    MatrixSettings {
        enable,
        user: "@bot:home".to_string(),
        passwd: "secret".to_string(),
        server: "https://home".to_string(),
        allowed_users: vec!["@ann:home".to_string(), "@bea:home".to_string()],
        room_check_secs: 60,
    }
}

fn logged_in() -> Matrix {
    let mut m = Matrix::new(&settings(true));
    m.logged_in();
    m
}

fn ids(list: &[&str]) -> Vec<String> {
    list.iter().map(|s| s.to_string()).collect()
}

/// Runs a check of the rooms and returns the steps it goes through.
fn run(m: &Matrix, members: &[&[&str]], invitations: &[(&str, bool)]) -> Vec<RoomStep> {
    let mut check = m.check_rooms().unwrap();
    let mut steps = Vec::new();
    loop {
        steps.push(check.step);
        let event = match check.step {
            RoomStep::Finished => return steps,
            RoomStep::ListJoined => RoomEvent::Rooms(members.len()),
            RoomStep::FetchMembers(room) => RoomEvent::Members(ids(members[room])),
            RoomStep::ListInvited => RoomEvent::Rooms(invitations.len()),
            RoomStep::FetchInviter(room) => RoomEvent::Inviter(invitations[room].0.to_string()),
            RoomStep::Join(room) => {
                if invitations[room].1 {
                    RoomEvent::Done
                } else {
                    RoomEvent::Failed
                }
            }
            _ => RoomEvent::Done,
        };
        m.continue_check(&mut check, &event);
    }
}

#[test]
fn the_account_counts_as_allowed() {
    let m = Matrix::new(&settings(true));
    assert_eq!(m.allowed_users, vec!["@ann:home", "@bea:home", "@bot:home"]);
    assert_eq!(m.cfg.allowed_users, vec!["@ann:home", "@bea:home"]);
    assert!(m.is_allowed(&"@bot:home".to_string()));
    assert!(m.is_allowed(&"@ann:home".to_string()));
    assert!(!m.is_allowed(&"@ann:hom".to_string()));
    assert!(!m.is_allowed(&"@Ann:home".to_string()));
}

#[test]
fn a_login_is_asked_for_once() {
    let mut m = Matrix::new(&settings(true));
    let login = m.connect().unwrap();
    assert_eq!(login.server, "https://home");
    assert_eq!(login.user, "@bot:home");
    assert_eq!(login.passwd, "secret");
    assert!(m.check_rooms().is_none());
    assert_eq!(m.logged_in().unwrap().step, RoomStep::Sync);
    assert!(m.connect().is_none());
    assert!(m.check_rooms().is_some());
    m.disconnect();
    assert!(m.connect().is_some());
    assert!(m.check_rooms().is_none());
}

#[test]
fn an_account_that_is_off_does_nothing() {
    let mut m = Matrix::new(&settings(false));
    assert!(m.connect().is_none());
    assert!(m.send("hello").is_none());
    assert!(m.logged_in().is_none());
    assert!(m.check_rooms().is_none());
}

#[test]
fn a_message_is_plain_text() {
    let mut m = Matrix::new(&settings(true));
    let out = m.send("battery <b>low</b>").unwrap();
    assert!(out.login.is_some());
    assert_eq!(out.content.body(), "battery <b>low</b>");
    match out.content.msgtype {
        MessageType::Text(text) => assert!(text.formatted.is_none()),
        _ => panic!("not a text message"),
    }
    assert!(out.content.relates_to.is_none());
    assert!(out.content.mentions.is_none());
    m.logged_in();
    assert!(m.send("again").unwrap().login.is_none());
}

#[test]
fn without_rooms_the_check_ends_after_one_sync() {
    assert_eq!(
        run(&logged_in(), &[], &[]),
        vec![RoomStep::Sync, RoomStep::ListJoined, RoomStep::ListInvited, RoomStep::Finished]
    );
}

#[test]
fn a_room_of_allowed_users_is_kept() {
    assert_eq!(
        run(&logged_in(), &[&["@ann:home", "@bot:home"]], &[]),
        vec![
            RoomStep::Sync,
            RoomStep::ListJoined,
            RoomStep::FetchMembers(0),
            RoomStep::ListInvited,
            RoomStep::Finished,
        ]
    );
}

#[test]
fn empty_rooms_are_left_once() {
    assert_eq!(
        run(&logged_in(), &[&["@bot:home"], &[]], &[]),
        vec![
            RoomStep::Sync,
            RoomStep::ListJoined,
            RoomStep::FetchMembers(0),
            RoomStep::LeaveEmpty(0),
            RoomStep::FetchMembers(1),
            RoomStep::LeaveEmpty(1),
            RoomStep::ListInvited,
            RoomStep::SyncAgain,
            RoomStep::Finished,
        ]
    );
}

#[test]
fn a_room_is_left_for_each_stranger() {
    assert_eq!(
        run(&logged_in(), &[&["@eve:far", "@ann:home", "@mal:far", "@bot:home"]], &[]),
        vec![
            RoomStep::Sync,
            RoomStep::ListJoined,
            RoomStep::FetchMembers(0),
            RoomStep::LeaveStranger(0, 0),
            RoomStep::LeaveStranger(0, 2),
            RoomStep::ListInvited,
            RoomStep::SyncAgain,
            RoomStep::Finished,
        ]
    );
}

#[test]
fn invitations_are_joined_left_or_refused() {
    assert_eq!(
        run(
            &logged_in(),
            &[],
            &[("@ann:home", true), ("@eve:far", true), ("@bea:home", false)]
        ),
        vec![
            RoomStep::Sync,
            RoomStep::ListJoined,
            RoomStep::ListInvited,
            RoomStep::FetchInviter(0),
            RoomStep::Join(0),
            RoomStep::FetchInviter(1),
            RoomStep::Refuse(1),
            RoomStep::FetchInviter(2),
            RoomStep::Join(2),
            RoomStep::LeaveUnjoined(2),
            RoomStep::SyncAgain,
            RoomStep::Finished,
        ]
    );
}

#[test]
fn an_answer_to_another_step_changes_nothing() {
    let m = logged_in();
    let mut check = m.check_rooms().unwrap();
    m.continue_check(&mut check, &RoomEvent::Rooms(3));
    assert_eq!(check.step, RoomStep::Sync);
    m.continue_check(&mut check, &RoomEvent::Inviter("@ann:home".to_string()));
    assert_eq!(check.step, RoomStep::Sync);
}

#[test]
fn a_failed_step_ends_the_check_without_another_sync() {
    let m = logged_in();
    let mut check = m.check_rooms().unwrap();
    m.continue_check(&mut check, &RoomEvent::Done);
    m.continue_check(&mut check, &RoomEvent::Rooms(2));
    m.continue_check(&mut check, &RoomEvent::Members(vec![]));
    assert_eq!(check.step, RoomStep::LeaveEmpty(0));
    m.continue_check(&mut check, &RoomEvent::Done);
    assert!(check.sync_again);
    assert_eq!(check.step, RoomStep::FetchMembers(1));
    m.continue_check(&mut check, &RoomEvent::Failed);
    assert_eq!(check.step, RoomStep::Aborted);
    m.continue_check(&mut check, &RoomEvent::Done);
    m.continue_check(&mut check, &RoomEvent::Failed);
    assert_eq!(check.step, RoomStep::Aborted);
}

#[test]
fn a_room_that_can_be_neither_joined_nor_left_ends_the_check() {
    let m = logged_in();
    let mut check = m.check_rooms().unwrap();
    m.continue_check(&mut check, &RoomEvent::Done);
    m.continue_check(&mut check, &RoomEvent::Rooms(0));
    m.continue_check(&mut check, &RoomEvent::Rooms(1));
    m.continue_check(&mut check, &RoomEvent::Inviter("@bea:home".to_string()));
    m.continue_check(&mut check, &RoomEvent::Failed);
    assert_eq!(check.step, RoomStep::LeaveUnjoined(0));
    m.continue_check(&mut check, &RoomEvent::Failed);
    assert_eq!(check.step, RoomStep::Aborted);
}

/// Delivers a message and returns the steps, given how each send comes out.
fn deliver(m: &Matrix, connects: bool, sends: &[bool]) -> Vec<SendStep> {
    let mut delivery = m.send("hello").unwrap().delivery();
    let mut steps = Vec::new();
    loop {
        steps.push(delivery.step);
        let outcome = |ok| if ok { SendEvent::Done } else { SendEvent::Failed };
        delivery.advance(match delivery.step {
            SendStep::Connect => outcome(connects),
            SendStep::ListRooms => SendEvent::Rooms(sends.len()),
            SendStep::ToRoom(room) => outcome(sends[room]),
            SendStep::Delivered | SendStep::Failed => return steps,
        });
    }
}

#[test]
fn a_message_goes_to_every_room() {
    assert_eq!(
        deliver(&logged_in(), true, &[true, true]),
        vec![
            SendStep::ListRooms,
            SendStep::ToRoom(0),
            SendStep::ToRoom(1),
            SendStep::Delivered,
        ]
    );
    assert_eq!(
        deliver(&logged_in(), true, &[]),
        vec![SendStep::ListRooms, SendStep::Delivered]
    );
}

#[test]
fn a_failed_send_leaves_out_the_rooms_behind_it() {
    assert_eq!(
        deliver(&Matrix::new(&settings(true)), true, &[true, false, true]),
        vec![
            SendStep::Connect,
            SendStep::ListRooms,
            SendStep::ToRoom(0),
            SendStep::ToRoom(1),
            SendStep::Failed,
        ]
    );
}

#[test]
fn without_a_login_nothing_is_sent() {
    assert_eq!(
        deliver(&Matrix::new(&settings(true)), false, &[true]),
        vec![SendStep::Connect, SendStep::Failed]
    );
}
