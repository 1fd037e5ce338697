use choreography::{
    analyze, project, Branch, Choreography, Condition, LocalType, MessageType, ProjectionError, Protocol,
    RecordedEvent, RecordingHandler, Role, ValidationError,
};
use std::collections::HashMap;

fn role(n: &str) -> Role {
    Role::new(n.to_string())
}

fn msg(name: &str) -> MessageType {
    MessageType { name: name.to_string(), type_annotation: None, payload: None }
}

fn send(from: &Role, to: &Role, m: &str, k: Protocol) -> Protocol {
    Protocol::Send { from: from.clone(), to: to.clone(), message: msg(m), continuation: Box::new(k) }
}

fn lsend(to: &Role, m: &str, k: LocalType) -> LocalType {
    LocalType::Send { to: to.clone(), message: msg(m), continuation: Box::new(k) }
}

fn lrecv(from: &Role, m: &str, k: LocalType) -> LocalType {
    LocalType::Receive { from: from.clone(), message: msg(m), continuation: Box::new(k) }
}

fn chor(roles: &[&Role], protocol: Protocol) -> Choreography {
    Choreography {
        name: "Test".to_string(),
        roles: roles.iter().map(|r| (*r).clone()).collect(),
        protocol,
        attrs: HashMap::new(),
    }
}

fn ping_pong() -> (Role, Role, Choreography) {
    let alice = role("Alice");
    let bob = role("Bob");
    let p = send(&alice, &bob, "Ping", send(&bob, &alice, "Pong", Protocol::End));
    let c = chor(&[&alice, &bob], p);
    (alice, bob, c)
}

#[test]
fn ping_pong_projects_onto_both_roles() {
    let (alice, bob, c) = ping_pong();
    assert!(c.validate().is_ok());
    assert_eq!(project(&c, &alice).unwrap(), lsend(&bob, "Ping", lrecv(&bob, "Pong", LocalType::End)));
    assert_eq!(project(&c, &bob).unwrap(), lrecv(&alice, "Ping", lsend(&alice, "Pong", LocalType::End)));
    assert_ne!(project(&c, &alice).unwrap(), project(&c, &bob).unwrap());
}

#[derive(Copy, Clone, Debug, PartialEq, Eq, Hash)]
enum Peer {
    Alice,
    Bob,
}

fn peer_of(r: &Role) -> Peer {
    if r.name == "Alice" {
        Peer::Alice
    } else {
        Peer::Bob
    }
}

fn run_recorded(local: &LocalType, me: Peer) -> Vec<RecordedEvent<Peer>> {
    let mut h = RecordingHandler::new(me);
    let mut cur = local;
    loop {
        match cur {
            LocalType::Send { to, message, continuation } => {
                assert!(h.send(peer_of(to), message.name.clone()).is_ok());
                cur = continuation;
            }
            LocalType::Receive { from, message, continuation } => {
                assert!(h.recv(peer_of(from), message.name.clone()).is_err());
                cur = continuation;
            }
            _ => break,
        }
    }
    h.events()
}

#[test]
fn ping_pong_runs_record_the_expected_events() {
    let (alice, bob, c) = ping_pong();
    let a = run_recorded(&project(&c, &alice).unwrap(), Peer::Alice);
    let b = run_recorded(&project(&c, &bob).unwrap(), Peer::Bob);
    assert_eq!(a.len(), 2);
    assert!(matches!(&a[0], RecordedEvent::Send { from: Peer::Alice, to: Peer::Bob, msg_type } if msg_type == "Ping"));
    assert!(matches!(&a[1], RecordedEvent::Recv { from: Peer::Bob, to: Peer::Alice, msg_type } if msg_type == "Pong"));
    assert_eq!(b.len(), 2);
    assert!(matches!(&b[0], RecordedEvent::Recv { from: Peer::Alice, to: Peer::Bob, msg_type } if msg_type == "Ping"));
    assert!(matches!(&b[1], RecordedEvent::Send { from: Peer::Bob, to: Peer::Alice, msg_type } if msg_type == "Pong"));
}

#[test]
fn three_party_forward_projects_for_everyone() {
    let (a, b, c) = (role("A"), role("B"), role("C"));
    let p = send(&a, &b, "Start", send(&b, &c, "Mid", send(&c, &a, "End_msg", Protocol::End)));
    let ch = chor(&[&a, &b, &c], p);
    assert!(ch.validate().is_ok());
    assert_eq!(project(&ch, &a).unwrap(), lsend(&b, "Start", lrecv(&c, "End_msg", LocalType::End)));
    assert_eq!(project(&ch, &b).unwrap(), lrecv(&a, "Start", lsend(&c, "Mid", LocalType::End)));
    assert_eq!(project(&ch, &c).unwrap(), lrecv(&b, "Mid", lsend(&a, "End_msg", LocalType::End)));
}

#[test]
fn broadcast_becomes_ordered_sends() {
    let (a, b, c) = (role("A"), role("B"), role("C"));
    let p = Protocol::Broadcast {
        from: a.clone(),
        to_all: vec![b.clone(), c.clone()],
        message: msg("Msg"),
        continuation: Box::new(Protocol::End),
    };
    let ch = chor(&[&a, &b, &c], p);
    assert_eq!(project(&ch, &a).unwrap(), lsend(&b, "Msg", lsend(&c, "Msg", LocalType::End)));
    assert_eq!(project(&ch, &b).unwrap(), lrecv(&a, "Msg", LocalType::End));
    assert_eq!(project(&ch, &c).unwrap(), lrecv(&a, "Msg", LocalType::End));
}

#[test]
fn broadcast_to_three_keeps_recipient_order() {
    let (a, b, c, d) = (role("A"), role("B"), role("C"), role("D"));
    let p = Protocol::Broadcast {
        from: a.clone(),
        to_all: vec![d.clone(), b.clone(), c.clone()],
        message: msg("M"),
        continuation: Box::new(send(&b, &a, "Ack", Protocol::End)),
    };
    let ch = chor(&[&a, &b, &c, &d], p);
    let expected = lsend(&d, "M", lsend(&b, "M", lsend(&c, "M", lrecv(&b, "Ack", LocalType::End))));
    assert_eq!(project(&ch, &a).unwrap(), expected);
}

fn accept_reject(a: &Role, b: &Role) -> Protocol {
    Protocol::Choice {
        role: a.clone(),
        branches: vec![
            Branch { label: "accept".to_string(), guard: None, protocol: send(a, b, "accept_msg", Protocol::End) },
            Branch { label: "reject".to_string(), guard: None, protocol: send(a, b, "reject_msg", Protocol::End) },
        ],
    }
}

#[test]
fn communicated_choice_projects_to_select_and_branch() {
    let (a, b) = (role("A"), role("B"));
    let ch = chor(&[&a, &b], accept_reject(&a, &b));
    let sel = LocalType::Select {
        to: b.clone(),
        branches: vec![("accept".to_string(), LocalType::End), ("reject".to_string(), LocalType::End)],
    };
    assert_eq!(project(&ch, &a).unwrap(), sel);
    let br = LocalType::Branch {
        from: a.clone(),
        branches: vec![
            ("accept".to_string(), lrecv(&a, "accept_msg", LocalType::End)),
            ("reject".to_string(), lrecv(&a, "reject_msg", LocalType::End)),
        ],
    };
    assert_eq!(project(&ch, &b).unwrap(), br);
}

#[test]
fn undeclared_role_is_reported_by_name() {
    let (alice, bob, charlie) = (role("Alice"), role("Bob"), role("Charlie"));
    let ch = chor(&[&alice, &bob], send(&alice, &charlie, "Hello", send(&bob, &alice, "Hi", Protocol::End)));
    assert_eq!(ch.validate(), Err(ValidationError::UndefinedRole("Charlie".to_string())));
}

#[test]
fn parallel_sends_to_one_peer_conflict() {
    let (a, b) = (role("A"), role("B"));
    let p = Protocol::Parallel {
        protocols: vec![send(&a, &b, "M1", Protocol::End), send(&a, &b, "M2", Protocol::End)],
    };
    let ch = chor(&[&a, &b], p);
    assert_eq!(project(&ch, &a), Err(ProjectionError::InconsistentParallel));
    assert_eq!(project(&ch, &b), Err(ProjectionError::InconsistentParallel));
}

#[test]
fn parallel_without_conflict_interleaves_in_order() {
    let (a, b, c) = (role("A"), role("B"), role("C"));
    let p = Protocol::Parallel {
        protocols: vec![
            send(&a, &b, "M1", send(&a, &b, "M2", Protocol::End)),
            send(&b, &c, "Other", Protocol::End),
            send(&c, &a, "M3", Protocol::End),
        ],
    };
    let ch = chor(&[&a, &b, &c], p);
    let expected = lsend(&b, "M1", lsend(&b, "M2", lrecv(&c, "M3", LocalType::End)));
    assert_eq!(project(&ch, &a).unwrap(), expected);
    assert_eq!(project(&ch, &b).unwrap(), lrecv(&a, "M1", lrecv(&a, "M2", lsend(&c, "Other", LocalType::End))));
}

#[test]
fn unmentioned_role_projects_to_end() {
    let (a, b, z) = (role("A"), role("B"), role("Z"));
    let p = Protocol::Loop {
        condition: Some(Condition::Count(3)),
        body: Box::new(Protocol::Parallel {
            protocols: vec![accept_reject(&a, &b), send(&b, &a, "x", Protocol::End)],
        }),
    };
    let ch = chor(&[&a, &b], p);
    assert_eq!(project(&ch, &z).unwrap(), LocalType::End);
}

#[test]
fn send_shapes_for_sender_recipient_and_bystander() {
    let (a, b, c) = (role("A"), role("B"), role("C"));
    let k = send(&b, &c, "Next", Protocol::End);
    let ch = chor(&[&a, &b, &c], send(&a, &b, "M", k));
    let kc = chor(&[&b, &c], send(&b, &c, "Next", Protocol::End));
    assert!(matches!(project(&ch, &a).unwrap(), LocalType::Send { ref to, ref message, .. } if *to == b && message.name == "M"));
    assert!(matches!(project(&ch, &b).unwrap(), LocalType::Receive { ref from, ref message, .. } if *from == a && message.name == "M"));
    assert_eq!(project(&ch, &c).unwrap(), project(&kc, &c).unwrap());
}

#[test]
fn recursion_survives_where_the_role_takes_part() {
    let (a, b, c) = (role("A"), role("B"), role("C"));
    let p = Protocol::Rec {
        label: "X".to_string(),
        body: Box::new(send(&a, &b, "Data", Protocol::Var("X".to_string()))),
    };
    let ch = chor(&[&a, &b], p);
    let expected = LocalType::Rec {
        label: "X".to_string(),
        body: Box::new(lsend(&b, "Data", LocalType::Var("X".to_string()))),
    };
    let local = project(&ch, &a).unwrap();
    assert_eq!(local, expected);
    assert!(local.is_well_formed());
    let for_c = project(&ch, &c).unwrap();
    assert_eq!(for_c, LocalType::Rec { label: "X".to_string(), body: Box::new(LocalType::Var("X".to_string())) });
    let var_only = chor(&[&a], Protocol::Var("Y".to_string()));
    assert_eq!(project(&var_only, &a).unwrap(), LocalType::Var("Y".to_string()));
}

#[test]
fn projection_is_deterministic() {
    let (alice, bob, c) = ping_pong();
    let (_, _, c2) = ping_pong();
    assert_eq!(project(&c, &alice).unwrap(), project(&c2, &alice).unwrap());
    assert_eq!(project(&c, &bob).unwrap(), project(&c, &role("Bob")).unwrap());
}

#[test]
fn valid_choreography_projects_for_every_role() {
    let (a, b, c) = (role("A"), role("B"), role("C"));
    let p = send(&a, &b, "x", Protocol::Rec {
        label: "L".to_string(),
        body: Box::new(send(&b, &c, "y", Protocol::Var("L".to_string()))),
    });
    let ch = chor(&[&a, &b, &c], p);
    assert!(ch.validate().is_ok());
    for r in &ch.roles {
        assert!(!matches!(project(&ch, r), Err(ProjectionError::UnboundVariable(_))));
        assert!(project(&ch, r).is_ok());
    }
}

#[test]
fn validation_error_kinds() {
    let (a, b, c) = (role("A"), role("B"), role("C"));
    let unused = chor(&[&a, &b, &c], send(&a, &b, "x", Protocol::End));
    assert_eq!(unused.validate(), Err(ValidationError::UnusedRole("C".to_string())));
    let bad_choice = chor(&[&a, &b], Protocol::Choice {
        role: a.clone(),
        branches: vec![Branch { label: "l".to_string(), guard: None, protocol: send(&b, &a, "x", Protocol::End) }],
    });
    assert_eq!(bad_choice.validate(), Err(ValidationError::InvalidChoice("A".to_string())));
    let unbound = chor(&[&a, &b], send(&a, &b, "x", Protocol::Var("Z".to_string())));
    assert_eq!(unbound.validate(), Err(ValidationError::UnboundVariable("Z".to_string())));
    let bcast = chor(&[&a, &b], Protocol::Broadcast {
        from: a.clone(),
        to_all: vec![b.clone(), c.clone()],
        message: msg("m"),
        continuation: Box::new(Protocol::End),
    });
    assert_eq!(bcast.validate(), Err(ValidationError::UndefinedRole("C".to_string())));
    let decides = chor(&[&a, &b], Protocol::Loop {
        condition: Some(Condition::RoleDecides(c.clone())),
        body: Box::new(send(&a, &b, "x", Protocol::End)),
    });
    assert_eq!(decides.validate(), Err(ValidationError::UndefinedRole("C".to_string())));
}

#[test]
fn choice_to_two_recipients_has_no_select() {
    let (a, b, c) = (role("A"), role("B"), role("C"));
    let p = Protocol::Choice {
        role: a.clone(),
        branches: vec![
            Branch { label: "l".to_string(), guard: None, protocol: send(&a, &b, "x", Protocol::End) },
            Branch { label: "r".to_string(), guard: None, protocol: send(&a, &c, "y", Protocol::End) },
        ],
    };
    let ch = chor(&[&a, &b, &c], p);
    assert_eq!(project(&ch, &a), Err(ProjectionError::NonParticipantChoice));
}

#[test]
fn local_decision_projects_to_local_choice() {
    let (a, b) = (role("A"), role("B"));
    let p = Protocol::Choice {
        role: a.clone(),
        branches: vec![
            Branch { label: "go".to_string(), guard: None, protocol: send(&b, &a, "x", Protocol::End) },
            Branch { label: "stop".to_string(), guard: None, protocol: Protocol::End },
        ],
    };
    let ch = chor(&[&a, &b], p);
    let expected = LocalType::LocalChoice {
        branches: vec![
            ("go".to_string(), lrecv(&b, "x", LocalType::End)),
            ("stop".to_string(), LocalType::End),
        ],
    };
    assert_eq!(project(&ch, &a).unwrap(), expected);
}

#[test]
fn bystander_merge_takes_first_non_end_branch() {
    let (a, b, c) = (role("A"), role("B"), role("C"));
    let p = Protocol::Choice {
        role: a.clone(),
        branches: vec![
            Branch { label: "one".to_string(), guard: None, protocol: send(&a, &b, "x", Protocol::End) },
            Branch { label: "two".to_string(), guard: None, protocol: send(&a, &b, "y", send(&b, &c, "z", Protocol::End)) },
        ],
    };
    let ch = chor(&[&a, &b, &c], p);
    assert_eq!(project(&ch, &c).unwrap(), lrecv(&b, "z", LocalType::End));
}

#[test]
fn loops_keep_their_condition_or_vanish() {
    let (a, b, c) = (role("A"), role("B"), role("C"));
    let p = Protocol::Loop {
        condition: Some(Condition::Count(0)),
        body: Box::new(send(&a, &b, "x", Protocol::End)),
    };
    let ch = chor(&[&a, &b], p);
    let expected = LocalType::Loop {
        condition: Some(Condition::Count(0)),
        body: Box::new(lsend(&b, "x", LocalType::End)),
    };
    assert_eq!(project(&ch, &a).unwrap(), expected);
    assert_eq!(project(&ch, &c).unwrap(), LocalType::End);
}

#[test]
fn well_formedness_needs_bound_variables() {
    let free = LocalType::Rec { label: "X".to_string(), body: Box::new(LocalType::Var("Y".to_string())) };
    assert!(!free.is_well_formed());
    let bound = LocalType::Rec { label: "Y".to_string(), body: Box::new(free) };
    assert!(bound.is_well_formed());
}

#[test]
fn local_type_equality_ignores_payloads() {
    let b = role("B");
    let with = LocalType::Send {
        to: b.clone(),
        message: MessageType { name: "M".to_string(), type_annotation: None, payload: Some("u32".to_string()) },
        continuation: Box::new(LocalType::End),
    };
    assert_eq!(with, lsend(&b, "M", LocalType::End));
    assert_ne!(with, lsend(&Role::indexed("B".to_string(), 1), "M", LocalType::End));
}

#[test]
fn analysis_counts_and_termination() {
    let (a, b, c) = (role("A"), role("B"), role("C"));
    let p = send(&a, &b, "x", send(&b, &a, "y", Protocol::End));
    let ch = chor(&[&a, &b, &c], p);
    let r = analyze(&ch);
    assert_eq!(r.role_participation.len(), 3);
    assert_eq!(r.role_participation[0].1, 2);
    assert_eq!(r.role_participation[1].1, 2);
    assert_eq!(r.role_participation[2].1, 0);
    assert!(!r.has_progress);
    assert!(r.is_deadlock_free);
    let forever = chor(&[&a, &b], Protocol::Rec {
        label: "X".to_string(),
        body: Box::new(send(&a, &b, "x", Protocol::Var("X".to_string()))),
    });
    assert!(!analyze(&forever).is_deadlock_free);
}

#[test]
fn roles_compare_by_name_index_and_parameter() {
    assert_eq!(role("W"), Role::new("W".to_string()));
    assert_ne!(Role::indexed("W".to_string(), 0), Role::indexed("W".to_string(), 1));
    let p = Role::parameterized("W".to_string(), "N".to_string());
    assert!(p.is_parameterized() && p.is_array() && !p.is_indexed());
    assert_ne!(p, role("W"));
    assert_eq!(p.to_ident(), "W");
}

#[test]
fn parallel_merge_keeps_a_choice_in_last_place() {
    let (a, b, c) = (role("A"), role("B"), role("C"));
    let p = Protocol::Parallel {
        protocols: vec![send(&a, &b, "M1", Protocol::End), accept_reject(&a, &c)],
    };
    let ch = chor(&[&a, &b, &c], p);
    let expected = lsend(&b, "M1", LocalType::Select {
        to: c.clone(),
        branches: vec![("accept".to_string(), LocalType::End), ("reject".to_string(), LocalType::End)],
    });
    assert_eq!(project(&ch, &a).unwrap(), expected);
}
