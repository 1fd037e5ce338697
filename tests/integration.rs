use choreography::{analyze, project, Branch, Choreography, Condition, LocalType, MessageType, Protocol, Role};
use std::collections::HashMap;

fn ident(s: &str) -> String {
    s.to_string()
}

fn msg(name: &str) -> MessageType {
    MessageType { name: ident(name), type_annotation: None, payload: None }
}

fn msg_with_payload(name: &str, payload_type: &str) -> MessageType {
    MessageType { name: ident(name), type_annotation: None, payload: Some(payload_type.to_string()) }
}

fn send(from: &Role, to: &Role, m: &str, k: Protocol) -> Protocol {
    Protocol::Send { from: from.clone(), to: to.clone(), message: msg(m), continuation: Box::new(k) }
}

#[test]
fn test_simple_two_party_protocol() {
    let alice = Role::new(ident("Alice"));
    let bob = Role::new(ident("Bob"));
    let protocol = send(&alice, &bob, "Ping", send(&bob, &alice, "Pong", Protocol::End));
    let choreography = Choreography {
        name: ident("PingPong"),
        roles: vec![alice.clone(), bob.clone()],
        protocol,
        attrs: HashMap::new(),
    };
    assert!(choreography.validate().is_ok(), "Choreography should be valid");
    let alice_local = project(&choreography, &alice);
    assert!(alice_local.is_ok(), "Alice projection should succeed");
    let bob_local = project(&choreography, &bob);
    assert!(bob_local.is_ok(), "Bob projection should succeed");
    let results = analyze(&choreography);
    assert_eq!(results.role_participation.len(), 2, "Should have 2 roles");
    let _ = results.is_deadlock_free;
}

#[test]
fn test_three_party_protocol() {
    let alice = Role::new(ident("Alice"));
    let bob = Role::new(ident("Bob"));
    let carol = Role::new(ident("Carol"));
    let protocol = send(&alice, &bob, "Start", send(&bob, &carol, "Middle", send(&carol, &alice, "End", Protocol::End)));
    let choreography = Choreography {
        name: ident("ThreeParty"),
        roles: vec![alice.clone(), bob.clone(), carol.clone()],
        protocol,
        attrs: HashMap::new(),
    };
    assert!(choreography.validate().is_ok());
    assert!(project(&choreography, &alice).is_ok());
    assert!(project(&choreography, &bob).is_ok());
    assert!(project(&choreography, &carol).is_ok());
}

#[test]
fn test_broadcast_protocol() {
    let alice = Role::new(ident("Alice"));
    let bob = Role::new(ident("Bob"));
    let carol = Role::new(ident("Carol"));
    let protocol = Protocol::Broadcast {
        from: alice.clone(),
        to_all: vec![bob.clone(), carol.clone()],
        message: msg("Announcement"),
        continuation: Box::new(Protocol::End),
    };
    let choreography = Choreography {
        name: ident("Broadcast"),
        roles: vec![alice.clone(), bob.clone(), carol.clone()],
        protocol,
        attrs: HashMap::new(),
    };
    assert!(choreography.validate().is_ok());
    assert!(project(&choreography, &alice).is_ok());
    assert!(project(&choreography, &bob).is_ok());
    assert!(project(&choreography, &carol).is_ok());
}

#[test]
fn test_choice_protocol() {
    let alice = Role::new(ident("Alice"));
    let bob = Role::new(ident("Bob"));
    let protocol = Protocol::Choice {
        role: alice.clone(),
        branches: vec![
            Branch { label: ident("accept"), guard: None, protocol: send(&alice, &bob, "Accept", Protocol::End) },
            Branch { label: ident("reject"), guard: None, protocol: send(&alice, &bob, "Reject", Protocol::End) },
        ],
    };
    let choreography = Choreography {
        name: ident("Choice"),
        roles: vec![alice.clone(), bob.clone()],
        protocol,
        attrs: HashMap::new(),
    };
    assert!(choreography.validate().is_ok());
    assert!(project(&choreography, &alice).is_ok());
    assert!(project(&choreography, &bob).is_ok());
}

#[test]
fn test_loop_protocol() {
    let alice = Role::new(ident("Alice"));
    let bob = Role::new(ident("Bob"));
    let protocol = Protocol::Loop {
        condition: Some(Condition::Count(5)),
        body: Box::new(send(&alice, &bob, "Ping", Protocol::End)),
    };
    let choreography = Choreography {
        name: ident("Loop"),
        roles: vec![alice.clone(), bob.clone()],
        protocol,
        attrs: HashMap::new(),
    };
    assert!(choreography.validate().is_ok());
    assert!(project(&choreography, &alice).is_ok());
    assert!(project(&choreography, &bob).is_ok());
}

#[test]
fn test_parallel_protocol() {
    let alice = Role::new(ident("Alice"));
    let bob = Role::new(ident("Bob"));
    let carol = Role::new(ident("Carol"));
    let protocol = Protocol::Parallel {
        protocols: vec![
            send(&alice, &bob, "Msg1", Protocol::End),
            send(&carol, &alice, "Msg2", Protocol::End),
        ],
    };
    let choreography = Choreography {
        name: ident("Parallel"),
        roles: vec![alice.clone(), bob.clone(), carol.clone()],
        protocol,
        attrs: HashMap::new(),
    };
    assert!(choreography.validate().is_ok());
    assert!(project(&choreography, &alice).is_ok());
    assert!(project(&choreography, &bob).is_ok());
    assert!(project(&choreography, &carol).is_ok());
}

#[test]
fn test_recursive_protocol() {
    let alice = Role::new(ident("Alice"));
    let bob = Role::new(ident("Bob"));
    let var_label = ident("X");
    let body = send(&alice, &bob, "Data", Protocol::Var(var_label.clone()));
    let protocol = Protocol::Rec { label: var_label, body: Box::new(body) };
    let choreography = Choreography {
        name: ident("Recursive"),
        roles: vec![alice.clone(), bob.clone()],
        protocol,
        attrs: HashMap::new(),
    };
    assert!(choreography.validate().is_ok());
    assert!(project(&choreography, &alice).is_ok());
    assert!(project(&choreography, &bob).is_ok());
}

#[test]
fn test_complex_negotiation() {
    let buyer = Role::new(ident("Buyer"));
    let seller = Role::new(ident("Seller"));
    let choice = Protocol::Choice {
        role: seller.clone(),
        branches: vec![
            Branch { label: ident("accept"), guard: None, protocol: send(&seller, &buyer, "Accept", Protocol::End) },
            Branch {
                label: ident("counter"),
                guard: None,
                protocol: send(&seller, &buyer, "CounterOffer", Protocol::End),
            },
        ],
    };
    let protocol = send(&buyer, &seller, "Offer", choice);
    let choreography = Choreography {
        name: ident("Negotiation"),
        roles: vec![buyer.clone(), seller.clone()],
        protocol,
        attrs: HashMap::new(),
    };
    assert!(choreography.validate().is_ok());
    assert!(project(&choreography, &buyer).is_ok());
    assert!(project(&choreography, &seller).is_ok());
    let _analysis = analyze(&choreography);
}

#[test]
fn test_invalid_choreography_missing_role() {
    let alice = Role::new(ident("Alice"));
    let bob = Role::new(ident("Bob"));
    let carol = Role::new(ident("Carol"));
    let protocol = send(&alice, &carol, "Msg", Protocol::End);
    let choreography = Choreography {
        name: ident("Invalid"),
        roles: vec![alice, bob],
        protocol,
        attrs: HashMap::new(),
    };
    assert!(choreography.validate().is_err(), "Should reject undeclared role");
}

#[test]
fn test_projection_consistency() {
    let alice = Role::new(ident("Alice"));
    let bob = Role::new(ident("Bob"));
    let protocol = send(&alice, &bob, "Data", Protocol::End);
    let choreography = Choreography {
        name: ident("TwoParty"),
        roles: vec![alice.clone(), bob.clone()],
        protocol,
        attrs: HashMap::new(),
    };
    let alice_local = project(&choreography, &alice).expect("Alice projection");
    let bob_local = project(&choreography, &bob).expect("Bob projection");
    match alice_local {
        LocalType::Send { .. } => (),
        _ => panic!("Alice should have Send in projection"),
    }
    match bob_local {
        LocalType::Receive { .. } => (),
        _ => panic!("Bob should have Receive in projection"),
    }
}

#[test]
fn test_analysis_detects_roles() {
    let alice = Role::new(ident("Alice"));
    let bob = Role::new(ident("Bob"));
    let carol = Role::new(ident("Carol"));
    let protocol = send(&alice, &bob, "Msg", send(&bob, &carol, "Fwd", Protocol::End));
    let choreography = Choreography {
        name: ident("Forward"),
        roles: vec![alice, bob, carol],
        protocol,
        attrs: HashMap::new(),
    };
    let analysis = analyze(&choreography);
    assert_eq!(analysis.role_participation.len(), 3);
    assert!(analysis.has_progress);
}

#[test]
fn test_message_with_payload() {
    let alice = Role::new(ident("Alice"));
    let bob = Role::new(ident("Bob"));
    let protocol = Protocol::Send {
        from: alice.clone(),
        to: bob.clone(),
        message: msg_with_payload("Request", "u32"),
        continuation: Box::new(Protocol::End),
    };
    let choreography = Choreography {
        name: ident("WithPayload"),
        roles: vec![alice.clone(), bob.clone()],
        protocol,
        attrs: HashMap::new(),
    };
    assert!(choreography.validate().is_ok());
    assert!(project(&choreography, &alice).is_ok());
    assert!(project(&choreography, &bob).is_ok());
}

#[test]
fn test_end_projection() {
    let alice = Role::new(ident("Alice"));
    let choreo = Choreography {
        name: ident("EndOnly"),
        roles: vec![alice.clone()],
        protocol: Protocol::End,
        attrs: HashMap::new(),
    };
    let projected = project(&choreo, &alice).unwrap();
    assert_eq!(projected, LocalType::End);
}
