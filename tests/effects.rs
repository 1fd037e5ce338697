use choreography::{Choreography, Label, LocalType, MessageType, Program, Protocol, RoleId, Role};
use std::time::Duration;

#[derive(Copy, Clone, Debug, PartialEq, Eq, Hash)]
enum TestRole {
    A,
    B,
}

fn assert_role_id<T: RoleId>() {}

#[test]
fn test_effect_traits_compile() {
    assert_role_id::<TestRole>();
    let _ = (TestRole::A, TestRole::B);
}

#[test]
fn test_module_structure() {
    let _choreography: Option<Choreography> = None;
    let _protocol: Option<Protocol> = None;
    let _role: Option<Role> = None;
    let _message_type: Option<MessageType> = None;
    let _program: Option<Program<(), ()>> = None;
    let _result: Option<Result<(), choreography::ChoreographyError>> = None;
    let _label: Option<Label> = None;
    let _local: Option<LocalType> = None;
}

#[test]
fn test_free_algebra_integration() {
    let program = Program::new()
        .send((), ())
        .recv::<()>(())
        .choose_branch((), Label("test"))
        .offer(())
        .with_timeout((), Duration::from_millis(100).as_millis() as u64, Program::new().end())
        .parallel(vec![Program::new().end()])
        .end();
    assert_eq!(program.send_count(), 1);
    assert_eq!(program.recv_count(), 1);
    assert!(program.has_timeouts());
    assert!(program.has_parallel());
}
