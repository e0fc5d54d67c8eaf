use rtsched::registry::{ConfigError, Registry, TaskBinding, TaskDecl};

fn software(priority: u8, shared: Vec<usize>, local: Vec<usize>) -> TaskDecl {
    TaskDecl { priority, binding: TaskBinding::Software, shared, local, singleton: false }
}

fn hardware(priority: u8, vector: u16, shared: Vec<usize>, local: Vec<usize>) -> TaskDecl {
    TaskDecl { priority, binding: TaskBinding::Hardware { vector }, shared, local, singleton: false }
}

#[test]
fn valid_config_builds_and_computes_ceilings() {
    let tasks = vec![
        hardware(3, 7, vec![0], vec![]),
        software(1, vec![0, 1], vec![0]),
        software(2, vec![1], vec![1]),
    ];
    let reg = Registry::build(tasks, 2, 2, 4, 2).unwrap();
    assert_eq!(reg.task_count(), 3);
    assert_eq!(reg.max_priority(), 4);
    // Resource 0 is accessed by priorities 3 and 1; resource 1 by 1 and 2.
    assert_eq!(reg.ceiling(0), 3);
    assert_eq!(reg.ceiling(1), 2);
    assert_eq!(reg.priority_of(0), 3);
    assert!(!reg.is_software(0));
    assert!(reg.is_software(1));
    assert!(!reg.is_singleton(2));
}

#[test]
fn ceiling_is_zero_for_untouched_resource() {
    let tasks = vec![software(2, vec![], vec![])];
    let reg = Registry::build(tasks, 1, 0, 3, 1).unwrap();
    assert_eq!(reg.ceiling(0), 0);
}

#[test]
fn priority_zero_is_rejected() {
    let tasks = vec![software(0, vec![], vec![])];
    match Registry::build(tasks, 0, 0, 3, 1) {
        Err(ConfigError::PriorityOutOfRange { task }) => assert_eq!(task, 0),
        _ => panic!("expected PriorityOutOfRange"),
    }
}

#[test]
fn priority_above_platform_maximum_is_rejected() {
    let tasks = vec![software(1, vec![], vec![]), software(5, vec![], vec![])];
    match Registry::build(tasks, 0, 0, 4, 2) {
        Err(ConfigError::PriorityOutOfRange { task }) => assert_eq!(task, 1),
        _ => panic!("expected PriorityOutOfRange"),
    }
}

#[test]
fn undeclared_shared_resource_is_rejected() {
    let tasks = vec![software(1, vec![2], vec![])];
    match Registry::build(tasks, 2, 0, 3, 1) {
        Err(ConfigError::UnknownSharedResource { task, resource }) => {
            assert_eq!(task, 0);
            assert_eq!(resource, 2);
        }
        _ => panic!("expected UnknownSharedResource"),
    }
}

#[test]
fn undeclared_local_resource_is_rejected() {
    let tasks = vec![software(1, vec![], vec![1])];
    match Registry::build(tasks, 0, 1, 3, 1) {
        Err(ConfigError::UnknownLocalResource { task, resource }) => {
            assert_eq!(task, 0);
            assert_eq!(resource, 1);
        }
        _ => panic!("expected UnknownLocalResource"),
    }
}

#[test]
fn local_resource_with_two_owners_is_rejected() {
    let tasks = vec![software(1, vec![], vec![0]), software(2, vec![], vec![0])];
    match Registry::build(tasks, 0, 1, 3, 2) {
        Err(ConfigError::LocalResourceConflict { resource }) => assert_eq!(resource, 0),
        _ => panic!("expected LocalResourceConflict"),
    }
}

#[test]
fn too_few_dispatcher_vectors_is_rejected() {
    // Software tasks at three distinct priority levels, two reservations.
    let tasks = vec![
        software(1, vec![], vec![]),
        software(2, vec![], vec![]),
        software(3, vec![], vec![]),
        software(3, vec![], vec![]),
    ];
    match Registry::build(tasks, 0, 0, 4, 2) {
        Err(ConfigError::InsufficientDispatchers { needed, reserved }) => {
            assert_eq!(needed, 3);
            assert_eq!(reserved, 2);
        }
        _ => panic!("expected InsufficientDispatchers"),
    }
}

#[test]
fn hardware_tasks_need_no_dispatcher_vector() {
    let tasks = vec![
        hardware(1, 3, vec![], vec![]),
        hardware(2, 4, vec![], vec![]),
        software(3, vec![], vec![]),
    ];
    assert!(Registry::build(tasks, 0, 0, 3, 1).is_ok());
}
