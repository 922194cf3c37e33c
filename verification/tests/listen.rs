use arrpc::listen::{
    ipc_base_dir, ipc_pipe_path, ipc_socket_name, next_bind, next_slot, BindFailure, BindStep,
    SlotState, SlotStep,
};

#[test]
fn ports_are_tried_one_after_the_other() {
    let ports = vec![5, 6];
    assert_eq!(next_bind(&ports, 0, None), BindStep::Try(5));
    assert_eq!(next_bind(&ports, 1, Some(BindFailure::InUse)), BindStep::Try(6));
    assert_eq!(next_bind(&ports, 2, Some(BindFailure::InUse)), BindStep::Exhausted);
    assert_eq!(next_bind(&ports, 1, Some(BindFailure::Other)), BindStep::Fail);
    assert_eq!(next_bind(&Vec::new(), 0, None), BindStep::Exhausted);
}

#[test]
fn slots_are_tried_one_after_the_other() {
    assert_eq!(next_slot(0, SlotState::Taken), SlotStep::Try(1));
    assert_eq!(next_slot(3, SlotState::Free), SlotStep::Use(3));
    assert_eq!(next_slot(3, SlotState::Broken), SlotStep::Fail);
    assert_eq!(next_slot(9, SlotState::Taken), SlotStep::Exhausted);
}

#[test]
fn slots_have_names() {
    assert_eq!(ipc_socket_name(4), "discord-ipc-4");
    assert_eq!(ipc_pipe_path(9), r"\\.\pipe\discord-ipc-9");
}

#[test]
fn the_first_directory_that_is_set_is_used() {
    assert_eq!(ipc_base_dir(None, Some("b"), Some("c"), None, "/tmp"), "b");
    assert_eq!(ipc_base_dir(Some("a"), Some("b"), None, None, "/tmp"), "a");
    assert_eq!(ipc_base_dir(None, None, None, Some("d"), "/tmp"), "d");
    assert_eq!(ipc_base_dir(None, None, None, None, "/tmp"), "/tmp");
}
