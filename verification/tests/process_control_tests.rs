use wtop::process_control::termination_refusal;

#[test]
fn core_processes_are_rejected_before_opening_a_handle() {
    let own_pid = 4242;
    assert!(termination_refusal(0, own_pid).is_err());
    assert!(termination_refusal(4, own_pid).is_err());
}

#[test]
fn wtop_never_targets_itself() {
    assert_eq!(
        termination_refusal(1234, 1234),
        Err("wtop will not terminate itself".to_string())
    );
    assert_eq!(
        termination_refusal(4, 4),
        Err("wtop will not terminate a core Windows process".to_string())
    );
}

#[test]
fn other_processes_are_left_to_windows_access_control() {
    assert_eq!(termination_refusal(1234, 99), Ok(()));
}
