use alas_launcher::setup::{choose_port, setup_alas_repo, SetupCommand};

#[test]
fn setup_flow_runs_cleanup_then_update() {
    let mut driver = setup_alas_repo();
    match driver.next(false) {
        SetupCommand::CleanupConfig { status, path } => {
            assert_eq!(status, "Cleaning up config files");
            assert_eq!(path, "./config");
        }
        _ => panic!("expected the cleanup step first"),
    }
    match driver.next(false) {
        SetupCommand::RunUpdate { status } => assert_eq!(status, "Updating ALAS"),
        _ => panic!("expected the update step second"),
    }
    match driver.next(false) {
        SetupCommand::Done { ok } => assert!(ok),
        _ => panic!("expected the flow to end"),
    }
}

#[test]
fn setup_flow_aborts_when_cleanup_fails() {
    let mut driver = setup_alas_repo();
    assert!(matches!(driver.next(false), SetupCommand::CleanupConfig { .. }));
    match driver.next(true) {
        SetupCommand::Done { ok } => assert!(!ok),
        _ => panic!("a failed step must abort the flow"),
    }
}

#[test]
fn setup_flow_fails_when_update_fails() {
    let mut driver = setup_alas_repo();
    assert!(matches!(driver.next(false), SetupCommand::CleanupConfig { .. }));
    assert!(matches!(driver.next(false), SetupCommand::RunUpdate { .. }));
    match driver.next(true) {
        SetupCommand::Done { ok } => assert!(!ok),
        _ => panic!("a failed update must fail the flow"),
    }
}

#[test]
fn port_choice_prefers_the_configuration() {
    assert_eq!(choose_port(Some(8000)), 8000);
    assert_eq!(choose_port(None), 22267);
    // Values beyond sixteen bits are reduced, as the deployment plumbing
    // reduces them.
    assert_eq!(choose_port(Some(0x1_0001)), 1);
}
