use workany::commands::greet;
use workany::migration::MigrationError;
use workany::orchestrator::{
    FailureReason, Orchestrator, RuntimeMode, StartupAction, StartupState,
};
use workany::supervisor::SpawnError;

#[test]
fn production_startup_reaches_ready_through_sidecar() {
    let mut o = Orchestrator::new(RuntimeMode::Production);
    assert!(matches!(o.state, StartupState::Initializing));
    assert!(matches!(o.next_action(), StartupAction::RunMigrations));
    o.on_store_result(Ok(()));
    assert!(matches!(o.state, StartupState::StoreReady));
    assert!(matches!(o.next_action(), StartupAction::SpawnSidecar));
    o.on_spawn_result(Ok(()));
    assert!(matches!(o.state, StartupState::SidecarRunning));
    assert!(matches!(o.next_action(), StartupAction::Finish));
    o.finish();
    assert!(matches!(o.state, StartupState::Ready));
    assert!(matches!(o.next_action(), StartupAction::Done));
}

#[test]
fn development_startup_skips_the_sidecar() {
    let mut o = Orchestrator::new(RuntimeMode::Development);
    o.on_store_result(Ok(()));
    assert!(matches!(o.next_action(), StartupAction::AnnounceExternalService));
    o.skip_sidecar();
    assert!(matches!(o.state, StartupState::SidecarSkipped));
    o.finish();
    assert!(matches!(o.state, StartupState::Ready));
}

#[test]
fn spawn_failure_is_fatal_in_production() {
    let mut o = Orchestrator::new(RuntimeMode::Production);
    o.on_store_result(Ok(()));
    o.on_spawn_result(Err(SpawnError::ResolutionFailed(String::from(
        "no bundled binary named workany-api",
    ))));
    match &o.state {
        StartupState::Failed(FailureReason::Spawn(SpawnError::ResolutionFailed(msg))) => {
            assert_eq!(msg, "no bundled binary named workany-api");
        }
        _ => panic!("expected spawn failure"),
    }
    assert!(matches!(o.next_action(), StartupAction::Abort));
}

#[test]
fn os_launch_failure_is_fatal_in_production() {
    let mut o = Orchestrator::new(RuntimeMode::Production);
    o.on_store_result(Ok(()));
    o.on_spawn_result(Err(SpawnError::LaunchFailed(String::from("permission denied"))));
    assert!(matches!(
        o.state,
        StartupState::Failed(FailureReason::Spawn(SpawnError::LaunchFailed(_)))
    ));
}

#[test]
fn store_failure_aborts_startup() {
    let mut o = Orchestrator::new(RuntimeMode::Production);
    o.on_store_result(Err(MigrationError::ConnectionFailed));
    assert!(matches!(
        o.state,
        StartupState::Failed(FailureReason::Store(MigrationError::ConnectionFailed))
    ));
    assert!(matches!(o.next_action(), StartupAction::Abort));
}

#[test]
fn migration_error_carries_the_failed_version() {
    let mut o = Orchestrator::new(RuntimeMode::Development);
    o.on_store_result(Err(MigrationError::StatementFailed {
        version: 3,
        cause: String::from("no such table: tasks"),
    }));
    match &o.state {
        StartupState::Failed(FailureReason::Store(MigrationError::StatementFailed {
            version,
            cause,
        })) => {
            assert_eq!(*version, 3);
            assert_eq!(cause, "no such table: tasks");
        }
        _ => panic!("expected store failure"),
    }
}

#[test]
fn greet_wraps_the_name() {
    assert_eq!(greet("Ada"), "Hello, Ada! You've been greeted from Rust!");
    assert_eq!(greet(""), "Hello, ! You've been greeted from Rust!");
}
