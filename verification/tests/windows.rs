use rust_vpn_splitter::domain::VpnKind;
use rust_vpn_splitter::powershell::{next_step, Cancellation, ScriptEvent, ScriptStep};
use rust_vpn_splitter::windows::{
    route_row_matches, ManagedRoute, ManagedRoutePurpose, RouteRow, ScriptOutput,
};

/// A process that exits when it has been looked at twice.
fn run_test_script(
    stdout: &str,
    cancellation: Cancellation,
    cancelled: bool,
) -> Result<ScriptOutput, String> {
    let mut step = ScriptStep::CheckBeforeStart;
    let mut polls = 0;
    for _ in 0..100 {
        let event = match &step {
            ScriptStep::CheckBeforeStart => ScriptEvent::CancelRequested(false),
            ScriptStep::CheckWhileRunning => ScriptEvent::CancelRequested(cancelled),
            ScriptStep::Poll => {
                polls += 1;
                ScriptEvent::Exited(polls == 2)
            }
            ScriptStep::Collect => ScriptEvent::Output(ScriptOutput {
                success: true,
                stdout: stdout.to_owned(),
                stderr: String::new(),
            }),
            ScriptStep::Spawn | ScriptStep::WriteInput | ScriptStep::Sleep | ScriptStep::Kill => {
                ScriptEvent::Done
            }
            ScriptStep::Finished(_) => break,
        };
        step = next_step(step, cancellation, event);
    }
    match step {
        ScriptStep::Finished(result) => result,
        other => panic!("the script never ended: {other:?}"),
    }
}

#[test]
fn uncancelled_powershell_still_collects_its_output() {
    let output = run_test_script("ready\r\n", Cancellation::Always, false)
        .expect("uncancelled PowerShell must complete");

    assert!(output.success);
    assert_eq!(output.stdout.trim(), "ready");
    assert!(output.stderr.trim().is_empty());
}

#[test]
fn cancellation_stops_powershell_without_waiting_for_the_script() {
    let error = match run_test_script("never read", Cancellation::Always, true) {
        Ok(_) => panic!("cancelled PowerShell must not complete normally"),
        Err(error) => error,
    };

    assert!(error.contains("已取消"), "unexpected error: {error}");
}

#[test]
fn started_powershell_mutation_finishes_after_late_cancellation() {
    let output = run_test_script("finished", Cancellation::BeforeStart, true)
        .expect("a mutation that has started must finish");

    assert!(output.success);
    assert_eq!(output.stdout.trim(), "finished");
}

#[test]
fn native_route_row_matching_uses_exact_prefix_endpoint_and_metric() {
    let row = RouteRow {
        destination: Some(u32::from_be_bytes([64, 0, 0, 0])),
        prefix_length: 2,
        interface_index: 7,
        next_hop: Some(u32::from_be_bytes([192, 0, 2, 1])),
        metric: 5,
    };
    let route = ManagedRoute {
        vpn: VpnKind::F5,
        purpose: ManagedRoutePurpose::InternetBypass,
        prefix: "64.0.0.0/2".to_owned(),
        interface_index: 7,
        next_hop: "192.0.2.1".to_owned(),
        route_metric: 5,
    };

    assert!(route_row_matches(&row, &route));

    let row = RouteRow { metric: 6, ..row };
    assert!(
        !route_row_matches(&row, &route),
        "a route modified by another process must not be mistaken for our exact route"
    );
}
