use docgen::error::Failure;
use docgen::invocation::{conclude, inference_command, InvocationResult, LaunchOutcome};

fn completed(stdout: &str, stderr: &str, exit_code: Option<i32>) -> LaunchOutcome {
    LaunchOutcome::Completed(InvocationResult {
        stdout: stdout.to_string(),
        stderr: stderr.to_string(),
        exit_code,
    })
}

#[test]
fn command_runs_the_model_on_the_prompt() {
    let command = inference_command("llama3.2", "Generate a README");
    assert_eq!(command.program, "ollama");
    assert_eq!(command.arguments, vec!["run", "llama3.2", "Generate a README"]);
}

#[test]
fn exit_code_zero_is_success() {
    let ok = InvocationResult { stdout: String::new(), stderr: String::new(), exit_code: Some(0) };
    assert!(ok.succeeded());
    let failed = InvocationResult { stdout: String::new(), stderr: String::new(), exit_code: Some(1) };
    assert!(!failed.succeeded());
    let negative = InvocationResult { stdout: String::new(), stderr: String::new(), exit_code: Some(-1) };
    assert!(!negative.succeeded());
    let killed = InvocationResult { stdout: String::new(), stderr: String::new(), exit_code: None };
    assert!(!killed.succeeded());
}

#[test]
fn failed_process_surfaces_its_standard_error() {
    let outcome = conclude(completed("partial output", "model not found", Some(1)));
    assert_eq!(outcome, Err(Failure::ProcessFailure("model not found".to_string())));
    match outcome {
        Err(failure) => assert_eq!(failure.message(), "model not found"),
        Ok(_) => panic!("the run must fail"),
    }
}

#[test]
fn process_ended_by_a_signal_is_a_failure() {
    let outcome = conclude(completed("", "terminated", None));
    assert_eq!(outcome, Err(Failure::ProcessFailure("terminated".to_string())));
}

#[test]
fn successful_process_gives_its_sanitized_output() {
    let outcome = conclude(completed("<think>plan</think>\n# README\n", "warning: slow", Some(0)));
    assert_eq!(outcome, Ok("# README".to_string()));
}

#[test]
fn missing_program_is_not_found() {
    let outcome = conclude(LaunchOutcome::NotFound("ollama: command not found".to_string()));
    assert_eq!(outcome, Err(Failure::NotFound("ollama: command not found".to_string())));
}

#[test]
fn process_that_could_not_be_started_is_an_io_failure() {
    let outcome = conclude(LaunchOutcome::Failed("permission denied".to_string()));
    assert_eq!(outcome, Err(Failure::Io("permission denied".to_string())));
}
