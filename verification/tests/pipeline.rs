use docgen::collector::{DirEntry, ListOutcome, ReadOutcome};
use docgen::error::Failure;
use docgen::invocation::{InvocationResult, LaunchOutcome};
use docgen::pipeline::{begin, Job, Request, WriteOutcome};
use docgen::prompt::DocumentType;

/// What the caller of a run did for it, in order.
#[derive(Debug, PartialEq)]
enum Did {
    Listed(String),
    Read(String),
    Launched(String, Vec<String>),
    Wrote(String, String),
}

/// A small world: two files at the root, a process and a disk.
struct World {
    root_exists: bool,
    process: fn() -> LaunchOutcome,
    disk_full: bool,
}

fn answering(stdout: &'static str, stderr: &'static str, code: i32) -> LaunchOutcome {
    LaunchOutcome::Completed(InvocationResult {
        stdout: stdout.to_string(),
        stderr: stderr.to_string(),
        exit_code: Some(code),
    })
}

fn drive(world: &World, kind: DocumentType, did: &mut Vec<Did>) -> Result<(), Failure> {
    let mut request = begin(Job { kind, model: "llama3.2".to_string() });
    loop {
        assert!(did.len() < 100, "the run does not end");
        request = match request {
            Request::List(list) => {
                did.push(Did::Listed(list.path().clone()));
                let outcome = if !world.root_exists {
                    ListOutcome::NotFound("No such file or directory (os error 2)".to_string())
                } else if list.path() == "" {
                    ListOutcome::Entries(vec![
                        DirEntry { name: "src".to_string(), is_dir: true },
                        DirEntry { name: "README.md".to_string(), is_dir: false },
                        DirEntry { name: "logo.png".to_string(), is_dir: false },
                    ])
                } else {
                    ListOutcome::Entries(vec![DirEntry { name: "main.rs".to_string(), is_dir: false }])
                };
                list.answer(outcome)
            }
            Request::Read(read) => {
                did.push(Did::Read(read.path().clone()));
                let text = format!("text of {}", read.path());
                read.answer(ReadOutcome::Text(text))
            }
            Request::Launch(launch) => {
                let command = launch.command();
                did.push(Did::Launched(command.program.clone(), command.arguments.clone()));
                launch.answer((world.process)())
            }
            Request::Write(write) => {
                did.push(Did::Wrote(write.file().to_string(), write.document().clone()));
                let outcome = if world.disk_full {
                    WriteOutcome::Failed("No space left on device".to_string())
                } else {
                    WriteOutcome::Written
                };
                write.answer(outcome)
            }
            Request::Finished(result) => return result,
        };
    }
}

const README_PROMPT: &str = "Answer with the README alone, without any prefatory remarks. Generate a README.md file with a but not limited to a brief overview and description of the project, a key rundown of features and a usage guide suitable for a GitHub repository using these files:\n\n{\"README.md\":\"text of README.md\",\"src/main.rs\":\"text of src/main.rs\"}.";

#[test]
fn a_run_collects_prompts_launches_and_writes() {
    let world = World {
        root_exists: true,
        process: || answering("<think>plan</think>\n# My project\n", "", 0),
        disk_full: false,
    };
    let mut did = Vec::new();
    let result = drive(&world, DocumentType::Readme, &mut did);
    assert_eq!(result, Ok(()));
    assert_eq!(
        did,
        vec![
            Did::Listed(String::new()),
            Did::Listed("src".to_string()),
            Did::Read("src/main.rs".to_string()),
            Did::Read("README.md".to_string()),
            Did::Launched(
                "ollama".to_string(),
                vec!["run".to_string(), "llama3.2".to_string(), README_PROMPT.to_string()]
            ),
            Did::Wrote("output.md".to_string(), "# My project".to_string()),
        ]
    );
}

#[test]
fn the_prompt_follows_the_document_type() {
    let world = World { root_exists: true, process: || answering("text", "", 0), disk_full: false };
    let mut prompts = Vec::new();
    for kind in [DocumentType::Readme, DocumentType::Blog, DocumentType::Writeup] {
        let mut did = Vec::new();
        assert_eq!(drive(&world, kind, &mut did), Ok(()));
        match &did[4] {
            Did::Launched(_, arguments) => prompts.push(arguments[2].clone()),
            other => panic!("expected a launch, found {:?}", other),
        }
    }
    assert!(prompts[0].starts_with("Answer with the README alone, without any prefatory remarks. Generate a README.md file"));
    assert!(prompts[1].starts_with("Answer with the blog post alone, without any prefatory remarks. Generate a blog post"));
    assert!(prompts[2].starts_with("Answer with the write\u{2011}up alone, without any prefatory remarks. Compose a scholarly write\u{2011}up"));
    for prompt in &prompts {
        assert!(prompt.ends_with("{\"README.md\":\"text of README.md\",\"src/main.rs\":\"text of src/main.rs\"}."));
    }
}

#[test]
fn missing_root_ends_the_run_and_nothing_is_written() {
    let world = World { root_exists: false, process: || answering("text", "", 0), disk_full: false };
    let mut did = Vec::new();
    let result = drive(&world, DocumentType::Blog, &mut did);
    assert_eq!(
        result,
        Err(Failure::NotFound("No such file or directory (os error 2)".to_string()))
    );
    assert_eq!(did, vec![Did::Listed(String::new())]);
}

#[test]
fn failed_process_ends_the_run_with_its_standard_error_and_nothing_is_written() {
    let world = World {
        root_exists: true,
        process: || answering("partial", "model not found", 1),
        disk_full: false,
    };
    let mut did = Vec::new();
    let result = drive(&world, DocumentType::Writeup, &mut did);
    assert_eq!(result, Err(Failure::ProcessFailure("model not found".to_string())));
    assert_eq!(did.len(), 5);
    assert!(matches!(did[4], Did::Launched(_, _)));
    assert!(!did.iter().any(|d| matches!(d, Did::Wrote(_, _))));
}

#[test]
fn missing_program_ends_the_run_as_not_found() {
    let world = World {
        root_exists: true,
        process: || LaunchOutcome::NotFound("ollama: not installed".to_string()),
        disk_full: false,
    };
    let mut did = Vec::new();
    let result = drive(&world, DocumentType::Readme, &mut did);
    assert_eq!(result, Err(Failure::NotFound("ollama: not installed".to_string())));
    assert!(!did.iter().any(|d| matches!(d, Did::Wrote(_, _))));
}

#[test]
fn document_that_cannot_be_written_ends_the_run_as_io_failure() {
    let world = World { root_exists: true, process: || answering("text", "", 0), disk_full: true };
    let mut did = Vec::new();
    let result = drive(&world, DocumentType::Readme, &mut did);
    assert_eq!(result, Err(Failure::Io("No space left on device".to_string())));
    assert_eq!(did.last(), Some(&Did::Wrote("output.md".to_string(), "text".to_string())));
}
