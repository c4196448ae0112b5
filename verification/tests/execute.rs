use river_shell::execute::pipeline_plans;
use river_shell::execute::plan_stage;
use river_shell::execute::resolution_candidates;
use river_shell::execute::select_binary;
use river_shell::execute::ExecutionError;
use river_shell::execute::StagePlan;
use river_shell::parser::validate_and_split;

#[test]
fn current_directory_candidate_wins() {
    let cands = resolution_candidates("tool", "/work", "/bin:/usr/bin");
    assert_eq!(
        cands,
        vec![
            "/work/tool".to_string(),
            "/bin/tool".to_string(),
            "/usr/bin/tool".to_string()
        ]
    );
    // the same name is usable both under the current directory and on the path
    let usable = vec![true, true, true];
    assert_eq!(
        select_binary(&cands, &usable, "tool"),
        Ok("/work/tool".to_string())
    );
}

#[test]
fn search_path_order_is_respected() {
    let cands = resolution_candidates("tool", "/work", "/a:/b");
    let usable = vec![false, false, true];
    assert_eq!(select_binary(&cands, &usable, "tool"), Ok("/b/tool".to_string()));
}

#[test]
fn unresolved_binary_reports_its_name() {
    let cands = resolution_candidates("ghost", "/work", "/bin");
    let usable = vec![false, false];
    assert_eq!(
        select_binary(&cands, &usable, "ghost"),
        Err(ExecutionError::BinaryNotFound("ghost".to_string()))
    );
}

#[test]
fn empty_search_path_is_an_empty_directory_list() {
    // an unset search-path variable is handed in as "" and adds no candidates
    let cands = resolution_candidates("tool", "/work", "");
    assert_eq!(cands, vec!["/work/tool".to_string()]);
    let usable = vec![false];
    assert_eq!(
        select_binary(&cands, &usable, "tool"),
        Err(ExecutionError::BinaryNotFound("tool".to_string()))
    );
}

#[test]
fn unusable_current_directory_candidate_is_skipped() {
    // an unusable current-directory entry (say, a symbolic link) never wins
    let cands = resolution_candidates("tool", "/work", "/bin");
    let usable = vec![false, true];
    assert_eq!(select_binary(&cands, &usable, "tool"), Ok("/bin/tool".to_string()));
}

#[test]
fn single_stage_inherits_both_streams() {
    let stages = validate_and_split("ls").unwrap();
    let plans = pipeline_plans(&stages);
    assert_eq!(plans.len(), 1);
    match &plans[0] {
        StagePlan::Run { binary, args, capture_stdout, stdin_from_previous } => {
            assert_eq!(binary.as_str(), "ls");
            assert!(args.is_empty());
            assert!(!*capture_stdout);
            assert!(!*stdin_from_previous);
        }
        other => panic!("expected a spawn plan, got {:?}", other),
    }
}

#[test]
fn two_stage_pipeline_wires_streams() {
    let stages = validate_and_split("ls | grep foo").unwrap();
    let plans = pipeline_plans(&stages);
    assert_eq!(plans.len(), 2);
    match &plans[0] {
        StagePlan::Run { binary, args, capture_stdout, stdin_from_previous } => {
            assert_eq!(binary.as_str(), "ls");
            assert!(args.is_empty());
            assert!(*capture_stdout);
            assert!(!*stdin_from_previous);
        }
        other => panic!("expected a spawn plan, got {:?}", other),
    }
    match &plans[1] {
        StagePlan::Run { binary, args, capture_stdout, stdin_from_previous } => {
            assert_eq!(binary.as_str(), "grep");
            assert_eq!(args.len(), 1);
            assert_eq!(args[0].as_str(), "foo");
            assert!(!*capture_stdout);
            assert!(*stdin_from_previous);
        }
        other => panic!("expected a spawn plan, got {:?}", other),
    }
}

#[test]
fn directory_change_short_circuits_pipeline() {
    let stages = validate_and_split("cd /tmp | ls").unwrap();
    let plans = pipeline_plans(&stages);
    assert_eq!(plans.len(), 1);
    match &plans[0] {
        StagePlan::ChangeDir { target } => assert_eq!(target.as_deref(), Some("/tmp")),
        other => panic!("expected a directory change, got {:?}", other),
    }
}

#[test]
fn directory_change_without_argument_uses_default() {
    match plan_stage("cd", true, true) {
        StagePlan::ChangeDir { target } => assert_eq!(target, None),
        other => panic!("expected a directory change, got {:?}", other),
    }
}

#[test]
fn exit_tokens_plan_an_exit() {
    assert!(matches!(plan_stage("exit", true, true), StagePlan::Exit));
    assert!(matches!(plan_stage("q", true, true), StagePlan::Exit));
}

#[test]
fn empty_command_is_a_no_op() {
    let stages = validate_and_split("").unwrap();
    let plans = pipeline_plans(&stages);
    assert_eq!(plans.len(), 1);
    assert!(matches!(&plans[0], StagePlan::Finish));
}

#[test]
fn unresolved_pipeline_reports_binary_not_found() {
    let stages = validate_and_split("madeupbinary123").unwrap();
    let plans = pipeline_plans(&stages);
    assert_eq!(plans.len(), 1);
    match &plans[0] {
        StagePlan::Run { binary, .. } => {
            let cands =
                resolution_candidates(binary.as_str(), "/definitely/not/here", "/also/not/here");
            let usable = vec![false; cands.len()];
            assert_eq!(
                select_binary(&cands, &usable, binary.as_str()),
                Err(ExecutionError::BinaryNotFound("madeupbinary123".to_string()))
            );
        }
        other => panic!("expected a spawn plan, got {:?}", other),
    }
}

#[test]
fn error_messages_are_one_line() {
    assert_eq!(
        ExecutionError::ProcessErrorFound.message(),
        "command could not be executed correctly"
    );
    assert_eq!(
        ExecutionError::BinaryNotFound("ls".to_string()).message(),
        "command not found: ls"
    );
}
