//! The `todo` tool.
use latte_rs_agent_tools::json::Json;
use latte_rs_agent_tools::tools::todo::run_todo;
use latte_rs_agent_tools::tools::todo::TodoResult;
use latte_rs_agent_tools::tools::todo::TodoStatus;

fn run(text: &str) -> TodoResult {
    run_todo(&Json::parse(text).unwrap()).unwrap()
}

#[test]
fn todo_init_creates_phase_and_normalizes() {
    let out = run(r#"{"ops":[{"op":"init","list":[{"phase":"Phase 1","items":["A","B","C"]}]}]}"#);
    assert_eq!(out.phases.len(), 1);
    assert_eq!(out.phases[0].name, "Phase 1");
    assert_eq!(out.phases[0].tasks.len(), 3);
    assert_eq!(out.phases[0].tasks[0].content, "A");
    assert_eq!(out.phases[0].tasks[0].status, TodoStatus::InProgress);
    assert_eq!(out.phases[0].tasks[1].status, TodoStatus::Pending);
    assert_eq!(out.phases[0].tasks[2].status, TodoStatus::Pending);
}

#[test]
fn todo_start_normalizes_existing_in_progress() {
    let out = run(
        r#"{"currentPhases":[{"name":"P","tasks":[
            {"content":"A","status":"in_progress"},{"content":"B","status":"in_progress"}]}],
            "ops":[{"op":"done","task":"A"}]}"#,
    );
    let p = &out.phases[0];
    assert_eq!(p.tasks[0].content, "A");
    assert_eq!(p.tasks[0].status, TodoStatus::Completed);
    assert_eq!(p.tasks[1].content, "B");
    assert_eq!(p.tasks[1].status, TodoStatus::InProgress);
}

#[test]
fn todo_done_triggers_completion_and_advances() {
    let out = run(
        r#"{"currentPhases":[{"name":"P","tasks":[
            {"content":"A","status":"in_progress"},{"content":"B","status":"pending"}]}],
            "ops":[{"op":"done","task":"A"}]}"#,
    );
    assert_eq!(out.phases[0].tasks[0].status, TodoStatus::Completed);
    assert_eq!(out.phases[0].tasks[1].status, TodoStatus::InProgress);
    assert_eq!(out.completed_tasks.len(), 1);
    assert_eq!(out.completed_tasks[0].content, "A");
}

#[test]
fn todo_atomic_failure_keeps_prev_state() {
    let out = run(
        r#"{"currentPhases":[{"name":"P","tasks":[{"content":"A","status":"pending"}]}],
            "ops":[{"op":"done","task":"A"},{"op":"start","task":"nonexistent"}]}"#,
    );
    assert!(!out.errors.is_empty());
    assert_eq!(out.phases[0].tasks[0].status, TodoStatus::Pending);
}

#[test]
fn todo_rm_removes_empty_phase() {
    let out = run(
        r#"{"currentPhases":[{"name":"P1","tasks":[{"content":"A","status":"pending"}]},
            {"name":"P2","tasks":[{"content":"B","status":"pending"}]}],
            "ops":[{"op":"rm","task":"A"}]}"#,
    );
    assert_eq!(out.phases.len(), 1);
    assert_eq!(out.phases[0].name, "P2");
}

#[test]
fn todo_append_to_existing_and_new_phase() {
    let out = run(
        r#"{"currentPhases":[{"name":"P1","tasks":[{"content":"A","status":"pending"}]}],
            "ops":[{"op":"append","phase":"P1","items":["B","C"]},{"op":"append","phase":"P2","items":["D"]}]}"#,
    );
    assert_eq!(out.phases.len(), 2);
    assert_eq!(out.phases[0].tasks.len(), 3);
    assert_eq!(out.phases[1].name, "P2");
    assert_eq!(out.phases[1].tasks.len(), 1);
}

#[test]
fn todo_drop_marks_abandoned() {
    let out = run(
        r#"{"currentPhases":[{"name":"P","tasks":[{"content":"A","status":"pending"}]}],
            "ops":[{"op":"drop","task":"A"}]}"#,
    );
    assert_eq!(out.phases[0].tasks[0].status, TodoStatus::Abandoned);
}

#[test]
fn todo_view_is_readonly() {
    let out = run(
        r#"{"currentPhases":[{"name":"P","tasks":[
            {"content":"A","status":"in_progress"},{"content":"B","status":"in_progress"}]}],
            "ops":[{"op":"view"}]}"#,
    );
    assert_eq!(out.phases[0].tasks[0].status, TodoStatus::InProgress);
    assert_eq!(out.phases[0].tasks[1].status, TodoStatus::InProgress);
}

#[test]
fn todo_completion_detection() {
    let out = run(
        r#"{"ops":[{"op":"init","list":[{"phase":"P","items":["A","B"]}]},{"op":"done","task":"A"}]}"#,
    );
    assert_eq!(out.completed_tasks.len(), 1);
    assert_eq!(out.completed_tasks[0].content, "A");
    assert_eq!(out.phases[0].tasks[0].status, TodoStatus::Completed);
    assert_eq!(out.phases[0].tasks[1].status, TodoStatus::InProgress);
}

#[test]
fn todo_empty_ops_errors() {
    let err = run_todo(&Json::parse(r#"{"ops":[]}"#).unwrap()).unwrap_err();
    assert!(err.to_string().contains("must not be empty"));
}

#[test]
fn todo_unknown_op_does_not_corrupt_state() {
    let out = run(
        r#"{"currentPhases":[{"name":"P","tasks":[{"content":"A","status":"pending"}]}],
            "ops":[{"op":"frobnicate"}]}"#,
    );
    assert!(out.errors.iter().any(|e| e.contains("unknown op")));
    assert_eq!(out.phases[0].tasks[0].status, TodoStatus::Pending);
}

#[test]
fn starting_a_task_demotes_the_one_under_way() {
    let out = run(
        r#"{"currentPhases":[{"name":"P","tasks":[
            {"content":"A","status":"in_progress"},{"content":"B","status":"pending"}]}],
            "ops":[{"op":"start","task":"B"}]}"#,
    );
    assert_eq!(out.phases[0].tasks[0].status, TodoStatus::Pending);
    assert_eq!(out.phases[0].tasks[1].status, TodoStatus::InProgress);
}

#[test]
fn todo_needs_ops() {
    let err = run_todo(&Json::parse("{}").unwrap()).unwrap_err();
    assert_eq!(err.to_string(), "ops is required (array)");
}

#[test]
fn answers_are_written_as_json() {
    let out = run(
        r#"{"currentPhases":[{"name":"P","tasks":[{"content":"A","status":"in_progress"},
            {"content":"B"}]}],"ops":[{"op":"done","task":"A"}]}"#,
    );
    assert_eq!(
        out.to_json().to_text(),
        r#"{"completedTasks":[{"content":"A","phase":"P"}],"phases":[{"name":"P","tasks":[{"content":"A","status":"completed"},{"content":"B","status":"in_progress"}]}]}"#
    );
    let failed = run(r#"{"ops":[{"op":"frobnicate"}]}"#).to_json();
    assert!(failed.get("completedTasks").is_none());
    assert_eq!(failed.get_array("errors").unwrap().len(), 1);
}

#[test]
fn answers_can_be_handed_in_again() {
    let first = run(r#"{"ops":[{"op":"init","list":[{"phase":"P","items":["A","B"]}]}]}"#);
    let phases = first.to_json().get("phases").unwrap().to_text();
    let input = format!(r#"{{"currentPhases":{},"ops":[{{"op":"view"}}]}}"#, phases);
    assert_eq!(run(&input).to_json().to_text(), first.to_json().to_text());
}
