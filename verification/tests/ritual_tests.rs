use ritual::ritual::{advance, spirit_file_name, task_of, Stage};
use ritual::text::{concat_text, text_eq};

#[test]
fn stages_run_in_order() {
    let mut stage = Stage::CheckDirectory;
    let mut seen = vec![stage];
    while stage != Stage::Made {
        stage = advance(stage, true);
        seen.push(stage);
    }
    assert_eq!(
        seen,
        vec![
            Stage::CheckDirectory,
            Stage::Validate,
            Stage::Parse,
            Stage::CheckOutput,
            Stage::Plan,
            Stage::CreateOutput,
            Stage::Compress,
            Stage::Finalize,
            Stage::Made,
        ]
    );
}

#[test]
fn a_failed_stage_ends_the_ritual() {
    assert_eq!(advance(Stage::Parse, false), Stage::Failed);
    assert_eq!(advance(Stage::Finalize, false), Stage::Failed);
    assert_eq!(advance(Stage::Failed, true), Stage::Failed);
    assert_eq!(advance(Stage::Made, false), Stage::Made);
}

#[test]
fn tasks_are_numbered_out_of_four() {
    assert_eq!(task_of(Stage::CheckDirectory), Some(1));
    assert_eq!(task_of(Stage::Validate), Some(2));
    assert_eq!(task_of(Stage::Parse), Some(3));
    assert_eq!(task_of(Stage::Finalize), Some(4));
    assert_eq!(task_of(Stage::Compress), None);
    assert_eq!(task_of(Stage::CheckOutput), None);
    assert_eq!(task_of(Stage::Plan), None);
}

#[test]
fn spirit_file_is_named_after_the_spirit() {
    assert_eq!(spirit_file_name("Inori"), "Inori.spirit");
    assert_eq!(spirit_file_name(""), ".spirit");
}

#[test]
fn text_helpers() {
    assert!(text_eq("abc", "abc"));
    assert!(!text_eq("abc", "abd"));
    assert!(!text_eq("abc", "ab"));
    assert_eq!(concat_text("ab", "cd"), "abcd");
    assert_eq!(concat_text("", "é"), "é");
}
