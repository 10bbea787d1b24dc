use novatype::protocol::CandidateDto;
use novatype::tsf::candidate_window::CandidateWindowView;
use novatype::tsf::edit_session::{
    execute_operations, plan_operations, CandidateWindowModel, DocumentEditor, EditOperation,
};
use novatype::tsf::key_event::{key_down, test_key_down, KeyTestResult};
use novatype::tsf::session::{EngineClient, InputSession, SessionAction, SessionSnapshot};

fn snapshot() -> SessionSnapshot {
    SessionSnapshot {
        composition: "ni".to_string(),
        candidates: vec![CandidateDto {
            text: "你".to_string(),
            reading: vec!["ni".to_string()],
            score_bits: 1.0f64.to_bits(),
        }],
        page: 0,
        has_prev_page: false,
        has_next_page: true,
    }
}

#[test]
fn update_sets_composition_and_candidates() {
    let operations = plan_operations(SessionAction::Update(snapshot()));

    assert_eq!(
        operations[0],
        EditOperation::SetComposition("ni".to_string())
    );
    assert_eq!(
        operations[1],
        EditOperation::ShowCandidates(CandidateWindowModel {
            composition: "ni".to_string(),
            candidates: vec![CandidateDto {
                text: "你".to_string(),
                reading: vec!["ni".to_string()],
                score_bits: 1.0f64.to_bits(),
            }],
            page: 0,
            has_prev_page: false,
            has_next_page: true,
        })
    );

    let EditOperation::ShowCandidates(model) = &operations[1] else {
        panic!("expected candidate model");
    };
    let view = CandidateWindowView::from_model(model);
    assert_eq!(view.composition_line, "ni");
    assert_eq!(view.candidates[0].text, "你");
}

#[test]
fn commit_writes_text_and_clears_ui() {
    let operations = plan_operations(SessionAction::Commit("你好".to_string()));

    assert_eq!(
        operations,
        vec![
            EditOperation::CommitText("你好".to_string()),
            EditOperation::ClearComposition,
            EditOperation::HideCandidates,
        ]
    );
}

#[test]
fn dismiss_clears_ui_without_commit() {
    let operations = plan_operations(SessionAction::Dismiss);

    assert_eq!(
        operations,
        vec![
            EditOperation::ClearComposition,
            EditOperation::HideCandidates
        ]
    );
}

#[test]
fn pass_through_stays_single_operation() {
    assert_eq!(
        plan_operations(SessionAction::PassThrough),
        vec![EditOperation::PassThrough]
    );
}

#[derive(Default)]
struct FakeEditor {
    composition: String,
    committed: String,
    candidates_visible: bool,
    pass_through_count: usize,
}

impl DocumentEditor for FakeEditor {
    fn pass_through(&mut self) {
        self.pass_through_count += 1;
    }

    fn set_composition(&mut self, text: &str) {
        self.composition = text.to_string();
    }

    fn commit_text(&mut self, text: &str) {
        self.committed.push_str(text);
    }

    fn show_candidates(&mut self, _model: &CandidateWindowModel) {
        self.candidates_visible = true;
    }

    fn set_caret(&mut self, _x: i32, _y: i32) {}

    fn hide_candidates(&mut self) {
        self.candidates_visible = false;
    }

    fn clear_composition(&mut self) {
        self.composition.clear();
    }
}

#[test]
fn execute_update_operations_sets_fake_document_state() {
    let operations = plan_operations(SessionAction::Update(snapshot()));
    let mut editor = FakeEditor::default();

    execute_operations(&mut editor, &operations);

    assert_eq!(editor.composition, "ni");
    assert!(editor.candidates_visible);
}

#[test]
fn execute_commit_operations_commits_and_clears_ui() {
    let operations = plan_operations(SessionAction::Commit("你好".to_string()));
    let mut editor = FakeEditor {
        composition: "nihao".to_string(),
        candidates_visible: true,
        ..FakeEditor::default()
    };

    execute_operations(&mut editor, &operations);

    assert_eq!(editor.committed, "你好");
    assert!(editor.composition.is_empty());
    assert!(!editor.candidates_visible);
}

#[test]
fn execute_pass_through_counts_operation() {
    let operations = plan_operations(SessionAction::PassThrough);
    let mut editor = FakeEditor::default();

    execute_operations(&mut editor, &operations);

    assert_eq!(editor.pass_through_count, 1);
}

struct EchoClient;

impl EngineClient for EchoClient {
    fn suggest(&mut self, input: &str, _limit: usize) -> Vec<CandidateDto> {
        vec![CandidateDto {
            text: input.to_string(),
            reading: vec![input.to_string()],
            score_bits: 1.0f64.to_bits(),
        }]
    }

    fn commit(&mut self, _text: &str, _reading: &[String]) -> Vec<String> {
        Vec::new()
    }
}

#[test]
fn test_key_down_eats_letters_when_active() {
    assert_eq!(test_key_down(true, true, false, 0x4E), KeyTestResult::Eat);
    assert_eq!(test_key_down(false, true, false, 0x4E), KeyTestResult::Pass);
    assert_eq!(test_key_down(true, false, false, 0x4E), KeyTestResult::Pass);
}

#[test]
fn test_key_down_eats_controls_only_while_composing() {
    assert_eq!(test_key_down(true, true, false, 0x20), KeyTestResult::Pass);
    assert_eq!(test_key_down(true, true, true, 0x20), KeyTestResult::Eat);
}

#[test]
fn key_down_updates_and_commits() {
    let mut session = InputSession::new(EchoClient);
    let operations = key_down(&mut session, 0x4E); // N
    assert!(matches!(operations[0], EditOperation::SetComposition(_)));

    let operations = key_down(&mut session, 0x20); // Space
    assert!(matches!(operations[0], EditOperation::CommitText(_)));
}

#[test]
fn key_down_passes_unknown_keys() {
    let mut session = InputSession::new(EchoClient);
    assert_eq!(key_down(&mut session, 0x70), vec![EditOperation::PassThrough]);
}
