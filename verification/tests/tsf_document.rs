use novatype::protocol::CandidateDto;
use novatype::tsf::document::{TsfDocumentEditor, TsfEditContext};
use novatype::tsf::edit_session::{
    execute_operations, plan_operations, CandidateWindowModel, DocumentEditor,
};
use novatype::tsf::session::{SessionAction, SessionSnapshot};

fn model() -> CandidateWindowModel {
    CandidateWindowModel {
        composition: "ni".to_string(),
        candidates: vec![CandidateDto {
            text: "你".to_string(),
            reading: vec!["ni".to_string()],
            score_bits: 1.0f64.to_bits(),
        }],
        page: 0,
        has_prev_page: false,
        has_next_page: false,
    }
}

#[test]
fn stores_context_and_edit_state() {
    let mut editor = TsfDocumentEditor::new();
    let context = TsfEditContext {
        thread_mgr: 0x1000,
        client_id: 7,
        edit_cookie: 11,
    };

    editor.attach_context(context);
    editor.set_caret(100, 200);
    editor.set_composition("ni");
    editor.show_candidates(&model());
    editor.commit_text("你");

    assert_eq!(editor.context(), Some(context));
    assert_eq!(editor.composition(), "ni");
    assert_eq!(editor.committed(), "你");
    assert!(editor.candidate_model().is_some());
    assert!(editor.candidate_window().is_visible());
    assert_eq!(
        editor.candidate_window().last_bounds().map(|rect| rect.x),
        Some(100)
    );
}

#[test]
fn detach_clears_ui_state() {
    let mut editor = TsfDocumentEditor::new();
    editor.attach_context(TsfEditContext {
        thread_mgr: 0x1000,
        client_id: 1,
        edit_cookie: 2,
    });
    editor.set_composition("ni");
    editor.show_candidates(&model());

    editor.detach_context();

    assert!(editor.context().is_none());
    assert_eq!(editor.composition(), "");
    assert!(editor.candidate_model().is_none());
}

#[test]
fn caret_at_bottom_edge_hides_window() {
    let mut editor = TsfDocumentEditor::default();
    editor.set_caret(0, i32::MAX);
    editor.show_candidates(&model());
    assert!(editor.candidate_model().is_some());
    assert!(!editor.candidate_window().is_visible());
}

#[test]
fn operations_drive_the_document() {
    let mut editor = TsfDocumentEditor::new();
    let update = plan_operations(SessionAction::Update(SessionSnapshot {
        composition: "ni".to_string(),
        candidates: model().candidates,
        page: 0,
        has_prev_page: false,
        has_next_page: false,
    }));
    execute_operations(&mut editor, &update);
    assert_eq!(editor.composition(), "ni");
    assert!(editor.candidate_window().is_visible());

    let commit = plan_operations(SessionAction::Commit("你".to_string()));
    execute_operations(&mut editor, &commit);
    assert_eq!(editor.committed(), "你");
    assert_eq!(editor.composition(), "");
    assert!(!editor.candidate_window().is_visible());

    execute_operations(&mut editor, &plan_operations(SessionAction::PassThrough));
    assert_eq!(editor.pass_through_count(), 1);
}

#[test]
fn hiding_keeps_what_the_window_last_showed() {
    let mut editor = TsfDocumentEditor::new();
    editor.set_caret(30, 40);
    let update = plan_operations(SessionAction::Update(SessionSnapshot {
        composition: "ni".to_string(),
        candidates: model().candidates,
        page: 0,
        has_prev_page: false,
        has_next_page: false,
    }));
    editor.apply_operations(&update);
    let bounds = editor.candidate_window().last_bounds();
    assert_eq!(bounds.map(|rect| (rect.x, rect.y)), Some((30, 44)));
    assert!(editor.candidate_window().last_view().is_some());

    editor.apply_operations(&plan_operations(SessionAction::Dismiss));
    assert!(!editor.candidate_window().is_visible());
    assert_eq!(editor.candidate_window().last_bounds(), bounds);
    assert!(editor.candidate_window().last_view().is_some());
}
