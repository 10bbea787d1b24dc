use novatype::protocol::CandidateDto;
use novatype::tsf::candidate_window::CandidateWindowView;
use novatype::tsf::edit_session::CandidateWindowModel;
use novatype::tsf::native_window::{color_ref, wide};
use novatype::tsf::window::{
    render_commands, text_width, CandidateWindowHandle, CandidateWindowMetrics, CandidateWindowState,
    PaintColor, PaintCommand, PaintRenderer, Rect, WINDOW_CLASS_NAME,
};

fn model() -> CandidateWindowModel {
    CandidateWindowModel {
        composition: "zhong'guo".to_string(),
        candidates: vec![
            CandidateDto {
                text: "中国".to_string(),
                reading: vec!["zhong".into(), "guo".into()],
                score_bits: 1.0f64.to_bits(),
            },
            CandidateDto {
                text: "中".to_string(),
                reading: vec!["zhong".into()],
                score_bits: 0.5f64.to_bits(),
            },
        ],
        page: 0,
        has_prev_page: false,
        has_next_page: true,
    }
}

fn view() -> CandidateWindowView {
    CandidateWindowView::from_model(&model())
}

#[test]
fn builds_view_from_model() {
    let view = CandidateWindowView::from_model(&model());

    assert_eq!(view.composition_line, "zhong'guo");
    assert_eq!(view.candidates[0].number, 1);
    assert_eq!(view.candidates[0].text, "中国");
    assert!(view.candidates[0].highlighted);
    assert!(!view.show_prev);
    assert!(view.show_next);
}

#[test]
fn debug_line_matches_compact_layout() {
    let view = CandidateWindowView::from_model(&model());
    let line = view.debug_line();

    assert!(line.contains("zhong'guo"));
    assert!(line.contains("1. 中国"));
    assert!(line.contains('›'));
}

#[test]
fn has_stable_window_class_name() {
    assert_eq!(WINDOW_CLASS_NAME, "NovaTypeCandidateWindow");
}

#[test]
fn measures_minimum_window_size() {
    let rect = CandidateWindowMetrics::default().measure(&view());

    assert!(rect.width >= 320);
    assert_eq!(rect.height, 72);
}

#[test]
fn positions_below_caret() {
    let rect = CandidateWindowMetrics::default().position_near_caret((100, 200), &view());

    assert_eq!(rect.x, 100);
    assert_eq!(rect.y, 204);
}

#[test]
fn emits_paint_commands_for_native_renderer() {
    let commands = CandidateWindowMetrics::default().paint_commands(&view());

    assert!(matches!(
        commands[0],
        PaintCommand::FillRect {
            color: PaintColor::Background,
            ..
        }
    ));
    assert!(commands.iter().any(|command| matches!(
        command,
        PaintCommand::Text { text, .. } if text == "1. 中国"
    )));
    assert!(commands.iter().any(|command| matches!(
        command,
        PaintCommand::FillRect {
            color: PaintColor::HighlightBackground,
            ..
        }
    )));
}

#[test]
fn candidate_window_state_tracks_visibility_and_bounds() {
    let mut state = CandidateWindowState::new();
    state.attach_handle(CandidateWindowHandle(100));
    state.update(view(), (10, 20), CandidateWindowMetrics::default());

    assert!(state.is_visible());
    assert_eq!(state.last_bounds().map(|rect| rect.x), Some(10));
    assert!(state.last_view().is_some());

    state.hide_window();
    assert!(!state.is_visible());
}

#[derive(Default)]
struct RecordingRenderer {
    calls: Vec<String>,
}

impl PaintRenderer for RecordingRenderer {
    fn fill_rect(&mut self, _rect: Rect, _color: PaintColor) {
        self.calls.push("fill".to_string());
    }

    fn stroke_rect(&mut self, _rect: Rect, _color: PaintColor) {
        self.calls.push("stroke".to_string());
    }

    fn text(&mut self, _rect: Rect, text: &str, _color: PaintColor) {
        self.calls.push(format!("text:{text}"));
    }
}

#[test]
fn render_commands_calls_renderer_in_order() {
    let commands = CandidateWindowMetrics::default().paint_commands(&view());
    let mut renderer = RecordingRenderer::default();

    render_commands(&mut renderer, &commands);

    assert_eq!(renderer.calls[0], "fill");
    assert_eq!(renderer.calls[1], "stroke");
    assert!(renderer.calls.iter().any(|call| call == "text:1. 中国"));
    assert_eq!(renderer.calls.len(), commands.len());
}

#[test]
fn wide_strings_are_null_terminated() {
    let wide = wide("NovaTypeCandidateWindow");

    assert_eq!(wide.last(), Some(&0));
}

#[test]
fn wide_strings_match_utf16() {
    let text = "中国 a😀";
    let mut expected: Vec<u16> = text.encode_utf16().collect();
    expected.push(0);
    assert_eq!(wide(text), expected);
}

#[test]
fn maps_brand_color() {
    assert_ne!(
        color_ref(PaintColor::Brand),
        color_ref(PaintColor::Background)
    );
}

#[test]
fn paint_colors_have_fixed_values() {
    assert_eq!(color_ref(PaintColor::Background), 0x00FF_FFFF);
    assert_eq!(color_ref(PaintColor::Text), 0x002E_261B);
}

#[test]
fn text_width_counts_wide_characters_twice() {
    assert_eq!(text_width("ab", 9), 18);
    assert_eq!(text_width("a你", 16), 48);
    assert_eq!(text_width("a你", -3), -9);
    assert_eq!(text_width("", 7), 0);
}
