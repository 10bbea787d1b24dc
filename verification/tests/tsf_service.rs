use novatype::protocol::CandidateDto;
use novatype::tsf::edit_session::EditOperation;
use novatype::tsf::service::{TextService, KEY_EVENT_COOKIE};
use novatype::tsf::session::EngineClient;

struct EchoClient;

impl EngineClient for EchoClient {
    fn suggest(&mut self, input: &str, _limit: usize) -> Vec<CandidateDto> {
        vec![CandidateDto {
            text: input.to_uppercase(),
            reading: vec![input.to_string()],
            score_bits: 1.0f64.to_bits(),
        }]
    }

    fn commit(&mut self, _text: &str, _reading: &[String]) -> Vec<String> {
        Vec::new()
    }
}

#[test]
fn text_service_activation_tracks_state() {
    let mut service = TextService::new(EchoClient);

    assert!(!service.key_down(0x4E));
    service.activate(0x1000, 42);
    assert!(service.is_activated());
    assert_eq!(service.client_id(), 42);
    assert_eq!(service.thread_mgr(), 0x1000);
    assert_eq!(service.sinks().key_event_cookie(), Some(KEY_EVENT_COOKIE));
    assert!(service.document().context().is_some());
    assert!(service.key_down(0x4E));
    assert_eq!(service.session().buffer(), "n");

    service.deactivate();
    assert!(!service.is_activated());
    assert_eq!(service.client_id(), 0);
    assert!(!service.sinks().key_event_active());
    assert!(service.document().context().is_none());
    assert_eq!(service.document().composition(), "");
}

#[test]
fn text_service_key_path_produces_edit_operations() {
    let mut service = TextService::new(EchoClient);
    service.activate(0x1000, 7);

    let operations = service.key_operations(0x4E); // N

    assert!(matches!(operations[0], EditOperation::SetComposition(_)));
    assert!(matches!(operations[1], EditOperation::ShowCandidates(_)));
}

#[test]
fn inactive_service_passes_keys_through() {
    let mut service = TextService::new(EchoClient);
    assert_eq!(service.key_operations(0x4E), vec![EditOperation::PassThrough]);
    assert_eq!(service.session().buffer(), "");
}

#[test]
fn eaten_keys_edit_the_document() {
    let mut service = TextService::new(EchoClient);
    service.activate(0x1000, 9);

    assert!(!service.test_key_down(0x20));
    assert!(service.key_down(0x4E)); // N
    assert!(service.key_down(0x49)); // I
    assert_eq!(service.document().composition(), "ni");
    assert!(service.document().candidate_model().is_some());
    assert!(service.document().candidate_window().is_visible());

    assert!(service.test_key_down(0x20));
    assert!(service.key_down(0x20)); // Space commits
    assert_eq!(service.document().committed(), "NI");
    assert_eq!(service.document().composition(), "");
    assert!(!service.document().candidate_window().is_visible());
    assert!(!service.key_down(0x20));
}
