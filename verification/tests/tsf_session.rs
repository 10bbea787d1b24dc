use novatype::protocol::CandidateDto;
use novatype::tsf::session::{
    DaemonClient, EngineClient, InputSession, Key, Outcome, SessionAction, PAGE_SIZE,
};

struct MockClient {
    committed: Vec<String>,
}

impl MockClient {
    fn new() -> Self {
        Self {
            committed: Vec::new(),
        }
    }
}

impl EngineClient for MockClient {
    fn suggest(&mut self, input: &str, _limit: usize) -> Vec<CandidateDto> {
        if input.is_empty() {
            return Vec::new();
        }
        (0..12)
            .map(|index| CandidateDto {
                text: format!("词{index}"),
                reading: vec![input.to_string()],
                score_bits: f64::from(12 - index).to_bits(),
            })
            .collect()
    }

    fn commit(&mut self, text: &str, _reading: &[String]) -> Vec<String> {
        self.committed.push(text.to_string());
        vec!["联想".to_string()]
    }
}

/// A client that never has candidates.
struct EmptyClient;

impl EngineClient for EmptyClient {
    fn suggest(&mut self, _input: &str, _limit: usize) -> Vec<CandidateDto> {
        Vec::new()
    }

    fn commit(&mut self, _text: &str, _reading: &[String]) -> Vec<String> {
        Vec::new()
    }
}

fn session() -> InputSession<MockClient> {
    InputSession::new(MockClient::new())
}

#[test]
fn typing_builds_composition_and_candidates() {
    let mut session = session();

    assert_eq!(session.handle_key(Key::Char('n')), Outcome::Updated);
    assert_eq!(session.handle_key(Key::Char('i')), Outcome::Updated);
    assert_eq!(session.buffer(), "ni");
    assert_eq!(session.page_candidates().len(), PAGE_SIZE);
}

#[test]
fn rich_update_contains_snapshot_for_candidate_window() {
    let mut session = session();

    let action = session.handle_key_action(Key::Char('n'));

    let SessionAction::Update(snapshot) = action else {
        panic!("expected update");
    };
    assert_eq!(snapshot.composition, "n");
    assert_eq!(snapshot.candidates.len(), PAGE_SIZE);
    assert_eq!(snapshot.page, 0);
    assert!(!snapshot.has_prev_page);
    assert!(snapshot.has_next_page);
}

#[test]
fn rich_paging_snapshot_tracks_page_bounds() {
    let mut session = session();
    session.handle_key(Key::Char('n'));

    let action = session.handle_key_action(Key::PageNext);

    let SessionAction::Update(snapshot) = action else {
        panic!("expected update");
    };
    assert_eq!(snapshot.page, 1);
    assert!(snapshot.has_prev_page);
    assert!(snapshot.has_next_page);
}

#[test]
fn rich_commit_carries_text() {
    let mut session = session();
    session.handle_key(Key::Char('n'));

    let action = session.handle_key_action(Key::Space);

    assert_eq!(action, SessionAction::Commit("词0".to_string()));
    assert_eq!(session.snapshot().composition, "");
}

#[test]
fn space_commits_first_candidate() {
    let mut session = session();
    session.handle_key(Key::Char('n'));

    let outcome = session.handle_key(Key::Space);

    assert_eq!(outcome, Outcome::Commit("词0".to_string()));
    assert!(!session.is_composing());
}

#[test]
fn enter_commits_or_clears_active_composition() {
    let mut session = session();
    session.handle_key(Key::Char('n'));

    assert_eq!(
        session.handle_key(Key::Enter),
        Outcome::Commit("词0".to_string())
    );
    assert!(!session.is_composing());

    let mut empty = InputSession::new(EmptyClient);
    assert_eq!(empty.handle_key(Key::Char('x')), Outcome::Updated);
    assert!(empty.is_composing());
    assert_eq!(empty.handle_key(Key::Enter), Outcome::Dismissed);
    assert!(!empty.is_composing());
}

#[test]
fn digit_selects_on_current_page() {
    let mut session = session();
    session.handle_key(Key::Char('n'));
    session.handle_key(Key::PageNext);

    let outcome = session.handle_key(Key::Digit(2));

    assert_eq!(outcome, Outcome::Commit("词6".to_string()));
}

#[test]
fn backspace_erases_and_dismisses() {
    let mut session = session();
    session.handle_key(Key::Char('n'));
    session.handle_key(Key::Char('i'));

    assert_eq!(session.handle_key(Key::Backspace), Outcome::Updated);
    assert_eq!(session.handle_key(Key::Backspace), Outcome::Dismissed);
    assert_eq!(session.handle_key(Key::Backspace), Outcome::PassThrough);
}

#[test]
fn escape_dismisses_composition() {
    let mut session = session();
    session.handle_key(Key::Char('n'));

    assert_eq!(session.handle_key(Key::Escape), Outcome::Dismissed);
    assert_eq!(session.handle_key(Key::Escape), Outcome::PassThrough);
}

#[test]
fn paging_clamps_to_bounds() {
    let mut session = session();
    session.handle_key(Key::Char('n'));

    session.handle_key(Key::PagePrev);
    assert_eq!(session.page_candidates()[0].text, "词0");

    session.handle_key(Key::PageNext);
    session.handle_key(Key::PageNext);
    session.handle_key(Key::PageNext);
    assert_eq!(session.page_candidates()[0].text, "词10");
}

#[test]
fn uppercase_and_symbols_pass_through() {
    let mut session = session();

    assert_eq!(session.handle_key(Key::Char('A')), Outcome::PassThrough);
    assert_eq!(session.handle_key(Key::Char('1')), Outcome::PassThrough);
}

#[test]
fn digit_out_of_page_is_ignored_but_eaten() {
    let mut session = session();
    session.handle_key(Key::Char('n'));
    session.handle_key(Key::PageNext);
    session.handle_key(Key::PageNext);
    assert_eq!(session.page_candidates().len(), 2);
    assert_eq!(session.handle_key(Key::Digit(3)), Outcome::Updated);
    assert!(session.is_composing());
    assert_eq!(session.handle_key(Key::Digit(2)), Outcome::Commit("词11".to_string()));
}

#[test]
fn controls_pass_through_without_composition() {
    let mut session = session();
    for key in [Key::Space, Key::Enter, Key::Digit(1), Key::PageNext, Key::PagePrev] {
        assert_eq!(session.handle_key(key), Outcome::PassThrough);
    }
}

#[test]
fn daemon_client_keeps_endpoint() {
    let client = DaemonClient::new("tcp://127.0.0.1:48931".to_string());
    assert_eq!(client.endpoint(), "tcp://127.0.0.1:48931");
}

/// A client that records the calls it receives in a shared log.
struct RecordingClient {
    log: std::rc::Rc<std::cell::RefCell<Vec<String>>>,
}

impl EngineClient for RecordingClient {
    fn suggest(&mut self, input: &str, limit: usize) -> Vec<CandidateDto> {
        self.log.borrow_mut().push(format!("suggest {input} {limit}"));
        MockClient::new().suggest(input, limit)
    }

    fn commit(&mut self, text: &str, reading: &[String]) -> Vec<String> {
        self.log
            .borrow_mut()
            .push(format!("commit {text} {}", reading.join(" ")));
        Vec::new()
    }
}

#[test]
fn client_sees_suggest_per_edit_and_commit_of_selection() {
    let log = std::rc::Rc::new(std::cell::RefCell::new(Vec::new()));
    let mut session = InputSession::new(RecordingClient { log: log.clone() });

    session.handle_key(Key::Char('n'));
    session.handle_key(Key::Char('i'));
    session.handle_key(Key::Backspace);
    session.handle_key(Key::PageNext);
    assert_eq!(
        session.handle_key_action(Key::Digit(2)),
        SessionAction::Commit("词6".to_string())
    );
    assert_eq!(
        *log.borrow(),
        vec![
            "suggest n 20".to_string(),
            "suggest ni 20".to_string(),
            "suggest n 20".to_string(),
            "commit 词6 n".to_string(),
        ]
    );
}

#[test]
fn keys_without_engine_work_leave_client_alone() {
    let log = std::rc::Rc::new(std::cell::RefCell::new(Vec::new()));
    let mut session = InputSession::new(RecordingClient { log: log.clone() });

    session.handle_key(Key::Escape);
    session.handle_key(Key::Space);
    session.handle_key(Key::Char('n'));
    session.handle_key(Key::PageNext);
    session.handle_key(Key::PageNext);
    session.handle_key(Key::Digit(5));
    session.handle_key(Key::PagePrev);
    session.handle_key(Key::Char('A'));
    assert_eq!(*log.borrow(), vec!["suggest n 20".to_string()]);
}
