//! Composition state machine shared by the platform shells: composition
//! buffer, candidate paging and key handling.
use crate::protocol::{CandidateDto, CandidateView};
use crate::text::push_char;
use vstd::prelude::*;
use vstd::slice::slice_subrange;

verus! {

/// Number of candidates on one page.
pub const PAGE_SIZE: usize = 5;

/// Number of candidates fetched for each composition.
pub const CANDIDATE_FETCH_LIMIT: usize = 20;

/// A call received by an engine client, as plain values.
pub enum ClientCall {
    /// `suggest(input, limit)` and the candidates it returned.
    Suggest(Seq<char>, nat, Seq<CandidateView>),
    /// `commit(text, reading)` and the predictions it returned.
    Commit(Seq<char>, Seq<Seq<char>>, Seq<Seq<char>>),
}

/// Engine access, so that the session core works with or without a daemon.
///
/// An implementation may keep a log of the calls it receives and say so with
/// `keeps_log`; each call then appends its arguments and what it returned.
/// Implementations that keep no log promise nothing.
pub trait EngineClient {
    /// Whether this client logs the calls it receives.
    open spec fn keeps_log(&self) -> bool {
        false
    }

    /// The calls received so far, in order.
    open spec fn calls(&self) -> Seq<ClientCall> {
        Seq::empty()
    }

    /// Fetches candidates for the composition buffer.
    fn suggest(&mut self, input: &str, limit: usize) -> (r: Vec<CandidateDto>)
        ensures
            old(self).keeps_log() ==> final(self).keeps_log() && final(self).calls() == old(
                self,
            ).calls().push(ClientCall::Suggest(input@, limit as nat, r.deep_view())),
    ;

    /// Reports a committed candidate for learning; returns predictions.
    fn commit(&mut self, text: &str, reading: &[String]) -> (r: Vec<String>)
        ensures
            old(self).keeps_log() ==> final(self).keeps_log() && final(self).calls() == old(
                self,
            ).calls().push(ClientCall::Commit(text@, reading.deep_view(), r.deep_view())),
    ;
}

/// Engine client backed by the `novatyped` daemon at an endpoint; the program
/// that owns the transport sends its requests.
pub struct DaemonClient {
    endpoint: String,
}

impl DaemonClient {
    /// A client for the daemon at `endpoint`.
    pub fn new(endpoint: String) -> (r: DaemonClient)
        ensures
            r.endpoint_view() == endpoint@,
    {
        DaemonClient { endpoint }
    }

    /// The endpoint, as characters.
    pub closed spec fn endpoint_view(&self) -> Seq<char> {
        self.endpoint@
    }

    /// The daemon endpoint.
    pub fn endpoint(&self) -> (r: &str)
        ensures
            r@ == self.endpoint_view(),
    {
        self.endpoint.as_str()
    }
}

/// Keys the platform layer forwards to the session.
#[derive(Debug, Clone, Copy, PartialEq, Eq, Structural)]
pub enum Key {
    /// A lowercase ASCII letter.
    Char(char),
    /// Digit 1-9 selecting a candidate on the current page.
    Digit(u8),
    Space,
    Enter,
    Backspace,
    Escape,
    PageNext,
    PagePrev,
}

/// What the platform layer must do after a key is processed.
#[derive(Debug, Clone, PartialEq, Eq)]
pub enum Outcome {
    /// Key is not ours; let the application handle it.
    PassThrough,
    /// Composition/candidates changed; repaint the candidate window.
    Updated,
    /// Commit this text to the application and clear composition.
    Commit(String),
    /// Composition dismissed; hide the candidate window.
    Dismissed,
}

/// Candidate-window state after processing a key.
#[derive(Debug, PartialEq)]
pub struct SessionSnapshot {
    pub composition: String,
    pub candidates: Vec<CandidateDto>,
    pub page: usize,
    pub has_prev_page: bool,
    pub has_next_page: bool,
}

/// Rich action used by the edit-session and candidate-window layer.
#[derive(Debug, PartialEq)]
pub enum SessionAction {
    /// Key is not ours; let the application handle it.
    PassThrough,
    /// Composition/candidates changed; update preedit and candidate UI.
    Update(SessionSnapshot),
    /// Commit this text to the application and clear composition.
    Commit(String),
    /// Composition dismissed; hide the candidate window.
    Dismiss,
}

/// A snapshot as plain values: composition, page candidates, page, whether
/// there is a previous page and whether there is a next page.
pub type SnapshotView = (Seq<char>, Seq<CandidateView>, nat, bool, bool);

/// A session action as plain values.
pub enum ActionView {
    PassThrough,
    Update(SnapshotView),
    Commit(Seq<char>),
    Dismiss,
}

/// An outcome as plain values.
pub enum OutcomeView {
    PassThrough,
    Updated,
    Commit(Seq<char>),
    Dismissed,
}

impl DeepView for SessionSnapshot {
    type V = SnapshotView;

    open spec fn deep_view(&self) -> SnapshotView {
        (
            self.composition@,
            self.candidates.deep_view(),
            self.page as nat,
            self.has_prev_page,
            self.has_next_page,
        )
    }
}

impl DeepView for SessionAction {
    type V = ActionView;

    open spec fn deep_view(&self) -> ActionView {
        match self {
            SessionAction::PassThrough => ActionView::PassThrough,
            SessionAction::Update(s) => ActionView::Update(s.deep_view()),
            SessionAction::Commit(t) => ActionView::Commit(t@),
            SessionAction::Dismiss => ActionView::Dismiss,
        }
    }
}

impl DeepView for Outcome {
    type V = OutcomeView;

    open spec fn deep_view(&self) -> OutcomeView {
        match self {
            Outcome::PassThrough => OutcomeView::PassThrough,
            Outcome::Updated => OutcomeView::Updated,
            Outcome::Commit(t) => OutcomeView::Commit(t@),
            Outcome::Dismissed => OutcomeView::Dismissed,
        }
    }
}

/// A session state as plain values: composition buffer, candidates, page.
pub type StateView = (Seq<char>, Seq<CandidateView>, nat);

/// The candidates shown on page `page` of `cands`.
pub open spec fn page_slice(cands: Seq<CandidateView>, page: nat) -> Seq<CandidateView> {
    let start = page * PAGE_SIZE;
    if start <= cands.len() {
        let end = if start + PAGE_SIZE <= cands.len() {
            start + PAGE_SIZE
        } else {
            cands.len() as int
        };
        cands.subrange(start as int, end)
    } else {
        Seq::<CandidateView>::empty()
    }
}

/// The snapshot of a state.
pub open spec fn snapshot_of(s: StateView) -> SnapshotView {
    (s.0, page_slice(s.1, s.2), s.2, s.2 > 0, s.2 * PAGE_SIZE + PAGE_SIZE < s.1.len())
}

/// The index of the last page of `cands` (0 when there are none).
pub open spec fn last_page(cands: Seq<CandidateView>) -> nat {
    if cands.len() == 0 {
        0
    } else {
        ((cands.len() - 1) / (PAGE_SIZE as int)) as nat
    }
}

/// The session's invariant: the page lies within the candidates.
pub open spec fn state_wf(s: StateView) -> bool {
    s.2 <= last_page(s.1)
}

/// Whether a composition is active.
pub open spec fn composing(s: StateView) -> bool {
    s.0.len() > 0
}

/// The state with no composition, no candidates and page 0.
pub open spec fn cleared(s: StateView) -> bool {
    s.0.len() == 0 && s.1.len() == 0 && s.2 == 0
}

/// The candidate index that key `1..` of the current page selects.
pub open spec fn selected_index(s: StateView, index_on_page: nat) -> int {
    s.2 * PAGE_SIZE + (if index_on_page > 0 {
        index_on_page - 1
    } else {
        0
    })
}

/// Whether selecting `index_on_page` commits a candidate.
pub open spec fn selects(s: StateView, index_on_page: nat) -> bool {
    composing(s) && selected_index(s, index_on_page) < s.1.len()
}

/// The page after turning by `delta` pages, clamped to the candidate pages.
pub open spec fn turned_page(s: StateView, delta: int) -> nat {
    let next = s.2 + delta;
    let lo: int = if next < 0 {
        0
    } else {
        next
    };
    if lo > last_page(s.1) {
        last_page(s.1)
    } else {
        lo as nat
    }
}

/// How `key` changes the state: `new` is a possible state after `old`.
/// The candidates that a refresh installs are what the engine client
/// returned; `key_calls` states that for clients that keep a log.
pub open spec fn key_step(old: StateView, new: StateView, key: Key) -> bool {
    match key {
        Key::Char(c) => if 'a' <= c <= 'z' {
            new.0 == old.0.push(c) && new.2 == 0
        } else {
            new == old
        },
        Key::Digit(d) => select_step(old, new, d as nat),
        Key::Space => select_step(old, new, 1),
        Key::Enter => if !composing(old) {
            new == old
        } else if old.1.len() == 0 {
            cleared(new)
        } else {
            select_step(old, new, 1)
        },
        Key::Backspace => if !composing(old) {
            new == old
        } else if old.0.len() == 1 {
            cleared(new)
        } else {
            new.0 == old.0.drop_last() && new.2 == 0
        },
        Key::Escape => if !composing(old) {
            new == old
        } else {
            cleared(new)
        },
        Key::PageNext => turn_step(old, new, 1),
        Key::PagePrev => turn_step(old, new, -1),
    }
}

/// How selecting `index_on_page` changes the state.
pub open spec fn select_step(old: StateView, new: StateView, index_on_page: nat) -> bool {
    if selects(old, index_on_page) {
        cleared(new)
    } else {
        new == old
    }
}

/// How turning the page by `delta` changes the state.
pub open spec fn turn_step(old: StateView, new: StateView, delta: int) -> bool {
    if !composing(old) {
        new == old
    } else {
        new == (old.0, old.1, turned_page(old, delta))
    }
}

/// The action reported for `key` taking `old` to `new`.
pub open spec fn key_action(old: StateView, new: StateView, key: Key) -> ActionView {
    match key {
        Key::Char(c) => if 'a' <= c <= 'z' {
            ActionView::Update(snapshot_of(new))
        } else {
            ActionView::PassThrough
        },
        Key::Digit(d) => select_action_of(old, d as nat),
        Key::Space => select_action_of(old, 1),
        Key::Enter => if !composing(old) {
            ActionView::PassThrough
        } else if old.1.len() == 0 {
            ActionView::Dismiss
        } else {
            select_action_of(old, 1)
        },
        Key::Backspace => if !composing(old) {
            ActionView::PassThrough
        } else if old.0.len() == 1 {
            ActionView::Dismiss
        } else {
            ActionView::Update(snapshot_of(new))
        },
        Key::Escape => if !composing(old) {
            ActionView::PassThrough
        } else {
            ActionView::Dismiss
        },
        Key::PageNext | Key::PagePrev => if !composing(old) {
            ActionView::PassThrough
        } else {
            ActionView::Update(snapshot_of(new))
        },
    }
}

/// The action reported when selecting `index_on_page` in `old`.
pub open spec fn select_action_of(old: StateView, index_on_page: nat) -> ActionView {
    if !composing(old) {
        ActionView::PassThrough
    } else if selects(old, index_on_page) {
        ActionView::Commit(old.1[selected_index(old, index_on_page)].0)
    } else {
        ActionView::Update(snapshot_of(old))
    }
}

/// Whether `key` in `old` calls the engine client (to fetch candidates or to
/// report a commit); when it does not, the client is left untouched.
pub open spec fn key_uses_client(old: StateView, key: Key) -> bool {
    match key {
        Key::Char(c) => 'a' <= c <= 'z',
        Key::Digit(d) => selects(old, d as nat),
        Key::Space | Key::Enter => selects(old, 1),
        Key::Backspace => composing(old) && old.0.len() != 1,
        _ => false,
    }
}

/// The call log after fetching candidates for the state `new`: one
/// `suggest` of the new buffer, whose result became the candidates.
pub open spec fn refresh_calls(new: StateView, before: Seq<ClientCall>, after: Seq<ClientCall>) -> bool {
    after == before.push(ClientCall::Suggest(new.0, CANDIDATE_FETCH_LIMIT as nat, new.1))
}

/// Whether `call` reports the commit of candidate `c`: its text and reading.
pub open spec fn commits_candidate(call: ClientCall, c: CandidateView) -> bool {
    call matches ClientCall::Commit(text, reading, _) && text == c.0 && reading == c.1
}

/// The call log after selecting `index_on_page` in `old`: one `commit` of the
/// selected candidate when the selection commits, no call otherwise.
pub open spec fn select_calls(
    old: StateView,
    index_on_page: nat,
    before: Seq<ClientCall>,
    after: Seq<ClientCall>,
) -> bool {
    if selects(old, index_on_page) {
        &&& after.len() == before.len() + 1
        &&& after.drop_last() == before
        &&& commits_candidate(after.last(), old.1[selected_index(old, index_on_page)])
    } else {
        after == before
    }
}

/// The calls that `key` makes to the engine client, taking the state `old`
/// to `new` and the client's log `before` to `after`.
pub open spec fn key_calls(
    old: StateView,
    new: StateView,
    key: Key,
    before: Seq<ClientCall>,
    after: Seq<ClientCall>,
) -> bool {
    match key {
        Key::Char(c) => if 'a' <= c <= 'z' {
            refresh_calls(new, before, after)
        } else {
            after == before
        },
        Key::Digit(d) => select_calls(old, d as nat, before, after),
        Key::Space => select_calls(old, 1, before, after),
        Key::Enter => if composing(old) && old.1.len() > 0 {
            select_calls(old, 1, before, after)
        } else {
            after == before
        },
        Key::Backspace => if composing(old) && old.0.len() != 1 {
            refresh_calls(new, before, after)
        } else {
            after == before
        },
        _ => after == before,
    }
}

/// Whether the client `after` logs the calls that `key` makes from `old` to
/// `new`, given that the client `before` keeps a log.
pub open spec fn logs_key<C: EngineClient>(
    old: StateView,
    new: StateView,
    key: Key,
    before: C,
    after: C,
) -> bool {
    before.keeps_log() ==> after.keeps_log() && key_calls(
        old,
        new,
        key,
        before.calls(),
        after.calls(),
    )
}

/// The outcome that summarizes an action.
pub open spec fn outcome_of(a: ActionView) -> OutcomeView {
    match a {
        ActionView::PassThrough => OutcomeView::PassThrough,
        ActionView::Update(_) => OutcomeView::Updated,
        ActionView::Commit(t) => OutcomeView::Commit(t),
        ActionView::Dismiss => OutcomeView::Dismissed,
    }
}

/// Removes the last character of `s` (`String::pop`).
#[verifier::external_body]
fn pop_char(s: &mut String) -> (r: Option<char>)
    ensures
        old(s)@.len() > 0 ==> final(s)@ == old(s)@.drop_last() && r == Some(old(s)@.last()),
        old(s)@.len() == 0 ==> final(s)@ == old(s)@ && r is None,
{
    s.pop()
}

/// Composition state machine over an engine client.
pub struct InputSession<C: EngineClient> {
    client: C,
    buffer: String,
    candidates: Vec<CandidateDto>,
    page: usize,
}

impl<C: EngineClient> InputSession<C> {
    /// The session state as plain values.
    pub closed spec fn state(&self) -> StateView {
        (self.buffer@, self.candidates.deep_view(), self.page as nat)
    }

    /// The engine client.
    pub closed spec fn client_value(&self) -> C {
        self.client
    }

    /// The session's invariant.
    pub open spec fn wf(&self) -> bool {
        state_wf(self.state())
    }

    /// A session with an empty composition.
    pub fn new(client: C) -> (r: Self)
        ensures
            cleared(r.state()),
            r.wf(),
            r.client_value() == client,
    {
        InputSession { client, buffer: String::new(), candidates: Vec::new(), page: 0 }
    }

    /// Current composition buffer (raw pinyin).
    pub fn buffer(&self) -> (r: &str)
        ensures
            r@ == self.state().0,
    {
        self.buffer.as_str()
    }

    /// Whether a composition is active.
    pub fn is_composing(&self) -> (r: bool)
        ensures
            r == composing(self.state()),
    {
        !self.buffer.as_str().is_empty()
    }

    /// Candidates on the current page.
    pub fn page_candidates(&self) -> (r: &[CandidateDto])
        ensures
            r@.len() == page_slice(self.state().1, self.state().2).len(),
            forall|i: int|
                0 <= i < r@.len() ==> #[trigger] r@[i].deep_view() == page_slice(
                    self.state().1,
                    self.state().2,
                )[i],
    {
        let len = self.candidates.len();
        if self.page <= len / PAGE_SIZE {
            let start = self.page * PAGE_SIZE;
            let end = if len - start >= PAGE_SIZE {
                start + PAGE_SIZE
            } else {
                len
            };
            let r = slice_subrange(self.candidates.as_slice(), start, end);
            assert forall|i: int| 0 <= i < r@.len() implies #[trigger] r@[i].deep_view()
                == page_slice(self.state().1, self.state().2)[i] by {
                assert(r@[i] == self.candidates@[start + i]);
            }
            r
        } else {
            assert(self.page * PAGE_SIZE > len);
            &[]
        }
    }

    /// Snapshot for candidate-window rendering and edit sessions.
    pub fn snapshot(&self) -> (r: SessionSnapshot)
        ensures
            r.deep_view() == snapshot_of(self.state()),
    {
        let page_cands = self.page_candidates();
        let mut cands: Vec<CandidateDto> = Vec::new();
        let mut i: usize = 0;
        while i < page_cands.len()
            invariant
                i <= page_cands@.len(),
                page_cands@.len() == page_slice(self.state().1, self.state().2).len(),
                forall|k: int|
                    0 <= k < page_cands@.len() ==> #[trigger] page_cands@[k].deep_view()
                        == page_slice(self.state().1, self.state().2)[k],
                cands.deep_view() == page_slice(self.state().1, self.state().2).subrange(
                    0,
                    i as int,
                ),
            decreases page_cands@.len() - i,
        {
            let c = page_cands[i].clone();
            assert(c.deep_view() == page_slice(self.state().1, self.state().2)[i as int]);
            let ghost prev = cands.deep_view();
            cands.push(c);
            assert(cands.deep_view() =~= prev.push(c.deep_view()));
            assert(cands.deep_view() =~= page_slice(self.state().1, self.state().2).subrange(
                0,
                i + 1,
            ));
            i += 1;
        }
        assert(cands.deep_view() =~= page_slice(self.state().1, self.state().2));
        let len = self.candidates.len();
        let has_next = self.page <= len / PAGE_SIZE && len - self.page * PAGE_SIZE > PAGE_SIZE;
        SessionSnapshot {
            composition: self.buffer.clone(),
            candidates: cands,
            page: self.page,
            has_prev_page: self.page > 0,
            has_next_page: has_next,
        }
    }

    /// Handles a key event and returns the required UI action.
    pub fn handle_key(&mut self, key: Key) -> (r: Outcome)
        requires
            old(self).wf(),
        ensures
            final(self).wf(),
            key_step(old(self).state(), final(self).state(), key),
            r.deep_view() == outcome_of(key_action(old(self).state(), final(self).state(), key)),
            !key_uses_client(old(self).state(), key) ==> final(self).client_value() == old(
                self,
            ).client_value(),
            logs_key(
                old(self).state(),
                final(self).state(),
                key,
                old(self).client_value(),
                final(self).client_value(),
            ),
    {
        match self.handle_key_action(key) {
            SessionAction::PassThrough => Outcome::PassThrough,
            SessionAction::Update(_) => Outcome::Updated,
            SessionAction::Commit(text) => Outcome::Commit(text),
            SessionAction::Dismiss => Outcome::Dismissed,
        }
    }

    /// Handles a key event and returns a rich action with render state.
    pub fn handle_key_action(&mut self, key: Key) -> (r: SessionAction)
        requires
            old(self).wf(),
        ensures
            final(self).wf(),
            key_step(old(self).state(), final(self).state(), key),
            r.deep_view() == key_action(old(self).state(), final(self).state(), key),
            !key_uses_client(old(self).state(), key) ==> final(self).client_value() == old(
                self,
            ).client_value(),
            logs_key(
                old(self).state(),
                final(self).state(),
                key,
                old(self).client_value(),
                final(self).client_value(),
            ),
    {
        match key {
            Key::Char(letter) => {
                if 'a' <= letter && letter <= 'z' {
                    push_char(&mut self.buffer, letter);
                    self.refresh();
                    SessionAction::Update(self.snapshot())
                } else {
                    SessionAction::PassThrough
                }
            },
            Key::Digit(digit) => self.select_action(digit as usize),
            Key::Space => self.select_action(1),
            Key::Enter => {
                if !self.is_composing() {
                    return SessionAction::PassThrough;
                }
                if self.candidates.len() == 0 {
                    self.clear();
                    SessionAction::Dismiss
                } else {
                    self.select_action(1)
                }
            },
            Key::Backspace => {
                if !self.is_composing() {
                    return SessionAction::PassThrough;
                }
                let _ = pop_char(&mut self.buffer);
                if self.buffer.as_str().is_empty() {
                    self.clear();
                    return SessionAction::Dismiss;
                }
                self.refresh();
                SessionAction::Update(self.snapshot())
            },
            Key::Escape => {
                if !self.is_composing() {
                    return SessionAction::PassThrough;
                }
                self.clear();
                SessionAction::Dismiss
            },
            Key::PageNext => self.turn_page_action(true),
            Key::PagePrev => self.turn_page_action(false),
        }
    }

    fn select_action(&mut self, index_on_page: usize) -> (r: SessionAction)
        requires
            old(self).wf(),
        ensures
            final(self).wf(),
            select_step(old(self).state(), final(self).state(), index_on_page as nat),
            r.deep_view() == select_action_of(old(self).state(), index_on_page as nat),
            !selects(old(self).state(), index_on_page as nat) ==> final(self).client_value()
                == old(self).client_value(),
            old(self).client_value().keeps_log() ==> final(self).client_value().keeps_log()
                && select_calls(
                old(self).state(),
                index_on_page as nat,
                old(self).client_value().calls(),
                final(self).client_value().calls(),
            ),
    {
        if !self.is_composing() {
            return SessionAction::PassThrough;
        }
        let len = self.candidates.len();
        let start = self.page * PAGE_SIZE;
        let offset = if index_on_page > 0 {
            index_on_page - 1
        } else {
            0
        };
        if offset < len - start {
            let index = start + offset;
            let candidate = self.candidates[index].clone();
            let reading = candidate.reading.as_slice();
            assert(reading.deep_view() =~= candidate.reading.deep_view());
            let ghost before = self.client.calls();
            let ghost logs = self.client.keeps_log();
            let _predictions = self.client.commit(candidate.text.as_str(), reading);
            assert(logs ==> self.client.calls().drop_last() =~= before);
            self.clear();
            SessionAction::Commit(candidate.text)
        } else {
            SessionAction::Update(self.snapshot())
        }
    }

    fn turn_page_action(&mut self, forward: bool) -> (r: SessionAction)
        requires
            old(self).wf(),
        ensures
            final(self).wf(),
            turn_step(old(self).state(), final(self).state(), if forward { 1 } else { -1 }),
            r.deep_view() == (if !composing(old(self).state()) {
                ActionView::PassThrough
            } else {
                ActionView::Update(snapshot_of(final(self).state()))
            }),
            final(self).client_value() == old(self).client_value(),
    {
        if !self.is_composing() {
            return SessionAction::PassThrough;
        }
        let len = self.candidates.len();
        let last_page = if len > 0 {
            (len - 1) / PAGE_SIZE
        } else {
            0
        };
        if forward {
            if self.page < last_page {
                self.page = self.page + 1;
            } else {
                self.page = last_page;
            }
        } else {
            if self.page > 0 {
                self.page = self.page - 1;
            }
        }
        SessionAction::Update(self.snapshot())
    }

    fn refresh(&mut self)
        ensures
            final(self).state().0 == old(self).state().0,
            final(self).state().2 == 0,
            final(self).wf(),
            old(self).client_value().keeps_log() ==> final(self).client_value().keeps_log()
                && refresh_calls(
                final(self).state(),
                old(self).client_value().calls(),
                final(self).client_value().calls(),
            ),
    {
        self.candidates = self.client.suggest(self.buffer.as_str(), CANDIDATE_FETCH_LIMIT);
        self.page = 0;
    }

    fn clear(&mut self)
        ensures
            cleared(final(self).state()),
            final(self).wf(),
            final(self).client_value() == old(self).client_value(),
    {
        self.buffer = String::new();
        self.candidates.clear();
        self.page = 0;
    }
}

/// Whether `key` selects candidate `d` of the current page in `old`: Space
/// and Enter (over a non-empty list) select the first, a digit `1..=9` its own.
pub open spec fn selection_key(old: StateView, key: Key, d: nat) -> bool {
    ||| key == Key::Space && d == 1
    ||| key == Key::Enter && old.1.len() > 0 && d == 1
    ||| key matches Key::Digit(x) && x as nat == d && 1 <= d <= 9
}

/// Selecting a candidate while composing: when the candidate at
/// `page * PAGE_SIZE + d - 1` exists, the action commits its text, the
/// composition is cleared, and a client that keeps a log received exactly
/// one call, the commit of that candidate's text and reading. Otherwise the
/// current snapshot is reported, the state stays as it was and the client
/// received no call.
pub proof fn lemma_selection_commits(
    old: StateView,
    new: StateView,
    key: Key,
    d: nat,
    before: Seq<ClientCall>,
    after: Seq<ClientCall>,
)
    requires
        composing(old),
        selection_key(old, key, d),
        key_step(old, new, key),
    ensures
        old.2 * PAGE_SIZE + d - 1 < old.1.len() ==> {
            &&& key_action(old, new, key) == ActionView::Commit(
                old.1[old.2 * PAGE_SIZE + d - 1].0,
            )
            &&& cleared(new)
            &&& key_calls(old, new, key, before, after) ==> {
                &&& after.len() == before.len() + 1
                &&& after.drop_last() == before
                &&& commits_candidate(after.last(), old.1[old.2 * PAGE_SIZE + d - 1])
            }
        },
        old.2 * PAGE_SIZE + d - 1 >= old.1.len() ==> {
            &&& key_action(old, new, key) == ActionView::Update(snapshot_of(old))
            &&& new == old
            &&& key_calls(old, new, key, before, after) ==> after == before
        },
{
    assert(selected_index(old, d) == old.2 * PAGE_SIZE + d - 1);
}

} // verus!
