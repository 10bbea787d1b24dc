//! Edit and candidate-window operations planned from session actions.
use crate::protocol::CandidateDto;
use crate::tsf::session::{ActionView, SessionAction, SessionSnapshot, SnapshotView};
use vstd::prelude::*;
use vstd::std_specs::convert::FromSpecImpl;

verus! {

/// Candidate-window model consumed by the renderer.
#[derive(Debug, PartialEq)]
pub struct CandidateWindowModel {
    pub composition: String,
    pub candidates: Vec<CandidateDto>,
    pub page: usize,
    pub has_prev_page: bool,
    pub has_next_page: bool,
}

impl DeepView for CandidateWindowModel {
    type V = SnapshotView;

    open spec fn deep_view(&self) -> SnapshotView {
        (
            self.composition@,
            self.candidates.deep_view(),
            self.page as nat,
            self.has_prev_page,
            self.has_next_page,
        )
    }
}

impl Clone for CandidateWindowModel {
    fn clone(&self) -> (r: Self)
        ensures
            r.deep_view() == self.deep_view(),
    {
        let mut candidates: Vec<CandidateDto> = Vec::new();
        let mut i: usize = 0;
        while i < self.candidates.len()
            invariant
                i <= self.candidates@.len(),
                candidates.deep_view() == self.candidates.deep_view().subrange(0, i as int),
            decreases self.candidates@.len() - i,
        {
            let c = self.candidates[i].clone();
            let ghost prev = candidates.deep_view();
            candidates.push(c);
            assert(candidates.deep_view() =~= prev.push(c.deep_view()));
            assert(candidates.deep_view() =~= self.candidates.deep_view().subrange(0, i + 1));
            i += 1;
        }
        assert(self.candidates.deep_view().subrange(0, i as int) =~= self.candidates.deep_view());
        CandidateWindowModel {
            composition: self.composition.clone(),
            candidates,
            page: self.page,
            has_prev_page: self.has_prev_page,
            has_next_page: self.has_next_page,
        }
    }
}

impl From<SessionSnapshot> for CandidateWindowModel {
    fn from(snapshot: SessionSnapshot) -> (r: Self) {
        CandidateWindowModel {
            composition: snapshot.composition,
            candidates: snapshot.candidates,
            page: snapshot.page,
            has_prev_page: snapshot.has_prev_page,
            has_next_page: snapshot.has_next_page,
        }
    }
}

impl FromSpecImpl<SessionSnapshot> for CandidateWindowModel {
    open spec fn obeys_from_spec() -> bool {
        true
    }

    open spec fn from_spec(snapshot: SessionSnapshot) -> Self {
        CandidateWindowModel {
            composition: snapshot.composition,
            candidates: snapshot.candidates,
            page: snapshot.page,
            has_prev_page: snapshot.has_prev_page,
            has_next_page: snapshot.has_next_page,
        }
    }
}

/// Planned edit/candidate-window operations produced from a session action.
#[derive(Debug, PartialEq)]
pub enum EditOperation {
    /// Let the host application handle the key.
    PassThrough,
    /// Replace the active composition/preedit text.
    SetComposition(String),
    /// Commit text into the host application.
    CommitText(String),
    /// Show/update the candidate window.
    ShowCandidates(CandidateWindowModel),
    /// Hide candidate window.
    HideCandidates,
    /// Clear composition/preedit text.
    ClearComposition,
}

/// An edit operation as plain values.
pub enum OperationView {
    PassThrough,
    SetComposition(Seq<char>),
    CommitText(Seq<char>),
    ShowCandidates(SnapshotView),
    HideCandidates,
    ClearComposition,
}

impl DeepView for EditOperation {
    type V = OperationView;

    open spec fn deep_view(&self) -> OperationView {
        match self {
            EditOperation::PassThrough => OperationView::PassThrough,
            EditOperation::SetComposition(t) => OperationView::SetComposition(t@),
            EditOperation::CommitText(t) => OperationView::CommitText(t@),
            EditOperation::ShowCandidates(m) => OperationView::ShowCandidates(m.deep_view()),
            EditOperation::HideCandidates => OperationView::HideCandidates,
            EditOperation::ClearComposition => OperationView::ClearComposition,
        }
    }
}

/// The operations planned for an action.
pub open spec fn plan_spec(action: ActionView) -> Seq<OperationView> {
    match action {
        ActionView::PassThrough => seq![OperationView::PassThrough],
        ActionView::Update(s) => seq![
            OperationView::SetComposition(s.0),
            OperationView::ShowCandidates(s),
        ],
        ActionView::Commit(t) => seq![
            OperationView::CommitText(t),
            OperationView::ClearComposition,
            OperationView::HideCandidates,
        ],
        ActionView::Dismiss => seq![
            OperationView::ClearComposition,
            OperationView::HideCandidates,
        ],
    }
}

/// Minimal document/candidate-window operations required by the shell,
/// implemented by the platform document adapter. An adapter may keep a log
/// of the operations it receives and say so with `keeps_log`; adapters that
/// keep none promise nothing.
pub trait DocumentEditor {
    /// Whether this editor logs the operations it receives.
    open spec fn keeps_log(&self) -> bool {
        false
    }

    /// The operations received so far, in order, as plain values.
    open spec fn received(&self) -> Seq<OperationView> {
        Seq::empty()
    }

    fn pass_through(&mut self)
        ensures
            old(self).keeps_log() ==> final(self).keeps_log() && final(self).received() == old(
                self,
            ).received().push(OperationView::PassThrough),
    ;

    fn set_composition(&mut self, text: &str)
        ensures
            old(self).keeps_log() ==> final(self).keeps_log() && final(self).received() == old(
                self,
            ).received().push(OperationView::SetComposition(text@)),
    ;

    fn commit_text(&mut self, text: &str)
        ensures
            old(self).keeps_log() ==> final(self).keeps_log() && final(self).received() == old(
                self,
            ).received().push(OperationView::CommitText(text@)),
    ;

    fn show_candidates(&mut self, model: &CandidateWindowModel)
        ensures
            old(self).keeps_log() ==> final(self).keeps_log() && final(self).received() == old(
                self,
            ).received().push(OperationView::ShowCandidates(model.deep_view())),
    ;

    fn set_caret(&mut self, x: i32, y: i32);

    fn hide_candidates(&mut self)
        ensures
            old(self).keeps_log() ==> final(self).keeps_log() && final(self).received() == old(
                self,
            ).received().push(OperationView::HideCandidates),
    ;

    fn clear_composition(&mut self)
        ensures
            old(self).keeps_log() ==> final(self).keeps_log() && final(self).received() == old(
                self,
            ).received().push(OperationView::ClearComposition),
    ;
}

/// Converts a session action into deterministic edit/candidate operations.
pub fn plan_operations(action: SessionAction) -> (r: Vec<EditOperation>)
    ensures
        r.deep_view() == plan_spec(action.deep_view()),
{
    match action {
        SessionAction::PassThrough => {
            let r = vec![EditOperation::PassThrough];
            assert(r.deep_view() =~= plan_spec(action.deep_view()));
            r
        },
        SessionAction::Update(snapshot) => {
            let composition = snapshot.composition.clone();
            let model = CandidateWindowModel::from(snapshot);
            let r = vec![EditOperation::SetComposition(composition), EditOperation::ShowCandidates(model)];
            assert(r.deep_view() =~= plan_spec(action.deep_view()));
            r
        },
        SessionAction::Commit(text) => {
            let r = vec![
                EditOperation::CommitText(text),
                EditOperation::ClearComposition,
                EditOperation::HideCandidates,
            ];
            assert(r.deep_view() =~= plan_spec(action.deep_view()));
            r
        },
        SessionAction::Dismiss => {
            let r = vec![EditOperation::ClearComposition, EditOperation::HideCandidates];
            assert(r.deep_view() =~= plan_spec(action.deep_view()));
            r
        },
    }
}

/// Executes planned operations against a document adapter, in order, one
/// adapter call per operation; an adapter that keeps a log has received
/// exactly the operations.
pub fn execute_operations<E: DocumentEditor>(editor: &mut E, operations: &[EditOperation])
    ensures
        operations@.len() == 0 ==> *final(editor) == *old(editor),
        old(editor).keeps_log() ==> final(editor).keeps_log() && final(editor).received() == old(
            editor,
        ).received() + operations.deep_view(),
{
    let ghost start = editor.received();
    let ghost logs = editor.keeps_log();
    let mut i: usize = 0;
    while i < operations.len()
        invariant
            i <= operations@.len(),
            start == old(editor).received(),
            logs == old(editor).keeps_log(),
            i == 0 ==> *editor == *old(editor),
            logs ==> editor.keeps_log(),
            logs ==> editor.received() == start + operations.deep_view().subrange(0, i as int),
        decreases operations@.len() - i,
    {
        match &operations[i] {
            EditOperation::PassThrough => editor.pass_through(),
            EditOperation::SetComposition(text) => editor.set_composition(text.as_str()),
            EditOperation::CommitText(text) => editor.commit_text(text.as_str()),
            EditOperation::ShowCandidates(model) => editor.show_candidates(model),
            EditOperation::HideCandidates => editor.hide_candidates(),
            EditOperation::ClearComposition => editor.clear_composition(),
        }
        assert(logs ==> editor.received() =~= start + operations.deep_view().subrange(0, i + 1));
        i += 1;
    }
    assert(operations.deep_view().subrange(0, i as int) =~= operations.deep_view());
}

} // verus!
