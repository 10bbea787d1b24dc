//! The document adapter that edit operations act on: the host context, the
//! composition, the committed text and the candidate window.
use crate::text::push_all;
use crate::tsf::candidate_window::{model_view, CandidateWindowView, WindowView};
use crate::tsf::edit_session::{CandidateWindowModel, DocumentEditor, EditOperation, OperationView};
use crate::tsf::session::SnapshotView;
use crate::tsf::window::{
    bounds_of, default_metrics, measure_fits, CandidateWindowHandle, CandidateWindowMetrics,
    CandidateWindowState, Rect,
};
use vstd::prelude::*;

verus! {

/// The handles captured from the host's callbacks: the thread manager's
/// address, the client id and the edit cookie.
#[derive(Debug, Clone, Copy, PartialEq, Eq, Structural)]
pub struct TsfEditContext {
    pub thread_mgr: usize,
    pub client_id: u32,
    pub edit_cookie: u32,
}

/// The document state that edit operations act on.
#[derive(Debug)]
pub struct TsfDocumentEditor {
    context: Option<TsfEditContext>,
    composition: String,
    committed: String,
    candidate_model: Option<CandidateWindowModel>,
    candidate_window: CandidateWindowState,
    caret: (i32, i32),
    pass_through_count: usize,
}

/// Whether `show_candidates` can place the window for `view` at `caret`.
pub open spec fn window_fits(view: WindowView, caret: (i32, i32)) -> bool {
    measure_fits(default_metrics(), view) && caret.1 + 4 <= i32::MAX
}

impl TsfDocumentEditor {
    /// The attached host context.
    pub closed spec fn context_value(&self) -> Option<TsfEditContext> {
        self.context
    }

    /// The composition text.
    pub closed spec fn composition_value(&self) -> Seq<char> {
        self.composition@
    }

    /// The text committed so far.
    pub closed spec fn committed_value(&self) -> Seq<char> {
        self.committed@
    }

    /// The candidate model last shown, as plain values.
    pub closed spec fn model_value(&self) -> Option<SnapshotView> {
        match self.candidate_model {
            Some(m) => Some(m.deep_view()),
            None => None,
        }
    }

    /// The candidate window's state.
    pub closed spec fn window_value(&self) -> CandidateWindowState {
        self.candidate_window
    }

    /// The caret position.
    pub closed spec fn caret_value(&self) -> (i32, i32) {
        self.caret
    }

    /// How many keys were passed through.
    pub closed spec fn pass_through_value(&self) -> usize {
        self.pass_through_count
    }

    /// An editor with no context, no text and a hidden window.
    pub fn new() -> (r: Self)
        ensures
            r.context_value() is None,
            r.composition_value() == Seq::<char>::empty(),
            r.committed_value() == Seq::<char>::empty(),
            r.model_value() is None,
            !r.window_value().visible_value(),
            r.window_value().handle_value() is None,
            r.window_value().last_view_value() is None,
            r.window_value().last_bounds_value() is None,
            r.caret_value() == (0i32, 0i32),
            r.pass_through_value() == 0,
    {
        TsfDocumentEditor {
            context: None,
            composition: String::new(),
            committed: String::new(),
            candidate_model: None,
            candidate_window: CandidateWindowState::new(),
            caret: (0, 0),
            pass_through_count: 0,
        }
    }

    /// Attaches the host context.
    pub fn attach_context(&mut self, context: TsfEditContext)
        ensures
            final(self).context_value() == Some(context),
            final(self).composition_value() == old(self).composition_value(),
            final(self).committed_value() == old(self).committed_value(),
            final(self).model_value() == old(self).model_value(),
            final(self).window_value() == old(self).window_value(),
            final(self).caret_value() == old(self).caret_value(),
            final(self).pass_through_value() == old(self).pass_through_value(),
    {
        self.context = Some(context);
    }

    /// Detaches the host context, clearing the composition and hiding the
    /// candidates.
    pub fn detach_context(&mut self)
        ensures
            final(self).context_value() is None,
            final(self).composition_value() == Seq::<char>::empty(),
            final(self).committed_value() == old(self).committed_value(),
            final(self).model_value() is None,
            !final(self).window_value().visible_value(),
            final(self).window_value().handle_value() == old(self).window_value().handle_value(),
            final(self).window_value().last_view_value() == old(
                self,
            ).window_value().last_view_value(),
            final(self).window_value().last_bounds_value() == old(
                self,
            ).window_value().last_bounds_value(),
            final(self).caret_value() == old(self).caret_value(),
            final(self).pass_through_value() == old(self).pass_through_value(),
    {
        self.context = None;
        self.clear_composition();
        self.hide_candidates();
    }

    /// The attached host context.
    pub fn context(&self) -> (r: Option<TsfEditContext>)
        ensures
            r == self.context_value(),
    {
        self.context
    }

    /// The composition text.
    pub fn composition(&self) -> (r: &str)
        ensures
            r@ == self.composition_value(),
    {
        self.composition.as_str()
    }

    /// The text committed so far.
    pub fn committed(&self) -> (r: &str)
        ensures
            r@ == self.committed_value(),
    {
        self.committed.as_str()
    }

    /// The candidate model last shown.
    pub fn candidate_model(&self) -> (r: Option<&CandidateWindowModel>)
        ensures
            match r {
                Some(m) => self.model_value() == Some(m.deep_view()),
                None => self.model_value() is None,
            },
    {
        match &self.candidate_model {
            Some(m) => Some(m),
            None => None,
        }
    }

    /// The candidate window's state.
    pub fn candidate_window(&self) -> (r: &CandidateWindowState)
        ensures
            *r == self.window_value(),
    {
        &self.candidate_window
    }

    /// How many keys were passed through.
    pub fn pass_through_count(&self) -> (r: usize)
        ensures
            r == self.pass_through_value(),
    {
        self.pass_through_count
    }
}

impl Default for TsfDocumentEditor {
    fn default() -> (r: Self)
        ensures
            r.context_value() is None,
            r.composition_value() == Seq::<char>::empty(),
            r.committed_value() == Seq::<char>::empty(),
            r.model_value() is None,
            !r.window_value().visible_value(),
            r.caret_value() == (0i32, 0i32),
            r.pass_through_value() == 0,
    {
        TsfDocumentEditor::new()
    }
}

impl DocumentEditor for TsfDocumentEditor {
    /// Counts a key handed back to the host (the count stops at its maximum).
    fn pass_through(&mut self)
        ensures
            final(self).pass_through_value() == (if old(self).pass_through_value() < usize::MAX {
                old(self).pass_through_value() + 1
            } else {
                old(self).pass_through_value() as int
            }),
            final(self).context_value() == old(self).context_value(),
            final(self).composition_value() == old(self).composition_value(),
            final(self).committed_value() == old(self).committed_value(),
            final(self).model_value() == old(self).model_value(),
            final(self).window_value() == old(self).window_value(),
            final(self).caret_value() == old(self).caret_value(),
    {
        if self.pass_through_count < usize::MAX {
            self.pass_through_count = self.pass_through_count + 1;
        }
    }

    fn set_composition(&mut self, text: &str)
        ensures
            final(self).composition_value() == text@,
            final(self).context_value() == old(self).context_value(),
            final(self).committed_value() == old(self).committed_value(),
            final(self).model_value() == old(self).model_value(),
            final(self).window_value() == old(self).window_value(),
            final(self).caret_value() == old(self).caret_value(),
            final(self).pass_through_value() == old(self).pass_through_value(),
    {
        let mut s = String::new();
        push_all(&mut s, text);
        self.composition = s;
    }

    fn commit_text(&mut self, text: &str)
        ensures
            final(self).committed_value() == old(self).committed_value() + text@,
            final(self).context_value() == old(self).context_value(),
            final(self).composition_value() == old(self).composition_value(),
            final(self).model_value() == old(self).model_value(),
            final(self).window_value() == old(self).window_value(),
            final(self).caret_value() == old(self).caret_value(),
            final(self).pass_through_value() == old(self).pass_through_value(),
    {
        push_all(&mut self.committed, text);
    }

    /// Shows the candidates below the caret; a view too large to lay out in
    /// `i32` pixels, or a caret at the bottom edge of the coordinate range,
    /// hides the window instead.
    fn show_candidates(&mut self, model: &CandidateWindowModel)
        ensures
            final(self).model_value() == Some(model.deep_view()),
            window_fits(model_view(model.deep_view()), old(self).caret_value())
                ==> {
                &&& final(self).window_value().visible_value()
                &&& final(self).window_value().last_view_value() == Some(
                    model_view(model.deep_view()),
                )
                &&& final(self).window_value().last_bounds_value() == Some(
                    Rect {
                        x: old(self).caret_value().0,
                        y: (old(self).caret_value().1 + 4) as i32,
                        ..bounds_of(
                            default_metrics(),
                            model_view(model.deep_view()),
                        )
                    },
                )
            },
            !window_fits(model_view(model.deep_view()), old(self).caret_value()) ==> {
                &&& !final(self).window_value().visible_value()
                &&& final(self).window_value().last_view_value() == old(
                    self,
                ).window_value().last_view_value()
                &&& final(self).window_value().last_bounds_value() == old(
                    self,
                ).window_value().last_bounds_value()
            },
            final(self).window_value().handle_value() == old(self).window_value().handle_value(),
            final(self).context_value() == old(self).context_value(),
            final(self).composition_value() == old(self).composition_value(),
            final(self).committed_value() == old(self).committed_value(),
            final(self).caret_value() == old(self).caret_value(),
            final(self).pass_through_value() == old(self).pass_through_value(),
    {
        self.candidate_model = Some(model.clone());
        let view = CandidateWindowView::from_model(model);
        let metrics = CandidateWindowMetrics::default();
        if metrics.measure_fits_exec(&view) && self.caret.1 <= 0x7fff_fffb {
            self.candidate_window.update(view, self.caret, metrics);
        } else {
            self.candidate_window.hide_window();
        }
    }

    fn set_caret(&mut self, x: i32, y: i32)
        ensures
            final(self).caret_value() == (x, y),
            final(self).context_value() == old(self).context_value(),
            final(self).composition_value() == old(self).composition_value(),
            final(self).committed_value() == old(self).committed_value(),
            final(self).model_value() == old(self).model_value(),
            final(self).window_value() == old(self).window_value(),
            final(self).pass_through_value() == old(self).pass_through_value(),
    {
        self.caret = (x, y);
    }

    fn hide_candidates(&mut self)
        ensures
            final(self).model_value() is None,
            !final(self).window_value().visible_value(),
            final(self).window_value().handle_value() == old(self).window_value().handle_value(),
            final(self).window_value().last_view_value() == old(
                self,
            ).window_value().last_view_value(),
            final(self).window_value().last_bounds_value() == old(
                self,
            ).window_value().last_bounds_value(),
            final(self).context_value() == old(self).context_value(),
            final(self).composition_value() == old(self).composition_value(),
            final(self).committed_value() == old(self).committed_value(),
            final(self).caret_value() == old(self).caret_value(),
            final(self).pass_through_value() == old(self).pass_through_value(),
    {
        self.candidate_model = None;
        self.candidate_window.hide_window();
    }

    fn clear_composition(&mut self)
        ensures
            final(self).composition_value() == Seq::<char>::empty(),
            final(self).context_value() == old(self).context_value(),
            final(self).committed_value() == old(self).committed_value(),
            final(self).model_value() == old(self).model_value(),
            final(self).window_value() == old(self).window_value(),
            final(self).caret_value() == old(self).caret_value(),
            final(self).pass_through_value() == old(self).pass_through_value(),
    {
        self.composition = String::new();
    }
}

/// The candidate window as plain values: its handle, whether it is shown,
/// the last view it showed and that view's bounds.
pub type WindowStateView = (Option<CandidateWindowHandle>, bool, Option<WindowView>, Option<Rect>);

/// The candidate window's state as plain values.
pub open spec fn window_state_view(w: CandidateWindowState) -> WindowStateView {
    (w.handle_value(), w.visible_value(), w.last_view_value(), w.last_bounds_value())
}

/// The window after showing `view` at `caret`: shown, with the view and
/// its bounds just below the caret recorded.
pub open spec fn window_shown(w: WindowStateView, view: WindowView, caret: (i32, i32)) -> WindowStateView {
    (
        w.0,
        true,
        Some(view),
        Some(Rect { x: caret.0, y: (caret.1 + 4) as i32, ..bounds_of(default_metrics(), view) }),
    )
}

/// The window after hiding it: what it last showed is kept.
pub open spec fn window_hidden(w: WindowStateView) -> WindowStateView {
    (w.0, false, w.2, w.3)
}

/// The document as plain values: the context, the composition, the
/// committed text, the candidate model, the candidate window, the caret and
/// the pass-through count.
pub type DocView = (
    Option<TsfEditContext>,
    Seq<char>,
    Seq<char>,
    Option<SnapshotView>,
    WindowStateView,
    (i32, i32),
    usize,
);

/// The document after one operation.
pub open spec fn doc_step(d: DocView, op: OperationView) -> DocView {
    match op {
        OperationView::PassThrough => (
            d.0,
            d.1,
            d.2,
            d.3,
            d.4,
            d.5,
            if d.6 < usize::MAX {
                (d.6 + 1) as usize
            } else {
                d.6
            },
        ),
        OperationView::SetComposition(t) => (d.0, t, d.2, d.3, d.4, d.5, d.6),
        OperationView::CommitText(t) => (d.0, d.1, d.2 + t, d.3, d.4, d.5, d.6),
        OperationView::ShowCandidates(m) => (
            d.0,
            d.1,
            d.2,
            Some(m),
            if window_fits(model_view(m), d.5) {
                window_shown(d.4, model_view(m), d.5)
            } else {
                window_hidden(d.4)
            },
            d.5,
            d.6,
        ),
        OperationView::HideCandidates => (d.0, d.1, d.2, None, window_hidden(d.4), d.5, d.6),
        OperationView::ClearComposition => (d.0, Seq::empty(), d.2, d.3, d.4, d.5, d.6),
    }
}

/// The document after the operations, in order.
pub open spec fn doc_steps(d: DocView, ops: Seq<OperationView>) -> DocView
    decreases ops.len(),
{
    if ops.len() == 0 {
        d
    } else {
        doc_step(doc_steps(d, ops.drop_last()), ops.last())
    }
}

impl TsfDocumentEditor {
    /// The document as plain values.
    pub open spec fn doc_view(&self) -> DocView {
        (
            self.context_value(),
            self.composition_value(),
            self.committed_value(),
            self.model_value(),
            window_state_view(self.window_value()),
            self.caret_value(),
            self.pass_through_value(),
        )
    }

    /// Applies edit operations to this document, in order.
    pub fn apply_operations(&mut self, operations: &[EditOperation])
        ensures
            final(self).doc_view() == doc_steps(old(self).doc_view(), operations.deep_view()),
    {
        let ghost start = self.doc_view();
        let mut i: usize = 0;
        while i < operations.len()
            invariant
                i <= operations@.len(),
                self.doc_view() == doc_steps(start, operations.deep_view().subrange(0, i as int)),
            decreases operations@.len() - i,
        {
            let ghost before = self.doc_view();
            match &operations[i] {
                EditOperation::PassThrough => self.pass_through(),
                EditOperation::SetComposition(text) => self.set_composition(text.as_str()),
                EditOperation::CommitText(text) => self.commit_text(text.as_str()),
                EditOperation::ShowCandidates(model) => self.show_candidates(model),
                EditOperation::HideCandidates => self.hide_candidates(),
                EditOperation::ClearComposition => self.clear_composition(),
            }
            assert(self.doc_view() == doc_step(before, operations.deep_view()[i as int]));
            assert(operations.deep_view().subrange(0, i + 1).drop_last() =~= operations.deep_view().subrange(
                0,
                i as int,
            ));
            i += 1;
        }
        assert(operations.deep_view().subrange(0, i as int) =~= operations.deep_view());
    }
}

} // verus!
