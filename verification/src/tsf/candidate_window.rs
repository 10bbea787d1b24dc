//! Presentation model of the candidate window.
use crate::protocol::CandidateView;
use crate::text::{decimal, join, push_all, push_decimal};
use crate::tsf::edit_session::CandidateWindowModel;
use crate::tsf::session::SnapshotView;
use vstd::prelude::*;

verus! {

/// The window view built from a candidate model, as plain values.
pub open spec fn model_view(m: SnapshotView) -> WindowView {
    (m.0, items_of(m.1, m.2), m.3, m.4)
}

/// One candidate item ready for native-window rendering.
#[derive(Debug, Clone, PartialEq)]
pub struct CandidateItemView {
    pub number: usize,
    pub text: String,
    pub highlighted: bool,
}

/// Presentation model for the candidate window.
#[derive(Debug, Clone, PartialEq)]
pub struct CandidateWindowView {
    pub composition_line: String,
    pub candidates: Vec<CandidateItemView>,
    pub show_prev: bool,
    pub show_next: bool,
}

/// An item as plain values: number, text, highlighted.
pub type ItemView = (nat, Seq<char>, bool);

/// A window view as plain values: composition line, items, previous-page
/// arrow, next-page arrow.
pub type WindowView = (Seq<char>, Seq<ItemView>, bool, bool);

impl DeepView for CandidateItemView {
    type V = ItemView;

    open spec fn deep_view(&self) -> ItemView {
        (self.number as nat, self.text@, self.highlighted)
    }
}

impl DeepView for CandidateWindowView {
    type V = WindowView;

    open spec fn deep_view(&self) -> WindowView {
        (self.composition_line@, self.candidates.deep_view(), self.show_prev, self.show_next)
    }
}

/// The items for the candidates of a page: numbered from 1, the first one
/// highlighted on the first page.
pub open spec fn items_of(cands: Seq<CandidateView>, page: nat) -> Seq<ItemView> {
    Seq::new(cands.len(), |i: int| ((i + 1) as nat, cands[i].0, i == 0 && page == 0))
}

/// `<number>. <text>`, the label drawn for an item.
pub open spec fn item_label(item: ItemView) -> Seq<char> {
    decimal(item.0) + ". "@ + item.1
}


/// The previous-page arrow, or a space.
pub open spec fn prev_arrow(show: bool) -> Seq<char> {
    if show {
        "‹"@
    } else {
        " "@
    }
}

/// The next-page arrow, or a space.
pub open spec fn next_arrow(show: bool) -> Seq<char> {
    if show {
        "›"@
    } else {
        " "@
    }
}

/// The compact debug layout: the composition line, then the labels joined by
/// two spaces, two spaces and the two arrows.
pub open spec fn debug_line_spec(v: WindowView) -> Seq<char> {
    v.0 + "\n"@ + join(v.1.map_values(|it: ItemView| item_label(it)), "  "@) + "  "@
        + prev_arrow(v.2) + " "@ + next_arrow(v.3)
}

/// Appends the label of `item` to `s`.
pub fn push_label(s: &mut String, item: &CandidateItemView)
    ensures
        final(s)@ == old(s)@ + item_label(item.deep_view()),
{
    push_decimal(s, item.number as u64);
    push_all(s, ". ");
    push_all(s, item.text.as_str());
    assert(final(s)@ =~= old(s)@ + item_label(item.deep_view()));
}

impl CandidateWindowView {
    /// Builds a render-ready view from the edit-session model.
    pub fn from_model(model: &CandidateWindowModel) -> (r: Self)
        ensures
            r.deep_view() == (
                model.composition@,
                items_of(model.candidates.deep_view(), model.page as nat),
                model.has_prev_page,
                model.has_next_page,
            ),
    {
        let mut items: Vec<CandidateItemView> = Vec::new();
        let mut i: usize = 0;
        let ghost cands = model.candidates.deep_view();
        while i < model.candidates.len()
            invariant
                i <= model.candidates@.len(),
                cands == model.candidates.deep_view(),
                items.deep_view() == items_of(cands, model.page as nat).subrange(0, i as int),
            decreases model.candidates@.len() - i,
        {
            let item = CandidateItemView {
                number: i + 1,
                text: model.candidates[i].text.clone(),
                highlighted: i == 0 && model.page == 0,
            };
            let ghost prev = items.deep_view();
            items.push(item);
            assert(items.deep_view() =~= prev.push(item.deep_view()));
            assert(items.deep_view() =~= items_of(cands, model.page as nat).subrange(0, i + 1));
            i += 1;
        }
        assert(items.deep_view() =~= items_of(cands, model.page as nat));
        CandidateWindowView {
            composition_line: model.composition.clone(),
            candidates: items,
            show_prev: model.has_prev_page,
            show_next: model.has_next_page,
        }
    }

    /// Produces a compact debug string matching the intended native layout.
    pub fn debug_line(&self) -> (r: String)
        ensures
            r@ == debug_line_spec(self.deep_view()),
    {
        let ghost labels = self.candidates.deep_view().map_values(|it: ItemView| item_label(it));
        let mut s = self.composition_line.clone();
        push_all(&mut s, "\n");
        let ghost base = s@;
        let mut i: usize = 0;
        while i < self.candidates.len()
            invariant
                i <= self.candidates@.len(),
                labels == self.candidates.deep_view().map_values(|it: ItemView| item_label(it)),
                s@ == base + join(labels.subrange(0, i as int), "  "@),
            decreases self.candidates@.len() - i,
        {
            let ghost before = s@;
            if i > 0 {
                push_all(&mut s, "  ");
            }
            push_label(&mut s, &self.candidates[i]);
            let ghost parts = labels.subrange(0, i + 1);
            assert(parts.drop_last() =~= labels.subrange(0, i as int));
            assert(parts.last() == item_label(self.candidates.deep_view()[i as int]));
            if i == 0 {
                assert(labels.subrange(0, 0) =~= Seq::<Seq<char>>::empty());
            }
            assert(s@ =~= base + join(parts, "  "@));
            i += 1;
        }
        assert(labels.subrange(0, self.candidates@.len() as int) =~= labels);
        push_all(&mut s, "  ");
        if self.show_prev {
            push_all(&mut s, "‹");
        } else {
            push_all(&mut s, " ");
        }
        push_all(&mut s, " ");
        if self.show_next {
            push_all(&mut s, "›");
        } else {
            push_all(&mut s, " ");
        }
        assert(s@ =~= debug_line_spec(self.deep_view()));
        s
    }
}

} // verus!
