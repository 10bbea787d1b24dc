//! Candidate-window layout, paint commands and window state.
use crate::text::{chars_of, push_all};
use crate::tsf::candidate_window::{item_label, push_label, CandidateWindowView, ItemView, WindowView};
use vstd::prelude::*;

verus! {

/// Native candidate window class name.
pub const WINDOW_CLASS_NAME: &'static str = "NovaTypeCandidateWindow";

/// Basic rectangle in physical pixels.
#[derive(Debug, Clone, Copy, PartialEq, Eq, Structural)]
pub struct Rect {
    pub x: i32,
    pub y: i32,
    pub width: i32,
    pub height: i32,
}

/// Logical colors used by the native renderer.
#[derive(Debug, Clone, Copy, PartialEq, Eq, Structural)]
pub enum PaintColor {
    Background,
    Border,
    Brand,
    Text,
    MutedText,
    HighlightBackground,
}

/// Render command emitted by the layout engine.
#[derive(Debug, Clone, PartialEq, Eq)]
pub enum PaintCommand {
    FillRect { rect: Rect, color: PaintColor },
    StrokeRect { rect: Rect, color: PaintColor },
    Text { rect: Rect, text: String, color: PaintColor },
}

/// A paint command as plain values: kind (0 fill, 1 stroke, 2 text), rect,
/// text (empty unless a text command) and color.
pub type CommandView = (nat, Rect, Seq<char>, PaintColor);

impl DeepView for PaintCommand {
    type V = CommandView;

    open spec fn deep_view(&self) -> CommandView {
        match self {
            PaintCommand::FillRect { rect, color } => (0, *rect, Seq::empty(), *color),
            PaintCommand::StrokeRect { rect, color } => (1, *rect, Seq::empty(), *color),
            PaintCommand::Text { rect, text, color } => (2, *rect, text@, *color),
        }
    }
}

/// A backend that can consume logical paint commands, implemented by the
/// native renderer. A renderer may keep a log of what it draws and say so
/// with `keeps_log`; renderers that keep none promise nothing.
pub trait PaintRenderer {
    /// Whether this renderer logs the commands it draws.
    open spec fn keeps_log(&self) -> bool {
        false
    }

    /// The commands drawn so far, in order, as plain values.
    open spec fn drawn(&self) -> Seq<CommandView> {
        Seq::empty()
    }

    fn fill_rect(&mut self, rect: Rect, color: PaintColor)
        ensures
            old(self).keeps_log() ==> final(self).keeps_log() && final(self).drawn() == old(
                self,
            ).drawn().push((0, rect, Seq::empty(), color)),
    ;

    fn stroke_rect(&mut self, rect: Rect, color: PaintColor)
        ensures
            old(self).keeps_log() ==> final(self).keeps_log() && final(self).drawn() == old(
                self,
            ).drawn().push((1, rect, Seq::empty(), color)),
    ;

    fn text(&mut self, rect: Rect, text: &str, color: PaintColor)
        ensures
            old(self).keeps_log() ==> final(self).keeps_log() && final(self).drawn() == old(
                self,
            ).drawn().push((2, rect, text@, color)),
    ;
}

/// Executes paint commands against a renderer, in order, one renderer call
/// per command; a renderer that keeps a log has drawn exactly the commands.
pub fn render_commands<R: PaintRenderer>(renderer: &mut R, commands: &[PaintCommand])
    ensures
        commands@.len() == 0 ==> *final(renderer) == *old(renderer),
        old(renderer).keeps_log() ==> final(renderer).keeps_log() && final(renderer).drawn()
            == old(renderer).drawn() + commands.deep_view(),
{
    let ghost start = renderer.drawn();
    let ghost logs = renderer.keeps_log();
    let mut i: usize = 0;
    while i < commands.len()
        invariant
            i <= commands@.len(),
            start == old(renderer).drawn(),
            logs == old(renderer).keeps_log(),
            i == 0 ==> *renderer == *old(renderer),
            logs ==> renderer.keeps_log(),
            logs ==> renderer.drawn() == start + commands.deep_view().subrange(0, i as int),
        decreases commands@.len() - i,
    {
        match &commands[i] {
            PaintCommand::FillRect { rect, color } => renderer.fill_rect(*rect, *color),
            PaintCommand::StrokeRect { rect, color } => renderer.stroke_rect(*rect, *color),
            PaintCommand::Text { rect, text, color } => renderer.text(*rect, text.as_str(), *color),
        }
        assert(logs ==> renderer.drawn() =~= start + commands.deep_view().subrange(0, i + 1));
        i += 1;
    }
    assert(commands.deep_view().subrange(0, i as int) =~= commands.deep_view());
}

/// Layout constants of the candidate window.
#[derive(Debug, Clone, Copy, PartialEq, Eq, Structural)]
pub struct CandidateWindowMetrics {
    pub padding_x: i32,
    pub padding_y: i32,
    pub composition_height: i32,
    pub candidate_height: i32,
    pub candidate_gap: i32,
    pub min_width: i32,
    pub arrow_width: i32,
}

/// Opaque window handle wrapper.
#[derive(Debug, Clone, Copy, PartialEq, Eq, Structural)]
pub struct CandidateWindowHandle(pub isize);

/// Whether `v` fits in `i32`.
pub open spec fn in_i32(v: int) -> bool {
    i32::MIN <= v <= i32::MAX
}

/// The width of one character: `w` for ASCII, `2 * w` otherwise.
pub open spec fn char_width(c: char, w: int) -> int {
    if (c as u32) < 128 {
        w
    } else {
        2 * w
    }
}

/// The drawn width of `s` when ASCII characters are `w` wide.
pub open spec fn text_width_spec(s: Seq<char>, w: int) -> int
    decreases s.len(),
{
    if s.len() == 0 {
        0
    } else {
        text_width_spec(s.drop_last(), w) + char_width(s.last(), w)
    }
}

proof fn lemma_text_width_prefix(s: Seq<char>, w: int, i: int)
    requires
        w >= 0,
        0 <= i <= s.len(),
    ensures
        0 <= text_width_spec(s.subrange(0, i), w) <= text_width_spec(s, w),
    decreases s.len(),
{
    if i < s.len() {
        lemma_text_width_prefix(s.drop_last(), w, i);
        assert(s.drop_last().subrange(0, i) == s.subrange(0, i));
    } else {
        assert(s.subrange(0, i) == s);
        lemma_text_width_nonneg(s, w);
    }
}

proof fn lemma_text_width_nonneg(s: Seq<char>, w: int)
    requires
        w >= 0,
    ensures
        text_width_spec(s, w) >= 0,
    decreases s.len(),
{
    if s.len() > 0 {
        lemma_text_width_nonneg(s.drop_last(), w);
    }
}

proof fn lemma_text_width_prefix_neg(s: Seq<char>, w: int, i: int)
    requires
        w < 0,
        0 <= i <= s.len(),
    ensures
        text_width_spec(s, w) <= text_width_spec(s.subrange(0, i), w) <= 0,
    decreases s.len(),
{
    if i < s.len() {
        lemma_text_width_prefix_neg(s.drop_last(), w, i);
        assert(s.drop_last().subrange(0, i) == s.subrange(0, i));
    } else {
        assert(s.subrange(0, i) == s);
        lemma_text_width_nonpos(s, w);
    }
}

proof fn lemma_text_width_nonpos(s: Seq<char>, w: int)
    requires
        w < 0,
    ensures
        text_width_spec(s, w) <= 0,
    decreases s.len(),
{
    if s.len() > 0 {
        lemma_text_width_nonpos(s.drop_last(), w);
    }
}

/// The drawn width of `text` when ASCII characters are `ascii_width` wide and
/// other characters twice as wide.
pub fn text_width(text: &str, ascii_width: i32) -> (r: i32)
    requires
        i32::MIN <= text_width_spec(text@, ascii_width as int) <= i32::MAX,
    ensures
        r == text_width_spec(text@, ascii_width as int),
{
    let v = chars_of(text);
    let mut total: i32 = 0;
    let mut i: usize = 0;
    while i < v.len()
        invariant
            i <= v@.len(),
            v@ == text@,
            i32::MIN <= text_width_spec(v@, ascii_width as int) <= i32::MAX,
            total == text_width_spec(v@.subrange(0, i as int), ascii_width as int),
        decreases v@.len() - i,
    {
        let ghost p = v@.subrange(0, i + 1);
        assert(p.drop_last() == v@.subrange(0, i as int));
        proof {
            if ascii_width >= 0 {
                lemma_text_width_prefix(v@, ascii_width as int, i + 1);
                lemma_text_width_prefix(v@, ascii_width as int, i as int);
            } else {
                lemma_text_width_prefix_neg(v@, ascii_width as int, i + 1);
                lemma_text_width_prefix_neg(v@, ascii_width as int, i as int);
            }
        }
        if (v[i] as u32) < 128 {
            total = total + ascii_width;
        } else {
            total = total + 2 * ascii_width;
        }
        i += 1;
    }
    assert(v@.subrange(0, v@.len() as int) == v@);
    total
}

/// The label widths of the first `i` items, summed.
pub open spec fn label_widths(items: Seq<ItemView>, i: int) -> int
    decreases i,
{
    if i <= 0 {
        0
    } else {
        label_widths(items, i - 1) + text_width_spec(item_label(items[i - 1]), 16)
    }
}

/// The candidate count used for gaps: one less than the items, or zero
/// when that does not fit in `i32`.
pub open spec fn gap_count(n: int) -> int {
    let c = if n > 0 {
        n - 1
    } else {
        0
    };
    if c <= i32::MAX {
        c
    } else {
        0
    }
}

/// Width of the candidate row: the labels and the gaps between them.
pub open spec fn candidate_row_width(m: CandidateWindowMetrics, v: WindowView) -> int {
    label_widths(v.1, v.1.len() as int) + m.candidate_gap * gap_count(v.1.len() as int)
}

/// Width reserved for the page arrows.
pub open spec fn arrows_width(m: CandidateWindowMetrics, v: WindowView) -> int {
    if v.2 || v.3 {
        m.arrow_width as int
    } else {
        0
    }
}

/// The inner width: the widest of the composition, the candidate row with
/// arrows, and the minimum width less the padding.
pub open spec fn inner_width(m: CandidateWindowMetrics, v: WindowView) -> int {
    let a = text_width_spec(v.0, 9);
    let b = candidate_row_width(m, v) + arrows_width(m, v);
    let c = m.min_width - m.padding_x * 2;
    let ab = if a >= b {
        a
    } else {
        b
    };
    if ab >= c {
        ab
    } else {
        c
    }
}

/// The window size for a view: width and height.
pub open spec fn measure_spec(m: CandidateWindowMetrics, v: WindowView) -> (int, int) {
    (
        m.padding_x * 2 + inner_width(m, v),
        m.padding_y * 2 + m.composition_height + m.candidate_height,
    )
}

/// Every intermediate value of `measure` fits in `i32`.
pub open spec fn measure_fits(m: CandidateWindowMetrics, v: WindowView) -> bool {
    &&& text_width_spec(v.0, 9) <= i32::MAX
    &&& label_widths(v.1, v.1.len() as int) <= i32::MAX
    &&& in_i32(m.candidate_gap * gap_count(v.1.len() as int))
    &&& in_i32(candidate_row_width(m, v))
    &&& in_i32(candidate_row_width(m, v) + arrows_width(m, v))
    &&& in_i32(m.padding_x * 2)
    &&& in_i32(m.min_width - m.padding_x * 2)
    &&& in_i32(measure_spec(m, v).0)
    &&& in_i32(m.padding_y * 2)
    &&& in_i32(m.padding_y * 2 + m.composition_height)
    &&& in_i32(measure_spec(m, v).1)
}

/// The width of the cell drawn for an item.
pub open spec fn cell_width(item: ItemView) -> int {
    text_width_spec(item_label(item), 16) + 10
}

/// The left edge of the cell of item `i`.
pub open spec fn cell_x(m: CandidateWindowMetrics, items: Seq<ItemView>, i: int) -> int
    decreases i,
{
    if i <= 0 {
        m.padding_x as int
    } else {
        cell_x(m, items, i - 1) + (cell_width(items[i - 1]) + m.candidate_gap)
    }
}

/// The commands that draw item `item` in its cell at `x`.
pub open spec fn item_commands(
    m: CandidateWindowMetrics,
    item: ItemView,
    x: int,
    y: int,
) -> Seq<CommandView> {
    let rect = Rect {
        x: x as i32,
        y: y as i32,
        width: cell_width(item) as i32,
        height: m.candidate_height,
    };
    if item.2 {
        seq![
            (0, rect, Seq::<char>::empty(), PaintColor::HighlightBackground),
            (2, rect, item_label(item), PaintColor::Brand),
        ]
    } else {
        seq![(2, rect, item_label(item), PaintColor::Text)]
    }
}

/// The commands drawing the first `i` items.
pub open spec fn items_commands(
    m: CandidateWindowMetrics,
    items: Seq<ItemView>,
    y: int,
    i: int,
) -> Seq<CommandView>
    decreases i,
{
    if i <= 0 {
        Seq::empty()
    } else {
        items_commands(m, items, y, i - 1) + item_commands(
            m,
            items[i - 1],
            cell_x(m, items, i - 1),
            y,
        )
    }
}

/// The row of candidates starts below the composition line.
pub open spec fn row_y(m: CandidateWindowMetrics) -> int {
    m.padding_y + m.composition_height
}

/// The bounds returned by `measure`.
pub open spec fn bounds_of(m: CandidateWindowMetrics, v: WindowView) -> Rect {
    Rect {
        x: 0,
        y: 0,
        width: measure_spec(m, v).0 as i32,
        height: measure_spec(m, v).1 as i32,
    }
}

/// The paint commands for a view: background, border, composition line,
/// the candidate cells, and the page arrows when either is shown.
pub open spec fn paint_spec(m: CandidateWindowMetrics, v: WindowView) -> Seq<CommandView> {
    let bounds = bounds_of(m, v);
    let comp = Rect {
        x: m.padding_x,
        y: m.padding_y,
        width: (bounds.width - m.padding_x * 2) as i32,
        height: m.composition_height,
    };
    let head = seq![
        (0, bounds, Seq::<char>::empty(), PaintColor::Background),
        (1, bounds, Seq::<char>::empty(), PaintColor::Border),
        (2, comp, v.0, PaintColor::Brand),
    ];
    let cells = items_commands(m, v.1, row_y(m), v.1.len() as int);
    if v.2 || v.3 {
        let arrow = Rect {
            x: (bounds.width - m.padding_x - m.arrow_width) as i32,
            y: row_y(m) as i32,
            width: m.arrow_width,
            height: m.candidate_height,
        };
        head + cells + seq![
            (2, arrow, prev_next_text(v.2, v.3), PaintColor::MutedText),
        ]
    } else {
        head + cells
    }
}

/// The arrows text: the previous arrow or a space, a space, the next arrow or
/// a space.
pub open spec fn prev_next_text(show_prev: bool, show_next: bool) -> Seq<char> {
    (if show_prev {
        "‹"@
    } else {
        " "@
    }) + " "@ + (if show_next {
        "›"@
    } else {
        " "@
    })
}

/// Every intermediate value of `paint_commands` fits in `i32`.
pub open spec fn paint_fits(m: CandidateWindowMetrics, v: WindowView) -> bool {
    &&& measure_fits(m, v)
    &&& in_i32(measure_spec(m, v).0 - m.padding_x * 2)
    &&& in_i32(row_y(m))
    &&& forall|i: int|
        0 <= i < v.1.len() ==> {
            &&& text_width_spec(item_label(#[trigger] v.1[i]), 16) <= i32::MAX
            &&& in_i32(cell_width(v.1[i]))
            &&& in_i32(cell_width(v.1[i]) + m.candidate_gap)
        }
    &&& forall|i: int| 0 <= i <= v.1.len() ==> in_i32(#[trigger] cell_x(m, v.1, i))
    &&& (v.2 || v.3) ==> in_i32(measure_spec(m, v).0 - m.padding_x)
    &&& (v.2 || v.3) ==> in_i32(measure_spec(m, v).0 - m.padding_x - m.arrow_width)
}

proof fn lemma_label_widths_prefix(items: Seq<ItemView>, i: int, j: int)
    requires
        0 <= i <= j,
    ensures
        0 <= label_widths(items, i) <= label_widths(items, j),
    decreases j,
{
    if j > i {
        lemma_label_widths_prefix(items, i, j - 1);
        lemma_text_width_nonneg(item_label(items[j - 1]), 16);
    } else {
        lemma_label_widths_nonneg(items, i);
    }
}

proof fn lemma_label_widths_nonneg(items: Seq<ItemView>, i: int)
    ensures
        0 <= label_widths(items, i),
    decreases i,
{
    if i > 0 {
        lemma_label_widths_nonneg(items, i - 1);
        lemma_text_width_nonneg(item_label(items[i - 1]), 16);
    }
}

/// Appends the arrows text to `s`.
fn push_arrows(s: &mut String, show_prev: bool, show_next: bool)
    ensures
        final(s)@ == old(s)@ + prev_next_text(show_prev, show_next),
{
    if show_prev {
        push_all(s, "‹");
    } else {
        push_all(s, " ");
    }
    push_all(s, " ");
    if show_next {
        push_all(s, "›");
    } else {
        push_all(s, " ");
    }
    assert(final(s)@ =~= old(s)@ + prev_next_text(show_prev, show_next));
}

impl CandidateWindowMetrics {
    /// The window size for `view`, at the origin.
    pub fn measure(&self, view: &CandidateWindowView) -> (r: Rect)
        requires
            measure_fits(*self, view.deep_view()),
        ensures
            r == bounds_of(*self, view.deep_view()),
    {
        let ghost v = view.deep_view();
        proof {
            lemma_text_width_nonneg(view.composition_line@, 9);
        }
        let composition_width = text_width(view.composition_line.as_str(), 9);
        let n = view.candidates.len();
        let mut labels: i32 = 0;
        let mut i: usize = 0;
        while i < n
            invariant
                i <= n == v.1.len(),
                v == view.deep_view(),
                label_widths(v.1, n as int) <= i32::MAX,
                labels == label_widths(v.1, i as int),
            decreases n - i,
        {
            let mut label = String::new();
            push_label(&mut label, &view.candidates[i]);
            assert(label@ == item_label(v.1[i as int]));
            proof {
                lemma_label_widths_prefix(v.1, i + 1, n as int);
                lemma_label_widths_prefix(v.1, i as int, i + 1);
            }
            labels = labels + text_width(label.as_str(), 16);
            i += 1;
        }
        let count: usize = if n > 0 {
            n - 1
        } else {
            0
        };
        let count32: i32 = if count <= 0x7fff_ffff {
            count as i32
        } else {
            0
        };
        let candidate_width = labels + self.candidate_gap * count32;
        let arrows = if view.show_prev || view.show_next {
            self.arrow_width
        } else {
            0
        };
        let a = composition_width;
        let b = candidate_width + arrows;
        let c = self.min_width - self.padding_x * 2;
        let ab = if a >= b {
            a
        } else {
            b
        };
        let inner = if ab >= c {
            ab
        } else {
            c
        };
        let width = (self.padding_x * 2) + inner;
        let height = self.padding_y * 2 + self.composition_height + self.candidate_height;
        Rect { x: 0, y: 0, width, height }
    }

    /// The window bounds placed just below the caret.
    pub fn position_near_caret(&self, caret: (i32, i32), view: &CandidateWindowView) -> (r: Rect)
        requires
            measure_fits(*self, view.deep_view()),
            caret.1 + 4 <= i32::MAX,
        ensures
            r == (Rect { x: caret.0, y: (caret.1 + 4) as i32, ..bounds_of(*self, view.deep_view()) }),
    {
        let mut rect = self.measure(view);
        rect.x = caret.0;
        rect.y = caret.1 + 4;
        rect
    }

    /// Builds deterministic paint commands for the native renderer.
    pub fn paint_commands(&self, view: &CandidateWindowView) -> (r: Vec<PaintCommand>)
        requires
            paint_fits(*self, view.deep_view()),
        ensures
            r.deep_view() == paint_spec(*self, view.deep_view()),
    {
        let ghost v = view.deep_view();
        let bounds = self.measure(view);
        let mut commands = vec![
            PaintCommand::FillRect { rect: bounds, color: PaintColor::Background },
            PaintCommand::StrokeRect { rect: bounds, color: PaintColor::Border },
        ];
        let composition_rect = Rect {
            x: self.padding_x,
            y: self.padding_y,
            width: bounds.width - self.padding_x * 2,
            height: self.composition_height,
        };
        commands.push(
            PaintCommand::Text {
                rect: composition_rect,
                text: view.composition_line.clone(),
                color: PaintColor::Brand,
            },
        );
        let ghost head = commands.deep_view();
        let mut x = self.padding_x;
        let y = self.padding_y + self.composition_height;
        let n = view.candidates.len();
        let mut i: usize = 0;
        while i < n
            invariant
                i <= n == v.1.len(),
                v == view.deep_view(),
                paint_fits(*self, v),
                y == row_y(*self),
                x == cell_x(*self, v.1, i as int),
                commands.deep_view() == head + items_commands(*self, v.1, row_y(*self), i as int),
            decreases n - i,
        {
            let item = &view.candidates[i];
            let mut text = String::new();
            push_label(&mut text, item);
            assert(text@ == item_label(v.1[i as int]));
            proof {
                lemma_text_width_nonneg(text@, 16);
            }
            let width = text_width(text.as_str(), 16) + 10;
            let rect = Rect { x, y, width, height: self.candidate_height };
            let ghost before = commands.deep_view();
            if item.highlighted {
                commands.push(
                    PaintCommand::FillRect { rect, color: PaintColor::HighlightBackground },
                );
            }
            let color = if item.highlighted {
                PaintColor::Brand
            } else {
                PaintColor::Text
            };
            commands.push(PaintCommand::Text { rect, text, color });
            assert(commands.deep_view() =~= before + item_commands(
                *self,
                v.1[i as int],
                cell_x(*self, v.1, i as int),
                row_y(*self),
            ));
            assert(in_i32(cell_x(*self, v.1, i + 1)));
            x = x + (width + self.candidate_gap);
            i += 1;
        }
        if view.show_prev || view.show_next {
            let arrow_rect = Rect {
                x: bounds.width - self.padding_x - self.arrow_width,
                y,
                width: self.arrow_width,
                height: self.candidate_height,
            };
            let mut arrows = String::new();
            push_arrows(&mut arrows, view.show_prev, view.show_next);
            assert(arrows@ =~= prev_next_text(view.show_prev, view.show_next));
            let ghost before = commands.deep_view();
            commands.push(
                PaintCommand::Text { rect: arrow_rect, text: arrows, color: PaintColor::MutedText },
            );
            assert(commands.deep_view() =~= before.push(
                (2, arrow_rect, prev_next_text(v.2, v.3), PaintColor::MutedText),
            ));
        }
        assert(commands.deep_view() =~= paint_spec(*self, v));
        commands
    }
}

/// The default layout constants.
pub open spec fn default_metrics() -> CandidateWindowMetrics {
    CandidateWindowMetrics {
        padding_x: 12,
        padding_y: 8,
        composition_height: 24,
        candidate_height: 32,
        candidate_gap: 12,
        min_width: 320,
        arrow_width: 42,
    }
}

impl Default for CandidateWindowMetrics {
    fn default() -> (r: Self)
        ensures
            r == (CandidateWindowMetrics {
                padding_x: 12,
                padding_y: 8,
                composition_height: 24,
                candidate_height: 32,
                candidate_gap: 12,
                min_width: 320,
                arrow_width: 42,
            }),
    {
        CandidateWindowMetrics {
            padding_x: 12,
            padding_y: 8,
            composition_height: 24,
            candidate_height: 32,
            candidate_gap: 12,
            min_width: 320,
            arrow_width: 42,
        }
    }
}

/// State holder for the native candidate window.
#[derive(Debug, Clone, PartialEq)]
pub struct CandidateWindowState {
    handle: Option<CandidateWindowHandle>,
    visible: bool,
    last_view: Option<CandidateWindowView>,
    last_bounds: Option<Rect>,
}

impl CandidateWindowState {
    /// The attached window handle.
    pub closed spec fn handle_value(&self) -> Option<CandidateWindowHandle> {
        self.handle
    }

    /// Whether the window is shown.
    pub closed spec fn visible_value(&self) -> bool {
        self.visible
    }

    /// The last view shown, as plain values.
    pub closed spec fn last_view_value(&self) -> Option<WindowView> {
        match self.last_view {
            Some(v) => Some(v.deep_view()),
            None => None,
        }
    }

    /// The bounds of the last update.
    pub closed spec fn last_bounds_value(&self) -> Option<Rect> {
        self.last_bounds
    }

    /// A hidden window with no handle and nothing shown yet.
    pub fn new() -> (r: Self)
        ensures
            r.handle_value() is None,
            !r.visible_value(),
            r.last_view_value() is None,
            r.last_bounds_value() is None,
    {
        CandidateWindowState { handle: None, visible: false, last_view: None, last_bounds: None }
    }

    /// Attaches the native window handle.
    pub fn attach_handle(&mut self, handle: CandidateWindowHandle)
        ensures
            final(self).handle_value() == Some(handle),
            final(self).visible_value() == old(self).visible_value(),
            final(self).last_view_value() == old(self).last_view_value(),
            final(self).last_bounds_value() == old(self).last_bounds_value(),
    {
        self.handle = Some(handle);
    }

    /// Shows `view` near `caret`, recording the view and its bounds.
    pub fn update(
        &mut self,
        view: CandidateWindowView,
        caret: (i32, i32),
        metrics: CandidateWindowMetrics,
    )
        requires
            measure_fits(metrics, view.deep_view()),
            caret.1 + 4 <= i32::MAX,
        ensures
            final(self).visible_value(),
            final(self).last_view_value() == Some(view.deep_view()),
            final(self).last_bounds_value() == Some(
                Rect { x: caret.0, y: (caret.1 + 4) as i32, ..bounds_of(metrics, view.deep_view()) },
            ),
            final(self).handle_value() == old(self).handle_value(),
    {
        self.last_bounds = Some(metrics.position_near_caret(caret, &view));
        self.last_view = Some(view);
        self.visible = true;
    }

    /// Hides the window, keeping what it last showed.
    pub fn hide_window(&mut self)
        ensures
            !final(self).visible_value(),
            final(self).handle_value() == old(self).handle_value(),
            final(self).last_view_value() == old(self).last_view_value(),
            final(self).last_bounds_value() == old(self).last_bounds_value(),
    {
        self.visible = false;
    }

    /// Whether the window is shown.
    pub fn is_visible(&self) -> (r: bool)
        ensures
            r == self.visible_value(),
    {
        self.visible
    }

    /// The bounds of the last update.
    pub fn last_bounds(&self) -> (r: Option<Rect>)
        ensures
            r == self.last_bounds_value(),
    {
        self.last_bounds
    }

    /// The last view shown.
    pub fn last_view(&self) -> (r: Option<&CandidateWindowView>)
        ensures
            match r {
                Some(v) => self.last_view_value() == Some(v.deep_view()),
                None => self.last_view_value() is None,
            },
    {
        match &self.last_view {
            Some(v) => Some(v),
            None => None,
        }
    }
}

impl Default for CandidateWindowState {
    fn default() -> (r: Self)
        ensures
            r.handle_value() is None,
            !r.visible_value(),
            r.last_view_value() is None,
            r.last_bounds_value() is None,
    {
        CandidateWindowState::new()
    }
}

/// The drawn width of `text`, or `None` when it exceeds `i32::MAX`.
fn text_width_checked(text: &str, ascii_width: i32) -> (r: Option<i32>)
    requires
        ascii_width >= 0,
    ensures
        match r {
            Some(x) => text_width_spec(text@, ascii_width as int) <= i32::MAX && x
                == text_width_spec(text@, ascii_width as int),
            None => text_width_spec(text@, ascii_width as int) > i32::MAX,
        },
{
    let v = chars_of(text);
    let w = ascii_width as i64;
    let mut total: i64 = 0;
    let mut i: usize = 0;
    while i < v.len()
        invariant
            i <= v@.len(),
            v@ == text@,
            w == ascii_width,
            w >= 0,
            0 <= total <= i32::MAX,
            total == text_width_spec(v@.subrange(0, i as int), w as int),
        decreases v@.len() - i,
    {
        let ghost p = v@.subrange(0, i + 1);
        assert(p.drop_last() == v@.subrange(0, i as int));
        if (v[i] as u32) < 128 {
            total = total + w;
        } else {
            total = total + 2 * w;
        }
        if total > 0x7fff_ffff {
            proof {
                lemma_text_width_prefix(v@, w as int, i + 1);
            }
            return None;
        }
        i += 1;
    }
    assert(v@.subrange(0, v@.len() as int) == v@);
    Some(total as i32)
}

impl CandidateWindowMetrics {
    /// Whether `measure` can lay out `view` with every intermediate value in
    /// `i32`.
    pub fn measure_fits_exec(&self, view: &CandidateWindowView) -> (r: bool)
        ensures
            r == measure_fits(*self, view.deep_view()),
    {
        let ghost v = view.deep_view();
        let composition = text_width_checked(view.composition_line.as_str(), 9);
        if composition.is_none() {
            return false;
        }
        let a = match composition {
            Some(x) => x as i64,
            None => 0,
        };
        let n = view.candidates.len();
        let mut labels: i64 = 0;
        let mut i: usize = 0;
        while i < n
            invariant
                i <= n == v.1.len(),
                v == view.deep_view(),
                0 <= labels <= i32::MAX,
                labels == label_widths(v.1, i as int),
            decreases n - i,
        {
            let mut label = String::new();
            push_label(&mut label, &view.candidates[i]);
            assert(label@ == item_label(v.1[i as int]));
            match text_width_checked(label.as_str(), 16) {
                None => {
                    proof {
                        lemma_label_widths_prefix(v.1, i + 1, n as int);
                        lemma_label_widths_nonneg(v.1, i as int);
                    }
                    return false;
                },
                Some(x) => {
                    proof {
                        lemma_text_width_nonneg(item_label(v.1[i as int]), 16);
                    }
                    labels = labels + x as i64;
                    if labels > 0x7fff_ffff {
                        proof {
                            lemma_label_widths_prefix(v.1, i + 1, n as int);
                        }
                        return false;
                    }
                },
            }
            i += 1;
        }
        let count: usize = if n > 0 {
            n - 1
        } else {
            0
        };
        let count32: i64 = if count <= 0x7fff_ffff {
            count as i64
        } else {
            0
        };
        let min32: i64 = -0x8000_0000;
        let max32: i64 = 0x7fff_ffff;
        let gap_i: i64 = self.candidate_gap as i64;
        assert(-0x8000_0000 * 0x7fff_ffff <= gap_i * count32 <= 0x8000_0000 * 0x7fff_ffff)
            by (nonlinear_arith)
            requires
                -0x8000_0000 <= gap_i <= 0x7fff_ffff,
                0 <= count32 <= 0x7fff_ffff,
        ;
        let gap = gap_i * count32;
        assert(gap == self.candidate_gap * gap_count(n as int)) by (nonlinear_arith)
            requires
                gap == gap_i * count32,
                gap_i == self.candidate_gap,
                count32 == gap_count(n as int),
        ;
        if gap < min32 || gap > max32 {
            return false;
        }
        let row = labels + gap;
        if row < min32 || row > max32 {
            return false;
        }
        let arrows: i64 = if view.show_prev || view.show_next {
            self.arrow_width as i64
        } else {
            0
        };
        let b = row + arrows;
        if b < min32 || b > max32 {
            return false;
        }
        let pad_x = (self.padding_x as i64) * 2;
        if pad_x < min32 || pad_x > max32 {
            return false;
        }
        let c = (self.min_width as i64) - pad_x;
        if c < min32 || c > max32 {
            return false;
        }
        let ab = if a >= b {
            a
        } else {
            b
        };
        let inner = if ab >= c {
            ab
        } else {
            c
        };
        let width = pad_x + inner;
        if width < min32 || width > max32 {
            return false;
        }
        let pad_y = (self.padding_y as i64) * 2;
        if pad_y < min32 || pad_y > max32 {
            return false;
        }
        let top = pad_y + (self.composition_height as i64);
        if top < min32 || top > max32 {
            return false;
        }
        let height = top + (self.candidate_height as i64);
        if height < min32 || height > max32 {
            return false;
        }
        true
    }
}

} // verus!
