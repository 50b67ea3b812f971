//! The printer: resolves a format IR document into output text, deciding for
//! every group whether it fits on the current line.
//!
//! The whole behaviour of the printer is defined by the spec functions in this
//! module (`spec_print_element` and its helpers); the executable printer is
//! proved to produce exactly that output.

use vstd::prelude::*;

use crate::format_element::{ElementView, FormatElement, GroupId, LineMode, PrintMode};

verus! {

broadcast use vstd::std_specs::vec::axiom_vec_decreases_to_view, vstd::seq::axiom_seq_index_decreases;

/// What one level of indentation is printed as.
#[derive(Clone, Copy, PartialEq, Eq, Structural, Debug)]
pub enum IndentStyle {
    /// One tab character per level.
    Tab,
    /// The given number of spaces per level.
    Space(u8),
}

/// The line terminator written to the output.
#[derive(Clone, Copy, PartialEq, Eq, Structural, Debug)]
pub enum LineEnding {
    /// `\n`
    Lf,
    /// `\r\n`
    Crlf,
}

/// Options of the printer: the line width budget, the indentation unit, and
/// the line terminator.
#[derive(Clone, Copy, PartialEq, Eq, Structural, Debug)]
pub struct PrinterOptions {
    pub print_width: u16,
    pub indent_style: IndentStyle,
    pub line_ending: LineEnding,
}

impl PrinterOptions {
    /// The defaults: width 80, tab indentation, `\n` line endings.
    pub fn new() -> (r: PrinterOptions)
        ensures
            r.print_width == 80,
            r.indent_style == IndentStyle::Tab,
            r.line_ending == LineEnding::Lf,
    {
        PrinterOptions { print_width: 80, indent_style: IndentStyle::Tab, line_ending: LineEnding::Lf }
    }

    pub fn with_print_width(self, print_width: u16) -> (r: PrinterOptions)
        ensures
            r == (PrinterOptions { print_width, ..self }),
    {
        PrinterOptions { print_width, ..self }
    }

    pub fn with_indent(self, indent_style: IndentStyle) -> (r: PrinterOptions)
        ensures
            r == (PrinterOptions { indent_style, ..self }),
    {
        PrinterOptions { indent_style, ..self }
    }
}

/// The characters of one level of indentation.
pub open spec fn indent_unit(opts: PrinterOptions) -> Seq<char> {
    match opts.indent_style {
        IndentStyle::Tab => seq!['\t'],
        IndentStyle::Space(n) => Seq::new(n as nat, |i: int| ' '),
    }
}

/// The characters of the configured line terminator.
pub open spec fn nl_chars(opts: PrinterOptions) -> Seq<char> {
    match opts.line_ending {
        LineEnding::Lf => seq!['\n'],
        LineEnding::Crlf => seq!['\r', '\n'],
    }
}

/// `unit` repeated `n` times.
pub open spec fn repeat_chars(unit: Seq<char>, n: nat) -> Seq<char>
    decreases n,
{
    if n == 0 {
        Seq::empty()
    } else {
        repeat_chars(unit, (n - 1) as nat) + unit
    }
}

/// Widths are clamped at one past the width budget: any value beyond the
/// budget behaves the same in every comparison the printer makes.
pub open spec fn clamp_width(w: int, opts: PrinterOptions) -> int {
    if w > opts.print_width + 1 {
        opts.print_width + 1
    } else {
        w
    }
}

/// The printing mode a conditional element referring to group `id` sees:
/// the recorded mode of that group, or expanded when the group has not been
/// recorded (a reference to a group that was never entered).
pub open spec fn lookup_mode(modes: Seq<(u32, PrintMode)>, id: u32) -> PrintMode
    decreases modes,
{
    if modes.len() == 0 {
        PrintMode::Expanded
    } else if modes.last().0 == id {
        modes.last().1
    } else {
        lookup_mode(modes.drop_last(), id)
    }
}

/// The width of an element when printed entirely flat, starting from column
/// `w`: `None` when the element forces a break (a hard or empty line, an
/// expand-parent marker, or a line-suffix boundary while suffixes are
/// pending), otherwise `Some` of the column after printing.
///
/// This is the measure behind every fit decision: a group is printed flat
/// exactly when this measure of its content stays within the width budget.
pub open spec fn flat_width(
    e: ElementView,
    w: int,
    modes: Seq<(u32, PrintMode)>,
    suffix_pending: bool,
) -> Option<int>
    decreases e, 1int, 0int,
{
    match e {
        ElementView::Token { text, .. } => Some(w + text.len()),
        ElementView::Space => Some(w + 1),
        ElementView::Line { line_mode } => match line_mode {
            LineMode::Soft => Some(w),
            LineMode::SoftOrSpace => Some(w + 1),
            LineMode::Hard => None,
            LineMode::Empty => None,
        },
        ElementView::ExpandParent => None,
        ElementView::LineSuffixBoundary => if suffix_pending {
            None
        } else {
            Some(w)
        },
        ElementView::LineSuffix { .. } => Some(w),
        ElementView::Indent { content } => flat_width_list(content, w, modes, suffix_pending),
        ElementView::Group { content, .. } => flat_width_list(content, w, modes, suffix_pending),
        ElementView::ConditionalGroupContent { mode, group_id, content } => {
            let seen = match group_id {
                Some(g) => lookup_mode(modes, g.id),
                None => PrintMode::Flat,
            };
            if seen == mode {
                flat_width_list(content, w, modes, suffix_pending)
            } else {
                Some(w)
            }
        },
        ElementView::Fill { separator, items } => flat_width_fill(
            e,
            w,
            modes,
            suffix_pending,
            0,
        ),
        ElementView::Comment { content } => flat_width_list(content, w, modes, suffix_pending),
        ElementView::Label { content, .. } => flat_width_list(content, w, modes, suffix_pending),
        ElementView::Interned { element } => flat_width(*element, w, modes, suffix_pending),
        ElementView::BestFitting { variants } => if variants.len() > 0 {
            flat_width(variants.first(), w, modes, suffix_pending)
        } else {
            Some(w)
        },
        ElementView::List { content } => flat_width_list(content, w, modes, suffix_pending),
    }
}

/// Flat width of a list of elements, threaded left to right.
pub open spec fn flat_width_list(
    l: Seq<ElementView>,
    w: int,
    modes: Seq<(u32, PrintMode)>,
    suffix_pending: bool,
) -> Option<int>
    decreases l, 1int, 0int,
{
    if l.len() == 0 {
        Some(w)
    } else {
        match flat_width(l.first(), w, modes, suffix_pending) {
            Some(w1) => flat_width_list(l.drop_first(), w1, modes, suffix_pending),
            None => None,
        }
    }
}

/// Flat width of a fill element from its `i`-th item on: items interleaved
/// with the separator, all flat.
pub open spec fn flat_width_fill(
    fill: ElementView,
    w: int,
    modes: Seq<(u32, PrintMode)>,
    suffix_pending: bool,
    i: int,
) -> Option<int>
    decreases fill, 0int, fill->items.len() + 1 - i,
{
    match fill {
        ElementView::Fill { separator, items } => {
            if i < 0 || i >= items.len() {
                Some(w)
            } else {
                let sep_w = if i == 0 {
                    Some(w)
                } else {
                    flat_width(*separator, w, modes, suffix_pending)
                };
                match sep_w {
                    Some(w1) => match flat_width(items[i], w1, modes, suffix_pending) {
                        Some(w2) => flat_width_fill(fill, w2, modes, suffix_pending, i + 1),
                        None => None,
                    },
                    None => None,
                }
            }
        },
        _ => Some(w),
    }
}

/// `true` when content measured from column `w` fits within the width budget
/// printed flat: no forced break, and the resulting column within the budget.
pub open spec fn fits_flat(
    e: ElementView,
    w: int,
    modes: Seq<(u32, PrintMode)>,
    suffix_pending: bool,
    opts: PrinterOptions,
) -> bool {
    match flat_width(e, w, modes, suffix_pending) {
        Some(w2) => w2 <= opts.print_width,
        None => false,
    }
}

/// The fit decision is exactly the measured flat width staying within the
/// budget: whenever the printer chooses the flat mode for a group, the flat
/// width of that group's content, measured from the column the group starts
/// at, is at most the remaining budget.
pub proof fn lemma_group_fit_is_flat_width(
    e: ElementView,
    w: int,
    modes: Seq<(u32, PrintMode)>,
    suffix_pending: bool,
    opts: PrinterOptions,
)
    requires
        fits_flat(e, w, modes, suffix_pending, opts),
    ensures
        flat_width(e, w, modes, suffix_pending) is Some,
        flat_width(e, w, modes, suffix_pending)->0 <= opts.print_width,
{
}

} // verus!

verus! {

/// The mathematical state of the printer while it walks the document.
#[verifier::ext_equal]
pub struct PrintStateView {
    /// The output text produced so far.
    pub out: Seq<char>,
    /// Characters on the current line, clamped at one past the width budget.
    pub width: int,
    /// Set after a line break: the indentation level to write before the next
    /// text on the line.
    pub pending_indent: Option<u32>,
    /// Set by a space: written before the next text, dropped at a line break.
    pub pending_space: bool,
    /// True right after an empty line was printed, so that further empty
    /// lines collapse.
    pub has_empty_line: bool,
    /// Pre-rendered line-suffix text waiting to be flushed.
    pub suffix: Seq<char>,
    /// The modes recorded for the groups entered so far, by group id.
    pub modes: Seq<(u32, PrintMode)>,
}

/// The state at the start of a document.
pub open spec fn init_state() -> PrintStateView {
    PrintStateView {
        out: Seq::empty(),
        width: 0,
        pending_indent: None,
        pending_space: false,
        has_empty_line: false,
        suffix: Seq::empty(),
        modes: Seq::empty(),
    }
}

/// The characters that pending indentation or a pending space contribute
/// before the next text.
pub open spec fn pending_chars(st: PrintStateView, opts: PrinterOptions) -> Seq<char> {
    match st.pending_indent {
        Some(lvl) => repeat_chars(indent_unit(opts), lvl as nat),
        None => if st.pending_space {
            seq![' ']
        } else {
            Seq::empty()
        },
    }
}

/// Writing text: pending indentation or a pending space is materialised, the
/// text follows, and the line width grows accordingly.
pub open spec fn spec_text(st: PrintStateView, text: Seq<char>, opts: PrinterOptions) -> PrintStateView {
    if text.len() == 0 {
        st
    } else {
        let pend = pending_chars(st, opts);
        PrintStateView {
            out: st.out + pend + text,
            width: clamp_width(st.width + pend.len() + text.len(), opts),
            pending_indent: None,
            pending_space: false,
            has_empty_line: false,
            ..st
        }
    }
}

/// Flushing the pending line suffixes: their pre-rendered text is appended.
/// A flush is always followed by a line break or by the end of the document,
/// so the width after it only needs to stay positive when text was written.
pub open spec fn spec_flush(st: PrintStateView, opts: PrinterOptions) -> PrintStateView {
    PrintStateView {
        out: st.out + st.suffix,
        width: clamp_width(st.width + st.suffix.len(), opts),
        suffix: Seq::empty(),
        ..st
    }
}

/// A line break at indentation level `ind`: pending suffixes are flushed
/// first; a terminator is written unless the line is already empty; an empty
/// line writes one more unless one was just written; afterwards the
/// indentation is pending and any pending space is dropped.
pub open spec fn spec_line_break(
    st: PrintStateView,
    empty_line: bool,
    ind: u32,
    opts: PrinterOptions,
) -> PrintStateView {
    let st1 = if st.suffix.len() > 0 {
        spec_flush(st, opts)
    } else {
        st
    };
    let out1 = if st1.width > 0 {
        st1.out + nl_chars(opts)
    } else {
        st1.out
    };
    let out2 = if empty_line && !st1.has_empty_line {
        out1 + nl_chars(opts)
    } else {
        out1
    };
    PrintStateView {
        out: out2,
        width: 0,
        pending_indent: Some(ind),
        pending_space: false,
        has_empty_line: st1.has_empty_line || empty_line,
        suffix: Seq::empty(),
        modes: st1.modes,
    }
}

/// The column a fit measurement starts from: the current width plus whatever
/// indentation or space is pending.
pub open spec fn effective_width(st: PrintStateView, opts: PrinterOptions) -> int {
    clamp_width(st.width + pending_chars(st, opts).len(), opts)
}

/// Printing one element. `ind` is the current indentation level and `mode`
/// the mode of the enclosing group (expanded at the top level).
pub open spec fn spec_print_element(
    e: ElementView,
    ind: u32,
    mode: PrintMode,
    st: PrintStateView,
    opts: PrinterOptions,
) -> PrintStateView
    decreases e, 1int, 0int,
{
    match e {
        ElementView::Token { text, .. } => spec_text(st, text, opts),
        ElementView::Space => PrintStateView {
            pending_space: st.pending_space || st.width > 0,
            ..st
        },
        ElementView::Line { line_mode } => match (line_mode, mode) {
            (LineMode::Soft, PrintMode::Flat) => st,
            (LineMode::SoftOrSpace, PrintMode::Flat) => PrintStateView {
                pending_space: st.pending_space || st.width > 0,
                ..st
            },
            (LineMode::Empty, _) => spec_line_break(st, true, ind, opts),
            _ => spec_line_break(st, false, ind, opts),
        },
        ElementView::ExpandParent => st,
        ElementView::Indent { content } => spec_print_list(
            content,
            if ind < u32::MAX {
                (ind + 1) as u32
            } else {
                ind
            },
            mode,
            st,
            opts,
        ),
        ElementView::Group { id, content } => {
            let group_mode = if flat_fits_list(content, st, opts) {
                PrintMode::Flat
            } else {
                PrintMode::Expanded
            };
            let st1 = match id {
                Some(g) => PrintStateView { modes: st.modes.push((g.id, group_mode)), ..st },
                None => st,
            };
            spec_print_list(content, ind, group_mode, st1, opts)
        },
        ElementView::ConditionalGroupContent { mode: cond_mode, group_id, content } => {
            let seen = match group_id {
                Some(g) => lookup_mode(st.modes, g.id),
                None => mode,
            };
            if seen == cond_mode {
                spec_print_list(content, ind, mode, st, opts)
            } else {
                st
            }
        },
        ElementView::Fill { .. } => spec_print_fill(e, 0, ind, st, opts),
        ElementView::LineSuffix { content } => {
            let sub = spec_print_list(
                content,
                ind,
                mode,
                PrintStateView { out: Seq::empty(), suffix: Seq::empty(), ..st },
                opts,
            );
            PrintStateView { suffix: st.suffix + sub.out + sub.suffix, modes: sub.modes, ..st }
        },
        ElementView::LineSuffixBoundary => if st.suffix.len() > 0 {
            spec_line_break(st, false, ind, opts)
        } else {
            st
        },
        ElementView::Comment { content } => spec_print_list(content, ind, mode, st, opts),
        ElementView::Label { content, .. } => spec_print_list(content, ind, mode, st, opts),
        ElementView::Interned { element } => spec_print_element(*element, ind, mode, st, opts),
        ElementView::BestFitting { .. } => spec_print_best_fitting(e, 0, ind, st, opts),
        ElementView::List { content } => spec_print_list(content, ind, mode, st, opts),
    }
}

/// Whether a list of elements fits flat from the current position.
pub open spec fn flat_fits_list(
    content: Seq<ElementView>,
    st: PrintStateView,
    opts: PrinterOptions,
) -> bool {
    match flat_width_list(content, effective_width(st, opts), st.modes, st.suffix.len() > 0) {
        Some(w2) => w2 <= opts.print_width,
        None => false,
    }
}

/// Printing a list of elements left to right.
pub open spec fn spec_print_list(
    l: Seq<ElementView>,
    ind: u32,
    mode: PrintMode,
    st: PrintStateView,
    opts: PrinterOptions,
) -> PrintStateView
    decreases l, 1int, 0int,
{
    if l.len() == 0 {
        st
    } else {
        spec_print_list(l.drop_first(), ind, mode, spec_print_element(l.first(), ind, mode, st, opts), opts)
    }
}

/// Printing a fill element from its `i`-th item on. Each item is printed flat
/// when, measured together with the separator before it, it fits on the
/// current line; otherwise the separator becomes a line break and the item is
/// printed expanded.
pub open spec fn spec_print_fill(
    fill: ElementView,
    i: int,
    ind: u32,
    st: PrintStateView,
    opts: PrinterOptions,
) -> PrintStateView
    decreases fill, 0int, fill->items.len() + 1 - i,
{
    match fill {
        ElementView::Fill { separator, items } => {
            if i < 0 || i >= items.len() {
                st
            } else if i == 0 {
                let mode0 = if fits_flat(
                    items[0],
                    effective_width(st, opts),
                    st.modes,
                    st.suffix.len() > 0,
                    opts,
                ) {
                    PrintMode::Flat
                } else {
                    PrintMode::Expanded
                };
                spec_print_fill(fill, 1, ind, spec_print_element(items[0], ind, mode0, st, opts), opts)
            } else {
                let w0 = effective_width(st, opts);
                let pair_fits = match flat_width(*separator, w0, st.modes, st.suffix.len() > 0) {
                    Some(w1) => fits_flat(items[i], w1, st.modes, st.suffix.len() > 0, opts),
                    None => false,
                };
                let pair_mode = if pair_fits {
                    PrintMode::Flat
                } else {
                    PrintMode::Expanded
                };
                let st1 = spec_print_element(*separator, ind, pair_mode, st, opts);
                let st2 = spec_print_element(items[i], ind, pair_mode, st1, opts);
                spec_print_fill(fill, i + 1, ind, st2, opts)
            }
        },
        _ => st,
    }
}

/// Printing a best-fitting element: the first variant that fits flat from the
/// current position is printed flat; the last variant is the unconditional
/// fallback, printed expanded.
pub open spec fn spec_print_best_fitting(
    e: ElementView,
    i: int,
    ind: u32,
    st: PrintStateView,
    opts: PrinterOptions,
) -> PrintStateView
    decreases e, 0int, e->variants.len() + 1 - i,
{
    match e {
        ElementView::BestFitting { variants } => {
            if i < 0 || i >= variants.len() {
                st
            } else if i == variants.len() - 1 {
                spec_print_element(variants[i], ind, PrintMode::Expanded, st, opts)
            } else if fits_flat(
                variants[i],
                effective_width(st, opts),
                st.modes,
                st.suffix.len() > 0,
                opts,
            ) {
                spec_print_element(variants[i], ind, PrintMode::Flat, st, opts)
            } else {
                spec_print_best_fitting(e, i + 1, ind, st, opts)
            }
        },
        _ => st,
    }
}

/// The full output for a document: the root element printed in expanded mode
/// at indentation level zero, with any line suffixes still pending at the end
/// flushed after it.
pub open spec fn spec_print_document(e: ElementView, opts: PrinterOptions) -> Seq<char> {
    let st = spec_print_element(e, 0, PrintMode::Expanded, init_state(), opts);
    st.out + st.suffix
}

} // verus!

verus! {

/// The executable state of the printer; its model is `PrintStateView`.
pub struct PrinterState {
    pub out: String,
    pub width: u32,
    pub pending_indent: Option<u32>,
    pub pending_space: bool,
    pub has_empty_line: bool,
    pub suffix: String,
    pub modes: Vec<(u32, PrintMode)>,
}

impl View for PrinterState {
    type V = PrintStateView;

    open spec fn view(&self) -> PrintStateView {
        PrintStateView {
            out: self.out@,
            width: self.width as int,
            pending_indent: self.pending_indent,
            pending_space: self.pending_space,
            has_empty_line: self.has_empty_line,
            suffix: self.suffix@,
            modes: self.modes@,
        }
    }
}

impl PrinterState {
    /// The state is in step with the width budget: the tracked width never
    /// exceeds one past it.
    pub open spec fn wf(&self, opts: PrinterOptions) -> bool {
        self.width <= opts.print_width + 1
    }

    pub fn new() -> (r: PrinterState)
        ensures
            r@ == init_state(),
            forall|opts: PrinterOptions| r.wf(opts),
    {
        let r = PrinterState {
            out: String::new(),
            width: 0,
            pending_indent: None,
            pending_space: false,
            has_empty_line: false,
            suffix: String::new(),
            modes: Vec::new(),
        };
        proof {
            assert(r@ =~= init_state());
        }
        r
    }
}

/// `w + n`, clamped at one past the width budget.
fn add_clamped(w: u32, n: usize, opts: &PrinterOptions) -> (r: u32)
    requires
        w <= opts.print_width + 1,
    ensures
        r == clamp_width(w + n, *opts),
        r <= opts.print_width + 1,
{
    let cap: u32 = opts.print_width as u32 + 1;
    if n as u64 >= (cap - w) as u64 {
        cap
    } else {
        w + n as u32
    }
}

/// The number of characters in `repeat_chars(unit, n)`.
pub proof fn lemma_repeat_chars_len(unit: Seq<char>, n: nat)
    ensures
        repeat_chars(unit, n).len() == n * unit.len(),
    decreases n,
{
    if n > 0 {
        lemma_repeat_chars_len(unit, (n - 1) as nat);
        assert(repeat_chars(unit, n).len() == repeat_chars(unit, (n - 1) as nat).len()
            + unit.len());
        assert((n - 1) as nat * unit.len() + unit.len() == n * unit.len()) by (nonlinear_arith)
            requires n >= 1;
    } else {
        assert(repeat_chars(unit, 0).len() == 0);
    }
}

/// One level of indentation as a string.
#[verifier::loop_isolation(false)]
fn indent_unit_string(opts: &PrinterOptions) -> (r: String)
    ensures
        r@ == indent_unit(*opts),
{
    match opts.indent_style {
        IndentStyle::Tab => {
            let r = String::from_str("\t");
            proof {
                reveal_strlit("\t");
                assert(r@ =~= indent_unit(*opts));
            }
            r
        },
        IndentStyle::Space(n) => {
            let mut r = String::new();
            let mut i: u8 = 0;
            while i < n
                invariant
                    i <= n,
                    r@ =~= Seq::new(i as nat, |k: int| ' '),
                decreases n - i,
            {
                r.append(" ");
                proof {
                    reveal_strlit(" ");
                    assert(r@ =~= Seq::new((i + 1) as nat, |k: int| ' '));
                }
                i = i + 1;
            }
            proof {
                assert(r@ =~= indent_unit(*opts));
            }
            r
        },
    }
}

/// The configured line terminator as a string.
fn nl_string(opts: &PrinterOptions) -> (r: String)
    ensures
        r@ == nl_chars(*opts),
{
    match opts.line_ending {
        LineEnding::Lf => {
            let r = String::from_str("\n");
            proof {
                reveal_strlit("\n");
                assert(r@ =~= nl_chars(*opts));
            }
            r
        },
        LineEnding::Crlf => {
            let r = String::from_str("\r\n");
            proof {
                reveal_strlit("\r\n");
                assert(r@ =~= nl_chars(*opts));
            }
            r
        },
    }
}

/// The recorded mode of group `id`, expanded when the group is unknown.
#[verifier::loop_isolation(false)]
fn lookup_mode_exec(modes: &Vec<(u32, PrintMode)>, id: u32) -> (r: PrintMode)
    ensures
        r == lookup_mode(modes@, id),
{
    let n = modes.len();
    let mut i: usize = n;
    proof {
        assert(modes@.subrange(0, n as int) =~= modes@);
    }
    while i > 0
        invariant
            i <= n,
            lookup_mode(modes@, id) == lookup_mode(modes@.subrange(0, i as int), id),
        decreases i,
    {
        let entry = modes[i - 1];
        proof {
            assert(modes@.subrange(0, i as int).last() == modes@[i - 1]);
            assert(modes@.subrange(0, i as int).drop_last() =~= modes@.subrange(0, i - 1));
        }
        if entry.0 == id {
            return entry.1;
        }
        i = i - 1;
    }
    proof {
        assert(modes@.subrange(0, 0) =~= Seq::<(u32, PrintMode)>::empty());
    }
    PrintMode::Expanded
}

} // verus!

verus! {

/// The flat measure only ever adds to the starting column: whether it breaks
/// does not depend on the column, and the resulting column moves with the
/// starting one.
pub proof fn lemma_flat_width_shift(
    e: ElementView,
    w1: int,
    w2: int,
    modes: Seq<(u32, PrintMode)>,
    sp: bool,
)
    ensures
        flat_width(e, w1, modes, sp) is Some <==> flat_width(e, w2, modes, sp) is Some,
        flat_width(e, w1, modes, sp) matches Some(v1) ==> flat_width(e, w2, modes, sp)
            matches Some(v2) && v2 == v1 + (w2 - w1) && v1 >= w1,
    decreases e, 1int, 0int,
{
    match e {
        ElementView::Indent { content } => lemma_flat_width_list_shift(content, w1, w2, modes, sp),
        ElementView::Group { content, .. } => lemma_flat_width_list_shift(content, w1, w2, modes, sp),
        ElementView::ConditionalGroupContent { mode, group_id, content } => {
            lemma_flat_width_list_shift(content, w1, w2, modes, sp);
        },
        ElementView::Fill { .. } => lemma_flat_width_fill_shift(e, w1, w2, modes, sp, 0),
        ElementView::Comment { content } => lemma_flat_width_list_shift(content, w1, w2, modes, sp),
        ElementView::Label { content, .. } => lemma_flat_width_list_shift(content, w1, w2, modes, sp),
        ElementView::Interned { element } => lemma_flat_width_shift(*element, w1, w2, modes, sp),
        ElementView::BestFitting { variants } => {
            if variants.len() > 0 {
                lemma_flat_width_shift(variants.first(), w1, w2, modes, sp);
            }
        },
        ElementView::List { content } => lemma_flat_width_list_shift(content, w1, w2, modes, sp),
        _ => {},
    }
}

/// `lemma_flat_width_shift` for lists.
pub proof fn lemma_flat_width_list_shift(
    l: Seq<ElementView>,
    w1: int,
    w2: int,
    modes: Seq<(u32, PrintMode)>,
    sp: bool,
)
    ensures
        flat_width_list(l, w1, modes, sp) is Some <==> flat_width_list(l, w2, modes, sp) is Some,
        flat_width_list(l, w1, modes, sp) matches Some(v1) ==> flat_width_list(l, w2, modes, sp)
            matches Some(v2) && v2 == v1 + (w2 - w1) && v1 >= w1,
    decreases l, 1int, 0int,
{
    if l.len() > 0 {
        lemma_flat_width_shift(l.first(), w1, w2, modes, sp);
        match flat_width(l.first(), w1, modes, sp) {
            Some(u1) => {
                let u2 = flat_width(l.first(), w2, modes, sp)->0;
                lemma_flat_width_list_shift(l.drop_first(), u1, u2, modes, sp);
            },
            None => {},
        }
    }
}

/// `lemma_flat_width_shift` for the items of a fill.
pub proof fn lemma_flat_width_fill_shift(
    fill: ElementView,
    w1: int,
    w2: int,
    modes: Seq<(u32, PrintMode)>,
    sp: bool,
    i: int,
)
    ensures
        flat_width_fill(fill, w1, modes, sp, i) is Some <==> flat_width_fill(fill, w2, modes, sp, i)
            is Some,
        flat_width_fill(fill, w1, modes, sp, i) matches Some(v1) ==> flat_width_fill(
            fill,
            w2,
            modes,
            sp,
            i,
        ) matches Some(v2) && v2 == v1 + (w2 - w1) && v1 >= w1,
    decreases fill, 0int, fill->items.len() + 1 - i,
{
    match fill {
        ElementView::Fill { separator, items } => {
            if 0 <= i < items.len() {
                if i == 0 {
                    lemma_flat_width_shift(items[0], w1, w2, modes, sp);
                    match flat_width(items[0], w1, modes, sp) {
                        Some(u1) => {
                            let u2 = flat_width(items[0], w2, modes, sp)->0;
                            lemma_flat_width_fill_shift(fill, u1, u2, modes, sp, 1);
                        },
                        None => {},
                    }
                } else {
                    lemma_flat_width_shift(*separator, w1, w2, modes, sp);
                    match flat_width(*separator, w1, modes, sp) {
                        Some(s1) => {
                            let s2 = flat_width(*separator, w2, modes, sp)->0;
                            lemma_flat_width_shift(items[i], s1, s2, modes, sp);
                            match flat_width(items[i], s1, modes, sp) {
                                Some(u1) => {
                                    let u2 = flat_width(items[i], s2, modes, sp)->0;
                                    lemma_flat_width_fill_shift(fill, u1, u2, modes, sp, i + 1);
                                },
                                None => {},
                            }
                        },
                        None => {},
                    }
                }
            }
        },
        _ => {},
    }
}

} // verus!

verus! {

/// How an executable measurement relates to the spec measure: forced breaks
/// agree, and the computed column is the clamped spec column.
pub open spec fn meas_rel(spec_r: Option<int>, r: Option<u32>, opts: PrinterOptions) -> bool {
    match spec_r {
        Option::None => r is None,
        Option::Some(v) => r matches Some(x) && x == clamp_width(v, opts) && x
            <= opts.print_width + 1,
    }
}

/// Measures the flat width of one element, clamped at one past the budget.
#[verifier::loop_isolation(false)]
fn measure_element(
    e: &FormatElement,
    w: u32,
    modes: &Vec<(u32, PrintMode)>,
    sp: bool,
    opts: &PrinterOptions,
) -> (r: Option<u32>)
    requires
        w <= opts.print_width + 1,
    ensures
        meas_rel(flat_width(e@, w as int, modes@, sp), r, *opts),
    decreases e, 1int,
{
    match e {
        FormatElement::Token { text, .. } => {
            let n = text.as_str().unicode_len();
            proof {
                assert(e@ matches ElementView::Token { text: tv, .. } && tv == text@);
                assert(flat_width(e@, w as int, modes@, sp) == Some(w + text@.len()));
            }
            Some(add_clamped(w, n, opts))
        },
        FormatElement::Space => Some(add_clamped(w, 1, opts)),
        FormatElement::Line { line_mode } => match line_mode {
            LineMode::Soft => Some(w),
            LineMode::SoftOrSpace => Some(add_clamped(w, 1, opts)),
            LineMode::Hard => None,
            LineMode::Empty => None,
        },
        FormatElement::ExpandParent => None,
        FormatElement::LineSuffixBoundary => if sp {
            None
        } else {
            Some(w)
        },
        FormatElement::LineSuffix { .. } => Some(w),
        FormatElement::Indent { content } => {
            proof {
                assert(e@ matches ElementView::Indent { content: cv, .. } && cv
                    == crate::format_element::view_list(content@));
            }
            measure_list(content, w, modes, sp, opts)
        },
        FormatElement::Group { content, .. } => {
            proof {
                assert(e@ matches ElementView::Group { content: cv, .. } && cv
                    == crate::format_element::view_list(content@));
            }
            measure_list(content, w, modes, sp, opts)
        },
        FormatElement::ConditionalGroupContent { mode, group_id, content } => {
            let seen = match group_id {
                Some(g) => lookup_mode_exec(modes, g.id),
                None => PrintMode::Flat,
            };
            proof {
                assert(e@ matches ElementView::ConditionalGroupContent { mode: mv, group_id: gv, content: cv }
                    && mv == *mode && gv == *group_id && cv == crate::format_element::view_list(
                    content@,
                ));
            }
            if seen == *mode {
                measure_list(content, w, modes, sp, opts)
            } else {
                Some(w)
            }
        },
        FormatElement::Fill { separator, items } => {
            let n = items.len();
            let mut cur: u32 = w;
            let ghost mut tw: int = w as int;
            let mut i: usize = 0;
            proof {
                crate::format_element::lemma_view_list_len_all();
                assert(e@ matches ElementView::Fill { separator: sv, items: iv } && *sv == (
                **separator)@ && iv == crate::format_element::view_list(items@));
            }
            loop
                invariant
                    i <= n,
                    cur == clamp_width(tw, *opts),
                    cur <= opts.print_width + 1,
                    tw >= cur,
                    flat_width_fill(e@, w as int, modes@, sp, 0) == flat_width_fill(
                        e@,
                        tw,
                        modes@,
                        sp,
                        i as int,
                    ),
                decreases n - i,
            {
                if i >= n {
                    break;
                }
                let ghost mid: int;
                let m: Option<u32> = if i == 0 {
                    proof {
                        mid = tw;
                    }
                    Some(cur)
                } else {
                    let sres = measure_element(separator, cur, modes, sp, opts);
                    match sres {
                        Some(sw) => {
                            proof {
                                lemma_flat_width_shift((**separator)@, cur as int, tw, modes@, sp);
                                mid = flat_width((**separator)@, tw, modes@, sp)->0;
                            }
                            Some(sw)
                        },
                        None => {
                            proof {
                                lemma_flat_width_shift((**separator)@, cur as int, tw, modes@, sp);
                                assert(flat_width((**separator)@, tw, modes@, sp) is None);
                                assert(flat_width_fill(e@, tw, modes@, sp, i as int) is None);
                                assert(flat_width(e@, w as int, modes@, sp) is None);
                            }
                            return None;
                        },
                    }
                };
                let mw = m.unwrap();
                proof {
                    assert(mw == clamp_width(mid, *opts));
                    assert(mid >= mw);
                }
                let ires = measure_element(&items[i], mw, modes, sp, opts);
                match ires {
                    Some(iw) => {
                        proof {
                            lemma_flat_width_shift(items@[i as int]@, mw as int, mid, modes@, sp);
                            tw = flat_width(items@[i as int]@, mid, modes@, sp)->0;
                        }
                        cur = iw;
                    },
                    None => {
                        proof {
                            lemma_flat_width_shift(items@[i as int]@, mw as int, mid, modes@, sp);
                            assert(e@->items[i as int] == items@[i as int]@);
                            assert(flat_width(e@->items[i as int], mid, modes@, sp) is None);
                            assert(flat_width_fill(e@, tw, modes@, sp, i as int) is None);
                            assert(flat_width(e@, w as int, modes@, sp) is None);
                        }
                        return None;
                    },
                }
                i = i + 1;
            }
            proof {
                assert(flat_width_fill(e@, tw, modes@, sp, i as int) == Some(tw));
                assert(flat_width(e@, w as int, modes@, sp) == flat_width_fill(
                    e@,
                    w as int,
                    modes@,
                    sp,
                    0,
                ));
            }
            Some(cur)
        },
        FormatElement::Comment { content } => {
            proof {
                assert(e@ matches ElementView::Comment { content: cv, .. } && cv
                    == crate::format_element::view_list(content@));
            }
            measure_list(content, w, modes, sp, opts)
        },
        FormatElement::Label { content, .. } => {
            proof {
                assert(e@ matches ElementView::Label { content: cv, .. } && cv
                    == crate::format_element::view_list(content@));
            }
            measure_list(content, w, modes, sp, opts)
        },
        FormatElement::Interned { element } => {
            proof {
                assert(e@ matches ElementView::Interned { element: bv } && *bv == (**element)@);
            }
            measure_element(element, w, modes, sp, opts)
        },
        FormatElement::BestFitting { variants } => {
            if variants.len() > 0 {
                proof {
                    crate::format_element::lemma_view_list_len_all();
                    assert(e@ matches ElementView::BestFitting { variants: vv } && vv
                        == crate::format_element::view_list(variants@));
                    assert(crate::format_element::view_list(variants@).first() == variants@[0]@);
                }
                measure_element(&variants[0], w, modes, sp, opts)
            } else {
                proof {
                    assert(e@ matches ElementView::BestFitting { variants: vv } && vv
                        == crate::format_element::view_list(variants@));
                    crate::format_element::lemma_view_list_len_all();
                }
                Some(w)
            }
        },
        FormatElement::List { content } => {
            proof {
                assert(e@ matches ElementView::List { content: cv, .. } && cv
                    == crate::format_element::view_list(content@));
            }
            measure_list(content, w, modes, sp, opts)
        },
    }
}

/// Measures the flat width of a list of elements, clamped at one past the budget.
#[verifier::loop_isolation(false)]
fn measure_list(
    l: &Vec<FormatElement>,
    w: u32,
    modes: &Vec<(u32, PrintMode)>,
    sp: bool,
    opts: &PrinterOptions,
) -> (r: Option<u32>)
    requires
        w <= opts.print_width + 1,
    ensures
        meas_rel(flat_width_list(crate::format_element::view_list(l@), w as int, modes@, sp), r, *opts),
    decreases l, 0int,
{
    let ghost lv = crate::format_element::view_list(l@);
    let n = l.len();
    let mut cur: u32 = w;
    let ghost mut tw: int = w as int;
    let mut i: usize = 0;
    proof {
        crate::format_element::lemma_view_list_len_all();
        assert(lv.skip(0) =~= lv);
    }
    loop
        invariant
            i <= n,
            cur == clamp_width(tw, *opts),
            cur <= opts.print_width + 1,
            tw >= cur,
            flat_width_list(lv, w as int, modes@, sp) == flat_width_list(
                lv.skip(i as int),
                tw,
                modes@,
                sp,
            ),
        decreases n - i,
    {
        if i >= n {
            break;
        }
        proof {
            assert(lv.skip(i as int).first() == l@[i as int]@);
            assert(lv.skip(i as int).drop_first() =~= lv.skip(i + 1));
        }
        let res = measure_element(&l[i], cur, modes, sp, opts);
        match res {
            Some(x) => {
                proof {
                    lemma_flat_width_shift(l@[i as int]@, cur as int, tw, modes@, sp);
                    tw = flat_width(l@[i as int]@, tw, modes@, sp)->0;
                }
                cur = x;
            },
            None => {
                proof {
                    lemma_flat_width_shift(l@[i as int]@, cur as int, tw, modes@, sp);
                }
                return None;
            },
        }
        i = i + 1;
    }
    Some(cur)
}

} // verus!

verus! {

/// The number of characters in one indentation unit.
fn indent_unit_len(opts: &PrinterOptions) -> (r: usize)
    ensures
        r == indent_unit(*opts).len(),
{
    match opts.indent_style {
        IndentStyle::Tab => {
            proof {
                reveal_strlit("\t");
            }
            1
        },
        IndentStyle::Space(n) => n as usize,
    }
}

/// The column the next text would start at, with pending indentation or a
/// pending space accounted for.
fn effective_width_exec(st: &PrinterState, opts: &PrinterOptions) -> (r: u32)
    requires
        st.wf(*opts),
    ensures
        r == effective_width(st@, *opts),
        r <= opts.print_width + 1,
{
    let cap: u32 = opts.print_width as u32 + 1;
    match st.pending_indent {
        Some(lvl) => {
            let ul = indent_unit_len(opts);
            proof {
                lemma_repeat_chars_len(indent_unit(*opts), lvl as nat);
            }
            proof {
                assert(indent_unit(*opts).len() <= 255);
                assert(lvl as u64 * ul as u64 <= lvl as u64 * 255) by (nonlinear_arith)
                    requires ul <= 255;
            }
            let pl: u64 = lvl as u64 * ul as u64;
            if pl >= (cap - st.width) as u64 {
                cap
            } else {
                st.width + pl as u32
            }
        },
        None => {
            if st.pending_space {
                add_clamped(st.width, 1, opts)
            } else {
                proof {
                    assert(pending_chars(st@, *opts) =~= Seq::<char>::empty());
                }
                st.width
            }
        },
    }
}

/// True when line-suffix text is pending.
fn has_suffix(st: &PrinterState) -> (r: bool)
    ensures
        r == (st@.suffix.len() > 0),
{
    !st.suffix.as_str().is_empty()
}

/// Writes text to the output, materialising pending indentation or space.
#[verifier::loop_isolation(false)]
fn write_text(st: &mut PrinterState, text: &str, opts: &PrinterOptions)
    requires
        old(st).wf(*opts),
    ensures
        final(st)@ == spec_text(old(st)@, text@, *opts),
        final(st).wf(*opts),
{
    let n = text.unicode_len();
    if n == 0 {
        return;
    }
    let ghost st0 = st@;
    let ghost pend = pending_chars(st0, *opts);
    let ghost mut tw: int = st.width as int;
    match st.pending_indent {
        Some(lvl) => {
            let unit = indent_unit_string(opts);
            let ul = unit.as_str().unicode_len();
            let mut k: u32 = 0;
            while k < lvl
                invariant
                    k <= lvl,
                    st.out@ =~= st0.out + repeat_chars(indent_unit(*opts), k as nat),
                    tw == st0.width + k * indent_unit(*opts).len(),
                    st.width == clamp_width(tw, *opts),
                    st.width <= opts.print_width + 1,
                    st.pending_indent == st0.pending_indent,
                    st.pending_space == st0.pending_space,
                    st.has_empty_line == st0.has_empty_line,
                    st.suffix@ == st0.suffix,
                    st.modes@ == st0.modes,
                decreases lvl - k,
            {
                st.out.append(unit.as_str());
                st.width = add_clamped(st.width, ul, opts);
                proof {
                    tw = tw + indent_unit(*opts).len();
                    assert((k + 1) * indent_unit(*opts).len() == k * indent_unit(*opts).len()
                        + indent_unit(*opts).len()) by (nonlinear_arith);
                }
                k = k + 1;
            }
            proof {
                lemma_repeat_chars_len(indent_unit(*opts), lvl as nat);
                assert(pend == repeat_chars(indent_unit(*opts), lvl as nat));
            }
        },
        None => {
            if st.pending_space {
                st.out.append(" ");
                st.width = add_clamped(st.width, 1, opts);
                proof {
                    reveal_strlit(" ");
                    tw = tw + 1;
                    assert(pend =~= seq![' ']);
                }
            } else {
                proof {
                    assert(pend =~= Seq::<char>::empty());
                }
            }
        },
    }
    st.out.append(text);
    st.width = add_clamped(st.width, n, opts);
    st.pending_indent = None;
    st.pending_space = false;
    st.has_empty_line = false;
    proof {
        assert(st.out@ =~= st0.out + pend + text@);
        assert(st.width == clamp_width(st0.width + pend.len() + text@.len(), *opts));
        assert(st@ =~= spec_text(st0, text@, *opts));
    }
}

/// Appends the pending line-suffix text to the output.
fn flush_suffix(st: &mut PrinterState, opts: &PrinterOptions)
    requires
        old(st).wf(*opts),
    ensures
        final(st)@ == spec_flush(old(st)@, *opts),
        final(st).wf(*opts),
{
    let ghost st0 = st@;
    let mut sfx = String::new();
    core::mem::swap(&mut st.suffix, &mut sfx);
    let n = sfx.as_str().unicode_len();
    st.out.append(sfx.as_str());
    st.width = add_clamped(st.width, n, opts);
    proof {
        assert(st@ =~= spec_flush(st0, *opts));
    }
}

/// A line break at the given indentation level.
fn line_break(st: &mut PrinterState, empty_line: bool, ind: u32, opts: &PrinterOptions)
    requires
        old(st).wf(*opts),
    ensures
        final(st)@ == spec_line_break(old(st)@, empty_line, ind, *opts),
        final(st).wf(*opts),
{
    let ghost st0 = st@;
    if has_suffix(st) {
        flush_suffix(st, opts);
    }
    let ghost st1 = st@;
    let nl = nl_string(opts);
    if st.width > 0 {
        st.out.append(nl.as_str());
    }
    if empty_line && !st.has_empty_line {
        st.out.append(nl.as_str());
    }
    st.width = 0;
    st.pending_indent = Some(ind);
    st.pending_space = false;
    st.has_empty_line = st.has_empty_line || empty_line;
    proof {
        assert(st@ =~= spec_line_break(st0, empty_line, ind, *opts));
    }
}

} // verus!

verus! {

/// Prints one element into the state. `ind` is the indentation level and
/// `mode` the mode of the enclosing group.
#[verifier::loop_isolation(false)]
#[verifier::rlimit(60)]
fn print_element_into(
    e: &FormatElement,
    ind: u32,
    mode: PrintMode,
    st: &mut PrinterState,
    opts: &PrinterOptions,
)
    requires
        old(st).wf(*opts),
    ensures
        final(st)@ == spec_print_element(e@, ind, mode, old(st)@, *opts),
        final(st).wf(*opts),
    decreases e, 1int,
{
    proof {
        crate::format_element::lemma_view_list_len_all();
    }
    match e {
        FormatElement::Token { text, .. } => {
            proof {
                assert(e@ matches ElementView::Token { text: tv, .. } && tv == text@);
            }
            write_text(st, text.as_str(), opts);
        },
        FormatElement::Space => {
            st.pending_space = st.pending_space || st.width > 0;
            proof {
                assert(st@ =~= spec_print_element(e@, ind, mode, old(st)@, *opts));
            }
        },
        FormatElement::Line { line_mode } => {
            match (line_mode, mode) {
                (LineMode::Soft, PrintMode::Flat) => {},
                (LineMode::SoftOrSpace, PrintMode::Flat) => {
                    st.pending_space = st.pending_space || st.width > 0;
                },
                (LineMode::Empty, _) => line_break(st, true, ind, opts),
                _ => line_break(st, false, ind, opts),
            }
            proof {
                assert(st@ =~= spec_print_element(e@, ind, mode, old(st)@, *opts));
            }
        },
        FormatElement::ExpandParent => {},
        FormatElement::Indent { content } => {
            proof {
                assert(e@ matches ElementView::Indent { content: cv } && cv
                    == crate::format_element::view_list(content@));
            }
            let ind1 = if ind < u32::MAX {
                ind + 1
            } else {
                ind
            };
            print_list_into(content, ind1, mode, st, opts);
        },
        FormatElement::Group { id, content } => {
            proof {
                assert(e@ matches ElementView::Group { id: iv, content: cv } && iv == *id && cv
                    == crate::format_element::view_list(content@));
            }
            let eff = effective_width_exec(st, opts);
            let sp = has_suffix(st);
            let fits = match measure_list(content, eff, &st.modes, sp, opts) {
                Some(x) => x <= opts.print_width as u32,
                None => false,
            };
            let group_mode = if fits {
                PrintMode::Flat
            } else {
                PrintMode::Expanded
            };
            proof {
                assert(fits == flat_fits_list(
                    crate::format_element::view_list(content@),
                    old(st)@,
                    *opts,
                ));
            }
            if let Some(g) = id {
                st.modes.push((g.id, group_mode));
            }
            print_list_into(content, ind, group_mode, st, opts);
        },
        FormatElement::ConditionalGroupContent { mode: cond_mode, group_id, content } => {
            proof {
                assert(e@ matches ElementView::ConditionalGroupContent {
                    mode: mv,
                    group_id: gv,
                    content: cv,
                } && mv == *cond_mode && gv == *group_id && cv
                    == crate::format_element::view_list(content@));
            }
            let seen = match group_id {
                Some(g) => lookup_mode_exec(&st.modes, g.id),
                None => mode,
            };
            if seen == *cond_mode {
                print_list_into(content, ind, mode, st, opts);
            }
        },
        FormatElement::Fill { .. } => {
            print_fill_into(e, ind, mode, st, opts);
        },
        FormatElement::LineSuffix { .. } => {
            print_line_suffix_into(e, ind, mode, st, opts);
        },
        FormatElement::LineSuffixBoundary => {
            if has_suffix(st) {
                line_break(st, false, ind, opts);
            }
        },
        FormatElement::Comment { content } => {
            proof {
                assert(e@ matches ElementView::Comment { content: cv } && cv
                    == crate::format_element::view_list(content@));
            }
            print_list_into(content, ind, mode, st, opts);
        },
        FormatElement::Label { content, .. } => {
            proof {
                assert(e@ matches ElementView::Label { content: cv, .. } && cv
                    == crate::format_element::view_list(content@));
            }
            print_list_into(content, ind, mode, st, opts);
        },
        FormatElement::Interned { element } => {
            proof {
                assert(e@ matches ElementView::Interned { element: bv } && *bv == (**element)@);
            }
            print_element_into(element, ind, mode, st, opts);
        },
        FormatElement::BestFitting { .. } => {
            print_best_fitting_into(e, ind, mode, st, opts);
        },
        FormatElement::List { content } => {
            proof {
                assert(e@ matches ElementView::List { content: cv } && cv
                    == crate::format_element::view_list(content@));
            }
            print_list_into(content, ind, mode, st, opts);
        },
    }
}


/// Prints a fill element: items packed onto lines with the separator.
#[verifier::loop_isolation(false)]
#[verifier::rlimit(100)]
fn print_fill_into(
    e: &FormatElement,
    ind: u32,
    mode: PrintMode,
    st: &mut PrinterState,
    opts: &PrinterOptions,
)
    requires
        old(st).wf(*opts),
        e matches FormatElement::Fill { .. },
    ensures
        final(st)@ == spec_print_element(e@, ind, mode, old(st)@, *opts),
        final(st).wf(*opts),
    decreases e, 0int,
{
    proof {
        crate::format_element::lemma_view_list_len_all();
    }
    match e {
        FormatElement::Fill { separator, items } => {
            proof {
                assert(e@ matches ElementView::Fill { separator: sv, items: iv } && *sv == (
                **separator)@ && iv == crate::format_element::view_list(items@));
            }
            let ghost st0 = st@;
            let n = items.len();
            let mut i: usize = 0;
            while i < n
                invariant
                    i <= n,
                    st.wf(*opts),
                    spec_print_fill(e@, 0, ind, st0, *opts) == spec_print_fill(
                        e@,
                        i as int,
                        ind,
                        st@,
                        *opts,
                    ),
                decreases n - i,
            {
                if i == 0 {
                    let eff = effective_width_exec(st, opts);
                    let sp = has_suffix(st);
                    let item_fits = match measure_element(&items[0], eff, &st.modes, sp, opts) {
                        Some(x) => x <= opts.print_width as u32,
                        None => false,
                    };
                    let mode0 = if item_fits {
                        PrintMode::Flat
                    } else {
                        PrintMode::Expanded
                    };
                    print_element_into(&items[0], ind, mode0, st, opts);
                } else {
                    let eff = effective_width_exec(st, opts);
                    let sp = has_suffix(st);
                    let ghost st_pre = st@;
                    let pair_fits = match measure_element(separator, eff, &st.modes, sp, opts) {
                        Some(w1) => match measure_element(&items[i], w1, &st.modes, sp, opts) {
                            Some(w2) => w2 <= opts.print_width as u32,
                            None => false,
                        },
                        None => false,
                    };
                    proof {
                        match flat_width((**separator)@, eff as int, st_pre.modes, sp) {
                            Some(w1t) => {
                                lemma_flat_width_shift(
                                    crate::format_element::view_list(items@)[i as int],
                                    clamp_width(w1t, *opts),
                                    w1t,
                                    st_pre.modes,
                                    sp,
                                );
                            },
                            None => {},
                        }
                    }
                    let pair_mode = if pair_fits {
                        PrintMode::Flat
                    } else {
                        PrintMode::Expanded
                    };
                    print_element_into(separator, ind, pair_mode, st, opts);
                    print_element_into(&items[i], ind, pair_mode, st, opts);
                }
                i = i + 1;
            }
        },
        _ => {
            proof {
                assert(false);
            }
        },
    }
}

/// Prints a best-fitting element: the first variant that fits, flat; the
/// last variant as the fallback, expanded.
#[verifier::loop_isolation(false)]
#[verifier::rlimit(100)]
fn print_best_fitting_into(
    e: &FormatElement,
    ind: u32,
    mode: PrintMode,
    st: &mut PrinterState,
    opts: &PrinterOptions,
)
    requires
        old(st).wf(*opts),
        e matches FormatElement::BestFitting { .. },
    ensures
        final(st)@ == spec_print_element(e@, ind, mode, old(st)@, *opts),
        final(st).wf(*opts),
    decreases e, 0int,
{
    proof {
        crate::format_element::lemma_view_list_len_all();
    }
    match e {
        FormatElement::BestFitting { variants } => {
            proof {
                assert(e@ matches ElementView::BestFitting { variants: vv } && vv
                    == crate::format_element::view_list(variants@));
            }
            let ghost st0 = st@;
            let n = variants.len();
            let mut i: usize = 0;
            loop
                invariant
                    i <= n,
                    st.wf(*opts),
                    st@ == st0,
                    spec_print_best_fitting(e@, 0, ind, st0, *opts) == spec_print_best_fitting(
                        e@,
                        i as int,
                        ind,
                        st@,
                        *opts,
                    ),
                decreases n - i,
            {
                if i >= n {
                    break;
                }
                if i == n - 1 {
                    print_element_into(&variants[i], ind, PrintMode::Expanded, st, opts);
                    return;
                }
                let eff = effective_width_exec(st, opts);
                let sp = has_suffix(st);
                let fits = match measure_element(&variants[i], eff, &st.modes, sp, opts) {
                    Some(x) => x <= opts.print_width as u32,
                    None => false,
                };
                if fits {
                    print_element_into(&variants[i], ind, PrintMode::Flat, st, opts);
                    return;
                }
                i = i + 1;
            }
        },
        _ => {
            proof {
                assert(false);
            }
        },
    }
}

/// Collects a line suffix: its content is rendered now and held back until
/// the next line break or suffix boundary.
#[verifier::rlimit(100)]
fn print_line_suffix_into(
    e: &FormatElement,
    ind: u32,
    mode: PrintMode,
    st: &mut PrinterState,
    opts: &PrinterOptions,
)
    requires
        old(st).wf(*opts),
        e matches FormatElement::LineSuffix { .. },
    ensures
        final(st)@ == spec_print_element(e@, ind, mode, old(st)@, *opts),
        final(st).wf(*opts),
    decreases e, 0int,
{
    proof {
        crate::format_element::lemma_view_list_len_all();
    }
    match e {
        FormatElement::LineSuffix { content } => {
            proof {
                assert(e@ matches ElementView::LineSuffix { content: cv } && cv
                    == crate::format_element::view_list(content@));
            }
            let ghost st0 = st@;
            let mut saved_out = String::new();
            let mut saved_sfx = String::new();
            core::mem::swap(&mut st.out, &mut saved_out);
            core::mem::swap(&mut st.suffix, &mut saved_sfx);
            let saved_width = st.width;
            let saved_pending_indent = st.pending_indent;
            let saved_pending_space = st.pending_space;
            let saved_has_empty_line = st.has_empty_line;
            print_list_into(content, ind, mode, st, opts);
            saved_sfx.append(st.out.as_str());
            saved_sfx.append(st.suffix.as_str());
            st.out = saved_out;
            st.suffix = saved_sfx;
            st.width = saved_width;
            st.pending_indent = saved_pending_indent;
            st.pending_space = saved_pending_space;
            st.has_empty_line = saved_has_empty_line;
            proof {
                assert(st@ =~= spec_print_element(e@, ind, mode, st0, *opts));
            }
        },
        _ => {
            proof {
                assert(false);
            }
        },
    }
}

/// Prints a list of elements left to right.
#[verifier::loop_isolation(false)]
fn print_list_into(
    l: &Vec<FormatElement>,
    ind: u32,
    mode: PrintMode,
    st: &mut PrinterState,
    opts: &PrinterOptions,
)
    requires
        old(st).wf(*opts),
    ensures
        final(st)@ == spec_print_list(
            crate::format_element::view_list(l@),
            ind,
            mode,
            old(st)@,
            *opts,
        ),
        final(st).wf(*opts),
    decreases l, 0int,
{
    let ghost lv = crate::format_element::view_list(l@);
    let ghost st0 = st@;
    let n = l.len();
    let mut i: usize = 0;
    proof {
        crate::format_element::lemma_view_list_len_all();
        assert(lv.skip(0) =~= lv);
    }
    while i < n
        invariant
            i <= n,
            st.wf(*opts),
            spec_print_list(lv, ind, mode, st0, *opts) == spec_print_list(
                lv.skip(i as int),
                ind,
                mode,
                st@,
                *opts,
            ),
        decreases n - i,
    {
        proof {
            assert(lv.skip(i as int).first() == l@[i as int]@);
            assert(lv.skip(i as int).drop_first() =~= lv.skip(i + 1));
        }
        print_element_into(&l[i], ind, mode, st, opts);
        i = i + 1;
    }
    proof {
        assert(lv.skip(n as int) =~= Seq::<ElementView>::empty());
    }
}

/// The result of printing a document: the output text. Tokens carry their
/// source positions in the IR, but no source map is assembled from them
/// here, and no verbatim-fallback ranges arise: a syntax error fails the
/// formatting of the document instead.
#[derive(Debug)]
pub struct Printed {
    pub code: String,
}

impl Printed {
    /// The output text.
    pub fn as_code(&self) -> (r: &str)
        ensures
            r@ == self.code@,
    {
        self.code.as_str()
    }
}

/// Prints a document: resolves the format IR into output text. The output is
/// exactly what the specification-level printer produces for this document
/// and these options.
pub fn print(element: &FormatElement, options: &PrinterOptions) -> (r: Printed)
    ensures
        r.code@ == spec_print_document(element@, *options),
{
    let mut st = PrinterState::new();
    print_element_into(element, 0, PrintMode::Expanded, &mut st, options);
    let mut out = st.out;
    out.append(st.suffix.as_str());
    Printed { code: out }
}

} // verus!

verus! {

/// An empty document prints as empty output: the printer never invents text.
pub proof fn lemma_empty_document_prints_empty(opts: PrinterOptions)
    ensures
        forall|content: Seq<ElementView>|
            content.len() == 0 ==> spec_print_document(
                ElementView::List { content },
                opts,
            ) =~= Seq::<char>::empty(),
{
    assert forall|content: Seq<ElementView>|
        content.len() == 0 implies spec_print_document(
        ElementView::List { content },
        opts,
    ) =~= Seq::<char>::empty() by {
        let st = spec_print_element(
            ElementView::List { content },
            0,
            PrintMode::Expanded,
            init_state(),
            opts,
        );
        assert(st == spec_print_list(content, 0, PrintMode::Expanded, init_state(), opts));
        assert(st == init_state());
    }
}

} // verus!
