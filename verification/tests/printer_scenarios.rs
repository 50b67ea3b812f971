use rome_core::builders::{
    group_elements, if_group_breaks, soft_block_indent, soft_line_break,
    soft_line_break_or_space, token, BestFitting, FillBuilder,
};
use rome_core::format_element::FormatElement;
use rome_core::printer::{print, IndentStyle, PrinterOptions};

fn list(parts: Vec<FormatElement>) -> FormatElement {
    rome_core::builders::concat_elements(parts)
}

fn print_doc(doc: FormatElement, width: u16) -> String {
    let options = PrinterOptions::new().with_print_width(width).with_indent(IndentStyle::Tab);
    print(&doc, &options).as_code().to_string()
}

#[test]
fn empty_document_prints_empty() {
    let doc = list(vec![]);
    assert_eq!(print_doc(doc, 80), "");
}

#[test]
fn group_fits_on_line() {
    // group("a,", soft_line_break(), "b") prints flat.
    let doc = group_elements(list(vec![token("a,"), soft_line_break(), token("b")])).finish();
    assert_eq!(print_doc(doc, 80), "a,b");
}

#[test]
fn group_breaks_at_small_width() {
    let doc = group_elements(list(vec![
        token("a long word,"),
        soft_line_break(),
        token("so that the group doesn't fit"),
    ]))
    .finish();
    assert_eq!(
        print_doc(doc, 10),
        "a long word,\nso that the group doesn't fit"
    );
}

fn array_doc() -> FormatElement {
    group_elements(list(vec![
        token("["),
        soft_block_indent(list(vec![
            token("1,"),
            soft_line_break_or_space(),
            token("2,"),
            soft_line_break_or_space(),
            token("3"),
            if_group_breaks(token(",")).finish(),
        ])),
        token("]"),
    ]))
    .finish()
}

#[test]
fn group_with_soft_block_indent_flat() {
    assert_eq!(print_doc(array_doc(), 80), "[1, 2, 3]");
}

#[test]
fn group_with_soft_block_indent_expanded() {
    // The flat layout measures nine columns, so a budget of eight expands.
    assert_eq!(print_doc(array_doc(), 8), "[\n\t1,\n\t2,\n\t3,\n]");
}

#[test]
fn best_fitting_falls_back_to_last_variant() {
    // Neither variant fits: the most expanded one is chosen.
    let a = token("the first variant is far too wide to fit");
    let b = token("the second variant does not fit either");
    let doc = BestFitting::from_vec(vec![a, b]).finish();
    assert_eq!(
        print_doc(doc, 10),
        "the second variant does not fit either"
    );
}

#[test]
fn fill_with_one_item_has_no_separator() {
    let mut fill = FillBuilder::new(soft_line_break_or_space());
    fill.entry(token("lonely"));
    let doc = fill.finish();
    assert_eq!(print_doc(doc, 80), "lonely");
}

#[test]
fn fill_packs_items_onto_lines() {
    let mut fill = FillBuilder::new(soft_line_break_or_space());
    fill.entry(token("aaaaaaaa"));
    fill.entry(token("bbbbbbbb"));
    fill.entry(token("cccccccc"));
    let doc = fill.finish();
    assert_eq!(print_doc(doc, 20), "aaaaaaaa bbbbbbbb\ncccccccc");
}

#[test]
fn width_monotonicity_on_samples() {
    // Increasing the width never adds line breaks.
    for narrow in [5u16, 10, 15, 20, 40, 80] {
        for wide in [narrow, 40, 80, 200] {
            if wide < narrow {
                continue;
            }
            let narrow_out = print_doc(array_doc(), narrow);
            let wide_out = print_doc(array_doc(), wide);
            let narrow_breaks = narrow_out.matches('\n').count();
            let wide_breaks = wide_out.matches('\n').count();
            assert!(
                wide_breaks <= narrow_breaks,
                "width {wide} added breaks over width {narrow}"
            );
        }
    }
}
