//! Suppression comments: `rome-ignore { <category> { (<value>) }? }+ : <reason>`,
//! one instance per line, inside line or block comments.

use vstd::prelude::*;

use crate::syntax::{SyntaxToken, TriviaPiece, TriviaPieceKind};

verus! {

/// One parsed suppression: the categories it names (each with an optional
/// value) and the mandatory reason.
#[derive(Debug, PartialEq, Eq)]
pub struct Suppression {
    /// Pairs of category name and optional category value.
    pub categories: Vec<(String, Option<String>)>,
    /// The reason given after the colon.
    pub reason: String,
}

/// The model of one suppression.
pub struct SuppressionView {
    pub categories: Seq<(Seq<char>, Option<Seq<char>>)>,
    pub reason: Seq<char>,
}

impl View for Suppression {
    type V = SuppressionView;

    open spec fn view(&self) -> SuppressionView {
        SuppressionView {
            categories: self.categories@.map(
                |i: int, c: (String, Option<String>)|
                    (
                        c.0@,
                        match c.1 {
                            Some(v) => Some(v@),
                            None => None,
                        },
                    ),
            ),
            reason: self.reason@,
        }
    }
}

/// Whitespace inside a suppression line: blanks and tabs (a carriage return
/// can stand before a line feed in source text).
pub open spec fn is_ws(c: char) -> bool {
    c == ' ' || c == '\t' || c == '\r'
}

fn is_ws_exec(c: char) -> (r: bool)
    ensures
        r == is_ws(c),
{
    c == ' ' || c == '\t' || c == '\r'
}

/// The first index at or after `i` (up to `end`) holding a character that
/// whitespace trimming stops at.
pub open spec fn skip_ws(s: Seq<char>, i: int, end: int) -> int
    decreases end - i,
{
    if i < end && i >= 0 && is_ws(s[i]) {
        skip_ws(s, i + 1, end)
    } else {
        i
    }
}

/// Trimming never moves backwards nor past `end`.
pub proof fn lemma_skip_ws_bounds(s: Seq<char>, i: int, end: int)
    requires
        i <= end,
    ensures
        i <= skip_ws(s, i, end) <= end,
    decreases end - i,
{
    if i < end && i >= 0 && is_ws(s[i]) {
        lemma_skip_ws_bounds(s, i + 1, end);
    }
}

#[verifier::loop_isolation(false)]
fn skip_ws_exec(s: &Vec<char>, i: usize, end: usize) -> (r: usize)
    requires
        i <= end <= s@.len(),
    ensures
        r == skip_ws(s@, i as int, end as int),
        i <= r <= end,
{
    let mut j = i;
    while j < end && is_ws_exec(s[j])
        invariant
            i <= j <= end,
            skip_ws(s@, i as int, end as int) == skip_ws(s@, j as int, end as int),
        decreases end - j,
    {
        j = j + 1;
    }
    proof {
        lemma_skip_ws_bounds(s@, j as int, end as int);
    }
    j
}

/// The first index at or after `i` holding a character that star trimming
/// (inside block comments) stops at.
pub open spec fn skip_stars(s: Seq<char>, i: int, end: int) -> int
    decreases end - i,
{
    if i < end && i >= 0 && s[i] == '*' {
        skip_stars(s, i + 1, end)
    } else {
        i
    }
}

#[verifier::loop_isolation(false)]
fn skip_stars_exec(s: &Vec<char>, i: usize, end: usize) -> (r: usize)
    requires
        i <= end <= s@.len(),
    ensures
        r == skip_stars(s@, i as int, end as int),
        i <= r <= end,
{
    let mut j = i;
    while j < end && s[j] == '*'
        invariant
            i <= j <= end,
            skip_stars(s@, i as int, end as int) == skip_stars(s@, j as int, end as int),
        decreases end - j,
    {
        j = j + 1;
    }
    j
}

/// One past the last non-whitespace character in `[i, end)`.
pub open spec fn trim_end_idx(s: Seq<char>, i: int, end: int) -> int
    decreases end - i,
{
    if end > i && end - 1 < s.len() && is_ws(s[end - 1]) {
        trim_end_idx(s, i, end - 1)
    } else {
        end
    }
}

pub proof fn lemma_trim_end_bounds(s: Seq<char>, i: int, end: int)
    requires
        i <= end,
    ensures
        i <= trim_end_idx(s, i, end) <= end,
    decreases end - i,
{
    if end > i && end - 1 < s.len() && is_ws(s[end - 1]) {
        lemma_trim_end_bounds(s, i, end - 1);
    }
}

#[verifier::loop_isolation(false)]
fn trim_end_exec(s: &Vec<char>, i: usize, end: usize) -> (r: usize)
    requires
        i <= end <= s@.len(),
    ensures
        r == trim_end_idx(s@, i as int, end as int),
        i <= r <= end,
{
    let mut j = end;
    while j > i && is_ws_exec(s[j - 1])
        invariant
            i <= j <= end,
            trim_end_idx(s@, i as int, end as int) == trim_end_idx(s@, i as int, j as int),
        decreases j,
    {
        j = j - 1;
    }
    j
}

/// The text `rome-ignore` stands at index `i` of `s`.
pub open spec fn has_marker_at(s: Seq<char>, i: int) -> bool {
    &&& i >= 0
    &&& i + 11 <= s.len()
    &&& s[i] == 'r'
    &&& s[i + 1] == 'o'
    &&& s[i + 2] == 'm'
    &&& s[i + 3] == 'e'
    &&& s[i + 4] == '-'
    &&& s[i + 5] == 'i'
    &&& s[i + 6] == 'g'
    &&& s[i + 7] == 'n'
    &&& s[i + 8] == 'o'
    &&& s[i + 9] == 'r'
    &&& s[i + 10] == 'e'
}

fn has_marker_at_exec(s: &Vec<char>, i: usize, end: usize) -> (r: bool)
    requires
        i <= end <= s@.len(),
    ensures
        r == (i + 11 <= end && has_marker_at(s@, i as int)),
{
    if end - i < 11 {
        false
    } else {
        s[i] == 'r' && s[i + 1] == 'o' && s[i + 2] == 'm' && s[i + 3] == 'e' && s[i + 4] == '-'
            && s[i + 5] == 'i' && s[i + 6] == 'g' && s[i + 7] == 'n' && s[i + 8] == 'o' && s[i + 9]
            == 'r' && s[i + 10] == 'e'
    }
}

/// The first index in `[i, end)` holding `c`, or `end` when there is none.
pub open spec fn find_char(s: Seq<char>, i: int, end: int, c: char) -> int
    decreases end - i,
{
    if i < end && i >= 0 {
        if s[i] == c {
            i
        } else {
            find_char(s, i + 1, end, c)
        }
    } else {
        end
    }
}

pub proof fn lemma_find_char_bounds(s: Seq<char>, i: int, end: int, c: char)
    requires
        i <= end,
    ensures
        i <= find_char(s, i, end, c) <= end,
    decreases end - i,
{
    if i < end && i >= 0 && s[i] != c {
        lemma_find_char_bounds(s, i + 1, end, c);
    }
}

/// `find_char` returns the first occurrence: where no occurrence lies in
/// `[a, i)` and `i` holds one (or is the end), the result is `i` (or `end`).
pub proof fn lemma_find_char_at(s: Seq<char>, a: int, i: int, end: int, c: char)
    requires
        0 <= a <= i <= end <= s.len(),
        forall|j: int| a <= j < i ==> s[j] != c,
        i < end ==> s[i] == c,
    ensures
        find_char(s, a, end, c) == if i < end {
            i
        } else {
            end
        },
    decreases i - a,
{
    if a < i {
        lemma_find_char_at(s, a + 1, i, end, c);
    }
}

#[verifier::loop_isolation(false)]
fn find_char_exec(s: &Vec<char>, i: usize, end: usize, c: char) -> (r: usize)
    requires
        i <= end <= s@.len(),
    ensures
        r == find_char(s@, i as int, end as int, c),
        i <= r <= end,
{
    let mut j = i;
    while j < end && s[j] != c
        invariant
            i <= j <= end,
            find_char(s@, i as int, end as int, c) == find_char(s@, j as int, end as int, c),
        decreases end - j,
    {
        j = j + 1;
    }
    j
}

/// The first index in `[i, end)` holding a category separator: a colon, an
/// opening parenthesis, or whitespace; `end` when there is none.
pub open spec fn find_sep(s: Seq<char>, i: int, end: int) -> int
    decreases end - i,
{
    if i < end && i >= 0 {
        if s[i] == ':' || s[i] == '(' || is_ws(s[i]) {
            i
        } else {
            find_sep(s, i + 1, end)
        }
    } else {
        end
    }
}

pub proof fn lemma_find_sep_bounds(s: Seq<char>, i: int, end: int)
    requires
        i <= end,
    ensures
        i <= find_sep(s, i, end) <= end,
    decreases end - i,
{
    if i < end && i >= 0 && !(s[i] == ':' || s[i] == '(' || is_ws(s[i])) {
        lemma_find_sep_bounds(s, i + 1, end);
    }
}

#[verifier::loop_isolation(false)]
fn find_sep_exec(s: &Vec<char>, i: usize, end: usize) -> (r: usize)
    requires
        i <= end <= s@.len(),
    ensures
        r == find_sep(s@, i as int, end as int),
        i <= r <= end,
{
    let mut j = i;
    while j < end && !(s[j] == ':' || s[j] == '(' || is_ws_exec(s[j]))
        invariant
            i <= j <= end,
            find_sep(s@, i as int, end as int) == find_sep(s@, j as int, end as int),
        decreases end - j,
    {
        j = j + 1;
    }
    j
}

} // verus!

verus! {

/// The models of a list of category pairs.
pub open spec fn cat_views(s: Seq<(String, Option<String>)>) -> Seq<(Seq<char>, Option<Seq<char>>)> {
    s.map(
        |i: int, c: (String, Option<String>)|
            (
                c.0@,
                match c.1 {
                    Some(v) => Some(v@),
                    None => None,
                },
            ),
    )
}

/// Parses the categories of one suppression line from index `i` on, with the
/// categories parsed so far in `acc`: category names up to a separator; a
/// parenthesised value after a name; the reason after the colon. A line
/// without a colon (or with an unclosed parenthesis) yields nothing.
pub open spec fn parse_cats(
    s: Seq<char>,
    i: int,
    end: int,
    acc: Seq<(Seq<char>, Option<Seq<char>>)>,
) -> Option<SuppressionView>
    decreases end - i,
    when i <= end <= s.len()
    via parse_cats_dec
{
    let k = find_sep(s, i, end);
    if k == end {
        None
    } else {
        let cat = s.subrange(i, trim_end_idx(s, i, k));
        if s[k] == ':' {
            let cats = if cat.len() > 0 {
                acc.push((cat, None))
            } else {
                acc
            };
            let rs = skip_ws(s, k + 1, end);
            Some(SuppressionView { categories: cats, reason: s.subrange(rs, trim_end_idx(s, rs, end)) })
        } else if s[k] == '(' {
            let p = find_char(s, k + 1, end, ')');
            if p == end {
                None
            } else {
                let vs = skip_ws(s, k + 1, p);
                let value = s.subrange(vs, trim_end_idx(s, vs, p));
                parse_cats(s, skip_ws(s, p + 1, end), end, acc.push((cat, Some(value))))
            }
        } else {
            let cats = if cat.len() > 0 {
                acc.push((cat, None))
            } else {
                acc
            };
            parse_cats(s, skip_ws(s, k + 1, end), end, cats)
        }
    }
}

#[via_fn]
proof fn parse_cats_dec(
    s: Seq<char>,
    i: int,
    end: int,
    acc: Seq<(Seq<char>, Option<Seq<char>>)>,
) {
    lemma_find_sep_bounds(s, i, end);
    let k = find_sep(s, i, end);
    if k < end {
        lemma_find_char_bounds(s, k + 1, end, ')');
        let p = find_char(s, k + 1, end, ')');
        if p < end {
            lemma_skip_ws_bounds(s, p + 1, end);
        }
        lemma_skip_ws_bounds(s, k + 1, end);
    }
}

/// Parses one line of a comment body: optional whitespace, inside block
/// comments optional stars and whitespace, then the marker `rome-ignore`
/// followed by its categories and reason; any other line yields nothing.
pub open spec fn parse_line(s: Seq<char>, ls: int, le: int, block: bool) -> Option<SuppressionView>
    decreases le - ls,
    when 0 <= ls <= le <= s.len()
    via parse_line_dec
{
    let a = skip_ws(s, ls, le);
    let b = if block {
        skip_ws(s, skip_stars(s, a, le), le)
    } else {
        a
    };
    if b + 11 <= le && has_marker_at(s, b) {
        parse_cats(s, skip_ws(s, b + 11, le), le, Seq::empty())
    } else {
        None
    }
}

#[via_fn]
proof fn parse_line_dec(s: Seq<char>, ls: int, le: int, block: bool) {
    lemma_skip_ws_bounds(s, ls, le);
}

/// Parses every line of a comment body, in order.
pub open spec fn parse_lines(s: Seq<char>, i: int, end: int, block: bool) -> Seq<SuppressionView>
    decreases end - i,
    when 0 <= i <= end <= s.len()
    via parse_lines_dec
{
    if i >= end {
        Seq::empty()
    } else {
        let k = find_char(s, i, end, '\n');
        let first = parse_line(s, i, k, block);
        let rest = if k < end {
            parse_lines(s, k + 1, end, block)
        } else {
            Seq::empty()
        };
        match first {
            Some(x) => seq![x] + rest,
            None => rest,
        }
    }
}

#[via_fn]
proof fn parse_lines_dec(s: Seq<char>, i: int, end: int, block: bool) {
    lemma_find_char_bounds(s, i, end, '\n');
}

/// The suppressions of a whole comment: the body of a `//` comment is
/// everything after the opener; the body of a `/* ... */` comment is
/// everything between the delimiters; any other text has no suppressions.
pub open spec fn spec_parse_suppression_comment(s: Seq<char>) -> Seq<SuppressionView> {
    if s.len() >= 2 && s[0] == '/' && s[1] == '/' {
        parse_lines(s, 2, s.len() as int, false)
    } else if s.len() >= 4 && s[0] == '/' && s[1] == '*' && s[s.len() - 2] == '*' && s[s.len()
        - 1] == '/' {
        parse_lines(s, 2, s.len() - 2, true)
    } else {
        Seq::empty()
    }
}

} // verus!

verus! {

/// The characters of a string slice, in order.
#[verifier::loop_isolation(false)]
pub fn chars_of(s: &str) -> (r: Vec<char>)
    ensures
        r@ == s@,
{
    let n = s.unicode_len();
    let mut r: Vec<char> = Vec::new();
    let mut i: usize = 0;
    while i < n
        invariant
            i <= n,
            n == s@.len(),
            r@ =~= s@.take(i as int),
        decreases n - i,
    {
        r.push(s.get_char(i));
        proof {
            assert(r@ =~= s@.take(i + 1));
        }
        i = i + 1;
    }
    proof {
        assert(s@.take(n as int) =~= s@);
    }
    r
}

/// Relies on `String`'s `FromIterator<char>`: collecting characters yields
/// the string of exactly those characters in order.
#[verifier::external_body]
pub fn chars_to_string_pub(v: &Vec<char>) -> (r: String)
    ensures
        r@ == v@,
{
    v.iter().collect()
}

/// The text of the character range `[i, j)` as a string.
#[verifier::loop_isolation(false)]
pub fn string_of_range_pub(s: &Vec<char>, i: usize, j: usize) -> (r: String)
    requires
        i <= j <= s@.len(),
    ensures
        r@ == s@.subrange(i as int, j as int),
{
    let mut v: Vec<char> = Vec::new();
    let mut k = i;
    while k < j
        invariant
            i <= k <= j,
            v@ =~= s@.subrange(i as int, k as int),
        decreases j - k,
    {
        v.push(s[k]);
        proof {
            assert(v@ =~= s@.subrange(i as int, k + 1));
        }
        k = k + 1;
    }
    chars_to_string_pub(&v)
}

/// Parses the categories and reason of one line, returning the suppression
/// it describes, if any.
#[verifier::loop_isolation(false)]
fn parse_cats_exec(s: &Vec<char>, start: usize, end: usize) -> (r: Option<Suppression>)
    requires
        start <= end <= s@.len(),
    ensures
        match parse_cats(s@, start as int, end as int, Seq::empty()) {
            Some(v) => r matches Some(x) && x@.categories =~= v.categories && x@.reason
                =~= v.reason,
            None => r is None,
        },
{
    let mut acc: Vec<(String, Option<String>)> = Vec::new();
    let mut i = start;
    proof {
        assert(cat_views(acc@) =~= Seq::<(Seq<char>, Option<Seq<char>>)>::empty());
    }
    loop
        invariant
            start <= i <= end <= s@.len(),
            parse_cats(s@, start as int, end as int, Seq::empty()) == parse_cats(
                s@,
                i as int,
                end as int,
                cat_views(acc@),
            ),
        decreases end - i,
    {
        let k = find_sep_exec(s, i, end);
        if k == end {
            return None;
        }
        let cat_end = trim_end_exec(s, i, k);
        let c = s[k];
        if c == ':' {
            if cat_end > i {
                let cat = string_of_range_pub(s, i, cat_end);
                acc.push((cat, None));
            }
            let rs = skip_ws_exec(s, k + 1, end);
            let re = trim_end_exec(s, rs, end);
            let reason = string_of_range_pub(s, rs, re);
            let r = Suppression { categories: acc, reason };
            proof {
                assert(r@.categories =~= cat_views(r.categories@));
            }
            return Some(r);
        } else if c == '(' {
            let p = find_char_exec(s, k + 1, end, ')');
            if p == end {
                return None;
            }
            let vs = skip_ws_exec(s, k + 1, p);
            let ve = trim_end_exec(s, vs, p);
            let cat = string_of_range_pub(s, i, cat_end);
            let value = string_of_range_pub(s, vs, ve);
            let ghost pre = cat_views(acc@);
            acc.push((cat, Some(value)));
            proof {
                assert(cat_views(acc@) =~= pre.push(
                    (s@.subrange(i as int, cat_end as int), Some(
                        s@.subrange(vs as int, ve as int),
                    )),
                ));
            }
            i = skip_ws_exec(s, p + 1, end);
        } else {
            if cat_end > i {
                let cat = string_of_range_pub(s, i, cat_end);
                let ghost pre = cat_views(acc@);
                acc.push((cat, None));
                proof {
                    assert(cat_views(acc@) =~= pre.push(
                        (s@.subrange(i as int, cat_end as int), None),
                    ));
                }
            }
            i = skip_ws_exec(s, k + 1, end);
        }
    }
}

/// Every suppression instance in the comment, in order: the comment must
/// open with `//` or `/* ... */`; each line with the `rome-ignore` marker
/// contributes one suppression. Ill-formed text yields none.
#[verifier::loop_isolation(false)]
pub fn parse_suppression_comment(comment: &str) -> (r: Vec<Suppression>)
    ensures
        ({
            let sv = spec_parse_suppression_comment(comment@);
            &&& r@.len() == sv.len()
            &&& forall|q: int|
                0 <= q < sv.len() ==> (#[trigger] r@[q])@.categories =~= sv[q].categories
                    && (r@[q])@.reason =~= sv[q].reason
        }),
{
    let s = chars_of(comment);
    let n = s.len();
    let mut out: Vec<Suppression> = Vec::new();
    let block: bool;
    let body_start: usize;
    let body_end: usize;
    if n >= 2 && s[0] == '/' && s[1] == '/' {
        block = false;
        body_start = 2;
        body_end = n;
    } else if n >= 4 && s[0] == '/' && s[1] == '*' && s[n - 2] == '*' && s[n - 1] == '/' {
        block = true;
        body_start = 2;
        body_end = n - 2;
    } else {
        return out;
    }
    let mut i = body_start;
    let ghost spec_all = parse_lines(s@, body_start as int, body_end as int, block);
    proof {
        assert(out_views(out@) =~= Seq::<SuppressionView>::empty());
    }
    loop
        invariant
            body_start <= i <= body_end <= s@.len(),
            block ==> body_end + 2 == s@.len(),
            spec_all =~= out_views(out@) + parse_lines(s@, i as int, body_end as int, block),
        decreases body_end - i,
    {
        if i >= body_end {
            break;
        }
        let k = find_char_exec(&s, i, body_end, '\n');
        let a = skip_ws_exec(&s, i, k);
        let b = if block {
            let t = skip_stars_exec(&s, a, k);
            skip_ws_exec(&s, t, k)
        } else {
            a
        };
        let ghost pre_out = out_views(out@);
        if has_marker_at_exec(&s, b, k) {
            let cs = skip_ws_exec(&s, b + 11, k);
            match parse_cats_exec(&s, cs, k) {
                Some(sup) => {
                    let ghost supv = sup@;
                    out.push(sup);
                    proof {
                        assert(out_views(out@) =~= pre_out.push(supv));
                        assert(parse_line(s@, i as int, k as int, block) matches Some(pv)
                            && supv.categories =~= pv.categories && supv.reason =~= pv.reason);
                    }
                },
                None => {
                    proof {
                        assert(parse_line(s@, i as int, k as int, block) is None);
                    }
                },
            }
        } else {
            proof {
                assert(parse_line(s@, i as int, k as int, block) is None);
            }
        }
        if k < body_end {
            i = k + 1;
        } else {
            i = body_end;
            proof {
                assert(parse_lines(s@, body_end as int, body_end as int, block) =~= Seq::<
                    SuppressionView,
                >::empty());
            }
        }
    }
    proof {
        assert(parse_lines(s@, i as int, body_end as int, block) =~= Seq::<
            SuppressionView,
        >::empty());
        assert(spec_all =~= out_views(out@));
        assert(spec_parse_suppression_comment(comment@) == spec_all);
    }
    out
}

/// The models of a list of suppressions.
pub open spec fn out_views(v: Seq<Suppression>) -> Seq<SuppressionView> {
    v.map(|i: int, x: Suppression| x@)
}

} // verus!

verus! {

/// The two suppression surfaces: formatting and linting.
#[derive(Clone, Copy, PartialEq, Eq, Structural, Debug)]
pub enum SuppressionCategory {
    Format,
    Lint,
}

impl SuppressionCategory {
    /// True when the category name means this category.
    pub fn matches_name(&self, name: &String) -> (r: bool)
        ensures
            (*self == SuppressionCategory::Format) ==> r == (name@ == "format"@),
            (*self == SuppressionCategory::Lint) ==> r == (name@ == "lint"@),
    {
        match self {
            SuppressionCategory::Format => name.eq(&String::from_str("format")),
            SuppressionCategory::Lint => name.eq(&String::from_str("lint")),
        }
    }
}

/// True when the node carries a suppression of the given category: some
/// comment in its first token's leading trivia parses to a suppression that
/// names the category. Roots and syntactic lists cannot be suppressed, only
/// their contents.
#[verifier::loop_isolation(false)]
/// The name of a suppression category.
pub open spec fn spec_category_name(cat: SuppressionCategory) -> Seq<char> {
    match cat {
        SuppressionCategory::Format => "format"@,
        SuppressionCategory::Lint => "lint"@,
    }
}

/// True when a comment with this text parses to a suppression that names
/// the category.
pub open spec fn spec_comment_names_category(cat: SuppressionCategory, t: Seq<char>) -> bool {
    let sups = spec_parse_suppression_comment(t);
    exists|j: int, k: int|
        0 <= j < sups.len() && 0 <= k < sups[j].categories.len()
            && (#[trigger] sups[j].categories[k]).0 == spec_category_name(cat)
}

/// True when a comment with this text parses to a suppression that names
/// the category.
#[verifier::loop_isolation(false)]
pub fn comment_names_category(category: SuppressionCategory, text: &str) -> (r: bool)
    ensures
        r == spec_comment_names_category(category, text@),
{
    let ghost sv = spec_parse_suppression_comment(text@);
    let sups = parse_suppression_comment(text);
    let m = sups.len();
    let mut j: usize = 0;
    while j < m
        invariant
            j <= m,
            m == sups@.len(),
            m == sv.len(),
            forall|a: int| 0 <= a < m ==> (#[trigger] sups@[a])@.categories =~= sv[a].categories,
            forall|a: int, b: int|
                0 <= a < j && 0 <= b < sv[a].categories.len()
                    ==> (#[trigger] sv[a].categories[b]).0 != spec_category_name(category),
        decreases m - j,
    {
        let cats = &sups[j].categories;
        let q = cats.len();
        let mut k: usize = 0;
        proof {
            assert(sups@[j as int]@.categories.len() == cats@.len());
        }
        while k < q
            invariant
                k <= q,
                q == cats@.len(),
                q == sv[j as int].categories.len(),
                forall|b: int|
                    0 <= b < k ==> (#[trigger] sv[j as int].categories[b]).0
                        != spec_category_name(category),
            decreases q - k,
        {
            proof {
                assert(sups@[j as int]@.categories[k as int].0 == cats@[k as int].0@);
                assert(sv[j as int].categories[k as int].0 == cats@[k as int].0@);
                reveal_strlit("format");
                reveal_strlit("lint");
            }
            if category.matches_name(&cats[k].0) {
                return true;
            }
            k = k + 1;
        }
        j = j + 1;
    }
    false
}

/// The (clamped) character offset inside the token text where trivia piece
/// `i` begins: the pieces' lengths summed, never past the text's end.
pub open spec fn piece_start(pieces: Seq<TriviaPiece>, i: int, total: int) -> int
    decreases i,
{
    if i <= 0 {
        0int
    } else {
        let p = piece_start(pieces, i - 1, total);
        if i - 1 < pieces.len() && p + pieces[i - 1].length <= total {
            p + pieces[i - 1].length
        } else {
            total
        }
    }
}

/// Piece offsets stay within the text.
pub proof fn lemma_piece_start_bounds(pieces: Seq<TriviaPiece>, i: int, total: int)
    requires
        total >= 0,
    ensures
        0 <= piece_start(pieces, i, total) <= total,
    decreases i,
{
    if i > 0 {
        lemma_piece_start_bounds(pieces, i - 1, total);
    }
}

/// True when some leading comment piece of the token parses to a suppression
/// naming the category. Piece texts are read off the token text at the
/// pieces' cumulative offsets.
pub open spec fn spec_token_has_category(cat: SuppressionCategory, t: SyntaxToken) -> bool {
    exists|i: int|
        0 <= i < t.leading@.len() && ((#[trigger] t.leading@[i]).kind
            == TriviaPieceKind::SingleLineComment || t.leading@[i].kind
            == TriviaPieceKind::MultiLineComment) && spec_comment_names_category(
            cat,
            t.text@.subrange(
                piece_start(t.leading@, i, t.text@.len() as int),
                piece_start(t.leading@, i + 1, t.text@.len() as int),
            ),
        )
}

/// True when the node carries a suppression of the given category: some
/// comment in its first token's leading trivia parses to a suppression that
/// names the category. Roots and syntactic lists cannot be suppressed, only
/// their contents; a node without tokens carries nothing.
#[verifier::loop_isolation(false)]
pub fn has_suppressions_category(
    category: SuppressionCategory,
    node: &crate::tree::SyntaxNode,
) -> (r: bool)
    requires
        crate::tree::wf_tokens(crate::tree::node_tokens(*node)),
    ensures
        ({
            let kind = node.kind;
            let tokens = crate::tree::node_tokens(*node);
            if kind == crate::syntax::SyntaxKind::Root || kind
                == crate::syntax::SyntaxKind::StatementList || kind
                == crate::syntax::SyntaxKind::ArrayElementList || kind
                == crate::syntax::SyntaxKind::ExpressionList || tokens.len() == 0 {
                r == false
            } else {
                r == spec_token_has_category(category, tokens.first())
            }
        }),
{
    if node.kind().is_root() || node.kind().is_list() {
        return false;
    }
    let first = match node.first_token() {
        Some(t) => t,
        None => {
            return false;
        },
    };
    proof {
        assert(crate::tree::node_tokens(*node)[0] == crate::tree::node_tokens(*node).first());
    }
    let chars = chars_of(first.text.as_str());
    let total = chars.len();
    let n = first.leading.len();
    let mut cursor: usize = 0;
    let mut i: usize = 0;
    while i < n
        invariant
            i <= n,
            n == first.leading@.len(),
            cursor <= total,
            total == chars@.len(),
            cursor == piece_start(first.leading@, i as int, total as int),
            forall|a: int|
                0 <= a < i ==> !(((#[trigger] first.leading@[a]).kind
                    == TriviaPieceKind::SingleLineComment || first.leading@[a].kind
                    == TriviaPieceKind::MultiLineComment) && spec_comment_names_category(
                    category,
                    first.text@.subrange(
                        piece_start(first.leading@, a, total as int),
                        piece_start(first.leading@, a + 1, total as int),
                    ),
                )),
        decreases n - i,
    {
        let piece = first.leading[i];
        let plen = piece.length as usize;
        let pend = if plen <= total - cursor {
            cursor + plen
        } else {
            total
        };
        proof {
            assert(pend == piece_start(first.leading@, i + 1, total as int));
        }
        if piece.kind.is_comments() {
            let text = string_of_range_pub(&chars, cursor, pend);
            if comment_names_category(category, text.as_str()) {
                proof {
                    assert(spec_token_has_category(category, *first));
                }
                return true;
            }
        }
        cursor = pend;
        i = i + 1;
    }
    false
}

} // verus!
