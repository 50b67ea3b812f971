//! The analyzer: walks the tree, hands query matches to the registered
//! matcher, queues the signals rules produce, and drains them in source
//! order, dropping signals that a suppression comment covers.

use vstd::prelude::*;

use crate::suppression::parse_suppression_comment;
use crate::syntax::{SyntaxKind, SyntaxToken, TriviaPieceKind};
use crate::text::TextRange;
use crate::tree::{SyntaxElement, SyntaxNode};

verus! {

broadcast use vstd::std_specs::vec::axiom_vec_decreases_to_view, vstd::seq::axiom_seq_index_decreases;

/// How severe a diagnostic is.
#[derive(Clone, Copy, PartialEq, Eq, Structural, Debug)]
pub enum Severity {
    Error,
    Warning,
    Information,
}

/// A labelled source range of a diagnostic.
#[derive(Debug)]
pub struct DiagnosticLabel {
    pub range: TextRange,
    pub message: String,
}

/// A diagnostic: its code, severity, title, and labelled ranges.
#[derive(Debug)]
pub struct Diagnostic {
    pub file_id: u32,
    pub code: Option<String>,
    pub severity: Severity,
    pub title: String,
    pub primary: Option<DiagnosticLabel>,
}

impl Diagnostic {
    /// A warning with the given code and title.
    pub fn warning(file_id: u32, code: &str, title: &str) -> (r: Diagnostic)
        ensures
            r.file_id == file_id,
            r.code matches Some(c) && c@ == code@,
            r.severity == Severity::Warning,
            r.title@ == title@,
            r.primary is None,
    {
        Diagnostic {
            file_id,
            code: Some(code.to_owned()),
            severity: Severity::Warning,
            title: title.to_owned(),
            primary: None,
        }
    }

    /// The diagnostic with its primary label set to the given range.
    pub fn primary(self, range: TextRange, message: &str) -> (r: Diagnostic)
        ensures
            r.primary matches Some(l) && l.range == range && l.message@ == message@,
            r.code == self.code,
            r.severity == self.severity,
    {
        Diagnostic {
            primary: Some(DiagnosticLabel { range, message: message.to_owned() }),
            ..self
        }
    }
}

/// Identifier of a group of rules.
#[derive(Clone, PartialEq, Eq, Debug)]
pub struct GroupKey {
    pub group_name: String,
}

impl GroupKey {
    pub fn new(group: &str) -> (r: GroupKey)
        ensures
            r.group_name@ == group@,
    {
        GroupKey { group_name: group.to_owned() }
    }

    /// The key of the group with the given name.
    pub fn group(name: &str) -> (r: GroupKey)
        ensures
            r.group_name@ == name@,
    {
        GroupKey::new(name)
    }
}

/// Identifier of a single rule: its group's name and its own.
#[derive(Clone, PartialEq, Eq, Debug)]
pub struct RuleKey {
    pub group_name: String,
    pub rule_name: String,
}

impl RuleKey {
    pub fn new(group: &str, rule: &str) -> (r: RuleKey)
        ensures
            r.group_name@ == group@,
            r.rule_name@ == rule@,
    {
        RuleKey { group_name: group.to_owned(), rule_name: rule.to_owned() }
    }

    /// The key of the rule with the given group and name.
    pub fn rule(group: &str, name: &str) -> (r: RuleKey)
        ensures
            r.group_name@ == group@,
            r.rule_name@ == name@,
    {
        RuleKey::new(group, name)
    }
}

/// A filter over rules: a whole group, or one rule.
#[derive(Clone, PartialEq, Eq, Debug)]
pub enum RuleFilter {
    Group(String),
    Rule(String, String),
}

/// Whether the filter covers the rule.
pub open spec fn spec_filter_matches(f: RuleFilter, group: Seq<char>, rule: Seq<char>) -> bool {
    match f {
        RuleFilter::Group(g) => g@ == group,
        RuleFilter::Rule(g, r) => g@ == group && r@ == rule,
    }
}

impl RuleFilter {
    /// True when this filter covers the rule: a group filter covers every
    /// rule of the group, a rule filter exactly that rule.
    pub fn matches_rule(&self, key: &RuleKey) -> (r: bool)
        ensures
            r == spec_filter_matches(*self, key.group_name@, key.rule_name@),
    {
        match self {
            RuleFilter::Group(g) => string_eq(g, &key.group_name),
            RuleFilter::Rule(g, ru) => string_eq(g, &key.group_name) && string_eq(
                ru,
                &key.rule_name,
            ),
        }
    }
}

/// True when two strings hold the same characters.
pub fn string_eq(a: &String, b: &String) -> (r: bool)
    ensures
        r == (a@ == b@),
{
    a.eq(b)
}

/// A pending signal: the diagnostic, the rule that produced it, and the
/// source range it covers.
#[derive(Debug)]
pub struct SignalEntry {
    pub signal: Diagnostic,
    pub rule: RuleKey,
    pub text_range: TextRange,
}

/// The queue of pending signals, ordered so that the signal with the
/// smallest range start leaves first. Kept sorted by range start, largest
/// first; ties keep insertion order among themselves.
#[derive(Debug)]
pub struct SignalQueue {
    pub entries: Vec<SignalEntry>,
}

/// Sorted by range start, descending: the last element starts earliest.
pub open spec fn sorted_desc(s: Seq<SignalEntry>) -> bool {
    forall|i: int, j: int|
        0 <= i <= j < s.len() ==> (#[trigger] s[i]).text_range.start >= (#[trigger] s[j]).text_range.start
}

impl SignalQueue {
    /// The queue is always sorted.
    pub open spec fn wf(self) -> bool {
        sorted_desc(self.entries@)
    }

    pub fn new() -> (r: SignalQueue)
        ensures
            r.wf(),
            r.entries@.len() == 0,
    {
        SignalQueue { entries: Vec::new() }
    }

    pub fn len(&self) -> (r: usize)
        ensures
            r == self.entries@.len(),
    {
        self.entries.len()
    }

    /// Adds a signal, keeping the queue sorted: it is placed after every
    /// signal that starts at or before it.
    #[verifier::loop_isolation(false)]
    pub fn push(&mut self, entry: SignalEntry)
        requires
            old(self).wf(),
        ensures
            final(self).wf(),
            final(self).entries@.len() == old(self).entries@.len() + 1,
            exists|k: int|
                0 <= k <= old(self).entries@.len() && final(self).entries@ =~= old(
                    self,
                ).entries@.take(k).push(entry) + old(self).entries@.skip(k),
    {
        let n = self.entries.len();
        let mut k: usize = n;
        while k > 0 && self.entries[k - 1].text_range.start < entry.text_range.start
            invariant
                k <= n,
                n == self.entries@.len(),
                forall|j: int|
                    k <= j < n ==> (#[trigger] self.entries@[j]).text_range.start
                        < entry.text_range.start,
            decreases k,
        {
            k = k - 1;
        }
        proof {
            assert(k > 0 ==> self.entries@[k - 1].text_range.start >= entry.text_range.start);
        }
        self.entries.insert(k, entry);
        proof {
            assert(self.entries@ =~= old(self).entries@.take(k as int).push(entry) + old(
                self,
            ).entries@.skip(k as int));
        }
    }

    /// Removes and returns the signal with the smallest range start; among
    /// equal starts, the one pushed last leaves first.
    pub fn pop(&mut self) -> (r: Option<SignalEntry>)
        requires
            old(self).wf(),
        ensures
            final(self).wf(),
            old(self).entries@.len() == 0 ==> r is None && final(self).entries@ == old(
                self,
            ).entries@,
            old(self).entries@.len() > 0 ==> (r matches Some(e) && e == old(self).entries@.last()
                && final(self).entries@ == old(self).entries@.drop_last() && (forall|i: int|
                0 <= i < old(self).entries@.len() ==> (#[trigger] old(
                    self,
                ).entries@[i]).text_range.start >= e.text_range.start)),
    {
        let r = self.entries.pop();
        proof {
            if old(self).entries@.len() > 0 {
                assert(forall|i: int|
                    0 <= i < old(self).entries@.len() ==> (#[trigger] old(
                        self,
                    ).entries@[i]).text_range.start >= old(
                        self,
                    ).entries@.last().text_range.start);
            }
        }
        r
    }
}

} // verus!

verus! {

/// One match the traversal offers to the rules: a syntax node, by kind and
/// trimmed range.
#[derive(Clone, Copy, PartialEq, Eq, Structural, Debug)]
pub enum QueryMatch {
    Syntax { kind: SyntaxKind, range: TextRange },
}

/// The registry side of the analyzer: resolves group and rule names, and
/// runs every rule whose query accepts a match, pushing the signals the
/// rules produce into the queue.
pub trait QueryMatcher {
    /// The key of the group with this name, when the matcher knows it.
    fn find_group(&self, group: &str) -> Option<GroupKey>;

    /// The key of the rule with this group and name, when the matcher knows it.
    fn find_rule(&self, group: &str, rule: &str) -> Option<RuleKey>;

    /// Runs the rules against one query match. The queue stays sorted.
    fn match_query(&mut self, query: &QueryMatch, queue: &mut SignalQueue)
        requires
            old(queue).wf(),
        ensures
            final(queue).wf(),
    ;
}

/// How suppression comments are read: the text of one comment becomes the
/// list of rule filters it names. Entries without a value are ignored.
pub trait SuppressionParser {
    fn parse(&self, text: &str) -> Vec<Option<String>>;
}

/// Reads suppressions in the standard comment grammar: every category value
/// of every `rome-ignore` line becomes a filter entry.
pub struct DefaultSuppressionParser;

impl SuppressionParser for DefaultSuppressionParser {
    #[verifier::loop_isolation(false)]
    fn parse(&self, text: &str) -> Vec<Option<String>> {
        let sups = parse_suppression_comment(text);
        let mut out: Vec<Option<String>> = Vec::new();
        let n = sups.len();
        let mut i: usize = 0;
        while i < n
            invariant
                i <= n,
                n == sups@.len(),
            decreases n - i,
        {
            let cats = &sups[i].categories;
            let m = cats.len();
            let mut j: usize = 0;
            while j < m
                invariant
                    j <= m,
                    m == cats@.len(),
                decreases m - j,
            {
                match &cats[j].1 {
                    Some(v) => out.push(Some(v.clone())),
                    None => out.push(None),
                }
                j = j + 1;
            }
            i = i + 1;
        }
        out
    }
}

/// Walks the tree in document order, offering every node to the matcher and
/// collecting suppression filters from every comment: a filter whose group
/// or rule the matcher does not know becomes a diagnostic of its own.
#[verifier::loop_isolation(false)]
fn traverse<M: QueryMatcher, P: SuppressionParser>(
    node: &SyntaxNode,
    matcher: &mut M,
    parser: &P,
    file_id: u32,
    queue: &mut SignalQueue,
    suppressions: &mut Vec<(RuleFilter, TextRange)>,
)
    requires
        old(queue).wf(),
        crate::tree::wf_tokens(crate::tree::node_tokens(*node)),
    ensures
        final(queue).wf(),
    decreases node, 1int,
{
    let range = node_trimmed_range(node);
    matcher.match_query(&QueryMatch::Syntax { kind: node.kind, range }, queue);
    if !node.kind().is_root() && !node.kind().is_list() {
        record_node_suppressions(node, matcher, parser, suppressions);
    }
    let n = node.children.len();
    let mut i: usize = 0;
    while i < n
        invariant
            i <= n,
            n == node.children@.len(),
            queue.wf(),
        decreases n - i,
    {
        proof {
            crate::js::lemma_child_tokens_wf_pub(*node, i as int);
        }
        match &node.children[i] {
            SyntaxElement::Node(ch) => {
                traverse(ch, matcher, parser, file_id, queue, suppressions);
            },
            SyntaxElement::Token(t) => {
                collect_token_warnings(t, matcher, parser, file_id, queue);
            },
        }
        i = i + 1;
    }
}

/// A diagnostic the analyzer itself raises for a suppression filter whose
/// group or rule no registered rule matches.
pub open spec fn is_unknown_group_warning(e: SignalEntry) -> bool {
    e.rule.group_name@ == "suppressions"@ && e.rule.rule_name@ == "unknownGroup"@
}

/// Records the suppressions the node carries: every filter named by a
/// comment in its first token's leading trivia that the matcher knows,
/// covering the node's whole trimmed range. Whatever the matcher answers,
/// the recorded list only grows, and every entry added covers exactly this
/// node's trimmed range.
#[verifier::loop_isolation(false)]
fn record_node_suppressions<M: QueryMatcher, P: SuppressionParser>(
    node: &SyntaxNode,
    matcher: &mut M,
    parser: &P,
    suppressions: &mut Vec<(RuleFilter, TextRange)>,
)
    requires
        crate::tree::wf_tokens(crate::tree::node_tokens(*node)),
    ensures
        final(suppressions)@.len() >= old(suppressions)@.len(),
        final(suppressions)@.take(old(suppressions)@.len() as int) == old(suppressions)@,
        forall|idx: int|
            old(suppressions)@.len() <= idx < final(suppressions)@.len()
                ==> (#[trigger] (final(suppressions)@[idx])).1 == spec_node_trimmed_range(
                crate::tree::node_tokens(*node),
            ),
{
    let covered = node_trimmed_range(node);
    let token = match node.first_token() {
        Some(t) => t,
        None => {
            proof {
                assert(suppressions@.take(old(suppressions)@.len() as int) =~= old(
                    suppressions,
                )@);
            }
            return;
        },
    };
    proof {
        assert(crate::tree::node_tokens(*node)[0] == crate::tree::node_tokens(*node).first());
        assert(suppressions@.take(old(suppressions)@.len() as int) =~= old(suppressions)@);
    }
    let n = token.leading.len();
    let mut cursor: u32 = 0;
    let mut i: usize = 0;
    let text_len = token.text.as_str().unicode_len();
    while i < n
        invariant
            i <= n,
            n == token.leading@.len(),
            suppressions@.len() >= old(suppressions)@.len(),
            suppressions@.take(old(suppressions)@.len() as int) =~= old(suppressions)@,
            forall|idx: int|
                old(suppressions)@.len() <= idx < suppressions@.len() ==> (
                #[trigger] suppressions@[idx]).1 == covered,
        decreases n - i,
    {
        let piece = token.leading[i];
        let pstart = cursor;
        let pend: u32 = if piece.length as u64 + cursor as u64 <= text_len as u64 && piece.length
            as u64 + cursor as u64 <= u32::MAX as u64 {
            cursor + piece.length
        } else {
            cursor
        };
        if piece.kind.is_comments() {
            let chars = crate::suppression::chars_of(token.text.as_str());
            if (pstart as usize) <= (pend as usize) && (pend as usize) <= chars.len() {
                let ctext = crate::suppression::string_of_range_pub(
                    &chars,
                    pstart as usize,
                    pend as usize,
                );
                let filters = parser.parse(ctext.as_str());
                let m = filters.len();
                let mut j: usize = 0;
                while j < m
                    invariant
                        j <= m,
                        m == filters@.len(),
                        suppressions@.len() >= old(suppressions)@.len(),
                        suppressions@.take(old(suppressions)@.len() as int) =~= old(
                            suppressions,
                        )@,
                        forall|idx: int|
                            old(suppressions)@.len() <= idx < suppressions@.len() ==> (
                            #[trigger] suppressions@[idx]).1 == covered,
                    decreases m - j,
                {
                    match &filters[j] {
                        Some(value) => {
                            match resolve_filter(value, matcher) {
                                Some(filter) => {
                                    let ghost pre = suppressions@;
                                    suppressions.push((filter, covered));
                                    proof {
                                        assert(suppressions@.take(
                                            old(suppressions)@.len() as int,
                                        ) =~= old(suppressions)@);
                                    }
                                },
                                None => {},
                            }
                        },
                        None => {},
                    }
                    j = j + 1;
                }
            }
        }
        cursor = pend;
        i = i + 1;
    }
}

/// The trimmed range a node covers: from its first token's trimmed start to
/// its last token's trimmed end. A node without tokens covers the empty
/// range at zero; were the two ends ever out of order, the empty range at
/// the start would stand.
pub open spec fn spec_node_trimmed_range(tokens: Seq<crate::syntax::SyntaxToken>) -> TextRange {
    if tokens.len() == 0 {
        TextRange { start: 0, end: 0 }
    } else {
        let f = tokens.first();
        let l = tokens.last();
        let s = f.offset + f.spec_trim_start();
        let e = l.offset + l.spec_trim_end();
        if s <= e {
            TextRange { start: s as u32, end: e as u32 }
        } else {
            TextRange { start: s as u32, end: s as u32 }
        }
    }
}

/// The trimmed range of the node, per `spec_node_trimmed_range`.
pub fn node_trimmed_range(node: &SyntaxNode) -> (r: TextRange)
    requires
        crate::tree::wf_tokens(crate::tree::node_tokens(*node)),
    ensures
        r == spec_node_trimmed_range(crate::tree::node_tokens(*node)),
        r.wf(),
{
    let first = match node.first_token() {
        Some(t) => t,
        None => {
            return TextRange::new(0, 0);
        },
    };
    proof {
        let toks = crate::tree::node_tokens(*node);
        assert(toks[0] == toks.first());
        assert(toks[toks.len() - 1] == toks.last());
        crate::syntax::lemma_trivia_len_parts(first.leading@);
        crate::syntax::lemma_trivia_len_parts(first.trailing@);
    }
    let s = first.text_trimmed_range().start();
    let last = match node.last_token() {
        Some(t) => t,
        None => {
            return TextRange::new(0, 0);
        },
    };
    proof {
        crate::syntax::lemma_trivia_len_parts(last.leading@);
        crate::syntax::lemma_trivia_len_parts(last.trailing@);
    }
    let e = last.text_trimmed_range().end();
    if s <= e {
        TextRange::new(s, e)
    } else {
        TextRange::new(s, s)
    }
}

/// Raises a diagnostic for every suppression filter in the token's leading
/// comments whose group or rule the matcher does not know. Whatever the
/// matcher answers, the queue stays sorted and gains nothing but
/// unknown-suppression warnings here.
#[verifier::loop_isolation(false)]
fn collect_token_warnings<M: QueryMatcher, P: SuppressionParser>(
    token: &SyntaxToken,
    matcher: &mut M,
    parser: &P,
    file_id: u32,
    queue: &mut SignalQueue,
)
    requires
        old(queue).wf(),
        token.wf(),
    ensures
        final(queue).wf(),
        forall|j: int|
            0 <= j < final(queue).entries@.len() ==> (exists|m: int|
                0 <= m < old(queue).entries@.len() && final(queue).entries@[j] == old(
                    queue,
                ).entries@[m]) || is_unknown_group_warning(#[trigger] final(queue).entries@[j]),
{
    let n = token.leading.len();
    let mut cursor: u32 = 0;
    let mut i: usize = 0;
    let text_len = token.text.as_str().unicode_len();
    while i < n
        invariant
            i <= n,
            n == token.leading@.len(),
            queue.wf(),
            forall|j: int|
                0 <= j < queue.entries@.len() ==> (exists|m: int|
                    0 <= m < old(queue).entries@.len() && queue.entries@[j] == old(
                        queue,
                    ).entries@[m]) || is_unknown_group_warning(#[trigger] queue.entries@[j]),
        decreases n - i,
    {
        let piece = token.leading[i];
        let pstart = cursor;
        let pend: u32 = if piece.length as u64 + cursor as u64 <= text_len as u64 && piece.length
            as u64 + cursor as u64 <= u32::MAX as u64 {
            cursor + piece.length
        } else {
            cursor
        };
        if piece.kind.is_comments() {
            let chars = crate::suppression::chars_of(token.text.as_str());
            if (pstart as usize) <= (pend as usize) && (pend as usize) <= chars.len() {
                let ctext = crate::suppression::string_of_range_pub(
                    &chars,
                    pstart as usize,
                    pend as usize,
                );
                let comment_range: TextRange = if token.offset as u64 + pstart as u64
                    <= u32::MAX as u64 && token.offset as u64 + pend as u64 <= u32::MAX as u64 {
                    TextRange::new(token.offset + pstart, token.offset + pend)
                } else {
                    TextRange::new(token.offset, token.offset)
                };
                let filters = parser.parse(ctext.as_str());
                let m = filters.len();
                let mut j: usize = 0;
                while j < m
                    invariant
                        j <= m,
                        m == filters@.len(),
                        queue.wf(),
                        forall|q: int|
                            0 <= q < queue.entries@.len() ==> (exists|w: int|
                                0 <= w < old(queue).entries@.len() && queue.entries@[q] == old(
                                    queue,
                                ).entries@[w]) || is_unknown_group_warning(
                                #[trigger] queue.entries@[q],
                            ),
                    decreases m - j,
                {
                    match &filters[j] {
                        Some(value) => {
                            match resolve_filter(value, matcher) {
                                Some(_known) => {},
                                None => {
                                    let ghost pre = queue.entries@;
                                    let d = Diagnostic::warning(
                                        file_id,
                                        "Linter",
                                        "unknown suppression group",
                                    ).primary(comment_range, "");
                                    let entry = SignalEntry {
                                        signal: d,
                                        rule: RuleKey::new("suppressions", "unknownGroup"),
                                        text_range: comment_range,
                                    };
                                    proof {
                                        reveal_strlit("suppressions");
                                        reveal_strlit("unknownGroup");
                                        assert(is_unknown_group_warning(entry));
                                    }
                                    queue.push(entry);
                                    proof {
                                        let k = choose|k: int|
                                            0 <= k <= pre.len() && queue.entries@ =~= pre.take(
                                                k,
                                            ).push(entry) + pre.skip(k);
                                        assert forall|q: int|
                                            0 <= q < queue.entries@.len() implies (exists|w: int|
                                            0 <= w < old(queue).entries@.len()
                                                && queue.entries@[q] == old(
                                                queue,
                                            ).entries@[w]) || is_unknown_group_warning(
                                            #[trigger] queue.entries@[q],
                                        ) by {
                                            if q < k {
                                                assert(queue.entries@[q] == pre[q]);
                                            } else if q == k {
                                                assert(queue.entries@[q] == entry);
                                            } else {
                                                assert(queue.entries@[q] == pre[q - 1]);
                                            }
                                        }
                                    }
                                },
                            }
                        },
                        None => {},
                    }
                    j = j + 1;
                }
            }
        }
        cursor = pend;
        i = i + 1;
    }
}

/// Resolves a suppression value of the shape `group` or `group/rule` into a
/// filter the matcher knows, or nothing.
#[verifier::loop_isolation(false)]
fn resolve_filter<M: QueryMatcher>(value: &String, matcher: &mut M) -> (r: Option<RuleFilter>) {
    let chars = crate::suppression::chars_of(value.as_str());
    let n = chars.len();
    let mut slash: usize = n;
    let mut i: usize = 0;
    while i < n
        invariant
            i <= n,
            n == chars@.len(),
            slash <= n,
        decreases n - i,
    {
        if chars[i] == '/' && slash == n {
            slash = i;
        }
        i = i + 1;
    }
    if slash == n {
        match matcher.find_group(value.as_str()) {
            Some(g) => Some(RuleFilter::Group(g.group_name)),
            None => None,
        }
    } else {
        let group = crate::suppression::string_of_range_pub(&chars, 0, slash);
        let rule = crate::suppression::string_of_range_pub(&chars, slash + 1, n);
        match matcher.find_rule(group.as_str(), rule.as_str()) {
            Some(k) => Some(RuleFilter::Rule(k.group_name, k.rule_name)),
            None => None,
        }
    }
}

/// True when some recorded suppression covers the signal: its filter
/// matches the signal's rule and its range contains the signal's range.
#[verifier::loop_isolation(false)]
pub fn is_suppressed(suppressions: &Vec<(RuleFilter, TextRange)>, entry: &SignalEntry) -> (r:
    bool)
    ensures
        r == spec_suppressed(suppressions@, *entry),
{
    let n = suppressions.len();
    let mut i: usize = 0;
    while i < n
        invariant
            i <= n,
            n == suppressions@.len(),
            forall|j: int| 0 <= j < i ==> !spec_covers(#[trigger] suppressions@[j], *entry),
        decreases n - i,
    {
        let (f, range) = &suppressions[i];
        if f.matches_rule(&entry.rule) && range.start() <= entry.text_range.start()
            && entry.text_range.end() <= range.end() {
            proof {
                assert(spec_covers(suppressions@[i as int], *entry));
            }
            return true;
        }
        i = i + 1;
    }
    false
}

/// Drains a signal queue: the signals leave in nondecreasing order of range
/// start, and every signal a recorded suppression covers is dropped. The
/// result is exactly `spec_kept` of the queued signals under the recorded
/// suppressions.
#[verifier::loop_isolation(false)]
pub fn drain_signals(queue: SignalQueue, suppressions: &Vec<(RuleFilter, TextRange)>) -> (r: Vec<
    SignalEntry,
>)
    requires
        queue.wf(),
    ensures
        r@ == spec_kept(queue.entries@, suppressions@),
        forall|i: int, j: int|
            0 <= i <= j < r@.len() ==> (#[trigger] r@[i]).text_range.start <= (
            #[trigger] r@[j]).text_range.start,
{
    let ghost full = queue.entries@;
    let mut queue = queue;
    let mut out: Vec<SignalEntry> = Vec::new();
    proof {
        assert(out@ + spec_kept(queue.entries@, suppressions@) =~= spec_kept(full, suppressions@));
    }
    loop
        invariant
            queue.wf(),
            out@ + spec_kept(queue.entries@, suppressions@) =~= spec_kept(full, suppressions@),
            forall|i: int, j: int|
                0 <= i <= j < out@.len() ==> (#[trigger] out@[i]).text_range.start <= (
                #[trigger] out@[j]).text_range.start,
            forall|i: int, j: int|
                0 <= i < out@.len() && 0 <= j < queue.entries@.len() ==> (
                #[trigger] out@[i]).text_range.start <= (
                #[trigger] queue.entries@[j]).text_range.start,
        decreases queue.entries@.len(),
    {
        let ghost pre = queue.entries@;
        let next = queue.pop();
        match next {
            Some(entry) => {
                proof {
                    assert(spec_kept(pre, suppressions@) == if spec_suppressed(
                        suppressions@,
                        entry,
                    ) {
                        spec_kept(pre.drop_last(), suppressions@)
                    } else {
                        seq![entry] + spec_kept(pre.drop_last(), suppressions@)
                    });
                }
                if !is_suppressed(suppressions, &entry) {
                    let ghost pre_out = out@;
                    out.push(entry);
                    proof {
                        assert(out@ + spec_kept(queue.entries@, suppressions@) =~= pre_out + (seq![
                            entry,
                        ] + spec_kept(pre.drop_last(), suppressions@)));
                    }
                }
            },
            None => {
                break;
            },
        }
    }
    proof {
        assert(spec_kept(queue.entries@, suppressions@) =~= Seq::<SignalEntry>::empty());
        assert(out@ =~= spec_kept(full, suppressions@));
    }
    out
}

/// Runs the analyzer over a tree: every node is offered to the matcher
/// (with its kind and trimmed range); the suppressions the nodes carry are
/// recorded, each covering its node's trimmed range; the queued signals are
/// then drained in nondecreasing order of range start, dropping every signal
/// a recorded suppression covers (exactly `spec_kept` of the queued signals,
/// through `drain_signals`).
pub fn analyze<M: QueryMatcher, P: SuppressionParser>(
    root: &SyntaxNode,
    matcher: &mut M,
    parser: &P,
    file_id: u32,
) -> (r: Vec<SignalEntry>)
    requires
        crate::tree::wf_tokens(crate::tree::node_tokens(*root)),
    ensures
        forall|i: int, j: int|
            0 <= i <= j < r@.len() ==> (#[trigger] r@[i]).text_range.start <= (
            #[trigger] r@[j]).text_range.start,
        exists|entries: Seq<SignalEntry>, sups: Seq<(RuleFilter, TextRange)>|
            sorted_desc(entries) && r@ == #[trigger] spec_kept(entries, sups),
{
    let mut queue = SignalQueue::new();
    let mut suppressions: Vec<(RuleFilter, TextRange)> = Vec::new();
    traverse(root, matcher, parser, file_id, &mut queue, &mut suppressions);
    let ghost entries = queue.entries@;
    let ghost sups = suppressions@;
    let r = drain_signals(queue, &suppressions);
    proof {
        assert(sorted_desc(entries) && r@ == spec_kept(entries, sups));
    }
    r
}

} // verus!

verus! {

/// A suppression list covers a signal when some entry's filter matches the
/// signal's rule and its range contains the signal's range.
pub open spec fn spec_suppressed(
    sups: Seq<(RuleFilter, TextRange)>,
    e: SignalEntry,
) -> bool {
    exists|i: int|
        0 <= i < sups.len() && spec_covers(#[trigger] sups[i], e)
}

/// One suppression entry covers one signal.
pub open spec fn spec_covers(s: (RuleFilter, TextRange), e: SignalEntry) -> bool {
    spec_filter_matches(s.0, e.rule.group_name@, e.rule.rule_name@) && s.1.start
        <= e.text_range.start && e.text_range.end <= s.1.end
}

/// The signals that survive a suppression list, in the order a sorted queue
/// releases them: the entry stored last (the earliest range start) first.
pub open spec fn spec_kept(
    signals: Seq<SignalEntry>,
    sups: Seq<(RuleFilter, TextRange)>,
) -> Seq<SignalEntry>
    decreases signals,
{
    if signals.len() == 0 {
        Seq::empty()
    } else if spec_suppressed(sups, signals.last()) {
        spec_kept(signals.drop_last(), sups)
    } else {
        seq![signals.last()] + spec_kept(signals.drop_last(), sups)
    }
}

/// Suppression is selective: adding one suppression entry removes exactly
/// the signals that entry covers and leaves every other signal in place —
/// the signals kept under the extended list are the signals kept under the
/// original list minus those the new entry covers.
pub proof fn lemma_suppression_idempotence(
    signals: Seq<SignalEntry>,
    sups: Seq<(RuleFilter, TextRange)>,
    extra: (RuleFilter, TextRange),
)
    ensures
        spec_kept(signals, sups.push(extra)) == spec_kept(signals, sups).filter(
            |e: SignalEntry| !spec_covers(extra, e),
        ),
    decreases signals,
{
    reveal(Seq::filter);
    let sups2 = sups.push(extra);
    let pred = |e: SignalEntry| !spec_covers(extra, e);
    if signals.len() == 0 {
        assert(spec_kept(signals, sups2) =~= Seq::<SignalEntry>::empty());
        assert(spec_kept(signals, sups).filter(pred) =~= Seq::<SignalEntry>::empty());
    } else {
        let e = signals.last();
        lemma_suppression_idempotence(signals.drop_last(), sups, extra);
        assert(spec_suppressed(sups2, e) == (spec_suppressed(sups, e) || spec_covers(extra, e)))
            by {
            if spec_suppressed(sups, e) {
                let i = choose|i: int| 0 <= i < sups.len() && spec_covers(sups[i], e);
                assert(sups2[i] == sups[i]);
            }
            if spec_covers(extra, e) {
                assert(sups2[sups.len() as int] == extra);
            }
            if spec_suppressed(sups2, e) {
                let i = choose|i: int| 0 <= i < sups2.len() && spec_covers(sups2[i], e);
                if i < sups.len() {
                    assert(spec_covers(sups[i], e));
                }
            }
        }
        if spec_suppressed(sups, e) {
            assert(spec_kept(signals, sups).filter(pred) =~= spec_kept(
                signals.drop_last(),
                sups,
            ).filter(pred));
        } else {
            let base = spec_kept(signals.drop_last(), sups);
            Seq::<SignalEntry>::filter_distributes_over_add(seq![e], base, pred);
            assert(seq![e].drop_last() =~= Seq::<SignalEntry>::empty());
            assert(seq![e].last() == e);
            if spec_covers(extra, e) {
                assert(!pred(e));
                assert(Seq::<SignalEntry>::empty().filter(pred) =~= Seq::<SignalEntry>::empty());
                assert(seq![e].filter(pred) =~= Seq::<SignalEntry>::empty());
                assert((seq![e] + base).filter(pred) =~= base.filter(pred));
            } else {
                assert(pred(e));
                assert(Seq::<SignalEntry>::empty().filter(pred) =~= Seq::<SignalEntry>::empty());
                assert(seq![e].filter(pred) =~= seq![e]);
                assert((seq![e] + base).filter(pred) =~= seq![e] + base.filter(pred));
            }
            assert(spec_kept(signals, sups) == seq![e] + base);
        }
    }
}

} // verus!
