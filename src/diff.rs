//! Line-oriented diff of expected against actual output, rendered with a
//! one-character mark in front of every line.
use vstd::prelude::*;
use crate::text::{join, joined, split, split_spec, views};
use difference::{Changeset, Difference};

verus! {

/// What a span of lines is: kept, added in the actual text, or removed from
/// the expected text.
#[derive(Clone, Copy, Debug, PartialEq, Eq, Structural)]
pub enum SpanKind {
    Same,
    Add,
    Rem,
}

/// A run of lines of one kind, held as the lines joined with line breaks.
#[derive(Debug)]
pub struct Span {
    pub kind: SpanKind,
    pub text: String,
}

impl View for Span {
    type V = (SpanKind, Seq<char>);

    open spec fn view(&self) -> (SpanKind, Seq<char>) {
        (self.kind, self.text@)
    }
}

/// The views of a sequence of spans.
pub open spec fn span_views(s: Seq<Span>) -> Seq<(SpanKind, Seq<char>)> {
    s.map_values(|x: Span| x@)
}

/// The spans of the line diff of `orig` against `edit`, with lines separated by `sep`.
pub uninterp spec fn line_changes(orig: Seq<char>, edit: Seq<char>, sep: Seq<char>) -> Seq<
    (SpanKind, Seq<char>),
>;

/// Relies on `difference::Changeset::new`: its spans depend on the three texts
/// alone, and two equal texts give unchanged spans only (their common
/// subsequence is the whole text, so nothing is added or removed).
#[verifier::external_body]
fn changeset(orig: &str, edit: &str, sep: &str) -> (r: Vec<Span>)
    ensures
        span_views(r@) == line_changes(orig@, edit@, sep@),
        orig@ == edit@ ==> forall|i: int| 0 <= i < r@.len() ==> r@[i].kind == SpanKind::Same,
{
    Changeset::new(orig, edit, sep).diffs.into_iter().map(|d| match d {
        Difference::Same(text) => Span { kind: SpanKind::Same, text },
        Difference::Add(text) => Span { kind: SpanKind::Add, text },
        Difference::Rem(text) => Span { kind: SpanKind::Rem, text },
    }).collect()
}

/// The mark in front of each line of a span of this kind.
pub open spec fn mark(kind: SpanKind) -> char {
    match kind {
        SpanKind::Same => ' ',
        SpanKind::Add => '+',
        SpanKind::Rem => '-',
    }
}

/// Every line of `text` with `symbol` in front, each followed by a line break.
pub open spec fn prefixed(symbol: char, text: Seq<char>) -> Seq<char> {
    joined(split_spec(text, seq!['\n']).map_values(|l: Seq<char>| seq![symbol] + l), seq!['\n'])
        + seq!['\n']
}

/// The spans rendered one after another, each line marked by its span's kind.
pub open spec fn rendered(spans: Seq<(SpanKind, Seq<char>)>) -> Seq<char>
    decreases spans.len(),
{
    if spans.len() == 0 {
        Seq::empty()
    } else {
        rendered(spans.drop_last()) + prefixed(mark(spans.last().0), spans.last().1)
    }
}

/// Whether some span adds or removes a non-empty text.
pub open spec fn has_change(spans: Seq<(SpanKind, Seq<char>)>) -> bool {
    exists|i: int| 0 <= i < spans.len() && spans[i].0 != SpanKind::Same && spans[i].1.len() > 0
}

/// The rendered diff when something changed, and the empty text otherwise.
pub open spec fn diff_text(spans: Seq<(SpanKind, Seq<char>)>) -> Seq<char> {
    if has_change(spans) {
        rendered(spans)
    } else {
        Seq::empty()
    }
}

/// Puts `symbol` in front of every line of `line` and ends each with a line break.
pub fn diff_line(symbol: char, line: String) -> (r: String)
    ensures
        r@ == prefixed(symbol, line@),
{
    proof {
        reveal_strlit("\n");
        assert("\n"@ =~= seq!['\n']);
    }
    let lines = split(line.as_str(), "\n");
    let mut marked: Vec<String> = Vec::new();
    let mut i: usize = 0;
    while i < lines.len()
        invariant
            i <= lines@.len(),
            views(lines@) == split_spec(line@, seq!['\n']),
            views(marked@) =~= views(lines@).subrange(0, i as int).map_values(
                |l: Seq<char>| seq![symbol] + l,
            ),
        decreases lines@.len() - i,
    {
        let mut m = String::new();
        crate::text::push_char(&mut m, symbol);
        m.append(lines[i].as_str());
        let ghost marked0 = marked@;
        marked.push(m);
        assert(views(marked@) =~= views(marked0).push(m@));
        i = i + 1;
    }
    assert(views(lines@).subrange(0, lines@.len() as int) =~= views(lines@));
    let mut out = join(&marked, "\n");
    out.append("\n");
    out
}

/// Renders `spans` and tells whether any of them adds or removes a non-empty
/// text; when none does, the rendered text is dropped for the empty text.
pub fn render_changes(spans: &Vec<Span>) -> (r: (String, bool))
    ensures
        r.1 == has_change(span_views(spans@)),
        r.0@ == diff_text(span_views(spans@)),
{
    let mut out = String::new();
    let mut changed = false;
    let mut i: usize = 0;
    while i < spans.len()
        invariant
            i <= spans@.len(),
            out@ == rendered(span_views(spans@.subrange(0, i as int))),
            changed == has_change(span_views(spans@.subrange(0, i as int))),
        decreases spans@.len() - i,
    {
        let ghost pre = span_views(spans@.subrange(0, i as int));
        let ghost now = span_views(spans@.subrange(0, i + 1));
        assert(now.drop_last() =~= pre);
        assert(now.last() == spans@[i as int]@);
        let symbol = match spans[i].kind {
            SpanKind::Same => ' ',
            SpanKind::Add => '+',
            SpanKind::Rem => '-',
        };
        let piece = diff_line(symbol, spans[i].text.clone());
        out.append(piece.as_str());
        let step = match spans[i].kind {
            SpanKind::Same => false,
            _ => spans[i].text.as_str().unicode_len() > 0,
        };
        proof {
            if step {
                assert(now[i as int].0 != SpanKind::Same && now[i as int].1.len() > 0);
            }
            if changed {
                let k = choose|k: int|
                    0 <= k < pre.len() && pre[k].0 != SpanKind::Same && pre[k].1.len() > 0;
                assert(now[k] == pre[k]);
            }
            if has_change(now) {
                let k = choose|k: int|
                    0 <= k < now.len() && now[k].0 != SpanKind::Same && now[k].1.len() > 0;
                if k < i {
                    assert(now[k] == pre[k]);
                }
            }
        }
        changed = changed || step;
        i = i + 1;
    }
    assert(spans@.subrange(0, spans@.len() as int) =~= spans@);
    if !changed {
        out = String::new();
    }
    (out, changed)
}

/// The line diff of `expected` against `actual`, rendered, and whether any
/// line was added or removed. Equal texts give the empty text and `false`.
pub fn diff(expected: &str, actual: &str) -> (r: (String, bool))
    ensures
        r.1 == has_change(line_changes(expected@, actual@, seq!['\n'])),
        r.0@ == diff_text(line_changes(expected@, actual@, seq!['\n'])),
        expected@ == actual@ ==> r.0@.len() == 0 && !r.1,
{
    proof {
        reveal_strlit("\n");
        assert("\n"@ =~= seq!['\n']);
    }
    let spans = changeset(expected, actual, "\n");
    render_changes(&spans)
}

} // verus!
