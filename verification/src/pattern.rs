use vstd::prelude::*;

use crate::RepatError;
use vstd::utf8::encode_utf8;

verus! {

/// Declares regex::Regex to Verus: a compiled regular expression, opaque
/// here; everything known about it is said by the wrappers below.
#[verifier::external_type_specification]
#[verifier::external_body]
pub struct ExRegex(regex::Regex);

/// A regular expression together with the pattern text it was compiled
/// from; built only by `compile`.
pub struct CompiledPattern {
    re: regex::Regex,
    source: String,
}

impl View for CompiledPattern {
    type V = Seq<char>;

    /// The pattern text this regular expression was compiled from.
    closed spec fn view(&self) -> Seq<char> {
        self.source@
    }
}

/// Whether the pattern text is a valid regular expression that the engine
/// accepts: a function of the text alone.
pub uninterp spec fn regex_compiles(pattern: Seq<char>) -> bool;

/// The capture spans of every match that the compiled form of `pattern`
/// finds in `line`: the successive non-overlapping matches, leftmost
/// first; one inner sequence per match, indexed by capture group, `None`
/// for a group that did not participate. Spans are byte offsets into the
/// line.
pub uninterp spec fn regex_matches(pattern: Seq<char>, line: Seq<char>) -> Seq<
    Seq<Option<(usize, usize)>>,
>;

/// The expansion of `template` against the captures of match number `idx`
/// of `pattern` in `line`: capture references replaced by the captured
/// text, or by the empty string where the group did not participate.
pub uninterp spec fn regex_expansion(
    pattern: Seq<char>,
    line: Seq<char>,
    template: Seq<char>,
    idx: int,
) -> Seq<char>;

/// The whole text `text` with every match of `pattern` replaced by the
/// expansion of `template` against that match's captures.
pub uninterp spec fn regex_replaced(
    pattern: Seq<char>,
    text: Seq<char>,
    template: Seq<char>,
) -> Seq<char>;

/// Relies on regex::Regex::new: whether it succeeds depends on the
/// pattern text alone; on success the compiled value is kept beside its
/// source text, on failure it reports why the pattern is invalid.
#[verifier::external_body]
fn compile_raw(pattern: &str) -> (r: Result<CompiledPattern, String>)
    ensures
        r is Ok <==> regex_compiles(pattern@),
        r is Ok ==> r->Ok_0@ == pattern@,
{
    match regex::Regex::new(pattern) {
        Ok(re) => Ok(CompiledPattern { re, source: pattern.to_owned() }),
        Err(e) => Err(format!("{}", e)),
    }
}

/// Compiles the pattern, or reports the invalid pattern with the regex
/// engine's message: it succeeds exactly when the pattern text is a valid
/// regular expression.
pub fn compile(pattern: &str) -> (r: Result<CompiledPattern, RepatError>)
    ensures
        r is Ok <==> regex_compiles(pattern@),
        r is Ok ==> r->Ok_0@ == pattern@,
        r is Err ==> r->Err_0 is InvalidPattern,
{
    match compile_raw(pattern) {
        Ok(cp) => Ok(cp),
        Err(msg) => Err(RepatError::InvalidPattern(msg)),
    }
}

/// Relies on regex::Regex::captures_iter (the successive non-overlapping
/// matches, leftmost first), regex::Captures::iter (one entry per capture
/// group, group 0 first, `None` for a group that did not participate; the
/// group-0 entry is never `None`; every group's span lies inside the
/// whole match's span, a group being part of the pattern that matched
/// it), regex::Match::start and end (byte offsets into the line, start at
/// most end at most the line's byte length), and regex::Captures::expand
/// (the template expanded against this match's captures).
#[verifier::external_body]
pub(crate) fn collect_matches(cp: &CompiledPattern, line: &str, template: &str) -> (r: Vec<
    MatchData,
>)
    ensures
        spans_view(r@) == regex_matches(cp@, line@),
        forall|i: int|
            0 <= i < r@.len() ==> (#[trigger] r@[i]).expansion@ == regex_expansion(
                cp@,
                line@,
                template@,
                i,
            ),
        forall|i: int|
            0 <= i < r@.len() ==> (#[trigger] r@[i]).spans@.len() > 0 && r@[i].spans@[0] is Some,
        forall|i: int, g: int|
            0 <= i < r@.len() && 0 <= g < r@[i].spans@.len() ==> crate::segment::span_in_bounds(
                #[trigger] r@[i].spans@[g],
                encode_utf8(line@).len() as int,
            ),
        forall|i: int|
            0 <= i < r@.len() - 1 ==> (#[trigger] whole_span(r@[i].spans@)).1 <= whole_span(
                r@[i + 1].spans@,
            ).0,
        forall|i: int, g: int|
            0 <= i < r@.len() && 0 <= g < r@[i].spans@.len() ==> span_within(
                #[trigger] r@[i].spans@[g],
                whole_span(r@[i].spans@),
            ),
{
    let mut out: Vec<MatchData> = Vec::new();
    for caps in cp.re.captures_iter(line) {
        let mut spans: Vec<Option<(usize, usize)>> = Vec::new();
        for group in caps.iter() {
            match group {
                Some(m) => spans.push(Some((m.start(), m.end()))),
                None => spans.push(None),
            }
        }
        let mut expansion = String::new();
        caps.expand(template, &mut expansion);
        out.push(MatchData { spans, expansion });
    }
    out
}

/// The whole-match span of one match: its group-0 entry, which the
/// collector always records.
pub open spec fn whole_span(spans: Seq<Option<(usize, usize)>>) -> (usize, usize) {
    match spans[0] {
        Some(se) => se,
        None => (0usize, 0usize),
    }
}

/// The span, if any, lies inside the outer span.
pub open spec fn span_within(sp: Option<(usize, usize)>, outer: (usize, usize)) -> bool {
    match sp {
        Some(se) => outer.0 <= se.0 && se.1 <= outer.1,
        None => true,
    }
}

/// Relies on regex::Regex::replace_all: the text with every
/// non-overlapping match replaced by the expanded template; when there is
/// no match, the text is returned unchanged.
#[verifier::external_body]
pub(crate) fn replace_all(cp: &CompiledPattern, text: &str, template: &str) -> (r: String)
    ensures
        r@ == regex_replaced(cp@, text@, template@),
        regex_matches(cp@, text@).len() == 0 ==> r@ == text@,
{
    cp.re.replace_all(text, template).into_owned()
}

/// The capture spans and expanded replacement of one whole match.
///
/// `spans[g]` is the byte span `(start, end)` of capture group `g` of this
/// match, with `end` exclusive, or `None` where the group did not
/// participate in the match. Group 0 is the whole match. `expansion` is the
/// replacement template expanded against this match's captures.
pub struct MatchData {
    pub spans: Vec<Option<(usize, usize)>>,
    pub expansion: String,
}

/// The capture spans of every match, as one mathematical sequence.
pub open spec fn spans_view(ms: Seq<MatchData>) -> Seq<Seq<Option<(usize, usize)>>> {
    ms.map_values(|m: MatchData| m.spans@)
}

/// The spans and the expanded replacement of every match, paired up.
pub open spec fn pairs_view(ms: Seq<MatchData>) -> Seq<(Seq<Option<(usize, usize)>>, Seq<char>)> {
    ms.map_values(|m: MatchData| (m.spans@, m.expansion@))
}

} // verus!
