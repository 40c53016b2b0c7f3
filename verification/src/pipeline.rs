use vstd::prelude::*;

use crate::expand::expansions_at;
use crate::expand::index_expansions;
use crate::expand::strings_view;
use crate::pattern::CompiledPattern;
use crate::pattern::collect_matches;
use crate::pattern::pairs_view;
use crate::pattern::regex_expansion;
use crate::pattern::regex_matches;
use crate::pattern::regex_replaced;
use crate::pattern::replace_all;
use crate::render::render_line;
use crate::render::render_spec;
use crate::render::table_view;
use crate::segment::Tag;
use crate::segment::annotate;
use crate::segment::owner_spec;
use crate::segment::tag_of;
use vstd::utf8::encode_utf8;

verus! {

/// The spans of every match of `pattern` in `line`, paired with the
/// expansion of `template` against that match, in match order.
pub open spec fn match_pair_seq(
    pattern: Seq<char>,
    line: Seq<char>,
    template: Seq<char>,
) -> Seq<(Seq<Option<(usize, usize)>>, Seq<char>)> {
    Seq::new(
        regex_matches(pattern, line).len(),
        |i: int| (regex_matches(pattern, line)[i], regex_expansion(pattern, line, template, i)),
    )
}

/// The owner of every byte of `line` under the matches of `pattern`,
/// later matches and higher group indices overwriting earlier ones.
pub open spec fn line_owner_tags(pattern: Seq<char>, line: Seq<char>) -> Seq<Tag> {
    Seq::new(
        encode_utf8(line).len(),
        |j: int| tag_of(owner_spec(regex_matches(pattern, line), j)),
    )
}

/// The expansions queued at every byte offset of `line`, offsets 0 to the
/// line's byte length inclusive.
pub open spec fn line_expansion_table(
    pattern: Seq<char>,
    line: Seq<char>,
    template: Seq<char>,
) -> Seq<Seq<Seq<char>>> {
    Seq::new(
        encode_utf8(line).len() + 1,
        |k: int| expansions_at(match_pair_seq(pattern, line, template), k),
    )
}

/// The full annotated rendering of one line, newline terminated: its runs
/// plain or highlighted by owner, with each match's expansion inserted
/// where the match ends.
pub open spec fn annotated_line(
    pattern: Seq<char>,
    line: Seq<char>,
    template: Seq<char>,
) -> Seq<u8> {
    render_spec(
        encode_utf8(line),
        line_owner_tags(pattern, line),
        line_expansion_table(pattern, line, template),
    ) + seq![10u8]
}

/// Annotates one line of text: collects the pattern's matches, assigns
/// every byte its owning capture group (last write wins), queues the
/// expanded replacement of each match at the match's end offset, and
/// renders the line as highlighted runs with the expansions interleaved,
/// newline terminated.
pub fn annotate_line(cp: &CompiledPattern, line: &str, template: &str) -> (out: Vec<u8>)
    ensures
        out@ == annotated_line(cp@, line@, template@),
{
    let bytes: &[u8] = line.as_bytes();
    let ms = collect_matches(cp, line, template);
    let owners = annotate(bytes.len(), &ms);
    let table = index_expansions(bytes.len(), &ms);
    proof {
        assert(bytes@ == encode_utf8(line@));
        assert(owners@ =~= line_owner_tags(cp@, line@));
        assert(pairs_view(ms@) =~= match_pair_seq(cp@, line@, template@));
        assert forall|k: int| 0 <= k < table@.len() implies #[trigger] table_view(table@)[k]
            == line_expansion_table(cp@, line@, template@)[k] by {
            assert(table_view(table@)[k] == strings_view(table@[k]@));
        }
        assert(table_view(table@) =~= line_expansion_table(cp@, line@, template@));
    }
    let mut out = render_line(bytes, &owners, &table);
    out.push(10u8);
    proof {
        assert(out@ =~= annotated_line(cp@, line@, template@));
    }
    out
}

/// The unified diff text between two texts, under two header labels.
pub uninterp spec fn unified_diff_of(
    from: Seq<char>,
    to: Seq<char>,
    old_text: Seq<char>,
    new_text: Seq<char>,
) -> Seq<char>;

/// Relies on similar::TextDiff::from_lines and similar::udiff::UnifiedDiff
/// with a header: the unified diff text is a pure function of the two
/// texts and the two header labels (Myers algorithm, default context of
/// three lines, no deadline). Hunks are emitted only around changes and
/// the header only before the first hunk, so the diff of two equal texts
/// is empty.
#[verifier::external_body]
fn unified_diff_raw(from: &str, to: &str, old_text: &str, new_text: &str) -> (r: String)
    ensures
        r@ == unified_diff_of(from@, to@, old_text@, new_text@),
        old_text@ == new_text@ ==> r@.len() == 0,
{
    let diff = similar::TextDiff::from_lines(old_text, new_text);
    format!("{}", diff.unified_diff().header(from, to))
}

/// Substitutes every match of the pattern in the whole text and renders
/// the unified diff from the original text to the substituted text, the
/// same path standing as both header labels. A text without a match is
/// left unchanged by the substitution, so its diff is empty.
pub fn process_diff(cp: &CompiledPattern, path: &str, text: &str, template: &str) -> (r: String)
    ensures
        r@ == unified_diff_of(path@, path@, text@, regex_replaced(cp@, text@, template@)),
        regex_matches(cp@, text@).len() == 0 ==> r@.len() == 0,
{
    let after = replace_all(cp, text, template);
    unified_diff_raw(path, path, text, after.as_str())
}

} // verus!
