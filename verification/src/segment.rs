use vstd::prelude::*;

use crate::pattern::MatchData;
use crate::pattern::span_within;
use crate::pattern::spans_view;
use crate::pattern::whole_span;

verus! {

/// The owner of one byte of a line: either no capture group at all, or the
/// capture group with the given index.
#[derive(Clone, Copy, Debug, PartialEq, Eq, Structural)]
pub enum Tag {
    Plain,
    Group(usize),
}

/// Whether the span covers byte position `j`.
pub open spec fn span_covers(sp: Option<(usize, usize)>, j: int) -> bool {
    match sp {
        Some(se) => se.0 <= j < se.1,
        None => false,
    }
}

/// The span `(start, end)` is well formed and lies inside a line of
/// `line_len` bytes.
pub open spec fn span_in_bounds(sp: Option<(usize, usize)>, line_len: int) -> bool {
    match sp {
        Some(se) => se.0 <= se.1 <= line_len,
        None => true,
    }
}

/// The highest group index among the spans of one match that cover byte
/// `j`, or `None` when no span of the match covers it. Groups are written
/// in ascending index order, so the highest covering index is the last
/// write.
pub open spec fn match_owner(spans: Seq<Option<(usize, usize)>>, j: int) -> Option<int>
    decreases spans.len(),
{
    if spans.len() == 0 {
        None
    } else if span_covers(spans.last(), j) {
        Some(spans.len() - 1)
    } else {
        match_owner(spans.drop_last(), j)
    }
}

/// The owner of byte `j` after every match has been written, later matches
/// overwriting earlier ones (last-write-wins).
pub open spec fn owner_spec(ms: Seq<Seq<Option<(usize, usize)>>>, j: int) -> Option<int>
    decreases ms.len(),
{
    if ms.len() == 0 {
        None
    } else {
        match match_owner(ms.last(), j) {
            Some(g) => Some(g),
            None => owner_spec(ms.drop_last(), j),
        }
    }
}

/// The owner as rendered: a group index, or no owner at all.
pub open spec fn tag_of(o: Option<int>) -> Tag {
    match o {
        Some(g) => Tag::Group(g as usize),
        None => Tag::Plain,
    }
}

/// The owner that the spans of one single match, cut off after group `g`,
/// give to byte `j`, over a base owner array built from the earlier matches.
pub open spec fn partial_owner(
    prev: Seq<Seq<Option<(usize, usize)>>>,
    spans: Seq<Option<(usize, usize)>>,
    j: int,
) -> Option<int> {
    match match_owner(spans, j) {
        Some(g) => Some(g),
        None => owner_spec(prev, j),
    }
}

proof fn lemma_match_owner_step(spans: Seq<Option<(usize, usize)>>, g: int, j: int)
    requires
        0 <= g < spans.len(),
    ensures
        match_owner(spans.take(g + 1), j) == (if span_covers(spans[g], j) {
            Some(g)
        } else {
            match_owner(spans.take(g), j)
        }),
{
    let t = spans.take(g + 1);
    assert(t.last() == spans[g]);
    assert(t.drop_last() =~= spans.take(g));
}

proof fn lemma_owner_spec_push(
    ms: Seq<Seq<Option<(usize, usize)>>>,
    spans: Seq<Option<(usize, usize)>>,
    j: int,
)
    ensures
        owner_spec(ms.push(spans), j) == partial_owner(ms, spans, j),
{
    let p = ms.push(spans);
    assert(p.last() == spans);
    assert(p.drop_last() =~= ms);
}

proof fn lemma_match_owner_none(spans: Seq<Option<(usize, usize)>>, j: int)
    requires
        forall|g: int| 0 <= g < spans.len() ==> !span_covers(#[trigger] spans[g], j),
    ensures
        match_owner(spans, j) == None::<int>,
    decreases spans.len(),
{
    if spans.len() > 0 {
        lemma_match_owner_none(spans.drop_last(), j);
    }
}

proof fn lemma_match_owner_highest(spans: Seq<Option<(usize, usize)>>, g: int, j: int)
    requires
        0 <= g < spans.len(),
        span_covers(spans[g], j),
        forall|g2: int| g < g2 < spans.len() ==> !span_covers(#[trigger] spans[g2], j),
    ensures
        match_owner(spans, j) == Some(g),
    decreases spans.len(),
{
    if g < spans.len() - 1 {
        lemma_match_owner_highest(spans.drop_last(), g, j);
    }
}

/// Law (last-write-wins): when a span of group `g` in match `mi` covers
/// byte `j`, no higher-indexed group of the same match covers it, and no
/// span of any later match covers it, then `j`'s owner is exactly group
/// `g`. In particular, an inner group whose span is a strict subset of its
/// parent's owns every byte of the inner span, since inner groups carry
/// higher indices than their parent and are written after it.
pub proof fn lemma_last_write_wins(
    ms: Seq<Seq<Option<(usize, usize)>>>,
    mi: int,
    g: int,
    j: int,
)
    requires
        0 <= mi < ms.len(),
        0 <= g < ms[mi].len(),
        span_covers(ms[mi][g], j),
        forall|g2: int| g < g2 < ms[mi].len() ==> !span_covers(#[trigger] ms[mi][g2], j),
        forall|m2: int, g2: int|
            mi < m2 < ms.len() && 0 <= g2 < ms[m2].len() ==> !span_covers(
                #[trigger] ms[m2][g2],
                j,
            ),
    ensures
        owner_spec(ms, j) == Some(g),
    decreases ms.len(),
{
    if mi == ms.len() - 1 {
        lemma_match_owner_highest(ms[mi], g, j);
    } else {
        lemma_match_owner_none(ms.last(), j);
        lemma_last_write_wins(ms.drop_last(), mi, g, j);
    }
}

/// Whether any span of one match covers byte `j`.
pub open spec fn match_covers(spans: Seq<Option<(usize, usize)>>, j: int) -> bool {
    match_owner(spans, j) is Some
}

/// Law (order independence): swapping two adjacent matches whose spans do
/// not both cover byte `j` leaves `j`'s owner unchanged. Non-overlapping
/// matches may therefore be applied in either order without changing the
/// final owner array.
pub proof fn lemma_swap_disjoint(ms: Seq<Seq<Option<(usize, usize)>>>, a: int, j: int)
    requires
        0 <= a,
        a + 1 < ms.len(),
        !(match_covers(ms[a], j) && match_covers(ms[a + 1], j)),
    ensures
        owner_spec(ms.update(a, ms[a + 1]).update(a + 1, ms[a]), j) == owner_spec(ms, j),
    decreases ms.len(),
{
    let sw = ms.update(a, ms[a + 1]).update(a + 1, ms[a]);
    if a + 1 == ms.len() - 1 {
        assert(sw.len() == ms.len());
        assert(sw.last() == ms[a]);
        assert(sw.drop_last().last() == ms[a + 1]);
        assert(sw.drop_last().drop_last() =~= ms.drop_last().drop_last());
        assert(ms.last() == ms[a + 1]);
        assert(ms.drop_last().last() == ms[a]);
        match match_owner(ms[a], j) {
            Some(g) => {
                assert(!match_covers(ms[a + 1], j));
                assert(owner_spec(ms, j) == owner_spec(ms.drop_last(), j));
                assert(owner_spec(ms.drop_last(), j) == Some(g));
                assert(owner_spec(sw, j) == Some(g));
            },
            None => {
                assert(owner_spec(sw, j) == owner_spec(sw.drop_last(), j));
                match match_owner(ms[a + 1], j) {
                    Some(g2) => {
                        assert(owner_spec(sw.drop_last(), j) == Some(g2));
                        assert(owner_spec(ms, j) == Some(g2));
                    },
                    None => {
                        assert(owner_spec(sw.drop_last(), j) == owner_spec(
                            sw.drop_last().drop_last(),
                            j,
                        ));
                        assert(owner_spec(ms, j) == owner_spec(ms.drop_last().drop_last(), j));
                    },
                }
            },
        }
    } else {
        assert(sw.last() == ms.last());
        assert(sw.drop_last() =~= ms.drop_last().update(a, ms[a + 1]).update(a + 1, ms[a]));
        lemma_swap_disjoint(ms.drop_last(), a, j);
    }
}

/// Every group span of one match lies inside its whole-match (group 0)
/// span, as the collector guarantees of real matches.
pub open spec fn groups_within(spans: Seq<Option<(usize, usize)>>) -> bool {
    forall|g: int| 0 <= g < spans.len() ==> span_within(#[trigger] spans[g], whole_span(spans))
}

proof fn lemma_cover_exists(spans: Seq<Option<(usize, usize)>>, j: int)
    requires
        match_covers(spans, j),
    ensures
        exists|g: int| 0 <= g < spans.len() && span_covers(#[trigger] spans[g], j),
    decreases spans.len(),
{
    if spans.len() > 0 {
        if span_covers(spans.last(), j) {
            assert(span_covers(spans[spans.len() - 1], j));
        } else {
            lemma_cover_exists(spans.drop_last(), j);
            let g0 = choose|g: int|
                0 <= g < spans.drop_last().len() && span_covers(#[trigger] spans.drop_last()[g], j);
            assert(span_covers(spans[g0], j));
        }
    }
}

/// When some span of the match covers byte `j` and every group span lies
/// inside the whole-match span, the whole-match span covers `j` too.
proof fn lemma_covered_inside_whole(spans: Seq<Option<(usize, usize)>>, j: int)
    requires
        match_covers(spans, j),
        groups_within(spans),
    ensures
        whole_span(spans).0 <= j < whole_span(spans).1,
{
    lemma_cover_exists(spans, j);
    let g = choose|g: int| 0 <= g < spans.len() && span_covers(#[trigger] spans[g], j);
    assert(span_within(spans[g], whole_span(spans)));
}

/// Law (order independence of non-overlapping matches): two adjacent
/// matches whose whole-match spans are disjoint, each with its group
/// spans inside its whole span as the collector yields them, may be
/// applied in either order: no byte's owner changes.
pub proof fn lemma_swap_disjoint_wholes(ms: Seq<Seq<Option<(usize, usize)>>>, a: int, j: int)
    requires
        0 <= a,
        a + 1 < ms.len(),
        groups_within(ms[a]),
        groups_within(ms[a + 1]),
        whole_span(ms[a]).1 <= whole_span(ms[a + 1]).0 || whole_span(ms[a + 1]).1 <= whole_span(
            ms[a],
        ).0,
    ensures
        owner_spec(ms.update(a, ms[a + 1]).update(a + 1, ms[a]), j) == owner_spec(ms, j),
{
    if match_covers(ms[a], j) && match_covers(ms[a + 1], j) {
        lemma_covered_inside_whole(ms[a], j);
        lemma_covered_inside_whole(ms[a + 1], j);
    }
    lemma_swap_disjoint(ms, a, j);
}

proof fn lemma_whole_chain(ms: Seq<Seq<Option<(usize, usize)>>>, m1: int, m2: int)
    requires
        0 <= m1 < m2 < ms.len(),
        forall|m: int|
            0 <= m < ms.len() - 1 ==> (#[trigger] whole_span(ms[m])).1 <= whole_span(ms[m + 1]).0,
        forall|m: int| 0 <= m < ms.len() ==> (#[trigger] whole_span(ms[m])).0 <= whole_span(ms[m]).1,
    ensures
        whole_span(ms[m1]).1 <= whole_span(ms[m2]).0,
    decreases m2 - m1,
{
    if m1 + 1 < m2 {
        lemma_whole_chain(ms, m1, m2 - 1);
    }
}

/// Law (last-write-wins, collector form): for matches as the collector
/// yields them — whole-match spans well formed and in order, group spans
/// inside their whole spans — when group `g` of match `mi` covers byte
/// `j` and no higher-indexed group of that match covers it, the byte's
/// owner is exactly group `g`. In particular an inner group, which
/// carries a higher index than its parent, owns every byte of its span
/// that no deeper group covers.
pub proof fn lemma_inner_group_wins(ms: Seq<Seq<Option<(usize, usize)>>>, mi: int, g: int, j: int)
    requires
        0 <= mi < ms.len(),
        0 <= g < ms[mi].len(),
        span_covers(ms[mi][g], j),
        forall|g2: int| g < g2 < ms[mi].len() ==> !span_covers(#[trigger] ms[mi][g2], j),
        forall|m: int| 0 <= m < ms.len() ==> groups_within(#[trigger] ms[m]),
        forall|m: int|
            0 <= m < ms.len() - 1 ==> (#[trigger] whole_span(ms[m])).1 <= whole_span(ms[m + 1]).0,
        forall|m: int| 0 <= m < ms.len() ==> (#[trigger] whole_span(ms[m])).0 <= whole_span(ms[m]).1,
    ensures
        owner_spec(ms, j) == Some(g),
{
    assert(groups_within(ms[mi]));
    assert(span_within(ms[mi][g], whole_span(ms[mi])));
    assert forall|m2: int, g2: int|
        mi < m2 < ms.len() && 0 <= g2 < ms[m2].len() implies !span_covers(
        #[trigger] ms[m2][g2],
        j,
    ) by {
        lemma_whole_chain(ms, mi, m2);
        assert(groups_within(ms[m2]));
        assert(span_within(ms[m2][g2], whole_span(ms[m2])));
    }
    lemma_last_write_wins(ms, mi, g, j);
}

/// Builds the owner array for one line: every byte starts unowned, then the
/// spans of each match are written over it in collector order, groups in
/// ascending index order, each write overwriting what was there before.
/// One pass over the spans: the work is the total length of the matched
/// spans, not the line length times the number of matches.
pub fn annotate(line_len: usize, matches: &Vec<MatchData>) -> (owners: Vec<Tag>)
    requires
        forall|i: int, g: int|
            0 <= i < matches@.len() && 0 <= g < matches@[i].spans@.len() ==> span_in_bounds(
                #[trigger] matches@[i].spans@[g],
                line_len as int,
            ),
    ensures
        owners@.len() == line_len,
        forall|j: int|
            0 <= j < line_len ==> owners@[j] == tag_of(
                owner_spec(spans_view(matches@), j),
            ),
{
    let mut owners: Vec<Tag> = Vec::new();
    let mut k: usize = 0;
    while k < line_len
        invariant
            k <= line_len,
            owners@.len() == k,
            forall|j: int| 0 <= j < k ==> owners@[j] == Tag::Plain,
        decreases line_len - k,
    {
        owners.push(Tag::Plain);
        k = k + 1;
    }
    let ghost all = spans_view(matches@);
    assert(all.len() == matches@.len());
    let mut mi: usize = 0;
    while mi < matches.len()
        invariant
            mi <= matches@.len(),
            owners@.len() == line_len,
            all == spans_view(matches@),
            forall|i: int, g: int|
                0 <= i < matches@.len() && 0 <= g < matches@[i].spans@.len() ==> span_in_bounds(
                    #[trigger] matches@[i].spans@[g],
                    line_len as int,
                ),
            forall|j: int|
                0 <= j < line_len ==> owners@[j] == tag_of(
                    owner_spec(all.take(mi as int), j),
                ),
        decreases matches@.len() - mi,
    {
        let spans: &Vec<Option<(usize, usize)>> = &matches[mi].spans;
        assert(all[mi as int] == spans@);
        let ghost prev = all.take(mi as int);
        let mut g: usize = 0;
        while g < spans.len()
            invariant
                g <= spans@.len(),
                owners@.len() == line_len,
                spans@ == matches@[mi as int].spans@,
                mi < matches@.len(),
                forall|i: int, gg: int|
                    0 <= i < matches@.len() && 0 <= gg < matches@[i].spans@.len()
                        ==> span_in_bounds(#[trigger] matches@[i].spans@[gg], line_len as int),
                forall|j: int|
                    0 <= j < line_len ==> owners@[j] == tag_of(
                        partial_owner(prev, spans@.take(g as int), j),
                    ),
            decreases spans@.len() - g,
        {
            let sp = spans[g];
            match sp {
                Some(se) => {
                    assert(span_in_bounds(spans@[g as int], line_len as int));
                    let start = se.0;
                    let end = se.1;
                    let mut j = start;
                    while j < end
                        invariant
                            start <= j <= end,
                            end <= line_len,
                            owners@.len() == line_len,
                            forall|p: int|
                                0 <= p < line_len && !(start <= p < j) ==> owners@[p] == tag_of(
                                    partial_owner(prev, spans@.take(g as int), p),
                                ),
                            forall|p: int|
                                start <= p < j ==> owners@[p] == Tag::Group(g),
                        decreases end - j,
                    {
                        owners.set(j, Tag::Group(g));
                        j = j + 1;
                    }
                },
                None => {},
            }
            assert forall|p: int| 0 <= p < line_len implies owners@[p] == tag_of(
                partial_owner(prev, spans@.take(g as int + 1), p),
            ) by {
                lemma_match_owner_step(spans@, g as int, p);
            }
            g = g + 1;
        }
        proof {
            assert(spans@.take(g as int) =~= spans@);
            assert forall|j: int| 0 <= j < line_len implies owners@[j] == tag_of(
                owner_spec(all.take(mi as int + 1), j),
            ) by {
                lemma_owner_spec_push(prev, spans@, j);
                assert(prev.push(spans@) =~= all.take(mi as int + 1));
            }
        }
        mi = mi + 1;
    }
    proof {
        assert(all.take(matches@.len() as int) =~= all);
    }
    owners
}

} // verus!
