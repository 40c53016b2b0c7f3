use vstd::prelude::*;

use crate::pattern::MatchData;
use crate::pattern::pairs_view;

verus! {

/// The end offset of the whole match (group 0), or -1 when the match has
/// no group-0 span, which the collector never produces.
pub open spec fn whole_match_end(spans: Seq<Option<(usize, usize)>>) -> int {
    if spans.len() == 0 {
        -1
    } else {
        match spans[0] {
            Some(se) => se.1 as int,
            None => -1,
        }
    }
}

/// The view of a list of expansion strings as a sequence of character
/// sequences.
pub open spec fn strings_view(es: Seq<String>) -> Seq<Seq<char>> {
    es.map_values(|s: String| s@)
}

/// The expanded replacement strings queued at byte offset `k`: one entry
/// per match whose whole-match span ends at `k`, in match order.
pub open spec fn expansions_at(
    ms: Seq<(Seq<Option<(usize, usize)>>, Seq<char>)>,
    k: int,
) -> Seq<Seq<char>>
    decreases ms.len(),
{
    if ms.len() == 0 {
        Seq::empty()
    } else {
        expansions_at(ms.drop_last(), k) + (if whole_match_end(ms.last().0) == k {
            seq![ms.last().1]
        } else {
            Seq::empty()
        })
    }
}

proof fn lemma_expansions_at_step(
    ms: Seq<(Seq<Option<(usize, usize)>>, Seq<char>)>,
    i: int,
    k: int,
)
    requires
        0 <= i < ms.len(),
    ensures
        expansions_at(ms.take(i + 1), k) == expansions_at(ms.take(i), k) + (if whole_match_end(
            ms[i].0,
        ) == k {
            seq![ms[i].1]
        } else {
            Seq::<Seq<char>>::empty()
        }),
{
    let t = ms.take(i + 1);
    assert(t.last() == ms[i]);
    assert(t.drop_last() =~= ms.take(i));
}

/// Builds the expansion table for one line of `line_len` bytes: entry `k`
/// holds the expanded replacement of every match whose whole match ends at
/// byte offset `k`, in match order. Offsets run from 0 to `line_len`
/// inclusive, so a match ending at the end of the line is kept too.
pub fn index_expansions(line_len: usize, matches: &Vec<MatchData>) -> (table: Vec<Vec<String>>)
    ensures
        table@.len() == line_len + 1,
        forall|k: int|
            0 <= k <= line_len ==> strings_view(#[trigger] table@[k]@) == expansions_at(
                pairs_view(matches@),
                k,
            ),
{
    let ghost pairs = pairs_view(matches@);
    let mut table: Vec<Vec<String>> = Vec::new();
    let mut k: usize = 0;
    while k < line_len
        invariant
            k <= line_len,
            table@.len() == k,
            pairs == pairs_view(matches@),
            forall|k2: int|
                0 <= k2 < k ==> strings_view(#[trigger] table@[k2]@) == expansions_at(pairs, k2),
        decreases line_len - k,
    {
        let bucket = collect_bucket(k, matches);
        table.push(bucket);
        k = k + 1;
    }
    let bucket = collect_bucket(line_len, matches);
    table.push(bucket);
    table
}

/// The expansions queued at one byte offset, gathered in match order.
fn collect_bucket(k: usize, matches: &Vec<MatchData>) -> (bucket: Vec<String>)
    ensures
        strings_view(bucket@) == expansions_at(pairs_view(matches@), k as int),
{
    let ghost pairs = pairs_view(matches@);
    let mut bucket: Vec<String> = Vec::new();
    let mut i: usize = 0;
    while i < matches.len()
        invariant
            i <= matches@.len(),
            pairs == pairs_view(matches@),
            strings_view(bucket@) == expansions_at(pairs.take(i as int), k as int),
        decreases matches@.len() - i,
    {
        assert(pairs[i as int] == (matches@[i as int].spans@, matches@[i as int].expansion@));
        let m = &matches[i];
        let mut hit = false;
        if m.spans.len() > 0 {
            match m.spans[0] {
                Some(se) => {
                    if se.1 == k {
                        hit = true;
                    }
                },
                None => {},
            }
        }
        if hit {
            bucket.push(m.expansion.clone());
        }
        proof {
            lemma_expansions_at_step(pairs, i as int, k as int);
            assert(strings_view(bucket@) =~= expansions_at(pairs.take(i as int + 1), k as int));
        }
        i = i + 1;
    }
    proof {
        assert(pairs.take(matches@.len() as int) =~= pairs);
    }
    bucket
}

} // verus!
