use vstd::prelude::*;

use crate::expand::strings_view;
use crate::segment::Tag;
use crate::style::INSERT_STYLE;
use crate::style::PALETTE_SIZE;
use crate::style::style_prefix;
use crate::style::style_prefix_of;
use crate::style::style_suffix;
use crate::style::style_suffix_of;
use vstd::utf8::encode_utf8;

verus! {

/// The view of the expansion table: entry `k` is the list of expansion
/// strings queued at byte offset `k`, as character sequences.
pub open spec fn table_view(t: Seq<Vec<String>>) -> Seq<Seq<Seq<char>>> {
    t.map_values(|v: Vec<String>| strings_view(v@))
}

/// A payload wrapped in the opening and closing escape sequences of one
/// style code.
pub open spec fn decorated(code: int, payload: Seq<u8>) -> Seq<u8> {
    style_prefix_of(code) + payload + style_suffix_of(code)
}

/// The output bytes of the run `[s, e)` of the line: raw bytes when the
/// run is unowned, the same bytes decorated with the owning group's
/// palette entry otherwise. The palette cycles: group `g` uses color
/// `g % PALETTE_SIZE`.
pub open spec fn run_bytes(b: Seq<u8>, s: int, e: int, t: Tag) -> Seq<u8> {
    match t {
        Tag::Plain => b.subrange(s, e),
        Tag::Group(g) => decorated((g as int) % (PALETTE_SIZE as int), b.subrange(s, e)),
    }
}

/// The output bytes of one expansion string: its UTF-8 bytes decorated
/// with the insertion style.
pub open spec fn expansion_bytes(exp: Seq<char>) -> Seq<u8> {
    decorated(INSERT_STYLE as int, encode_utf8(exp))
}

/// The output bytes of a list of expansion strings, in order.
pub open spec fn expansions_bytes(es: Seq<Seq<char>>) -> Seq<u8>
    decreases es.len(),
{
    if es.len() == 0 {
        Seq::empty()
    } else {
        expansions_bytes(es.drop_last()) + expansion_bytes(es.last())
    }
}

/// The expansions queued at offset `k`, rendered; empty outside the table.
pub open spec fn expansions_bytes_at(exq: Seq<Seq<Seq<char>>>, k: int) -> Seq<u8> {
    if 0 <= k < exq.len() {
        expansions_bytes(exq[k])
    } else {
        Seq::empty()
    }
}

/// The first position at or after `k` where the run that started at `pos`
/// must end: the end of the line, a change of owner, or a position with
/// queued expansions (so that each expansion appears exactly where its
/// match ends).
pub open spec fn next_boundary(own: Seq<Tag>, exq: Seq<Seq<Seq<char>>>, pos: int, k: int) -> int
    decreases own.len() - k,
{
    if k >= own.len() {
        own.len() as int
    } else if own[k] != own[pos] || exq[k].len() > 0 {
        k
    } else {
        next_boundary(own, exq, pos, k + 1)
    }
}

pub proof fn lemma_next_boundary_range(own: Seq<Tag>, exq: Seq<Seq<Seq<char>>>, pos: int, k: int)
    requires
        0 <= k <= own.len(),
    ensures
        k <= next_boundary(own, exq, pos, k) <= own.len(),
    decreases own.len() - k,
{
    if k < own.len() && !(own[k] != own[pos] || exq[k].len() > 0) {
        lemma_next_boundary_range(own, exq, pos, k + 1);
    }
}

proof fn lemma_next_boundary_scan(
    own: Seq<Tag>,
    exq: Seq<Seq<Seq<char>>>,
    pos: int,
    k0: int,
    k: int,
)
    requires
        0 <= pos,
        pos < k0 <= k <= own.len(),
        forall|p: int| k0 <= p < k ==> (#[trigger] own[p]) == own[pos],
        forall|p: int| k0 <= p < k ==> (#[trigger] exq[p]).len() == 0,
        k == own.len() || own[k] != own[pos] || exq[k].len() > 0,
    ensures
        next_boundary(own, exq, pos, k0) == k,
    decreases k - k0,
{
    if k0 < k {
        assert(own[k0] == own[pos]);
        assert(exq[k0].len() == 0);
        lemma_next_boundary_scan(own, exq, pos, k0 + 1, k);
    }
}

proof fn lemma_next_boundary_interior(
    own: Seq<Tag>,
    exq: Seq<Seq<Seq<char>>>,
    pos: int,
    k0: int,
    p: int,
)
    requires
        0 <= k0 <= own.len(),
        k0 <= p < next_boundary(own, exq, pos, k0),
    ensures
        own[p] == own[pos] && exq[p].len() == 0,
    decreases p - k0,
{
    if p > k0 {
        lemma_next_boundary_interior(own, exq, pos, k0 + 1, p);
    }
}

/// The rendered output from position `pos` to the end of the line: the
/// run starting at `pos`, then whatever expansions are queued at the run's
/// end, then the rest.
pub open spec fn render_from(
    b: Seq<u8>,
    own: Seq<Tag>,
    exq: Seq<Seq<Seq<char>>>,
    pos: int,
) -> Seq<u8>
    decreases own.len() - pos,
{
    if pos < 0 || pos >= own.len() {
        Seq::empty()
    } else {
        proof {
            lemma_next_boundary_range(own, exq, pos, pos + 1);
        }
        let nb = next_boundary(own, exq, pos, pos + 1);
        run_bytes(b, pos, nb, own[pos]) + expansions_bytes_at(exq, nb) + render_from(
            b,
            own,
            exq,
            nb,
        )
    }
}

/// The rendered line: the expansions queued at offset 0, then the runs of
/// the line with the expansions queued at each run boundary, in order.
pub open spec fn render_spec(b: Seq<u8>, own: Seq<Tag>, exq: Seq<Seq<Seq<char>>>) -> Seq<u8> {
    expansions_bytes_at(exq, 0) + render_from(b, own, exq, 0)
}

/// The runs the renderer walks: maximal stretches of one owner, split also
/// where expansions are queued.
pub open spec fn runs_from(own: Seq<Tag>, exq: Seq<Seq<Seq<char>>>, pos: int) -> Seq<(int, int)>
    decreases own.len() - pos,
{
    if pos < 0 || pos >= own.len() {
        Seq::empty()
    } else {
        proof {
            lemma_next_boundary_range(own, exq, pos, pos + 1);
        }
        let nb = next_boundary(own, exq, pos, pos + 1);
        seq![(pos, nb)] + runs_from(own, exq, nb)
    }
}

/// The run decomposition of a whole line.
pub open spec fn line_runs(own: Seq<Tag>, exq: Seq<Seq<Seq<char>>>) -> Seq<(int, int)> {
    runs_from(own, exq, 0)
}

/// Some run of the list contains position `p`.
pub open spec fn covered_by(runs: Seq<(int, int)>, p: int) -> bool {
    exists|i: int| 0 <= i < runs.len() && (#[trigger] runs[i]).0 <= p < runs[i].1
}

/// The runs exactly partition the line: none is empty, the first starts at
/// 0, consecutive runs abut, the last ends at the line length, every byte
/// lies in some run (no gap), earlier runs end before later ones start (no
/// overlap), and the owner is constant inside each run.
pub open spec fn partitions_line(runs: Seq<(int, int)>, own: Seq<Tag>) -> bool {
    &&& (runs.len() == 0 <==> own.len() == 0)
    &&& (runs.len() > 0 ==> runs[0].0 == 0 && runs.last().1 == own.len())
    &&& (forall|i: int| 0 <= i < runs.len() ==> 0 <= (#[trigger] runs[i]).0 < runs[i].1 <= own.len())
    &&& (forall|i: int| 0 <= i < runs.len() - 1 ==> (#[trigger] runs[i]).1 == runs[i + 1].0)
    &&& (forall|p: int| 0 <= p < own.len() ==> #[trigger] covered_by(runs, p))
    &&& (forall|i1: int, i2: int|
        #![trigger runs[i1], runs[i2]]
        0 <= i1 < i2 < runs.len() ==> runs[i1].1 <= runs[i2].0)
    &&& (forall|i: int, p: int|
        #![trigger runs[i], own[p]]
        0 <= i < runs.len() && runs[i].0 <= p < runs[i].1 ==> own[p] == own[runs[i].0])
}

proof fn lemma_runs_from_props(own: Seq<Tag>, exq: Seq<Seq<Seq<char>>>, pos: int)
    requires
        0 <= pos <= own.len(),
    ensures
        ({
            let runs = runs_from(own, exq, pos);
            &&& (runs.len() == 0 <==> pos == own.len())
            &&& (runs.len() > 0 ==> runs[0].0 == pos && runs.last().1 == own.len())
            &&& (forall|i: int|
                0 <= i < runs.len() ==> pos <= (#[trigger] runs[i]).0 < runs[i].1 <= own.len())
            &&& (forall|i: int| 0 <= i < runs.len() - 1 ==> (#[trigger] runs[i]).1 == runs[i + 1].0)
            &&& (forall|p: int| pos <= p < own.len() ==> #[trigger] covered_by(runs, p))
            &&& (forall|i1: int, i2: int|
                #![trigger runs[i1], runs[i2]]
                0 <= i1 < i2 < runs.len() ==> runs[i1].1 <= runs[i2].0)
            &&& (forall|i: int, p: int|
                #![trigger runs[i], own[p]]
                0 <= i < runs.len() && runs[i].0 <= p < runs[i].1 ==> own[p] == own[runs[i].0])
        }),
    decreases own.len() - pos,
{
    if pos < own.len() {
        lemma_next_boundary_range(own, exq, pos, pos + 1);
        let nb = next_boundary(own, exq, pos, pos + 1);
        let rest = runs_from(own, exq, nb);
        let runs = runs_from(own, exq, pos);
        lemma_runs_from_props(own, exq, nb);
        assert(runs == seq![(pos, nb)] + rest);
        assert(runs[0] == (pos, nb));
        assert forall|i: int| 1 <= i < runs.len() implies runs[i] == rest[i - 1] by {}
        assert forall|p: int| pos <= p < nb implies own[p] == own[pos] by {
            if p > pos {
                lemma_next_boundary_interior(own, exq, pos, pos + 1, p);
            }
        }
        if rest.len() > 0 {
            assert(runs.last() == rest.last());
        }
        assert forall|p: int| pos <= p < own.len() implies #[trigger] covered_by(runs, p) by {
            if p < nb {
                assert(0 <= 0 < runs.len() && runs[0].0 <= p < runs[0].1);
            } else {
                assert(covered_by(rest, p));
                let i0 = choose|i: int|
                    0 <= i < rest.len() && (#[trigger] rest[i]).0 <= p < rest[i].1;
                assert(runs[i0 + 1] == rest[i0]);
                assert(0 <= i0 + 1 < runs.len() && runs[i0 + 1].0 <= p < runs[i0 + 1].1);
            }
        }
        assert forall|i1: int, i2: int|
            0 <= i1 < i2 < runs.len() implies runs[i1].1 <= runs[i2].0 by {
            assert(runs[i2] == rest[i2 - 1]);
            assert(nb <= rest[i2 - 1].0);
            if i1 > 0 {
                assert(runs[i1] == rest[i1 - 1]);
            }
        }
    }
}

/// Law (coverage): the runs the renderer produces exactly partition the
/// line, with no gaps and no overlaps, and each run's bytes all share one
/// owner.
pub proof fn lemma_runs_partition(own: Seq<Tag>, exq: Seq<Seq<Seq<char>>>)
    ensures
        partitions_line(line_runs(own, exq), own),
{
    lemma_runs_from_props(own, exq, 0);
}

/// Appends `b[s..e]` to `out`.
fn append_slice_range(out: &mut Vec<u8>, b: &[u8], s: usize, e: usize)
    requires
        s <= e <= b@.len(),
    ensures
        final(out)@ == old(out)@ + b@.subrange(s as int, e as int),
{
    proof {
        assert(out@ =~= old(out)@ + b@.subrange(s as int, s as int));
    }
    let mut j = s;
    while j < e
        invariant
            s <= j <= e,
            e <= b@.len(),
            out@ == old(out)@ + b@.subrange(s as int, j as int),
        decreases e - j,
    {
        let x = b[j];
        out.push(x);
        proof {
            assert(out@ =~= old(out)@ + b@.subrange(s as int, j as int + 1));
        }
        j = j + 1;
    }
}

proof fn lemma_expansions_bytes_step(sv: Seq<Seq<char>>, i: int)
    requires
        0 <= i < sv.len(),
    ensures
        expansions_bytes(sv.take(i + 1)) == expansions_bytes(sv.take(i)) + expansion_bytes(sv[i]),
{
    let t = sv.take(i + 1);
    assert(t.last() == sv[i]);
    assert(t.drop_last() =~= sv.take(i));
}

/// Appends every expansion string queued at one offset, each decorated
/// with the insertion style, in queue order.
fn append_expansions(out: &mut Vec<u8>, exps: &Vec<String>)
    ensures
        final(out)@ == old(out)@ + expansions_bytes(strings_view(exps@)),
{
    let ghost sv = strings_view(exps@);
    proof {
        assert(sv.take(0) =~= Seq::<Seq<char>>::empty());
        assert(out@ =~= old(out)@ + expansions_bytes(sv.take(0)));
    }
    let mut i: usize = 0;
    while i < exps.len()
        invariant
            i <= exps@.len(),
            sv == strings_view(exps@),
            out@ == old(out)@ + expansions_bytes(sv.take(i as int)),
        decreases exps@.len() - i,
    {
        let mut pre = style_prefix(INSERT_STYLE);
        out.append(&mut pre);
        let bs: &[u8] = exps[i].as_str().as_bytes();
        append_slice_range(out, bs, 0, bs.len());
        let mut suf = style_suffix(INSERT_STYLE);
        out.append(&mut suf);
        proof {
            assert(sv[i as int] == exps@[i as int]@);
            assert(bs@.subrange(0, bs@.len() as int) =~= bs@);
            lemma_expansions_bytes_step(sv, i as int);
            assert(out@ =~= old(out)@ + expansions_bytes(sv.take(i as int + 1)));
        }
        i = i + 1;
    }
    proof {
        assert(sv.take(exps@.len() as int) =~= sv);
    }
}

/// Renders one line: scans the owner array left to right, flushes each
/// maximal run plain or decorated with its owner's palette color, and
/// emits the expansions queued at an offset exactly when the scan reaches
/// that offset, end-of-line expansions included.
pub fn render_line(bytes: &[u8], owners: &Vec<Tag>, table: &Vec<Vec<String>>) -> (out: Vec<u8>)
    requires
        owners@.len() == bytes@.len(),
        table@.len() == bytes@.len() + 1,
    ensures
        out@ == render_spec(bytes@, owners@, table_view(table@)),
{
    let len = bytes.len();
    let table_len = table.len();
    assert(len < table_len);
    let ghost exq = table_view(table@);
    let mut out: Vec<u8> = Vec::new();
    assert(exq[0] == strings_view(table@[0]@));
    append_expansions(&mut out, &table[0]);
    proof {
        assert(out@ =~= expansions_bytes_at(exq, 0));
        assert(render_spec(bytes@, owners@, exq) == out@ + render_from(bytes@, owners@, exq, 0));
    }
    let mut start: usize = 0;
    let mut k: usize = 1;
    while k <= len
        invariant
            owners@.len() == bytes@.len(),
            table@.len() == bytes@.len() + 1,
            exq == table_view(table@),
            len == bytes@.len(),
            len < table_len,
            table_len == table@.len(),
            start < k <= len + 1,
            start <= len,
            k == len + 1 ==> start == len,
            render_spec(bytes@, owners@, exq) == out@ + render_from(
                bytes@,
                owners@,
                exq,
                start as int,
            ),
            forall|p: int| start < p < k ==> (#[trigger] owners@[p]) == owners@[start as int],
            forall|p: int| start < p < k ==> (#[trigger] exq[p]).len() == 0,
        decreases len + 1 - k,
    {
        let boundary = k == len || owners[k] != owners[start] || table[k].len() > 0;
        if boundary {
            proof {
                assert(exq[k as int] == strings_view(table@[k as int]@));
                lemma_next_boundary_scan(owners@, exq, start as int, start as int + 1, k as int);
            }
            let ghost out_pre = out@;
            let ghost run = run_bytes(bytes@, start as int, k as int, owners@[start as int]);
            match owners[start] {
                Tag::Plain => {
                    append_slice_range(&mut out, bytes, start, k);
                },
                Tag::Group(g) => {
                    let code = g % PALETTE_SIZE;
                    let mut pre = style_prefix(code);
                    out.append(&mut pre);
                    append_slice_range(&mut out, bytes, start, k);
                    let mut suf = style_suffix(code);
                    out.append(&mut suf);
                },
            }
            proof {
                assert(out@ =~= out_pre + run);
            }
            append_expansions(&mut out, &table[k]);
            proof {
                assert(out@ =~= out_pre + run + expansions_bytes_at(exq, k as int));
                assert(render_from(bytes@, owners@, exq, start as int) == run
                    + expansions_bytes_at(exq, k as int) + render_from(
                    bytes@,
                    owners@,
                    exq,
                    k as int,
                ));
                assert(render_spec(bytes@, owners@, exq) == out@ + render_from(
                    bytes@,
                    owners@,
                    exq,
                    k as int,
                ));
            }
            start = k;
        } else {
            proof {
                assert(exq[k as int] == strings_view(table@[k as int]@));
                assert(exq[k as int].len() == 0);
            }
        }
        k = k + 1;
    }
    proof {
        assert(start == len);
        assert(render_from(bytes@, owners@, exq, len as int) =~= Seq::<u8>::empty());
        assert(out@ + Seq::<u8>::empty() =~= out@);
    }
    out
}

} // verus!
