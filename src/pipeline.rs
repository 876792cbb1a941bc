//! What the whole conversion makes of streams of written blocks: each block is
//! decoded back and folded into the correlator, and only rejected candidates are
//! counted as resynchronisations.
use vstd::prelude::*;
use crate::convert::{count_where, is_block, is_decode_failure, is_fault, run_items};
use crate::correlate::{initial_state, on_block, CorrelatorView};
use crate::decode::{decode_view, BlockView};
use crate::block::DecodeError;
use crate::encode::{block_wf, frame_bytes, lemma_frame_accepted, payload_fits, id_rev_of, lemma_id_rev_split, lemma_round_trip, payload_of};
use crate::frame::{declared_len, frame_item, frame_next, is_sync, scan_from, FrameView, FramingError, HEADER_LEN};
use crate::integrity::lemma_corrupt_payload_rejected;
use crate::stream::{accepted, interleave, lemma_cut_last_block, lemma_garbage_skipped, pieces_ok, sync_free};

verus! {

/// The identifier-and-revision fields and payloads that `bs` are written with.
pub open spec fn written(bs: Seq<BlockView>) -> Seq<(u16, Seq<u8>)> {
    Seq::new(bs.len(), |i: int| (id_rev_of(bs[i]), payload_of(bs[i])))
}

/// The correlator state after the blocks `bs`, in order.
pub open spec fn run_blocks(s: CorrelatorView, bs: Seq<BlockView>) -> CorrelatorView
    decreases bs.len(),
{
    if bs.len() == 0 {
        s
    } else {
        on_block(run_blocks(s, bs.drop_last()), bs.last())
    }
}

/// The report is an accepted block that decodes to `b`.
pub open spec fn decodes_as(v: FrameView, b: BlockView) -> bool {
    v matches FrameView::Block { id, revision, length, payload } && decode_view(id, revision, length, payload)
        == Ok::<BlockView, DecodeError>(b)
}

proof fn lemma_count_none(items: Seq<FrameView>, f: spec_fn(FrameView) -> bool)
    requires
        forall|i: int| 0 <= i < items.len() ==> !f(#[trigger] items[i]),
    ensures
        count_where(items, f) == 0,
    decreases items.len(),
{
    if items.len() > 0 {
        assert(!f(items[items.len() - 1]));
        lemma_count_none(items.drop_last(), f);
    }
}

proof fn lemma_count_all(items: Seq<FrameView>, f: spec_fn(FrameView) -> bool)
    requires
        forall|i: int| 0 <= i < items.len() ==> f(#[trigger] items[i]),
    ensures
        count_where(items, f) == items.len(),
    decreases items.len(),
{
    if items.len() > 0 {
        assert(f(items[items.len() - 1]));
        lemma_count_all(items.drop_last(), f);
    }
}

proof fn lemma_run_decoded(items: Seq<FrameView>, bs: Seq<BlockView>)
    requires
        items.len() == bs.len(),
        forall|i: int| 0 <= i < items.len() ==> decodes_as(#[trigger] items[i], bs[i]),
    ensures
        run_items(items) == run_blocks(initial_state(), bs),
    decreases items.len(),
{
    if items.len() > 0 {
        let n = items.len() - 1;
        assert(decodes_as(items[n], bs[n]));
        assert forall|i: int| 0 <= i < items.drop_last().len() implies decodes_as(
            #[trigger] items.drop_last()[i],
            bs.drop_last()[i],
        ) by {
            assert(decodes_as(items[i], bs[i]));
        }
        lemma_run_decoded(items.drop_last(), bs.drop_last());
    }
}

proof fn lemma_written_accepted(bs: Seq<BlockView>, i: int)
    requires
        0 <= i < bs.len(),
        block_wf(bs[i]),
    ensures
        payload_fits(written(bs)[i].1),
        decodes_as(accepted(written(bs)[i]), bs[i]),
{
    lemma_round_trip(bs[i]);
    lemma_id_rev_split(bs[i]);
}

proof fn lemma_pieces(gs: Seq<Seq<u8>>, bs: Seq<BlockView>)
    requires
        gs.len() == bs.len() + 1,
        forall|i: int| 0 <= i < gs.len() ==> sync_free(#[trigger] gs[i]),
        forall|i: int| 0 <= i < bs.len() ==> block_wf(#[trigger] bs[i]),
    ensures
        pieces_ok(gs, written(bs)),
        forall|i: int| 0 <= i < bs.len() ==> decodes_as(#[trigger] accepted(written(bs)[i]), bs[i]),
{
    assert forall|i: int| 0 <= i < bs.len() implies decodes_as(#[trigger] accepted(written(bs)[i]), bs[i]) by {
        lemma_written_accepted(bs, i);
    }
    assert forall|i: int| 0 <= i < written(bs).len() implies payload_fits(#[trigger] written(bs)[i].1) by {
        lemma_written_accepted(bs, i);
    }
}

/// Well-formed blocks written one after the other, with runs of bytes that hold
/// no sync marker before, between and after them, are each decoded back, in
/// order: every candidate examined is one of them, none is rejected or refused,
/// and the correlator ends as if it had been handed the blocks themselves.
pub proof fn lemma_stream_of_blocks(gs: Seq<Seq<u8>>, bs: Seq<BlockView>)
    requires
        gs.len() == bs.len() + 1,
        forall|i: int| 0 <= i < gs.len() ==> sync_free(#[trigger] gs[i]),
        forall|i: int| 0 <= i < bs.len() ==> block_wf(#[trigger] bs[i]),
    ensures
        ({
            let items = scan_from(interleave(gs, written(bs)), 0);
            &&& items.len() == bs.len()
            &&& forall|i: int| 0 <= i < bs.len() ==> decodes_as(#[trigger] items[i], bs[i])
            &&& count_where(items, |v: FrameView| is_block(v)) == bs.len()
            &&& count_where(items, |v: FrameView| is_fault(v)) == 0
            &&& count_where(items, |v: FrameView| is_decode_failure(v)) == 0
            &&& run_items(items) == run_blocks(initial_state(), bs)
        }),
{
    lemma_pieces(gs, bs);
    let fs = written(bs);
    lemma_garbage_skipped(gs, fs);
    let items = scan_from(interleave(gs, fs), 0);
    assert forall|i: int| 0 <= i < bs.len() implies decodes_as(#[trigger] items[i], bs[i]) by {
        assert(items[i] == accepted(fs[i]));
    }
    assert forall|i: int| 0 <= i < items.len() implies is_block(#[trigger] items[i]) && !is_fault(items[i])
        && !is_decode_failure(items[i]) by {
        assert(decodes_as(items[i], bs[i]));
    }
    lemma_count_all(items, |v: FrameView| is_block(v));
    lemma_count_none(items, |v: FrameView| is_fault(v));
    lemma_count_none(items, |v: FrameView| is_decode_failure(v));
    lemma_run_decoded(items, bs);
}

/// When such a stream ends in a block cut short after its header, every block
/// before it is still decoded back and folded in as before, and the cut block
/// is reported as truncated at its sync marker.
pub proof fn lemma_stream_cut_short(gs: Seq<Seq<u8>>, bs: Seq<BlockView>, b: BlockView, k: int)
    requires
        gs.len() == bs.len() + 1,
        forall|i: int| 0 <= i < gs.len() ==> sync_free(#[trigger] gs[i]),
        forall|i: int| 0 <= i < bs.len() ==> block_wf(#[trigger] bs[i]),
        block_wf(b),
        HEADER_LEN <= k < payload_of(b).len() + HEADER_LEN,
    ensures
        ({
            let prefix = interleave(gs, written(bs));
            let items = scan_from(prefix + frame_bytes(id_rev_of(b), payload_of(b)).take(k), 0);
            let n = bs.len() as int;
            &&& items.len() > n
            &&& forall|i: int| 0 <= i < n ==> decodes_as(#[trigger] items[i], bs[i])
            &&& items[n] == (FrameView::Fault { error: FramingError::Truncated, position: prefix.len() as int })
            &&& run_items(items.take(n)) == run_blocks(initial_state(), bs)
        }),
{
    lemma_pieces(gs, bs);
    lemma_round_trip(b);
    let fs = written(bs);
    lemma_cut_last_block(gs, fs, id_rev_of(b), payload_of(b), k);
    let items = scan_from(interleave(gs, fs) + frame_bytes(id_rev_of(b), payload_of(b)).take(k), 0);
    let n = bs.len() as int;
    assert forall|i: int| 0 <= i < n implies decodes_as(#[trigger] items[i], bs[i]) by {
        assert(items.take(n)[i] == accepted(fs[i]));
    }
    assert forall|i: int| 0 <= i < items.take(n).len() implies decodes_as(#[trigger] items.take(n)[i], bs[i]) by {
        assert(items.take(n)[i] == items[i]);
    }
    lemma_run_decoded(items.take(n), bs);
}

proof fn lemma_count_some(items: Seq<FrameView>, f: spec_fn(FrameView) -> bool, k: int)
    requires
        0 <= k < items.len(),
        f(items[k]),
    ensures
        count_where(items, f) >= 1,
    decreases items.len(),
{
    if k < items.len() - 1 {
        assert(items.drop_last()[k] == items[k]);
        lemma_count_some(items.drop_last(), f, k);
    }
}

/// A written block with exactly one payload byte changed is not accepted: the
/// first report is a checksum mismatch at its sync marker, and the run counts it
/// among the resynchronisations.
pub proof fn lemma_corrupted_block_rejected(b: BlockView, t: Seq<u8>, j: int)
    requires
        block_wf(b),
        t.len() == frame_bytes(id_rev_of(b), payload_of(b)).len(),
        HEADER_LEN <= j < t.len(),
        t[j] != frame_bytes(id_rev_of(b), payload_of(b))[j],
        forall|i: int| 0 <= i < t.len() && i != j ==> t[i] == frame_bytes(id_rev_of(b), payload_of(b))[i],
    ensures
        scan_from(t, 0).len() >= 1,
        scan_from(t, 0)[0] == (FrameView::Fault { error: FramingError::CrcMismatch, position: 0 }),
        scan_from(t, 0) == seq![scan_from(t, 0)[0]] + shift(scan_from(t.subrange(1, t.len() as int), 0), 1),
        count_where(scan_from(t, 0), |v: FrameView| is_fault(v)) >= 1,
        count_where(scan_from(t, 0), |v: FrameView| is_block(v)) < scan_from(t, 0).len(),
{
    lemma_round_trip(b);
    let f = frame_bytes(id_rev_of(b), payload_of(b));
    let len = payload_of(b).len() + HEADER_LEN;
    assert(f.len() == len);
    assert(f.subrange(0, len as int) =~= f);
    lemma_corrupt_payload_rejected(f, t, 0, id_rev_of(b), payload_of(b), j);
    assert(t[0] == f[0] && t[1] == f[1]);
    let items = scan_from(t, 0);
    assert(items == seq![frame_item(t, 0)] + scan_from(t, frame_next(t, 0)));
    assert(items[0] == frame_item(t, 0));
    lemma_count_some(items, |v: FrameView| is_fault(v), 0);
    lemma_count_below(items, |v: FrameView| is_block(v));
    let rest = t.subrange(1, t.len() as int);
    assert(t =~= t.take(1) + rest);
    lemma_scan_shift(t.take(1), rest, 0);
    assert(frame_next(t, 0) == 1);
}

proof fn lemma_count_below(items: Seq<FrameView>, f: spec_fn(FrameView) -> bool)
    requires
        items.len() >= 1,
        !f(items[0]),
    ensures
        count_where(items, f) < items.len(),
    decreases items.len(),
{
    if items.len() > 1 {
        assert(items.drop_last()[0] == items[0]);
        lemma_count_below(items.drop_last(), f);
    } else {
        assert(count_where(items.drop_last(), f) == 0);
    }
}

/// A report with its position moved by `d`.
pub open spec fn shift_item(v: FrameView, d: int) -> FrameView {
    match v {
        FrameView::Fault { error, position } => FrameView::Fault { error, position: position + d },
        FrameView::Block { .. } => v,
    }
}

/// Reports with their positions moved by `d`.
pub open spec fn shift(items: Seq<FrameView>, d: int) -> Seq<FrameView> {
    items.map_values(|v: FrameView| shift_item(v, d))
}

proof fn lemma_frame_shift(pre: Seq<u8>, rest: Seq<u8>, q: int)
    requires
        0 <= q,
        is_sync(rest, q),
    ensures
        is_sync(pre + rest, pre.len() + q),
        frame_item(pre + rest, pre.len() + q) == shift_item(frame_item(rest, q), pre.len() as int),
        frame_next(pre + rest, pre.len() + q) == pre.len() + frame_next(rest, q),
{
    let s = pre + rest;
    let p = pre.len() + q;
    let d = pre.len() as int;
    assert(s[p] == rest[q] && s[p + 1] == rest[q + 1]);
    if q + HEADER_LEN <= rest.len() {
        assert(s[p + 2] == rest[q + 2] && s[p + 3] == rest[q + 3]);
        assert(s[p + 4] == rest[q + 4] && s[p + 5] == rest[q + 5]);
        assert(s[p + 6] == rest[q + 6] && s[p + 7] == rest[q + 7]);
        assert(declared_len(s, p) == declared_len(rest, q));
        let len = declared_len(rest, q);
        if len >= HEADER_LEN && q + len <= rest.len() {
            assert(s.subrange(p + 4, p + len) =~= rest.subrange(q + 4, q + len));
            assert(s.subrange(p + HEADER_LEN, p + len) =~= rest.subrange(q + HEADER_LEN, q + len));
        }
    }
}

proof fn lemma_scan_shift(pre: Seq<u8>, rest: Seq<u8>, q: int)
    requires
        0 <= q <= rest.len(),
    ensures
        scan_from(pre + rest, pre.len() + q) == shift(scan_from(rest, q), pre.len() as int),
    decreases rest.len() - q,
{
    let s = pre + rest;
    let p = pre.len() + q;
    let d = pre.len() as int;
    if q + 1 >= rest.len() {
        assert(shift(Seq::<FrameView>::empty(), d) =~= Seq::<FrameView>::empty());
    } else if !is_sync(rest, q) {
        assert(s[p] == rest[q] && s[p + 1] == rest[q + 1]);
        lemma_scan_shift(pre, rest, q + 1);
    } else {
        lemma_frame_shift(pre, rest, q);
        let next = frame_next(rest, q);
        lemma_scan_shift(pre, rest, next);
        let tail = scan_from(rest, next);
        assert(shift(seq![frame_item(rest, q)] + tail, d) =~= seq![shift_item(frame_item(rest, q), d)] + shift(
            tail,
            d,
        ));
    }
}

/// `g` does not look at the position of a rejected candidate.
pub open spec fn position_blind(g: spec_fn(FrameView) -> bool) -> bool {
    forall|e: FramingError, a: int|
        #[trigger] g(FrameView::Fault { error: e, position: a }) == g(FrameView::Fault { error: e, position: 0 })
}

proof fn lemma_count_shift(items: Seq<FrameView>, d: int, g: spec_fn(FrameView) -> bool)
    requires
        position_blind(g),
    ensures
        count_where(shift(items, d), g) == count_where(items, g),
    decreases items.len(),
{
    if items.len() > 0 {
        assert(shift(items, d).drop_last() =~= shift(items.drop_last(), d));
        lemma_count_shift(items.drop_last(), d, g);
        let v = items.last();
        match v {
            FrameView::Fault { error, position } => {
                assert(g(FrameView::Fault { error, position: position + d }) == g(
                    FrameView::Fault { error, position },
                ));
            },
            FrameView::Block { .. } => {},
        }
    }
}

proof fn lemma_count_front(a: FrameView, items: Seq<FrameView>, g: spec_fn(FrameView) -> bool)
    ensures
        count_where(seq![a] + items, g) == count_where(items, g) + if g(a) {
            1nat
        } else {
            0nat
        },
    decreases items.len(),
{
    if items.len() > 0 {
        assert((seq![a] + items).drop_last() =~= seq![a] + items.drop_last());
        assert((seq![a] + items).last() == items.last());
        lemma_count_front(a, items.drop_last(), g);
    } else {
        assert((seq![a] + items).drop_last() =~= Seq::<FrameView>::empty());
        assert((seq![a] + items).last() == a);
        assert(count_where(Seq::<FrameView>::empty(), g) == 0);
        assert(items =~= Seq::<FrameView>::empty());
    }
}

/// A well-formed block whose identifier the registry does not list, followed by
/// any bytes at all, is accepted and kept as an unknown record; the reports
/// after it are those of the bytes alone, only moved by its length, so every
/// counter that does not look at positions gains exactly the one block.
pub proof fn lemma_unknown_then_anything(u: BlockView, rest: Seq<u8>, g: spec_fn(FrameView) -> bool)
    requires
        block_wf(u),
        u is Unknown,
        position_blind(g),
    ensures
        ({
            let f = frame_bytes(id_rev_of(u), payload_of(u));
            let items = scan_from(f + rest, 0);
            &&& items == seq![items[0]] + shift(scan_from(rest, 0), f.len() as int)
            &&& decodes_as(items[0], u)
            &&& count_where(items, g) == count_where(scan_from(rest, 0), g) + if g(items[0]) {
                1nat
            } else {
                0nat
            }
        }),
{
    lemma_round_trip(u);
    lemma_id_rev_split(u);
    let f = frame_bytes(id_rev_of(u), payload_of(u));
    let s = f + rest;
    assert(s.subrange(0, f.len() as int) =~= f);
    lemma_frame_accepted(s, 0, id_rev_of(u), payload_of(u));
    lemma_scan_shift(f, rest, 0);
    let items = scan_from(s, 0);
    assert(items == seq![frame_item(s, 0)] + scan_from(s, f.len() as int));
    lemma_count_front(items[0], shift(scan_from(rest, 0), f.len() as int), g);
    lemma_count_shift(scan_from(rest, 0), f.len() as int, g);
}

} // verus!
