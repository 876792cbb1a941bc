//! Streams of blocks: what the scanner reports for well-formed blocks mixed with
//! bytes that hold no sync marker, and for a last block cut short.
use vstd::prelude::*;
use crate::bytes::{lemma_le16_of_bytes, u16_bytes};
use crate::encode::{frame_bytes, lemma_frame_accepted, payload_fits};
use crate::frame::{
    declared_len, frame_fault, frame_item, frame_next, is_sync, scan_from, FrameView, FramingError,
    HEADER_LEN, SYNC1, SYNC2,
};

verus! {

/// No sync marker lies wholly inside `g`.
pub open spec fn sync_free(g: Seq<u8>) -> bool {
    forall|i: int| 0 <= i && i + 1 < g.len() ==> !(#[trigger] g[i] == SYNC1 && g[i + 1] == SYNC2)
}

/// The stream `gs[0]`, block 0, `gs[1]`, block 1, ..., `gs[n]`, where block `i`
/// is written from the identifier-and-revision field and payload `fs[i]`.
pub open spec fn interleave(gs: Seq<Seq<u8>>, fs: Seq<(u16, Seq<u8>)>) -> Seq<u8>
    decreases fs.len(),
{
    if fs.len() == 0 || gs.len() == 0 {
        if gs.len() == 0 {
            Seq::empty()
        } else {
            gs[0]
        }
    } else {
        gs[0] + frame_bytes(fs[0].0, fs[0].1) + interleave(gs.drop_first(), fs.drop_first())
    }
}

/// The report the scanner gives for the block written from `f`.
pub open spec fn accepted(f: (u16, Seq<u8>)) -> FrameView {
    FrameView::Block {
        id: (f.0 % 8192) as u16,
        revision: (f.0 / 8192) as u8,
        length: (f.1.len() + HEADER_LEN) as u16,
        payload: f.1,
    }
}

proof fn lemma_skip_plain(s: Seq<u8>, p: int, e: int)
    requires
        0 <= p <= e <= s.len(),
        forall|q: int| p <= q < e ==> !is_sync(s, q),
    ensures
        scan_from(s, p) == scan_from(s, e),
    decreases e - p,
{
    if p < e {
        lemma_skip_plain(s, p + 1, e);
        if p + 1 >= s.len() {
            assert(scan_from(s, e) == Seq::<FrameView>::empty());
        }
    }
}

proof fn lemma_skip_garbage(s: Seq<u8>, p: int, g: Seq<u8>)
    requires
        0 <= p,
        p + g.len() <= s.len(),
        s.subrange(p, p + g.len()) == g,
        sync_free(g),
        p + g.len() < s.len() ==> s[p + g.len()] != SYNC2,
    ensures
        scan_from(s, p) == scan_from(s, p + g.len()),
{
    assert forall|q: int| p <= q < p + g.len() implies !is_sync(s, q) by {
        assert(s[q] == g[q - p]);
        if q + 1 < p + g.len() {
            assert(s[q + 1] == g[q - p + 1]);
        }
    }
    lemma_skip_plain(s, p, p + g.len());
}

proof fn lemma_accepted_prefix(fs: Seq<(u16, Seq<u8>)>)
    requires
        fs.len() > 0,
    ensures
        Seq::new(fs.len(), |i: int| accepted(fs[i])) == seq![accepted(fs[0])] + Seq::new(
            fs.drop_first().len(),
            |i: int| accepted(fs.drop_first()[i]),
        ),
{
    assert(Seq::new(fs.len(), |i: int| accepted(fs[i])) =~= seq![accepted(fs[0])] + Seq::new(
        fs.drop_first().len(),
        |i: int| accepted(fs.drop_first()[i]),
    ));
}

/// The conditions on the pieces of an interleaved stream.
pub open spec fn pieces_ok(gs: Seq<Seq<u8>>, fs: Seq<(u16, Seq<u8>)>) -> bool {
    &&& gs.len() == fs.len() + 1
    &&& forall|i: int| 0 <= i < gs.len() ==> sync_free(#[trigger] gs[i])
    &&& forall|i: int| 0 <= i < fs.len() ==> payload_fits(#[trigger] fs[i].1)
}

proof fn lemma_pieces_rest(gs: Seq<Seq<u8>>, fs: Seq<(u16, Seq<u8>)>)
    requires
        pieces_ok(gs, fs),
        fs.len() > 0,
    ensures
        pieces_ok(gs.drop_first(), fs.drop_first()),
        sync_free(gs[0]),
        payload_fits(fs[0].1),
{
    assert forall|i: int| 0 <= i < gs.drop_first().len() implies sync_free(
        #[trigger] gs.drop_first()[i],
    ) by {
        assert(gs.drop_first()[i] == gs[i + 1]);
    }
    assert forall|i: int| 0 <= i < fs.drop_first().len() implies payload_fits(
        #[trigger] fs.drop_first()[i].1,
    ) by {
        assert(fs.drop_first()[i] == fs[i + 1]);
    }
}

proof fn lemma_interleave_step(pre: Seq<u8>, gs: Seq<Seq<u8>>, fs: Seq<(u16, Seq<u8>)>, post: Seq<u8>)
    requires
        pieces_ok(gs, fs),
        fs.len() > 0,
    ensures
        ({
            let s = pre + interleave(gs, fs) + post;
            let pre2 = pre + gs[0] + frame_bytes(fs[0].0, fs[0].1);
            let rest = interleave(gs.drop_first(), fs.drop_first());
            &&& s == pre2 + rest + post
            &&& (pre2 + rest).len() == (pre + interleave(gs, fs)).len()
            &&& scan_from(s, pre.len() as int) == seq![accepted(fs[0])] + scan_from(s, pre2.len() as int)
        }),
{
    lemma_pieces_rest(gs, fs);
    let s = pre + interleave(gs, fs) + post;
    let g = gs[0];
    let p = pre.len() as int;
    let f = frame_bytes(fs[0].0, fs[0].1);
    let rest = interleave(gs.drop_first(), fs.drop_first());
    let start = p + g.len();
    let len = fs[0].1.len() + HEADER_LEN;
    assert(s =~= pre + g + f + rest + post);
    assert(f.len() == len);
    assert(s.subrange(p, p + g.len()) =~= g);
    assert(s[start] == f[0]);
    lemma_skip_garbage(s, p, g);
    assert(s.subrange(start, start + len) =~= f);
    lemma_frame_accepted(s, start, fs[0].0, fs[0].1);
    let pre2 = pre + g + f;
    assert(s =~= pre2 + rest + post);
}

proof fn lemma_interleave_base(pre: Seq<u8>, gs: Seq<Seq<u8>>, fs: Seq<(u16, Seq<u8>)>, post: Seq<u8>)
    requires
        pieces_ok(gs, fs),
        fs.len() == 0,
        post.len() > 0 ==> post[0] != SYNC2,
    ensures
        ({
            let s = pre + interleave(gs, fs) + post;
            scan_from(s, pre.len() as int) == Seq::new(fs.len(), |i: int| accepted(fs[i])) + scan_from(
                s,
                (pre + interleave(gs, fs)).len() as int,
            )
        }),
{
    let s = pre + interleave(gs, fs) + post;
    let p = pre.len() as int;
    let g = gs[0];
    assert(sync_free(gs[0]));
    assert(s =~= pre + g + post);
    assert(s.subrange(p, p + g.len()) =~= g);
    if p + g.len() < s.len() {
        assert(s[p + g.len()] == post[0]);
    }
    lemma_skip_garbage(s, p, g);
    assert(Seq::new(fs.len(), |i: int| accepted(fs[i])) =~= Seq::<FrameView>::empty());
    assert(Seq::<FrameView>::empty() + scan_from(s, p + g.len()) =~= scan_from(s, p + g.len()));
}

#[verifier::rlimit(60)]
proof fn lemma_interleave_scan(pre: Seq<u8>, gs: Seq<Seq<u8>>, fs: Seq<(u16, Seq<u8>)>, post: Seq<u8>)
    requires
        pieces_ok(gs, fs),
        post.len() > 0 ==> post[0] != SYNC2,
    ensures
        ({
            let s = pre + interleave(gs, fs) + post;
            scan_from(s, pre.len() as int) == Seq::new(fs.len(), |i: int| accepted(fs[i])) + scan_from(
                s,
                (pre + interleave(gs, fs)).len() as int,
            )
        }),
    decreases fs.len(),
{
    let s = pre + interleave(gs, fs) + post;
    let p = pre.len() as int;
    if fs.len() == 0 {
        lemma_interleave_base(pre, gs, fs, post);
    } else {
        lemma_interleave_step(pre, gs, fs, post);
        lemma_pieces_rest(gs, fs);
        let pre2 = pre + gs[0] + frame_bytes(fs[0].0, fs[0].1);
        let rest = interleave(gs.drop_first(), fs.drop_first());
        lemma_interleave_scan(pre2, gs.drop_first(), fs.drop_first(), post);
        lemma_accepted_prefix(fs);
        let tail = scan_from(s, (pre2 + rest).len() as int);
        let later = Seq::new(fs.drop_first().len(), |i: int| accepted(fs.drop_first()[i]));
        assert(seq![accepted(fs[0])] + (later + tail) =~= (seq![accepted(fs[0])] + later) + tail);
    }
}

/// Well-formed blocks separated by runs of arbitrary bytes that hold no sync
/// marker are each accepted, in order, and nothing else is reported: the stream
/// yields exactly as many blocks as were written.
pub proof fn lemma_garbage_skipped(gs: Seq<Seq<u8>>, fs: Seq<(u16, Seq<u8>)>)
    requires
        pieces_ok(gs, fs),
    ensures
        scan_from(interleave(gs, fs), 0) == Seq::new(fs.len(), |i: int| accepted(fs[i])),
{
    let s = interleave(gs, fs);
    lemma_interleave_scan(Seq::empty(), gs, fs, Seq::empty());
    assert(Seq::<u8>::empty() + s + Seq::<u8>::empty() =~= s);
    assert(Seq::<u8>::empty() + s =~= s);
    assert(scan_from(s, s.len() as int) == Seq::<FrameView>::empty());
    assert(Seq::new(fs.len(), |i: int| accepted(fs[i])) + Seq::<FrameView>::empty() =~= Seq::new(
        fs.len(),
        |i: int| accepted(fs[i]),
    ));
}

/// When the last block of such a stream is cut short after its header, every
/// block before it is still accepted, in order, and the cut block is reported as
/// truncated at its sync marker.
pub proof fn lemma_cut_last_block(gs: Seq<Seq<u8>>, fs: Seq<(u16, Seq<u8>)>, id_rev: u16, payload: Seq<u8>, k: int)
    requires
        pieces_ok(gs, fs),
        payload_fits(payload),
        HEADER_LEN <= k < payload.len() + HEADER_LEN,
    ensures
        ({
            let s = interleave(gs, fs) + frame_bytes(id_rev, payload).take(k);
            let n = fs.len() as int;
            &&& scan_from(s, 0).len() > n
            &&& scan_from(s, 0).take(n) == Seq::new(fs.len(), |i: int| accepted(fs[i]))
            &&& scan_from(s, 0)[n] == (FrameView::Fault {
                error: FramingError::Truncated,
                position: interleave(gs, fs).len() as int,
            })
        }),
{
    let pre = interleave(gs, fs);
    let cut = frame_bytes(id_rev, payload).take(k);
    let s = pre + cut;
    let blocks = Seq::new(fs.len(), |i: int| accepted(fs[i]));
    assert(cut[0] == SYNC1);
    lemma_interleave_scan(Seq::empty(), gs, fs, cut);
    assert(Seq::<u8>::empty() + pre + cut =~= s);
    assert(Seq::<u8>::empty() + pre =~= pre);
    lemma_cut_block_truncated(pre, id_rev, payload, k);
    let q = pre.len() as int;
    assert(scan_from(s, q) == seq![frame_item(s, q)] + scan_from(s, frame_next(s, q)));
    assert((blocks + scan_from(s, q)).take(fs.len() as int) =~= blocks);
}

/// A block cut short anywhere after its header is reported as truncated at its
/// sync marker, whatever came before it.
pub proof fn lemma_cut_block_truncated(pre: Seq<u8>, id_rev: u16, payload: Seq<u8>, k: int)
    requires
        payload_fits(payload),
        HEADER_LEN <= k < payload.len() + HEADER_LEN,
    ensures
        ({
            let s = pre + frame_bytes(id_rev, payload).take(k);
            is_sync(s, pre.len() as int) && frame_item(s, pre.len() as int) == (FrameView::Fault {
                error: FramingError::Truncated,
                position: pre.len() as int,
            })
        }),
{
    let f = frame_bytes(id_rev, payload);
    let s = pre + f.take(k);
    let p = pre.len() as int;
    let len = payload.len() + HEADER_LEN;
    assert(s[p] == f[0] && s[p + 1] == f[1]);
    assert(s.subrange(p + 6, p + 8) =~= f.subrange(6, 8));
    assert(f.subrange(6, 8) =~= u16_bytes(len as u16));
    lemma_le16_of_bytes(s, p + 6, len as u16);
}

} // verus!
