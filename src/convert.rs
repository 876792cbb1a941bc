//! The whole conversion: scanning, decoding, correlation and assembly of the
//! final model, with the run's diagnostic counters.
use vstd::prelude::*;
use crate::block::{
    category_index, category_index_spec, category_of, category_spec, Category, DecodeError,
    SbfBlockTimestamp, CATEGORY_COUNT,
};
use vstd::slice::slice_to_vec;
use crate::correlate::{
    pvt_epoch_views, pvt_views, PvtEpoch, PvtEpochView,
    closed_with_open, epoch_views, nav_views, on_block, on_decode_error, initial_state, Correlator,
    CorrelatorView, Epoch, EpochView,
};
use crate::decode::{decode_sbf, decode_view, DecodedBlock, NavKind, NavMessage, NavView, PvtRecord, PvtView};
use crate::frame::{frame_item, is_sync, scan, scan_frame, scan_from, FrameView, FramingError, ScanItem, SYNC1, SYNC2};

verus! {

/// Why the assembled epochs cannot be handed on.
#[derive(Clone, Copy, Debug, PartialEq, Eq, Structural)]
pub enum AssemblyError {
    /// The epoch at this position of the closed epochs is not later than the one
    /// before it.
    NonMonotonicEpoch(usize),
}

/// The failures a caller can see.
#[derive(Clone, Copy, Debug, PartialEq, Eq, Structural)]
pub enum Error {
    /// The input does not start with a sync marker.
    NoSync,
    Framing(FramingError),
    Decode(DecodeError),
    Assembly(AssemblyError),
}

/// The assembled result of a run.
#[derive(Clone, Debug, PartialEq, Eq)]
pub struct ConversionModel {
    /// The closed epochs, in strictly increasing time order.
    pub epochs: Vec<Epoch>,
    /// The latest navigation message of each kind and satellite.
    pub ephemerides: Vec<NavMessage>,
    /// The closed position epochs.
    pub pvt_epochs: Vec<PvtEpoch>,
    /// The position records after the last end-of-position marker.
    pub pending_pvt: Vec<PvtRecord>,
    /// The identifiers of the blocks that the registry does not list.
    pub unknown: Vec<u16>,
    /// For each epoch, whether a position epoch of the same timestamp was closed.
    pub with_position: Vec<bool>,
    /// For each epoch, the records of the first closed position epoch of the same
    /// timestamp; none when there is no such epoch.
    pub positions: Vec<Vec<PvtRecord>>,
    /// The satellites that have measurements but no ephemeris, each once.
    pub no_ephemeris: Vec<u8>,
}

/// The message kinds that carry a satellite's orbit and clock.
pub open spec fn is_ephemeris(k: NavKind) -> bool {
    k == NavKind::GpsNav || k == NavKind::GalNav || k == NavKind::GloNav || k == NavKind::SbasNav
}

/// The store holds an ephemeris for the satellite.
pub open spec fn has_ephemeris(store: Seq<NavView>, svid: u8) -> bool {
    exists|i: int| 0 <= i < store.len() && (#[trigger] store[i]).svid == svid && is_ephemeris(store[i].kind)
}

/// One of the first `k` measurements of the epoch is of the satellite.
pub open spec fn in_epoch(e: EpochView, k: int, svid: u8) -> bool {
    exists|b: int| 0 <= b < k && b < e.measurements.len() && (#[trigger] e.measurements[b]).svid == svid
}

/// One of the first `n` epochs has a measurement of the satellite.
pub open spec fn observed_before(es: Seq<EpochView>, n: int, svid: u8) -> bool {
    exists|a: int| 0 <= a < n && a < es.len() && #[trigger] in_epoch(es[a], es[a].measurements.len() as int, svid)
}

/// Some epoch has a measurement of the satellite.
pub open spec fn observed(es: Seq<EpochView>, svid: u8) -> bool {
    observed_before(es, es.len() as int, svid)
}

fn ephemeris_known(store: &Vec<NavMessage>, svid: u8) -> (r: bool)
    ensures
        r == has_ephemeris(nav_views(store@), svid),
{
    let ghost w = nav_views(store@);
    let mut i: usize = 0;
    while i < store.len()
        invariant
            w == nav_views(store@),
            i <= store@.len(),
            forall|j: int| 0 <= j < i ==> !((#[trigger] w[j]).svid == svid && is_ephemeris(w[j].kind)),
        decreases store@.len() - i,
    {
        let k = store[i].kind;
        if store[i].svid == svid && (k == NavKind::GpsNav || k == NavKind::GalNav || k == NavKind::GloNav
            || k == NavKind::SbasNav) {
            assert(w[i as int].svid == svid && is_ephemeris(w[i as int].kind));
            return true;
        }
        assert(w[i as int] == store@[i as int]@);
        i = i + 1;
    }
    false
}

fn contains_svid(v: &Vec<u8>, x: u8) -> (r: bool)
    ensures
        r == v@.contains(x),
{
    let mut i: usize = 0;
    while i < v.len()
        invariant
            i <= v@.len(),
            forall|j: int| 0 <= j < i ==> v@[j] != x,
        decreases v@.len() - i,
    {
        if v[i] == x {
            return true;
        }
        i = i + 1;
    }
    false
}

/// The first position epoch at or after `j` with timestamp `t`.
pub open spec fn pvt_match_from(ps: Seq<PvtEpochView>, j: int, t: SbfBlockTimestamp) -> Option<int>
    decreases ps.len() - j,
{
    if j < 0 || j >= ps.len() {
        None
    } else if ps[j].timestamp == t {
        Some(j)
    } else {
        pvt_match_from(ps, j + 1, t)
    }
}

/// The records of the first position epoch with timestamp `t`, or none.
pub open spec fn pvt_for(ps: Seq<PvtEpochView>, t: SbfBlockTimestamp) -> Seq<PvtView> {
    match pvt_match_from(ps, 0, t) {
        Some(k) => ps[k].records,
        None => Seq::empty(),
    }
}

fn find_pvt(ps: &Vec<PvtEpoch>, t: SbfBlockTimestamp) -> (r: Option<usize>)
    ensures
        match r {
            Some(k) => pvt_match_from(pvt_epoch_views(ps@), 0, t) == Some(k as int) && k < ps@.len(),
            None => pvt_match_from(pvt_epoch_views(ps@), 0, t) is None,
        },
{
    let ghost w = pvt_epoch_views(ps@);
    let mut j: usize = 0;
    while j < ps.len()
        invariant
            w == pvt_epoch_views(ps@),
            w.len() == ps@.len(),
            j <= ps@.len(),
            pvt_match_from(w, 0, t) == pvt_match_from(w, j as int, t),
        decreases ps@.len() - j,
    {
        assert(w[j as int].timestamp == ps@[j as int].timestamp);
        if ps[j].timestamp == t {
            return Some(j);
        }
        j = j + 1;
    }
    None
}

fn copy_record(v: &PvtRecord) -> (r: PvtRecord)
    ensures
        r@ == v@,
{
    PvtRecord {
        id: v.id,
        timestamp: v.timestamp,
        mode: v.mode,
        error: v.error,
        words: slice_to_vec(v.words.as_slice()),
    }
}

fn copy_records(v: &Vec<PvtRecord>) -> (r: Vec<PvtRecord>)
    ensures
        pvt_views(r@) == pvt_views(v@),
{
    let mut r: Vec<PvtRecord> = Vec::new();
    let mut i: usize = 0;
    assert(pvt_views(r@) =~= pvt_views(v@.take(0)));
    while i < v.len()
        invariant
            i <= v@.len(),
            pvt_views(r@) == pvt_views(v@.take(i as int)),
        decreases v@.len() - i,
    {
        let c = copy_record(&v[i]);
        proof {
            assert(v@.take(i + 1) =~= v@.take(i as int).push(v@[i as int]));
            assert(pvt_views(r@.push(c)) =~= pvt_views(r@).push(c@));
            assert(pvt_views(v@.take(i as int).push(v@[i as int])) =~= pvt_views(v@.take(i as int)).push(
                v@[i as int]@,
            ));
        }
        r.push(c);
        i = i + 1;
    }
    assert(v@.take(i as int) =~= v@);
    r
}

/// For each epoch, whether a position epoch of its timestamp was closed, and
/// that epoch's records.
pub fn merge_positions(epochs: &Vec<Epoch>, ps: &Vec<PvtEpoch>) -> (r: (Vec<bool>, Vec<Vec<PvtRecord>>))
    ensures
        r.0@.len() == epochs@.len(),
        r.1@.len() == epochs@.len(),
        forall|i: int| 0 <= i < epochs@.len() ==> #[trigger] r.0@[i] == pvt_match_from(
            pvt_epoch_views(ps@),
            0,
            epochs@[i].timestamp,
        ) is Some,
        forall|i: int| 0 <= i < epochs@.len() ==> pvt_views(#[trigger] r.1@[i]@) == pvt_for(
            pvt_epoch_views(ps@),
            epochs@[i].timestamp,
        ),
{
    let ghost w = pvt_epoch_views(ps@);
    let mut flags: Vec<bool> = Vec::new();
    let mut recs: Vec<Vec<PvtRecord>> = Vec::new();
    let mut i: usize = 0;
    while i < epochs.len()
        invariant
            w == pvt_epoch_views(ps@),
            i <= epochs@.len(),
            flags@.len() == i,
            recs@.len() == i,
            forall|j: int| 0 <= j < i ==> #[trigger] flags@[j] == pvt_match_from(w, 0, epochs@[j].timestamp) is Some,
            forall|j: int| 0 <= j < i ==> pvt_views(#[trigger] recs@[j]@) == pvt_for(w, epochs@[j].timestamp),
        decreases epochs@.len() - i,
    {
        let t = epochs[i].timestamp;
        match find_pvt(ps, t) {
            Some(k) => {
                let c = copy_records(&ps[k].records);
                assert(w[k as int].records == pvt_views(ps@[k as int].records@));
                flags.push(true);
                recs.push(c);
            },
            None => {
                let c: Vec<PvtRecord> = Vec::new();
                assert(pvt_views(c@) =~= Seq::<PvtView>::empty());
                flags.push(false);
                recs.push(c);
            },
        }
        i = i + 1;
    }
    (flags, recs)
}

proof fn lemma_push_contains(before: Seq<u8>, x: u8, y: u8)
    ensures
        before.push(y).contains(x) <==> (before.contains(x) || x == y),
{
    let after = before.push(y);
    if before.contains(x) {
        let i = choose|i: int| 0 <= i < before.len() && before[i] == x;
        assert(after[i] == x);
    }
    if x == y {
        assert(after[before.len() as int] == x);
    }
    if after.contains(x) && x != y {
        let i = choose|i: int| 0 <= i < after.len() && after[i] == x;
        assert(before[i] == x);
    }
}

/// The satellites observed in `epochs` for which `store` holds no ephemeris,
/// each listed once.
pub fn missing_ephemerides(epochs: &Vec<Epoch>, store: &Vec<NavMessage>) -> (r: Vec<u8>)
    ensures
        r@.no_duplicates(),
        forall|svid: u8|
            #[trigger] r@.contains(svid) <==> (observed(epoch_views(epochs@), svid) && !has_ephemeris(
                nav_views(store@),
                svid,
            )),
{
    let ghost es = epoch_views(epochs@);
    let ghost st = nav_views(store@);
    let mut r: Vec<u8> = Vec::new();
    let mut a: usize = 0;
    while a < epochs.len()
        invariant
            es == epoch_views(epochs@),
            es.len() == epochs@.len(),
            st == nav_views(store@),
            a <= epochs@.len(),
            r@.no_duplicates(),
            forall|svid: u8|
                #[trigger] r@.contains(svid) <==> (observed_before(es, a as int, svid) && !has_ephemeris(st, svid)),
        decreases epochs@.len() - a,
    {
        let ms = &epochs[a].measurements;
        let ghost e = es[a as int];
        assert(e.measurements == ms@);
        let mut b: usize = 0;
        assert forall|x: u8| !#[trigger] in_epoch(e, 0, x) by {}
        while b < ms.len()
            invariant
                es == epoch_views(epochs@),
                st == nav_views(store@),
                a < epochs@.len(),
                e == es[a as int],
                e.measurements == ms@,
                b <= ms@.len(),
                r@.no_duplicates(),
                forall|svid: u8|
                    #[trigger] r@.contains(svid) <==> ((observed_before(es, a as int, svid) || in_epoch(e, b as int, svid))
                        && !has_ephemeris(st, svid)),
            decreases ms@.len() - b,
        {
            let svid = ms[b].svid;
            let known = ephemeris_known(store, svid);
            let listed = contains_svid(&r, svid);
            let ghost before = r@;
            if !known && !listed {
                r.push(svid);
            }
            proof {
                assert(e.measurements[b as int].svid == svid);
                assert forall|x: u8| in_epoch(e, b + 1, x) <==> (in_epoch(e, b as int, x) || x == svid) by {
                    if in_epoch(e, b + 1, x) && x != svid {
                        let q = choose|q: int| 0 <= q < b + 1 && q < e.measurements.len() && (#[trigger] e.measurements[q]).svid == x;
                        assert(q < b);
                    }
                    if x == svid {
                        assert(e.measurements[b as int].svid == x);
                    }
                }
                assert forall|x: u8|
                    #[trigger] r@.contains(x) <==> ((observed_before(es, a as int, x) || in_epoch(e, b + 1, x))
                        && !has_ephemeris(st, x)) by {
                    assert(in_epoch(e, b + 1, x) <==> (in_epoch(e, b as int, x) || x == svid));
                    assert(before.contains(x) <==> ((observed_before(es, a as int, x) || in_epoch(
                        e,
                        b as int,
                        x,
                    )) && !has_ephemeris(st, x)));
                    if !known && !listed {
                        lemma_push_contains(before, x, svid);
                        assert(r@ == before.push(svid));
                    } else {
                        assert(r@ == before);
                    }
                    if x == svid {
                        assert(has_ephemeris(st, x) == known);
                        assert(before.contains(x) == listed);
                    }
                }
                if !known && !listed {
                    assert forall|i: int, j: int| 0 <= i < j < r@.len() implies r@[i] != r@[j] by {
                        if j == r@.len() - 1 {
                            assert(before[i] == r@[i]);
                            assert(before.contains(r@[i]));
                        } else {
                            assert(before[i] != before[j]);
                        }
                    }
                }
            }
            b = b + 1;
        }
        proof {
            assert forall|x: u8|
                (observed_before(es, a as int, x) || in_epoch(e, b as int, x)) <==> observed_before(es, a + 1, x) by {
                if observed_before(es, a + 1, x) && !observed_before(es, a as int, x) {
                    let p = choose|p: int| 0 <= p < a + 1 && p < es.len() && #[trigger] in_epoch(es[p], es[p].measurements.len() as int, x);
                    assert(p == a);
                }
                if in_epoch(e, b as int, x) {
                    assert(in_epoch(es[a as int], es[a as int].measurements.len() as int, x));
                }
            }
        }
        a = a + 1;
    }
    r
}

/// Each epoch is strictly later than the one before it.
pub open spec fn strictly_increasing(es: Seq<EpochView>) -> bool {
    forall|i: int| 0 < i < es.len() ==> (#[trigger] es[i - 1]).timestamp.spec_before(es[i].timestamp)
}

/// The first position at which an epoch is not later than the one before it.
pub open spec fn first_out_of_order(es: Seq<EpochView>, i: int) -> bool {
    &&& 0 < i < es.len()
    &&& !es[i - 1].timestamp.spec_before(es[i].timestamp)
    &&& forall|j: int| 0 < j < i ==> (#[trigger] es[j - 1]).timestamp.spec_before(es[j].timestamp)
}

/// Assembles the model from the state at the end of the stream, refusing epochs
/// that are not in strictly increasing time order.
pub fn assemble(c: Correlator) -> (r: Result<ConversionModel, AssemblyError>)
    requires
        c.wf(),
    ensures
        r is Ok <==> strictly_increasing(closed_with_open(c@)),
        r matches Ok(m) ==> {
            &&& epoch_views(m.epochs@) == closed_with_open(c@)
            &&& nav_views(m.ephemerides@) == c@.store
            &&& pvt_epoch_views(m.pvt_epochs@) == c@.pvt_epochs
            &&& pvt_views(m.pending_pvt@) == c@.pending_pvt
            &&& m.unknown@ == c@.unknown
            &&& m.with_position@.len() == m.epochs@.len()
            &&& m.positions@.len() == m.epochs@.len()
            &&& forall|i: int| 0 <= i < m.epochs@.len() ==> #[trigger] m.with_position@[i] == pvt_match_from(
                c@.pvt_epochs,
                0,
                m.epochs@[i].timestamp,
            ) is Some
            &&& forall|i: int| 0 <= i < m.epochs@.len() ==> pvt_views(#[trigger] m.positions@[i]@) == pvt_for(
                c@.pvt_epochs,
                m.epochs@[i].timestamp,
            )
            &&& m.no_ephemeris@.no_duplicates()
            &&& forall|svid: u8|
                m.no_ephemeris@.contains(svid) <==> (observed(closed_with_open(c@), svid) && !has_ephemeris(
                    c@.store,
                    svid,
                ))
        },
        r matches Err(AssemblyError::NonMonotonicEpoch(i)) ==> first_out_of_order(
            closed_with_open(c@),
            i as int,
        ),
{
    let (epochs, ephemerides, pvt_epochs, pending_pvt, unknown, _) = c.finish();
    let ghost es = epoch_views(epochs@);
    let mut i: usize = 1;
    while i < epochs.len()
        invariant
            es == epoch_views(epochs@),
            es == closed_with_open(c@),
            es.len() == epochs@.len(),
            1 <= i,
            forall|j: int| 0 < j < i && j < es.len() ==> (#[trigger] es[j - 1]).timestamp.spec_before(
                es[j].timestamp,
            ),
        decreases epochs@.len() - i,
    {
        if !epochs[i - 1].timestamp.before(&epochs[i].timestamp) {
            assert(es[i - 1] == epochs@[i - 1]@);
            assert(es[i as int] == epochs@[i as int]@);
            return Err(AssemblyError::NonMonotonicEpoch(i));
        }
        assert(es[i - 1] == epochs@[i - 1]@);
        assert(es[i as int] == epochs@[i as int]@);
        i = i + 1;
    }
    let (with_position, positions) = merge_positions(&epochs, &pvt_epochs);
    let no_ephemeris = missing_ephemerides(&epochs, &ephemerides);
    Ok(
        ConversionModel {
            epochs,
            ephemerides,
            pvt_epochs,
            pending_pvt,
            unknown,
            with_position,
            positions,
            no_ephemeris,
        },
    )
}

/// Reads the one block that starts at the beginning of `data`.
pub fn decode_frame(data: &[u8]) -> (r: Result<DecodedBlock, Error>)
    ensures
        !is_sync(data@, 0) ==> r == Err::<DecodedBlock, Error>(Error::NoSync),
        is_sync(data@, 0) ==> match frame_item(data@, 0) {
            FrameView::Fault { error, .. } => r == Err::<DecodedBlock, Error>(Error::Framing(error)),
            FrameView::Block { id, revision, length, payload } => match decode_view(
                id,
                revision,
                length,
                payload,
            ) {
                Ok(v) => r matches Ok(b) && b@ == v,
                Err(e) => r == Err::<DecodedBlock, Error>(Error::Decode(e)),
            },
        },
{
    if data.len() < 2 || data[0] != SYNC1 || data[1] != SYNC2 {
        return Err(Error::NoSync);
    }
    let (item, _) = scan_frame(data, 0);
    match item {
        ScanItem::Fault(e, _) => Err(Error::Framing(e)),
        ScanItem::Block(raw) => match decode_sbf(&raw) {
            Ok(b) => Ok(b),
            Err(e) => Err(Error::Decode(e)),
        },
    }
}

/// The number of reports in `items` that satisfy `f`.
pub open spec fn count_where(items: Seq<FrameView>, f: spec_fn(FrameView) -> bool) -> nat
    decreases items.len(),
{
    if items.len() == 0 {
        0
    } else {
        count_where(items.drop_last(), f) + if f(items.last()) {
            1nat
        } else {
            0nat
        }
    }
}

proof fn lemma_count_bounded(items: Seq<FrameView>, f: spec_fn(FrameView) -> bool)
    ensures
        count_where(items, f) <= items.len(),
    decreases items.len(),
{
    if items.len() > 0 {
        lemma_count_bounded(items.drop_last(), f);
    }
}

/// The report is an accepted block.
pub open spec fn is_block(v: FrameView) -> bool {
    v is Block
}

/// The report is a rejected candidate, after which the scanner resynchronised.
pub open spec fn is_fault(v: FrameView) -> bool {
    v is Fault
}

/// The report is a block that its decoder refused.
pub open spec fn is_decode_failure(v: FrameView) -> bool {
    match v {
        FrameView::Block { id, revision, length, payload } => decode_view(id, revision, length, payload) is Err,
        FrameView::Fault { .. } => false,
    }
}

/// The report is a block of category `c` that decoded.
pub open spec fn is_decoded_in(c: Category, v: FrameView) -> bool {
    match v {
        FrameView::Block { id, revision, length, payload } => decode_view(id, revision, length, payload) is Ok
            && category_spec(id) == c,
        FrameView::Fault { .. } => false,
    }
}

/// The correlator state after the reports of `items`, in order.
pub open spec fn run_items(items: Seq<FrameView>) -> CorrelatorView
    decreases items.len(),
{
    if items.len() == 0 {
        initial_state()
    } else {
        let s = run_items(items.drop_last());
        match items.last() {
            FrameView::Block { id, revision, length, payload } => match decode_view(id, revision, length, payload) {
                Ok(b) => on_block(s, b),
                Err(_) => on_decode_error(s),
            },
            FrameView::Fault { .. } => s,
        }
    }
}

/// A block whose identifier the registry does not list is kept as an unknown
/// record and counted as unsupported, and it leaves the epochs, the store and the
/// other counters as they were, so the blocks after it are processed as before.
pub proof fn lemma_unknown_block_kept(items: Seq<FrameView>, id: u16, revision: u8, length: u16, payload: Seq<u8>)
    requires
        category_spec(id) == Category::Unknown,
    ensures
        ({
            let v = FrameView::Block { id, revision, length, payload };
            let before = run_items(items);
            let after = run_items(items.push(v));
            &&& after.unknown == before.unknown.push(id)
            &&& after.open == before.open
            &&& after.closed == before.closed
            &&& after.store == before.store
            &&& after.decode_errors == before.decode_errors
            &&& count_where(items.push(v), |w: FrameView| is_decoded_in(Category::Unknown, w))
                == count_where(items, |w: FrameView| is_decoded_in(Category::Unknown, w)) + 1
            &&& count_where(items.push(v), |w: FrameView| is_decode_failure(w))
                == count_where(items, |w: FrameView| is_decode_failure(w))
        }),
{
    let v = FrameView::Block { id, revision, length, payload };
    assert(items.push(v).drop_last() =~= items);
}

/// The counters of one run.
#[derive(Clone, Debug, PartialEq, Eq)]
pub struct Diagnostics {
    /// Sync-marker candidates examined: each ends as an accepted block or as a
    /// rejected candidate.
    pub frames_scanned: usize,
    /// Candidates that passed the length and checksum checks.
    pub frames_accepted: usize,
    /// Candidates rejected by framing, each followed by a resynchronisation.
    pub resyncs: usize,
    /// Blocks that their decoder refused.
    pub decode_errors: usize,
    /// Blocks that passed framing and decoding, by category, at the positions
    /// `category_index` gives. The `Unknown` entry counts the blocks kept as
    /// unknown records, so the table sums to the typed records plus the unknown
    /// ones.
    pub decoded: Vec<usize>,
    /// Closed epochs handed on; zero when assembly failed.
    pub epochs_emitted: usize,
}

impl Diagnostics {
    /// How many blocks of a category were decoded.
    pub fn decoded_in(&self, c: Category) -> (r: usize)
        requires
            self.decoded@.len() == CATEGORY_COUNT,
        ensures
            r == self.decoded@[category_index_spec(c) as int],
    {
        self.decoded[category_index(c)]
    }

    /// Blocks whose identifier the registry does not list.
    pub fn unsupported(&self) -> (r: usize)
        requires
            self.decoded@.len() == CATEGORY_COUNT,
        ensures
            r == self.decoded@[category_index_spec(Category::Unknown) as int],
    {
        self.decoded_in(Category::Unknown)
    }
}

/// Converts a whole byte stream: every block that passes framing is decoded and
/// folded, in stream order, into the correlator, and the model is assembled from
/// the final state.
pub fn convert(data: &[u8]) -> (r: (Result<ConversionModel, Error>, Diagnostics))
    ensures
        ({
            let items = scan_from(data@, 0);
            let s = run_items(items);
            &&& r.0 is Ok <==> strictly_increasing(closed_with_open(s))
            &&& r.0 matches Ok(m) ==> {
                &&& epoch_views(m.epochs@) == closed_with_open(s)
                &&& nav_views(m.ephemerides@) == s.store
                &&& pvt_epoch_views(m.pvt_epochs@) == s.pvt_epochs
                &&& pvt_views(m.pending_pvt@) == s.pending_pvt
                &&& m.unknown@ == s.unknown
                &&& m.with_position@.len() == m.epochs@.len()
                &&& m.positions@.len() == m.epochs@.len()
                &&& forall|i: int| 0 <= i < m.epochs@.len() ==> #[trigger] m.with_position@[i] == pvt_match_from(
                    s.pvt_epochs,
                    0,
                    m.epochs@[i].timestamp,
                ) is Some
                &&& forall|i: int| 0 <= i < m.epochs@.len() ==> pvt_views(#[trigger] m.positions@[i]@) == pvt_for(
                    s.pvt_epochs,
                    m.epochs@[i].timestamp,
                )
                &&& m.no_ephemeris@.no_duplicates()
                &&& forall|svid: u8|
                    m.no_ephemeris@.contains(svid) <==> (observed(closed_with_open(s), svid) && !has_ephemeris(
                        s.store,
                        svid,
                    ))
                &&& r.1.epochs_emitted == m.epochs@.len()
            }
            &&& r.0 matches Err(e) ==> e matches Error::Assembly(AssemblyError::NonMonotonicEpoch(i))
                && first_out_of_order(closed_with_open(s), i as int) && r.1.epochs_emitted == 0
            &&& r.1.frames_scanned == items.len()
            &&& r.1.frames_accepted == count_where(items, |v: FrameView| is_block(v))
            &&& r.1.resyncs == count_where(items, |v: FrameView| is_fault(v))
            &&& r.1.decode_errors == count_where(items, |v: FrameView| is_decode_failure(v))
            &&& r.1.decoded@.len() == CATEGORY_COUNT
            &&& forall|c: Category| #[trigger] r.1.decoded@[category_index_spec(c) as int] == count_where(
                items,
                |v: FrameView| is_decoded_in(c, v),
            )
        }),
{
    let items = scan(data);
    let ghost all = scan_from(data@, 0);
    let mut c = Correlator::new();
    let mut decoded: Vec<usize> = Vec::new();
    while decoded.len() < CATEGORY_COUNT
        invariant
            decoded@.len() <= CATEGORY_COUNT,
            forall|k: int| 0 <= k < decoded@.len() ==> decoded@[k] == 0,
        decreases CATEGORY_COUNT - decoded@.len(),
    {
        decoded.push(0);
    }
    let mut frames_accepted: usize = 0;
    let mut resyncs: usize = 0;
    let mut decode_errors: usize = 0;
    let mut i: usize = 0;
    assert(all.take(0) =~= Seq::<FrameView>::empty());
    while i < items.len()
        invariant
            items@.len() == all.len(),
            forall|j: int| 0 <= j < items@.len() ==> #[trigger] items@[j]@ == all[j],
            i <= items@.len(),
            c.wf(),
            c@ == run_items(all.take(i as int)),
            frames_accepted == count_where(all.take(i as int), |v: FrameView| is_block(v)),
            resyncs == count_where(all.take(i as int), |v: FrameView| is_fault(v)),
            decode_errors == count_where(all.take(i as int), |v: FrameView| is_decode_failure(v)),
            c@.decode_errors == decode_errors,
            decoded@.len() == CATEGORY_COUNT,
            forall|c: Category| #[trigger] decoded@[category_index_spec(c) as int] == count_where(
                all.take(i as int),
                |v: FrameView| is_decoded_in(c, v),
            ),
        decreases items@.len() - i,
    {
        let ghost pre = all.take(i as int);
        let ghost next = all.take(i + 1);
        proof {
            assert(next.drop_last() =~= pre);
            assert(next.last() == items@[i as int]@);
            lemma_count_bounded(pre, |v: FrameView| is_block(v));
            lemma_count_bounded(pre, |v: FrameView| is_fault(v));
            lemma_count_bounded(pre, |v: FrameView| is_decode_failure(v));
            assert forall|c: Category| #[trigger] decoded@[category_index_spec(c) as int] <= i by {
                lemma_count_bounded(pre, |v: FrameView| is_decoded_in(c, v));
            }
        }
        match &items[i] {
            ScanItem::Fault(_, _) => {
                resyncs = resyncs + 1;
            },
            ScanItem::Block(raw) => {
                frames_accepted = frames_accepted + 1;
                match decode_sbf(raw) {
                    Ok(b) => {
                        let k = category_index(category_of(raw.id));
                        let ghost cat = category_spec(raw.id);
                        let ghost before = decoded@;
                        decoded[k] = decoded[k] + 1;
                        proof {
                            assert forall|c: Category| #[trigger] decoded@[category_index_spec(c) as int] == count_where(
                                next,
                                |v: FrameView| is_decoded_in(c, v),
                            ) by {
                                if c == cat {
                                } else {
                                    assert(category_index_spec(c) != category_index_spec(cat));
                                }
                            }
                        }
                        c.process(b);
                    },
                    Err(_) => {
                        c.add_decode_error();
                        decode_errors = decode_errors + 1;
                    },
                }
            },
        }
        i = i + 1;
    }
    assert(all.take(i as int) =~= all);
    let frames_scanned = items.len();
    let model = assemble(c);
    match model {
        Ok(m) => {
            let n = m.epochs.len();
            (
                Ok(m),
                Diagnostics { frames_scanned, frames_accepted, resyncs, decode_errors, decoded, epochs_emitted: n },
            )
        },
        Err(e) => (
            Err(Error::Assembly(e)),
            Diagnostics { frames_scanned, frames_accepted, resyncs, decode_errors, decoded, epochs_emitted: 0 },
        ),
    }
}

} // verus!
