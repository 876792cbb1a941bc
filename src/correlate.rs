//! The epoch correlator: folds decoded blocks, in stream order, into measurement
//! epochs and a store of the latest navigation message per satellite.
use vstd::prelude::*;
use crate::block::{Category, SbfBlockTimestamp};
use crate::decode::{BlockView, DecodedBlock, MeasEpoch, Measurement, NavMessage, NavView, PvtRecord, PvtView};

verus! {

/// Two measurements are of the same satellite and signal.
pub open spec fn same_signal(a: Measurement, b: Measurement) -> bool {
    a.svid == b.svid && a.signal == b.signal
}

/// No two measurements of `s` are of the same satellite and signal.
pub open spec fn signals_unique(s: Seq<Measurement>) -> bool {
    forall|i: int, j: int| 0 <= i < j < s.len() ==> !same_signal(#[trigger] s[i], #[trigger] s[j])
}

/// `s` with `m` in place of the entry of its satellite and signal, or with `m`
/// added at the end when there is none.
pub open spec fn upsert_measurement(s: Seq<Measurement>, m: Measurement) -> Seq<Measurement> {
    if exists|i: int| 0 <= i < s.len() && same_signal(#[trigger] s[i], m) {
        s.update(choose|i: int| 0 <= i < s.len() && same_signal(#[trigger] s[i], m), m)
    } else {
        s.push(m)
    }
}

/// The measurements of `ms` merged into `s` one after the other.
pub open spec fn upsert_all(s: Seq<Measurement>, ms: Seq<Measurement>) -> Seq<Measurement>
    decreases ms.len(),
{
    if ms.len() == 0 {
        s
    } else {
        upsert_measurement(upsert_all(s, ms.drop_last()), ms.last())
    }
}

/// The entry of `s` for a satellite and signal, if there is one.
pub open spec fn lookup_measurement(s: Seq<Measurement>, svid: u8, signal: u8) -> Option<
    Measurement,
> {
    if exists|i: int| 0 <= i < s.len() && s[i].svid == svid && #[trigger] s[i].signal == signal {
        Some(s[choose|i: int| 0 <= i < s.len() && s[i].svid == svid && #[trigger] s[i].signal == signal])
    } else {
        None
    }
}

/// Two navigation messages are of the same kind and satellite.
pub open spec fn same_source(a: NavView, b: NavView) -> bool {
    a.kind == b.kind && a.svid == b.svid
}

/// No two messages of `s` are of the same kind and satellite.
pub open spec fn sources_unique(s: Seq<NavView>) -> bool {
    forall|i: int, j: int| 0 <= i < j < s.len() ==> !same_source(#[trigger] s[i], #[trigger] s[j])
}

/// `s` with `m` in place of the message of its kind and satellite, or with `m`
/// added at the end when there is none.
pub open spec fn upsert_nav(s: Seq<NavView>, m: NavView) -> Seq<NavView> {
    if exists|i: int| 0 <= i < s.len() && same_source(#[trigger] s[i], m) {
        s.update(choose|i: int| 0 <= i < s.len() && same_source(#[trigger] s[i], m), m)
    } else {
        s.push(m)
    }
}

proof fn lemma_upsert_measurement(s: Seq<Measurement>, m: Measurement)
    requires
        signals_unique(s),
    ensures
        signals_unique(upsert_measurement(s, m)),
        lookup_measurement(upsert_measurement(s, m), m.svid, m.signal) == Some(m),
{
    let r = upsert_measurement(s, m);
    if exists|i: int| 0 <= i < s.len() && same_signal(#[trigger] s[i], m) {
        let c = choose|i: int| 0 <= i < s.len() && same_signal(#[trigger] s[i], m);
        assert(r[c] == m);
        assert forall|i: int, j: int| 0 <= i < j < r.len() implies !same_signal(
            #[trigger] r[i],
            #[trigger] r[j],
        ) by {
            if i != c && j != c {
                assert(r[i] == s[i] && r[j] == s[j]);
            } else if i == c {
                assert(!same_signal(s[i], s[j]));
            } else {
                assert(!same_signal(s[i], s[j]));
            }
        }
        let d = choose|i: int| 0 <= i < r.len() && r[i].svid == m.svid && #[trigger] r[i].signal == m.signal;
        assert(r[c].svid == m.svid && r[c].signal == m.signal);
        if d != c {
            if d < c {
                assert(!same_signal(r[d], r[c]));
            } else {
                assert(!same_signal(r[c], r[d]));
            }
        }
    } else {
        let c = s.len() as int;
        assert(r[c] == m);
        assert forall|i: int, j: int| 0 <= i < j < r.len() implies !same_signal(
            #[trigger] r[i],
            #[trigger] r[j],
        ) by {
            if j == c {
                assert(r[i] == s[i]);
                assert(!same_signal(s[i], m));
            } else {
                assert(r[i] == s[i] && r[j] == s[j]);
            }
        }
        let d = choose|i: int| 0 <= i < r.len() && r[i].svid == m.svid && #[trigger] r[i].signal == m.signal;
        assert(r[c].svid == m.svid && r[c].signal == m.signal);
        if d != c {
            assert(r[d] == s[d]);
            assert(same_signal(s[d], m));
        }
    }
}

proof fn lemma_upsert_all_unique(s: Seq<Measurement>, ms: Seq<Measurement>)
    requires
        signals_unique(s),
    ensures
        signals_unique(upsert_all(s, ms)),
    decreases ms.len(),
{
    if ms.len() > 0 {
        lemma_upsert_all_unique(s, ms.drop_last());
        lemma_upsert_measurement(upsert_all(s, ms.drop_last()), ms.last());
    }
}

proof fn lemma_upsert_nav_unique(s: Seq<NavView>, m: NavView)
    requires
        sources_unique(s),
    ensures
        sources_unique(upsert_nav(s, m)),
{
    let r = upsert_nav(s, m);
    if exists|i: int| 0 <= i < s.len() && same_source(#[trigger] s[i], m) {
        let c = choose|i: int| 0 <= i < s.len() && same_source(#[trigger] s[i], m);
        assert forall|i: int, j: int| 0 <= i < j < r.len() implies !same_source(
            #[trigger] r[i],
            #[trigger] r[j],
        ) by {
            assert(!same_source(s[i], s[j]));
        }
    } else {
        let c = s.len() as int;
        assert forall|i: int, j: int| 0 <= i < j < r.len() implies !same_source(
            #[trigger] r[i],
            #[trigger] r[j],
        ) by {
            if j == c {
                assert(r[i] == s[i]);
                assert(!same_source(s[i], m));
            } else {
                assert(r[i] == s[i] && r[j] == s[j]);
            }
        }
    }
}

/// Merges `m` into `v`, replacing the entry of the same satellite and signal.
pub fn put_measurement(v: &mut Vec<Measurement>, m: Measurement)
    requires
        signals_unique(old(v)@),
    ensures
        final(v)@ == upsert_measurement(old(v)@, m),
        signals_unique(final(v)@),
{
    proof {
        lemma_upsert_measurement(v@, m);
    }
    let mut i: usize = 0;
    while i < v.len()
        invariant
            v@ == old(v)@,
            signals_unique(v@),
            signals_unique(upsert_measurement(old(v)@, m)),
            i <= v@.len(),
            forall|j: int| 0 <= j < i ==> !same_signal(#[trigger] v@[j], m),
        decreases v@.len() - i,
    {
        if v[i].svid == m.svid && v[i].signal == m.signal {
            proof {
                let c = choose|j: int| 0 <= j < v@.len() && same_signal(#[trigger] v@[j], m);
                if c != i {
                    if c < i {
                        assert(!same_signal(v@[c], m));
                    } else {
                        assert(!same_signal(v@[i as int], v@[c]));
                    }
                }
            }
            v[i] = m;
            return;
        }
        i = i + 1;
    }
    v.push(m);
}

pub open spec fn nav_views(v: Seq<NavMessage>) -> Seq<NavView> {
    v.map_values(|m: NavMessage| m@)
}

/// Merges `m` into `v`, replacing the message of the same kind and satellite.
pub fn put_nav(v: &mut Vec<NavMessage>, m: NavMessage)
    requires
        sources_unique(nav_views(old(v)@)),
    ensures
        nav_views(final(v)@) == upsert_nav(nav_views(old(v)@), m@),
        sources_unique(nav_views(final(v)@)),
{
    let ghost w = nav_views(v@);
    proof {
        lemma_upsert_nav_unique(w, m@);
    }
    let mut i: usize = 0;
    while i < v.len()
        invariant
            v@ == old(v)@,
            w == nav_views(v@),
            sources_unique(w),
            sources_unique(upsert_nav(w, m@)),
            i <= v@.len(),
            forall|j: int| 0 <= j < i ==> !same_source(#[trigger] w[j], m@),
        decreases v@.len() - i,
    {
        if v[i].kind == m.kind && v[i].svid == m.svid {
            let ghost mv = m@;
            proof {
                assert(same_source(w[i as int], mv));
                let c = choose|j: int| 0 <= j < w.len() && same_source(#[trigger] w[j], mv);
                if c != i {
                    if c < i {
                        assert(!same_source(w[c], mv));
                    } else {
                        assert(!same_source(w[i as int], w[c]));
                    }
                }
            }
            v[i] = m;
            proof {
                assert(nav_views(v@) =~= w.update(i as int, mv));
            }
            return;
        }
        i = i + 1;
    }
    let ghost mv = m@;
    v.push(m);
    assert(nav_views(v@) =~= w.push(mv));
}

/// One instant's measurements, and the identifiers of the status and event blocks
/// that arrived while it was the current epoch.
#[derive(Clone, Debug, PartialEq, Eq)]
pub struct Epoch {
    pub timestamp: SbfBlockTimestamp,
    pub measurements: Vec<Measurement>,
    pub aux: Vec<u16>,
}

/// The mathematical form of an `Epoch`.
pub struct EpochView {
    pub timestamp: SbfBlockTimestamp,
    pub measurements: Seq<Measurement>,
    pub aux: Seq<u16>,
}

impl View for Epoch {
    type V = EpochView;

    open spec fn view(&self) -> EpochView {
        EpochView { timestamp: self.timestamp, measurements: self.measurements@, aux: self.aux@ }
    }
}

/// The position records of one position epoch, closed by its end marker.
#[derive(Clone, Debug, PartialEq, Eq)]
pub struct PvtEpoch {
    pub timestamp: SbfBlockTimestamp,
    pub records: Vec<PvtRecord>,
}

/// The mathematical form of a `PvtEpoch`.
pub struct PvtEpochView {
    pub timestamp: SbfBlockTimestamp,
    pub records: Seq<PvtView>,
}

pub open spec fn pvt_views(v: Seq<PvtRecord>) -> Seq<PvtView> {
    v.map_values(|r: PvtRecord| r@)
}

impl View for PvtEpoch {
    type V = PvtEpochView;

    open spec fn view(&self) -> PvtEpochView {
        PvtEpochView { timestamp: self.timestamp, records: pvt_views(self.records@) }
    }
}

pub open spec fn pvt_epoch_views(v: Seq<PvtEpoch>) -> Seq<PvtEpochView> {
    v.map_values(|e: PvtEpoch| e@)
}

/// The state of a correlation run.
pub struct Correlator {
    open: Option<Epoch>,
    closed: Vec<Epoch>,
    store: Vec<NavMessage>,
    pending_pvt: Vec<PvtRecord>,
    pvt_epochs: Vec<PvtEpoch>,
    unknown: Vec<u16>,
    decode_errors: usize,
}

/// The mathematical form of a `Correlator`.
pub struct CorrelatorView {
    /// The epoch still receiving measurements, if any.
    pub open: Option<EpochView>,
    /// The closed epochs, in the order they were closed.
    pub closed: Seq<EpochView>,
    /// The latest navigation message of each kind and satellite.
    pub store: Seq<NavView>,
    /// The position records since the last end-of-position marker.
    pub pending_pvt: Seq<PvtView>,
    /// The closed position epochs, in the order their end markers came.
    pub pvt_epochs: Seq<PvtEpochView>,
    /// The identifiers of the blocks that the registry does not list, in stream order.
    pub unknown: Seq<u16>,
    /// How many blocks were refused by their decoder.
    pub decode_errors: nat,
}

pub open spec fn epoch_views(v: Seq<Epoch>) -> Seq<EpochView> {
    v.map_values(|e: Epoch| e@)
}

impl View for Correlator {
    type V = CorrelatorView;

    closed spec fn view(&self) -> CorrelatorView {
        CorrelatorView {
            open: match self.open {
                Some(e) => Some(e@),
                None => None,
            },
            closed: epoch_views(self.closed@),
            store: nav_views(self.store@),
            pending_pvt: pvt_views(self.pending_pvt@),
            pvt_epochs: pvt_epoch_views(self.pvt_epochs@),
            unknown: self.unknown@,
            decode_errors: self.decode_errors as nat,
        }
    }
}

/// The state before any block.
pub open spec fn initial_state() -> CorrelatorView {
    CorrelatorView {
        open: None,
        closed: Seq::empty(),
        store: Seq::empty(),
        pending_pvt: Seq::empty(),
        pvt_epochs: Seq::empty(),
        unknown: Seq::empty(),
        decode_errors: 0,
    }
}

/// Every epoch has one entry per satellite and signal, and the store one message
/// per kind and satellite.
pub open spec fn state_wf(s: CorrelatorView) -> bool {
    &&& (s.open matches Some(o) ==> signals_unique(o.measurements))
    &&& forall|i: int| 0 <= i < s.closed.len() ==> signals_unique(#[trigger] s.closed[i].measurements)
    &&& sources_unique(s.store)
}

/// The closed epochs once the open one, if any, is closed too.
pub open spec fn closed_with_open(s: CorrelatorView) -> Seq<EpochView> {
    match s.open {
        Some(o) => s.closed.push(o),
        None => s.closed,
    }
}

/// A measurement block: merged into the open epoch when the timestamps match;
/// otherwise the open epoch is closed and a new one opened at `ts`.
pub open spec fn on_measurement(s: CorrelatorView, ts: SbfBlockTimestamp, ms: Seq<Measurement>) -> CorrelatorView {
    match s.open {
        Some(o) if o.timestamp == ts => CorrelatorView {
            open: Some(
                EpochView {
                    timestamp: o.timestamp,
                    measurements: upsert_all(o.measurements, ms),
                    aux: o.aux,
                },
            ),
            closed: s.closed,
            store: s.store,
            pending_pvt: s.pending_pvt,
            pvt_epochs: s.pvt_epochs,
            unknown: s.unknown,
            decode_errors: s.decode_errors,
        },
        _ => CorrelatorView {
            open: Some(
                EpochView { timestamp: ts, measurements: upsert_all(Seq::empty(), ms), aux: Seq::empty() },
            ),
            closed: closed_with_open(s),
            store: s.store,
            pending_pvt: s.pending_pvt,
            pvt_epochs: s.pvt_epochs,
            unknown: s.unknown,
            decode_errors: s.decode_errors,
        },
    }
}

/// An end-of-measurement marker closes the open epoch, if any.
pub open spec fn on_end_of_measurement(s: CorrelatorView) -> CorrelatorView {
    CorrelatorView {
        open: None,
        closed: closed_with_open(s),
        store: s.store,
        pending_pvt: s.pending_pvt,
        pvt_epochs: s.pvt_epochs,
        unknown: s.unknown,
        decode_errors: s.decode_errors,
    }
}

/// A navigation message replaces the stored one of its kind and satellite.
pub open spec fn on_navigation(s: CorrelatorView, m: NavView) -> CorrelatorView {
    CorrelatorView {
        open: s.open,
        closed: s.closed,
        store: upsert_nav(s.store, m),
        pending_pvt: s.pending_pvt,
        pvt_epochs: s.pvt_epochs,
        unknown: s.unknown,
        decode_errors: s.decode_errors,
    }
}

/// An end-of-position marker closes the position epoch: its records, at the
/// marker's timestamp.
pub open spec fn on_end_of_pvt(s: CorrelatorView, ts: SbfBlockTimestamp) -> CorrelatorView {
    CorrelatorView {
        open: s.open,
        closed: s.closed,
        store: s.store,
        pending_pvt: Seq::empty(),
        pvt_epochs: s.pvt_epochs.push(PvtEpochView { timestamp: ts, records: s.pending_pvt }),
        unknown: s.unknown,
        decode_errors: s.decode_errors,
    }
}

/// A position record joins the position epoch still open.
pub open spec fn on_pvt(s: CorrelatorView, v: PvtView) -> CorrelatorView {
    CorrelatorView {
        open: s.open,
        closed: s.closed,
        store: s.store,
        pending_pvt: s.pending_pvt.push(v),
        pvt_epochs: s.pvt_epochs,
        unknown: s.unknown,
        decode_errors: s.decode_errors,
    }
}

/// A status, event or other block is noted on the open epoch, else on the last
/// closed one; with no epoch yet it is only passed over.
pub open spec fn on_auxiliary(s: CorrelatorView, id: u16) -> CorrelatorView {
    match s.open {
        Some(o) => CorrelatorView {
            open: Some(EpochView { timestamp: o.timestamp, measurements: o.measurements, aux: o.aux.push(id) }),
            closed: s.closed,
            store: s.store,
            pending_pvt: s.pending_pvt,
            pvt_epochs: s.pvt_epochs,
            unknown: s.unknown,
            decode_errors: s.decode_errors,
        },
        None => if s.closed.len() == 0 {
            s
        } else {
            let last = s.closed.last();
            CorrelatorView {
                open: None,
                closed: s.closed.update(
                    s.closed.len() - 1,
                    EpochView { timestamp: last.timestamp, measurements: last.measurements, aux: last.aux.push(id) },
                ),
                store: s.store,
                pending_pvt: s.pending_pvt,
                pvt_epochs: s.pvt_epochs,
                unknown: s.unknown,
                decode_errors: s.decode_errors,
            }
        },
    }
}

/// A block that the registry does not list is recorded by identifier.
pub open spec fn on_unknown(s: CorrelatorView, id: u16) -> CorrelatorView {
    CorrelatorView {
        open: s.open,
        closed: s.closed,
        store: s.store,
        pending_pvt: s.pending_pvt,
        pvt_epochs: s.pvt_epochs,
        unknown: s.unknown.push(id),
        decode_errors: s.decode_errors,
    }
}

/// A block refused by its decoder is counted and changes nothing else.
pub open spec fn on_decode_error(s: CorrelatorView) -> CorrelatorView {
    CorrelatorView {
        open: s.open,
        closed: s.closed,
        store: s.store,
        pending_pvt: s.pending_pvt,
        pvt_epochs: s.pvt_epochs,
        unknown: s.unknown,
        decode_errors: s.decode_errors + 1,
    }
}

/// The effect of one decoded block. A measurement block of a family without its
/// own decoder still opens or continues the epoch of its timestamp.
pub open spec fn on_block(s: CorrelatorView, b: BlockView) -> CorrelatorView {
    match b {
        BlockView::Measurement(e) => on_measurement(s, e.timestamp, e.measurements),
        BlockView::EndOfMeasurement(_) => on_end_of_measurement(s),
        BlockView::EndOfPvt(t) => on_end_of_pvt(s, t),
        BlockView::Pvt(v) => on_pvt(s, v),
        BlockView::Navigation(m) => on_navigation(s, m),
        BlockView::Auxiliary { category, id, timestamp } => if category == Category::Measurement {
            on_measurement(s, timestamp, Seq::empty())
        } else {
            on_auxiliary(s, id)
        },
        BlockView::Unknown { id, .. } => on_unknown(s, id),
    }
}

fn merge_all(v: &mut Vec<Measurement>, ms: &Vec<Measurement>)
    requires
        signals_unique(old(v)@),
    ensures
        final(v)@ == upsert_all(old(v)@, ms@),
        signals_unique(final(v)@),
{
    let mut i: usize = 0;
    while i < ms.len()
        invariant
            i <= ms@.len(),
            v@ == upsert_all(old(v)@, ms@.subrange(0, i as int)),
            signals_unique(v@),
        decreases ms@.len() - i,
    {
        proof {
            assert(ms@.subrange(0, i + 1).drop_last() =~= ms@.subrange(0, i as int));
        }
        put_measurement(v, ms[i]);
        i = i + 1;
    }
    assert(ms@.subrange(0, i as int) =~= ms@);
}

impl Correlator {
    pub open spec fn wf(&self) -> bool {
        state_wf(self@)
    }

    /// A correlator with no epoch and an empty store.
    pub fn new() -> (r: Correlator)
        ensures
            r@ == initial_state(),
            r.wf(),
    {
        let r = Correlator {
            open: None,
            closed: Vec::new(),
            store: Vec::new(),
            pending_pvt: Vec::new(),
            pvt_epochs: Vec::new(),
            unknown: Vec::new(),
            decode_errors: 0,
        };
        assert(r@.closed =~= Seq::<EpochView>::empty());
        assert(r@.store =~= Seq::<NavView>::empty());
        assert(r@.pending_pvt =~= Seq::<PvtView>::empty());
        assert(r@.pvt_epochs =~= Seq::<PvtEpochView>::empty());
        r
    }

    fn close_open(&mut self)
        requires
            old(self).wf(),
        ensures
            final(self)@ == on_end_of_measurement(old(self)@),
            final(self).wf(),
    {
        let open = self.open.take();
        match open {
            Some(e) => {
                proof {
                    assert(epoch_views(self.closed@.push(e)) =~= epoch_views(self.closed@).push(e@));
                }
                self.closed.push(e);
            },
            None => {},
        }
    }

    /// Folds a measurement epoch block in.
    pub fn add_measurements(&mut self, e: MeasEpoch)
        requires
            old(self).wf(),
        ensures
            final(self)@ == on_measurement(old(self)@, e.timestamp, e.measurements@),
            final(self).wf(),
    {
        let same = match &self.open {
            Some(o) => o.timestamp == e.timestamp,
            None => false,
        };
        if same {
            let mut o = self.open.take().unwrap();
            merge_all(&mut o.measurements, &e.measurements);
            self.open = Some(o);
        } else {
            self.close_open();
            let mut ms: Vec<Measurement> = Vec::new();
            merge_all(&mut ms, &e.measurements);
            self.open = Some(Epoch { timestamp: e.timestamp, measurements: ms, aux: Vec::new() });
        }
    }

    /// Closes the open epoch, if any.
    pub fn end_of_measurement(&mut self)
        requires
            old(self).wf(),
        ensures
            final(self)@ == on_end_of_measurement(old(self)@),
            final(self).wf(),
    {
        self.close_open();
    }

    /// Stores a navigation message over the previous one of its kind and satellite.
    pub fn add_navigation(&mut self, m: NavMessage)
        requires
            old(self).wf(),
        ensures
            final(self)@ == on_navigation(old(self)@, m@),
            final(self).wf(),
    {
        put_nav(&mut self.store, m);
    }

    /// Records the end of a position epoch.
    pub fn end_of_pvt(&mut self, ts: SbfBlockTimestamp)
        requires
            old(self).wf(),
        ensures
            final(self)@ == on_end_of_pvt(old(self)@, ts),
            final(self).wf(),
    {
        let mut records: Vec<PvtRecord> = Vec::new();
        std::mem::swap(&mut records, &mut self.pending_pvt);
        let e = PvtEpoch { timestamp: ts, records };
        proof {
            assert(pvt_epoch_views(self.pvt_epochs@.push(e)) =~= pvt_epoch_views(self.pvt_epochs@).push(e@));
            assert(pvt_views(self.pending_pvt@) =~= Seq::<PvtView>::empty());
        }
        self.pvt_epochs.push(e);
    }

    /// Adds a position record to the open position epoch.
    pub fn add_pvt(&mut self, v: PvtRecord)
        requires
            old(self).wf(),
        ensures
            final(self)@ == on_pvt(old(self)@, v@),
            final(self).wf(),
    {
        proof {
            assert(pvt_views(self.pending_pvt@.push(v)) =~= pvt_views(self.pending_pvt@).push(v@));
        }
        self.pending_pvt.push(v);
    }

    /// Notes a status, event or other block on the nearest epoch.
    pub fn add_auxiliary(&mut self, id: u16)
        requires
            old(self).wf(),
        ensures
            final(self)@ == on_auxiliary(old(self)@, id),
            final(self).wf(),
    {
        if self.open.is_some() {
            let mut o = self.open.take().unwrap();
            o.aux.push(id);
            self.open = Some(o);
        } else if self.closed.len() > 0 {
            let mut last = self.closed.pop().unwrap();
            last.aux.push(id);
            let ghost before = self.closed@;
            self.closed.push(last);
            proof {
                assert(epoch_views(self.closed@) =~= epoch_views(old(self).closed@).update(
                    old(self).closed@.len() - 1,
                    last@,
                ));
                assert(old(self).closed@[old(self).closed@.len() - 1].measurements@ == last.measurements@);
                assert forall|i: int| 0 <= i < self@.closed.len() implies signals_unique(
                    #[trigger] self@.closed[i].measurements,
                ) by {
                    assert(old(self)@.closed[i].measurements == self@.closed[i].measurements);
                }
            }
        }
    }

    /// Records a block that the registry does not list.
    pub fn add_unknown(&mut self, id: u16)
        requires
            old(self).wf(),
        ensures
            final(self)@ == on_unknown(old(self)@, id),
            final(self).wf(),
    {
        self.unknown.push(id);
    }

    /// Counts a block that its decoder refused.
    pub fn add_decode_error(&mut self)
        requires
            old(self).wf(),
            old(self)@.decode_errors < usize::MAX,
        ensures
            final(self)@ == on_decode_error(old(self)@),
            final(self).wf(),
    {
        self.decode_errors = self.decode_errors + 1;
    }

    /// Ends the run: the open epoch, if any, is closed, since no block can join it
    /// any more. Returns the closed epochs, the store, the closed position epochs,
    /// the position records after the last end-of-position marker, the unknown
    /// block identifiers and the decode error count.
    pub fn finish(self) -> (r: (Vec<Epoch>, Vec<NavMessage>, Vec<PvtEpoch>, Vec<PvtRecord>, Vec<u16>, usize))
        requires
            self.wf(),
        ensures
            epoch_views(r.0@) == closed_with_open(self@),
            nav_views(r.1@) == self@.store,
            pvt_epoch_views(r.2@) == self@.pvt_epochs,
            pvt_views(r.3@) == self@.pending_pvt,
            r.4@ == self@.unknown,
            r.5 == self@.decode_errors,
    {
        let mut c = self;
        c.close_open();
        (c.closed, c.store, c.pvt_epochs, c.pending_pvt, c.unknown, c.decode_errors)
    }

    /// Folds one decoded block in.
    pub fn process(&mut self, b: DecodedBlock)
        requires
            old(self).wf(),
        ensures
            final(self)@ == on_block(old(self)@, b@),
            final(self).wf(),
    {
        match b {
            DecodedBlock::Measurement(e) => self.add_measurements(e),
            DecodedBlock::EndOfMeasurement(_) => self.end_of_measurement(),
            DecodedBlock::EndOfPvt(t) => self.end_of_pvt(t),
            DecodedBlock::Pvt(v) => self.add_pvt(v),
            DecodedBlock::Navigation(m) => self.add_navigation(m),
            DecodedBlock::Auxiliary { category, id, timestamp } => {
                if category == Category::Measurement {
                    let e = MeasEpoch { timestamp, common_flags: 0, measurements: Vec::new() };
                    self.add_measurements(e);
                } else {
                    self.add_auxiliary(id);
                }
            },
            DecodedBlock::Unknown(raw) => self.add_unknown(raw.id),
        }
    }
}

/// The state after, for each `i` in order, a measurement block at `ts[i]` holding
/// `ms[i]` followed by an end-of-measurement marker.
pub open spec fn feed_terminated(s: CorrelatorView, ts: Seq<SbfBlockTimestamp>, ms: Seq<Seq<Measurement>>) -> CorrelatorView
    decreases ts.len(),
{
    if ts.len() == 0 {
        s
    } else {
        let n = ts.len() - 1;
        on_end_of_measurement(on_measurement(feed_terminated(s, ts.drop_last(), ms), ts[n], ms[n]))
    }
}

/// Measurement blocks each followed by an end-of-measurement marker give exactly
/// one closed epoch each, in stream order, after the epochs closed before.
pub proof fn lemma_terminated_epochs_in_order(s: CorrelatorView, ts: Seq<SbfBlockTimestamp>, ms: Seq<Seq<Measurement>>)
    requires
        s.open is None,
        ms.len() >= ts.len(),
    ensures
        ({
            let r = feed_terminated(s, ts, ms);
            &&& r.open is None
            &&& r.closed.len() == s.closed.len() + ts.len()
            &&& forall|i: int| 0 <= i < s.closed.len() ==> #[trigger] r.closed[i] == s.closed[i]
            &&& forall|i: int| 0 <= i < ts.len() ==> #[trigger] r.closed[s.closed.len() + i].timestamp == ts[i]
        }),
    decreases ts.len(),
{
    if ts.len() > 0 {
        let n = ts.len() - 1;
        lemma_terminated_epochs_in_order(s, ts.drop_last(), ms);
        let prev = feed_terminated(s, ts.drop_last(), ms);
        let r = feed_terminated(s, ts, ms);
        assert(r.closed == prev.closed.push(on_measurement(prev, ts[n], ms[n]).open->0));
        assert forall|i: int| 0 <= i < ts.len() implies #[trigger] r.closed[s.closed.len() + i].timestamp == ts[i] by {
            if i < n {
                assert(r.closed[s.closed.len() + i] == prev.closed[s.closed.len() + i]);
                assert(ts.drop_last()[i] == ts[i]);
            }
        }
    }
}

/// From the initial state, terminated measurement blocks at strictly increasing
/// timestamps give closed epochs at exactly those timestamps, in strictly
/// increasing order.
pub proof fn lemma_increasing_terminated_epochs(ts: Seq<SbfBlockTimestamp>, ms: Seq<Seq<Measurement>>)
    requires
        ms.len() == ts.len(),
        forall|i: int| 0 < i < ts.len() ==> (#[trigger] ts[i - 1]).spec_before(ts[i]),
    ensures
        ({
            let r = feed_terminated(initial_state(), ts, ms);
            &&& r.open is None
            &&& r.closed.len() == ts.len()
            &&& forall|i: int| 0 <= i < ts.len() ==> #[trigger] r.closed[i].timestamp == ts[i]
            &&& forall|i: int| 0 < i < ts.len() ==> (#[trigger] r.closed[i - 1]).timestamp.spec_before(
                r.closed[i].timestamp,
            )
        }),
{
    lemma_terminated_epochs_in_order(initial_state(), ts, ms);
    let r = feed_terminated(initial_state(), ts, ms);
    assert forall|i: int| 0 <= i < ts.len() implies #[trigger] r.closed[i].timestamp == ts[i] by {
        assert(r.closed[0 + i].timestamp == ts[i]);
    }
    assert forall|i: int| 0 < i < ts.len() implies (#[trigger] r.closed[i - 1]).timestamp.spec_before(
        r.closed[i].timestamp,
    ) by {
        assert(r.closed[i - 1].timestamp == ts[i - 1]);
        assert(r.closed[i].timestamp == ts[i]);
    }
}

/// Of two measurement blocks at the timestamp of one epoch, the later one's entry
/// for a satellite and signal is the one the epoch keeps.
pub proof fn lemma_later_measurement_retained(
    s: CorrelatorView,
    ts: SbfBlockTimestamp,
    ms1: Seq<Measurement>,
    ms2: Seq<Measurement>,
)
    requires
        state_wf(s),
        ms2.len() > 0,
    ensures
        ({
            let s2 = on_measurement(on_measurement(s, ts, ms1), ts, ms2);
            s2.open matches Some(o) && o.timestamp == ts && lookup_measurement(
                o.measurements,
                ms2.last().svid,
                ms2.last().signal,
            ) == Some(ms2.last())
        }),
{
    let s1 = on_measurement(s, ts, ms1);
    let o1 = s1.open->0;
    match s.open {
        Some(o) => {
            if o.timestamp == ts {
                lemma_upsert_all_unique(o.measurements, ms1);
            } else {
                lemma_upsert_all_unique(Seq::empty(), ms1);
            }
        },
        None => {
            lemma_upsert_all_unique(Seq::empty(), ms1);
        },
    }
    lemma_upsert_all_unique(o1.measurements, ms2.drop_last());
    lemma_upsert_measurement(upsert_all(o1.measurements, ms2.drop_last()), ms2.last());
}

} // verus!
