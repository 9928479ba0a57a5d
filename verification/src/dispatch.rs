//! Change-gated dispatch: a record is published only when it differs from the
//! record of its kind that was published last.

use vstd::prelude::*;
use crate::numeric::Decimal;
use crate::record::{Battery, DcOutput, SwitchesIn, SwitchesOut, UpsStatus};
use crate::record::{RecordKind, TelemetryRecord};

verus! {

/// The record of each kind that was dispatched last, or the initial record of
/// that kind where none was.
#[derive(Clone, Copy, Debug, PartialEq, Eq, Structural)]
pub struct StateStore {
    pub switches_in: SwitchesIn,
    pub switches_out: SwitchesOut,
    pub ups_status: UpsStatus,
    pub battery: Battery,
    pub dc_output: DcOutput,
}

/// The store before anything was dispatched: every switch open, every number
/// zero.
pub open spec fn initial_store() -> StateStore {
    let zero = Decimal { negative: false, digits: 0, scale: 0 };
    StateStore {
        switches_in: SwitchesIn { in1: false, in2: false, in3: false, ac_present: false },
        switches_out: SwitchesOut {
            no1: false,
            no2: false,
            no3: false,
            no4: false,
            nc5: false,
            nc6: false,
        },
        ups_status: UpsStatus { voltage: zero, current: zero, power: zero, overvoltage: false },
        battery: Battery { voltage: zero, current: zero, capacity_pct: 0 },
        dc_output: DcOutput { voltage: zero, current1: zero, current2: zero },
    }
}

/// What one dispatch does: the store it leaves, and the payload it hands to
/// the sink, if any.
///
/// `encoded` is the record in its published form, or `None` where it could
/// not be encoded. A record equal to the stored one of its kind changes
/// nothing. A record that differs is published and stored, unless it could
/// not be encoded: then the store stays as it was, so that the same record
/// arriving again is tried again.
pub open spec fn dispatched(store: StateStore, record: TelemetryRecord, encoded: Option<Seq<u8>>) -> (
    StateStore,
    Option<Seq<u8>>,
) {
    if store.slot(record.kind_spec()) == record {
        (store, None)
    } else {
        match encoded {
            Some(payload) => (store.with(record), Some(payload)),
            None => (store, None),
        }
    }
}

impl StateStore {
    /// The stored record of one kind.
    pub open spec fn slot(self, kind: RecordKind) -> TelemetryRecord {
        match kind {
            RecordKind::SwitchesIn => TelemetryRecord::SwitchesIn(self.switches_in),
            RecordKind::SwitchesOut => TelemetryRecord::SwitchesOut(self.switches_out),
            RecordKind::UpsStatus => TelemetryRecord::UpsStatus(self.ups_status),
            RecordKind::Battery => TelemetryRecord::Battery(self.battery),
            RecordKind::DcOutput => TelemetryRecord::DcOutput(self.dc_output),
        }
    }

    /// The store with `record` in the slot of its kind and the other slots
    /// as they are.
    pub open spec fn with(self, record: TelemetryRecord) -> StateStore {
        match record {
            TelemetryRecord::SwitchesIn(r) => StateStore { switches_in: r, ..self },
            TelemetryRecord::SwitchesOut(r) => StateStore { switches_out: r, ..self },
            TelemetryRecord::UpsStatus(r) => StateStore { ups_status: r, ..self },
            TelemetryRecord::Battery(r) => StateStore { battery: r, ..self },
            TelemetryRecord::DcOutput(r) => StateStore { dc_output: r, ..self },
        }
    }

    /// Every stored record is well formed.
    pub open spec fn wf(self) -> bool {
        &&& self.slot(RecordKind::UpsStatus).wf()
        &&& self.slot(RecordKind::Battery).wf()
        &&& self.slot(RecordKind::DcOutput).wf()
    }

    /// The store before anything was dispatched.
    pub fn new() -> (store: StateStore)
        ensures
            store == initial_store(),
            store.wf(),
    {
        let zero = Decimal::zero();
        StateStore {
            switches_in: SwitchesIn { in1: false, in2: false, in3: false, ac_present: false },
            switches_out: SwitchesOut {
                no1: false,
                no2: false,
                no3: false,
                no4: false,
                nc5: false,
                nc6: false,
            },
            ups_status: UpsStatus { voltage: zero, current: zero, power: zero, overvoltage: false },
            battery: Battery { voltage: zero, current: zero, capacity_pct: 0 },
            dc_output: DcOutput { voltage: zero, current1: zero, current2: zero },
        }
    }

    /// The stored record of one kind.
    pub fn stored(&self, kind: RecordKind) -> (record: TelemetryRecord)
        ensures
            record == self.slot(kind),
    {
        match kind {
            RecordKind::SwitchesIn => TelemetryRecord::SwitchesIn(self.switches_in),
            RecordKind::SwitchesOut => TelemetryRecord::SwitchesOut(self.switches_out),
            RecordKind::UpsStatus => TelemetryRecord::UpsStatus(self.ups_status),
            RecordKind::Battery => TelemetryRecord::Battery(self.battery),
            RecordKind::DcOutput => TelemetryRecord::DcOutput(self.dc_output),
        }
    }

    /// Whether `record` differs from the stored record of its kind, that is,
    /// whether dispatching it would publish.
    pub fn is_changed(&self, record: &TelemetryRecord) -> (changed: bool)
        ensures
            changed == (self.slot(record.kind_spec()) != *record),
    {
        match record {
            TelemetryRecord::SwitchesIn(r) => self.switches_in != *r,
            TelemetryRecord::SwitchesOut(r) => self.switches_out != *r,
            TelemetryRecord::UpsStatus(r) => self.ups_status != *r,
            TelemetryRecord::Battery(r) => self.battery != *r,
            TelemetryRecord::DcOutput(r) => self.dc_output != *r,
        }
    }

    /// Puts `record` in the slot of its kind.
    pub fn remember(&mut self, record: TelemetryRecord)
        ensures
            *final(self) == old(self).with(record),
            old(self).wf() && record.wf() ==> final(self).wf(),
    {
        match record {
            TelemetryRecord::SwitchesIn(r) => {
                self.switches_in = r;
            },
            TelemetryRecord::SwitchesOut(r) => {
                self.switches_out = r;
            },
            TelemetryRecord::UpsStatus(r) => {
                self.ups_status = r;
            },
            TelemetryRecord::Battery(r) => {
                self.battery = r;
            },
            TelemetryRecord::DcOutput(r) => {
                self.dc_output = r;
            },
        }
    }
}

/// Dispatches one record: hands back the payload to publish where the record
/// differs from the stored one of its kind, and stores the record then.
///
/// `encoded` is the record in its published form, or `None` where encoding it
/// failed.
pub fn dispatch_if_changed(
    record: TelemetryRecord,
    store: &mut StateStore,
    encoded: Option<Vec<u8>>,
) -> (publish: Option<Vec<u8>>)
    ensures
        *final(store) == dispatched(*old(store), record, vec_view(encoded)).0,
        vec_view(publish) == dispatched(*old(store), record, vec_view(encoded)).1,
        publish.is_some() ==> publish == encoded,
        old(store).wf() && record.wf() ==> final(store).wf(),
{
    if !store.is_changed(&record) {
        return None;
    }
    match encoded {
        Some(payload) => {
            store.remember(record);
            Some(payload)
        },
        None => None,
    }
}

/// The bytes of an optional payload.
pub open spec fn vec_view(payload: Option<Vec<u8>>) -> Option<Seq<u8>> {
    match payload {
        Some(bytes) => Some(bytes@),
        None => None,
    }
}

/// A stored record is found again in the slot of its kind, and the slots of
/// the other kinds are as they were.
pub proof fn lemma_slots_are_independent(store: StateStore, record: TelemetryRecord, kind: RecordKind)
    ensures
        store.with(record).slot(record.kind_spec()) == record,
        kind != record.kind_spec() ==> store.with(record).slot(kind) == store.slot(kind),
{
}

/// A dispatch changes the store only by storing the record that it
/// publishes: whatever the store holds was published, or was there before.
pub proof fn lemma_store_holds_published(
    store: StateStore,
    record: TelemetryRecord,
    encoded: Option<Seq<u8>>,
)
    ensures
        dispatched(store, record, encoded).1.is_some() ==> dispatched(store, record, encoded).0
            == store.with(record),
        dispatched(store, record, encoded).1.is_none() ==> dispatched(store, record, encoded).0
            == store,
        dispatched(store, record, encoded).1.is_some() <==> store.slot(record.kind_spec())
            != record && encoded.is_some(),
{
}

/// The same record dispatched twice in a row is published at most once: once
/// it was published, dispatching it again publishes nothing and leaves the
/// store as it is. It is published by the second dispatch only where the first
/// could not encode it.
pub proof fn lemma_repeat_publishes_once(
    store: StateStore,
    record: TelemetryRecord,
    first: Option<Seq<u8>>,
    second: Option<Seq<u8>>,
)
    ensures
        ({
            let (mid, out_a) = dispatched(store, record, first);
            let (end, out_b) = dispatched(mid, record, second);
            &&& out_a.is_some() ==> out_b.is_none() && end == mid
            &&& out_b.is_some() ==> first.is_none()
            &&& store.slot(record.kind_spec()) != record && first.is_some() ==> out_a.is_some()
                && out_b.is_none()
        }),
{
    lemma_slots_are_independent(store, record, record.kind_spec());
}

/// Two different records of one kind dispatched in a row, each of them
/// encoded, are both published where the first differs from the stored one.
pub proof fn lemma_different_records_publish_twice(
    store: StateStore,
    a: TelemetryRecord,
    b: TelemetryRecord,
    encoded_a: Seq<u8>,
    encoded_b: Seq<u8>,
)
    requires
        a.kind_spec() == b.kind_spec(),
        a != b,
        store.slot(a.kind_spec()) != a,
    ensures
        ({
            let (mid, out_a) = dispatched(store, a, Some(encoded_a));
            let (end, out_b) = dispatched(mid, b, Some(encoded_b));
            out_a == Some(encoded_a) && out_b == Some(encoded_b) && end.slot(a.kind_spec()) == b
        }),
{
    lemma_slots_are_independent(store, a, a.kind_spec());
    let mid = store.with(a);
    lemma_slots_are_independent(mid, b, b.kind_spec());
}

/// Each kind is gated by its own slot: a record of another kind dispatched in
/// between changes neither whether a record is published nor what is stored
/// for its kind.
pub proof fn lemma_other_kind_does_not_interfere(
    store: StateStore,
    between: TelemetryRecord,
    encoded_between: Option<Seq<u8>>,
    record: TelemetryRecord,
    encoded: Option<Seq<u8>>,
)
    requires
        between.kind_spec() != record.kind_spec(),
    ensures
        ({
            let (mid, out_a) = dispatched(store, between, encoded_between);
            let (end, out_b) = dispatched(mid, record, encoded);
            &&& out_b == dispatched(store, record, encoded).1
            &&& end.slot(record.kind_spec()) == dispatched(store, record, encoded).0.slot(
                record.kind_spec(),
            )
            &&& out_a == dispatched(dispatched(store, record, encoded).0, between, encoded_between).1
        }),
{
    lemma_slots_are_independent(store, between, record.kind_spec());
    lemma_slots_are_independent(store, record, between.kind_spec());
    let mid = dispatched(store, between, encoded_between).0;
    lemma_slots_are_independent(mid, record, record.kind_spec());
    lemma_slots_are_independent(store, record, record.kind_spec());
}

/// The store after a run of dispatches, each a record with its published
/// form, or `None` where it could not be encoded.
pub open spec fn store_after(
    store: StateStore,
    run: Seq<(TelemetryRecord, Option<Seq<u8>>)>,
) -> StateStore
    decreases run.len(),
{
    if run.len() == 0 {
        store
    } else {
        dispatched(store_after(store, run.drop_last()), run.last().0, run.last().1).0
    }
}

/// The records that a run of dispatches publishes, in order.
pub open spec fn published_by(
    store: StateStore,
    run: Seq<(TelemetryRecord, Option<Seq<u8>>)>,
) -> Seq<TelemetryRecord>
    decreases run.len(),
{
    if run.len() == 0 {
        Seq::empty()
    } else {
        let earlier = published_by(store, run.drop_last());
        let before = store_after(store, run.drop_last());
        if dispatched(before, run.last().0, run.last().1).1.is_some() {
            earlier.push(run.last().0)
        } else {
            earlier
        }
    }
}

/// Whatever a run of dispatches leaves in a slot was published by the run,
/// or is what the slot held before the run.
pub proof fn lemma_store_holds_only_published(
    store: StateStore,
    run: Seq<(TelemetryRecord, Option<Seq<u8>>)>,
    kind: RecordKind,
)
    ensures
        store_after(store, run).slot(kind) == store.slot(kind) || published_by(
            store,
            run,
        ).contains(store_after(store, run).slot(kind)),
    decreases run.len(),
{
    if run.len() > 0 {
        let earlier = published_by(store, run.drop_last());
        let before = store_after(store, run.drop_last());
        let record = run.last().0;
        lemma_store_holds_only_published(store, run.drop_last(), kind);
        lemma_slots_are_independent(before, record, kind);
        if dispatched(before, record, run.last().1).1.is_some() {
            let now = earlier.push(record);
            assert(now[earlier.len() as int] == record);
            if earlier.contains(before.slot(kind)) {
                let i = choose|i: int| 0 <= i < earlier.len() && earlier[i] == before.slot(kind);
                assert(now[i] == before.slot(kind));
            }
        }
    }
}

/// A run of one record, arriving any number of times in a row, publishes it
/// at most once. Where every arrival is encoded it is the first arrival that
/// publishes, exactly where the record differs from the stored one of its
/// kind.
pub proof fn lemma_identical_run_publishes_once(
    store: StateStore,
    record: TelemetryRecord,
    run: Seq<(TelemetryRecord, Option<Seq<u8>>)>,
)
    requires
        forall|i: int| 0 <= i < run.len() ==> (#[trigger] run[i]).0 == record,
    ensures
        published_by(store, run).len() <= 1,
        published_by(store, run).len() == 1 ==> published_by(store, run) == seq![record]
            && store_after(store, run) == store.with(record) && store.slot(record.kind_spec())
            != record,
        published_by(store, run).len() == 0 ==> store_after(store, run) == store,
        run.len() > 0 && store.slot(record.kind_spec()) != record && (forall|i: int|
            0 <= i < run.len() ==> (#[trigger] run[i]).1.is_some()) ==> published_by(store, run)
            == seq![record],
    decreases run.len(),
{
    if run.len() > 0 {
        let earlier_run = run.drop_last();
        assert forall|i: int| 0 <= i < earlier_run.len() implies (#[trigger] earlier_run[i]).0
            == record by {
            assert(earlier_run[i] == run[i]);
        }
        assert(run.last() == run[run.len() - 1]);
        lemma_identical_run_publishes_once(store, record, earlier_run);
        lemma_slots_are_independent(store, record, record.kind_spec());
        let earlier = published_by(store, earlier_run);
        if earlier.len() == 0 {
            assert(earlier.push(record) =~= seq![record]);
        }
        if run.len() > 0 && store.slot(record.kind_spec()) != record && (forall|i: int|
            0 <= i < run.len() ==> (#[trigger] run[i]).1.is_some()) {
            assert forall|i: int| 0 <= i < earlier_run.len() implies (#[trigger] earlier_run[i]).1.is_some() by {
                assert(earlier_run[i] == run[i]);
            }
        }
    }
}

} // verus!
