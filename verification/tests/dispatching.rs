use spb_data_service::dispatch::{dispatch_if_changed, StateStore};
use spb_data_service::numeric::Decimal;
use spb_data_service::parser::parse;
use spb_data_service::pipeline::{
    examine, on_connect, on_read, read_baud_rate, ConnectAction, FrameOutcome, ReadEvent,
    ReaderAction,
};
use spb_data_service::record::{Battery, ParseError, RecordKind, SwitchesIn, TelemetryRecord};

fn switches(in1: bool, in2: bool, in3: bool, ac_present: bool) -> TelemetryRecord {
    TelemetryRecord::SwitchesIn(SwitchesIn { in1, in2, in3, ac_present })
}

fn battery(tenths_of_volt: u64, capacity_pct: u32) -> TelemetryRecord {
    TelemetryRecord::Battery(Battery {
        voltage: Decimal::new(false, tenths_of_volt, 1),
        current: Decimal::zero(),
        capacity_pct,
    })
}

fn payload(text: &str) -> Option<Vec<u8>> {
    Some(text.as_bytes().to_vec())
}

#[test]
fn same_record_twice_publishes_once() {
    let mut store = StateStore::new();
    let record = switches(true, false, true, true);
    assert_eq!(dispatch_if_changed(record, &mut store, payload("a")), payload("a"));
    assert_eq!(store.stored(RecordKind::SwitchesIn), record);
    let after_first = store;
    assert_eq!(dispatch_if_changed(record, &mut store, payload("a")), None);
    assert_eq!(store, after_first);
}

#[test]
fn different_records_publish_twice() {
    let mut store = StateStore::new();
    let a = switches(true, false, true, true);
    let b = switches(true, true, true, true);
    assert_eq!(dispatch_if_changed(a, &mut store, payload("a")), payload("a"));
    assert_eq!(dispatch_if_changed(b, &mut store, payload("b")), payload("b"));
    assert_eq!(store.stored(RecordKind::SwitchesIn), b);
}

#[test]
fn kinds_are_gated_independently() {
    let mut store = StateStore::new();
    let a = switches(true, false, true, true);
    let bt = battery(125, 80);
    assert_eq!(dispatch_if_changed(a, &mut store, payload("a")), payload("a"));
    assert_eq!(dispatch_if_changed(bt, &mut store, payload("bt")), payload("bt"));
    assert_eq!(store.stored(RecordKind::SwitchesIn), a);
    assert_eq!(store.stored(RecordKind::Battery), bt);
    assert_eq!(dispatch_if_changed(a, &mut store, payload("a")), None);
    assert_eq!(dispatch_if_changed(bt, &mut store, payload("bt")), None);
    let b = switches(false, false, true, true);
    assert_eq!(dispatch_if_changed(b, &mut store, payload("b")), payload("b"));
    assert_eq!(store.stored(RecordKind::Battery), bt);
}

#[test]
fn initial_record_is_never_published() {
    let mut store = StateStore::new();
    assert_eq!(dispatch_if_changed(switches(false, false, false, false), &mut store, payload("x")), None);
    assert_eq!(dispatch_if_changed(battery(0, 0), &mut store, payload("y")), None);
    assert_eq!(store, StateStore::new());
}

#[test]
fn failed_encoding_leaves_the_store_and_is_tried_again() {
    let mut store = StateStore::new();
    let record = switches(true, false, false, false);
    assert_eq!(dispatch_if_changed(record, &mut store, None), None);
    assert_eq!(store, StateStore::new());
    assert!(store.is_changed(&record));
    assert_eq!(dispatch_if_changed(record, &mut store, payload("a")), payload("a"));
    assert!(!store.is_changed(&record));
}

#[test]
fn remember_fills_one_slot() {
    let mut store = StateStore::new();
    let bt = battery(131, 99);
    store.remember(bt);
    assert_eq!(store.stored(RecordKind::Battery), bt);
    assert_eq!(store.switches_in, StateStore::new().switches_in);
    assert_eq!(store.dc_output, StateStore::new().dc_output);
}

#[test]
fn equal_numbers_written_differently_are_one_record() {
    let mut store = StateStore::new();
    let a = parse(b"$BT,12.5,2.0,80\n").unwrap();
    let b = parse(b"$BT,12.50,+2,80\n").unwrap();
    assert_eq!(dispatch_if_changed(a, &mut store, payload("a")), payload("a"));
    assert_eq!(dispatch_if_changed(b, &mut store, payload("b")), None);
}

#[test]
fn reading_stage_forwards_completed_frames() {
    let mut cache = Vec::new();
    assert_eq!(on_read(ReadEvent::Bytes(b"$IN,1,"), &mut cache), ReaderAction::ReadAgain);
    assert_eq!(on_read(ReadEvent::TimedOut, &mut cache), ReaderAction::ReadAgain);
    assert_eq!(cache, b"$IN,1,".to_vec());
    assert_eq!(on_read(ReadEvent::Failed, &mut cache), ReaderAction::PauseThenRead(1000));
    assert_eq!(cache, b"$IN,1,".to_vec());
    assert_eq!(
        on_read(ReadEvent::Bytes(b"0,1,1\n"), &mut cache),
        ReaderAction::Forward(b"$IN,1,0,1,1\n".to_vec())
    );
    assert_eq!(on_read(ReadEvent::Bytes(b""), &mut cache), ReaderAction::ReadAgain);
    assert!(cache.is_empty());
}

#[test]
fn publishing_stage_examines_frames() {
    let mut store = StateStore::new();
    let record = switches(true, false, true, true);
    assert_eq!(examine(b"$IN,1,0,1,1\n", &store), FrameOutcome::Changed(record));
    assert_eq!(dispatch_if_changed(record, &mut store, payload("a")), payload("a"));
    assert_eq!(examine(b"$IN,1,0,1,1\n", &store), FrameOutcome::Unchanged(record));
    assert_eq!(examine(b"$IN,1,0,1\n", &store), FrameOutcome::Rejected(ParseError::MalformedFrame));
    assert_eq!(examine(b"$IN,1,0,1,x\n", &store), FrameOutcome::Rejected(ParseError::InvalidField));
    assert_eq!(
        examine(b"$IN,0,0,0,0\n", &StateStore::new()),
        FrameOutcome::Unchanged(switches(false, false, false, false))
    );
}

#[test]
fn connecting_is_retried_after_ten_seconds() {
    assert_eq!(on_connect(true), ConnectAction::Proceed);
    assert_eq!(on_connect(false), ConnectAction::RetryAfter(10));
}

#[test]
fn baud_rates() {
    assert_eq!(read_baud_rate(b"9600"), Some(9600));
    assert_eq!(read_baud_rate(b"115200"), Some(115200));
    assert_eq!(read_baud_rate(b"fast"), None);
    assert_eq!(read_baud_rate(b""), None);
    assert_eq!(read_baud_rate(b"-9600"), None);
}
