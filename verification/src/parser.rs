//! Frame parsing: from the bytes of one frame to the record that it reports.
//!
//! A frame is `$TAG,field,...,field` and a line feed. An optional checksum
//! suffix, `*` and what follows it, is cut off unread.

use vstd::prelude::*;
use vstd::slice::slice_subrange;
use crate::assembler::is_frame;
use crate::assembler::{FRAME_END, FRAME_START};
use crate::numeric::{decimal_of, first_at, switch_of, unsigned_of};
use crate::numeric::{find_first, read_decimal, read_switch, read_unsigned};
use crate::record::{Battery, DcOutput, SwitchesIn, SwitchesOut, UpsStatus};
use crate::record::{ParseError, RecordKind, TelemetryRecord};

verus! {

/// ASCII `,`, which separates fields.
pub const COMMA: u8 = 0x2c;

/// ASCII `*`, which opens the checksum suffix.
pub const STAR: u8 = 0x2a;

/// The part of a frame that is read: what stands between `$` and the line
/// feed, up to the checksum suffix where there is one.
pub open spec fn payload_of(frame: Seq<u8>) -> Seq<u8> {
    let inner = frame.subrange(1, frame.len() - 1);
    inner.subrange(0, first_at(inner, STAR, 0))
}

/// The fields of a payload: the stretches between its commas. A payload
/// without a comma is one field.
pub open spec fn fields_of(payload: Seq<u8>) -> Seq<Seq<u8>>
    decreases payload.len(),
{
    let c = first_at(payload, COMMA, 0);
    if c < 0 || c >= payload.len() {
        seq![payload]
    } else {
        seq![payload.subrange(0, c)] + fields_of(payload.subrange(c + 1, payload.len() as int))
    }
}

/// The kind that a tag names.
pub open spec fn kind_of_tag(tag: Seq<u8>) -> Option<RecordKind> {
    if tag == RecordKind::SwitchesIn.tag() {
        Some(RecordKind::SwitchesIn)
    } else if tag == RecordKind::SwitchesOut.tag() {
        Some(RecordKind::SwitchesOut)
    } else if tag == RecordKind::UpsStatus.tag() {
        Some(RecordKind::UpsStatus)
    } else if tag == RecordKind::Battery.tag() {
        Some(RecordKind::Battery)
    } else if tag == RecordKind::DcOutput.tag() {
        Some(RecordKind::DcOutput)
    } else {
        None
    }
}

/// The input switches that four fields report.
pub open spec fn switches_in_of(a: Seq<u8>, b: Seq<u8>, c: Seq<u8>, d: Seq<u8>) -> Result<
    TelemetryRecord,
    ParseError,
> {
    match (switch_of(a), switch_of(b), switch_of(c), switch_of(d)) {
        (Some(in1), Some(in2), Some(in3), Some(ac_present)) => Ok(
            TelemetryRecord::SwitchesIn(SwitchesIn { in1, in2, in3, ac_present }),
        ),
        _ => Err(ParseError::InvalidField),
    }
}

/// The output switches that six fields report.
pub open spec fn switches_out_of(
    a: Seq<u8>,
    b: Seq<u8>,
    c: Seq<u8>,
    d: Seq<u8>,
    e: Seq<u8>,
    f: Seq<u8>,
) -> Result<TelemetryRecord, ParseError> {
    match (switch_of(a), switch_of(b), switch_of(c), switch_of(d), switch_of(e), switch_of(f)) {
        (Some(no1), Some(no2), Some(no3), Some(no4), Some(nc5), Some(nc6)) => Ok(
            TelemetryRecord::SwitchesOut(SwitchesOut { no1, no2, no3, no4, nc5, nc6 }),
        ),
        _ => Err(ParseError::InvalidField),
    }
}

/// The supply input that four fields report.
pub open spec fn ups_status_of(a: Seq<u8>, b: Seq<u8>, c: Seq<u8>, d: Seq<u8>) -> Result<
    TelemetryRecord,
    ParseError,
> {
    match (decimal_of(a), decimal_of(b), decimal_of(c), switch_of(d)) {
        (Some(voltage), Some(current), Some(power), Some(overvoltage)) => Ok(
            TelemetryRecord::UpsStatus(UpsStatus { voltage, current, power, overvoltage }),
        ),
        _ => Err(ParseError::InvalidField),
    }
}

/// The battery state that three fields report.
pub open spec fn battery_of(a: Seq<u8>, b: Seq<u8>, c: Seq<u8>) -> Result<
    TelemetryRecord,
    ParseError,
> {
    match (decimal_of(a), decimal_of(b), unsigned_of(c)) {
        (Some(voltage), Some(current), Some(capacity_pct)) => Ok(
            TelemetryRecord::Battery(Battery { voltage, current, capacity_pct }),
        ),
        _ => Err(ParseError::InvalidField),
    }
}

/// The direct-current output that three fields report.
pub open spec fn dc_output_of(a: Seq<u8>, b: Seq<u8>, c: Seq<u8>) -> Result<
    TelemetryRecord,
    ParseError,
> {
    match (decimal_of(a), decimal_of(b), decimal_of(c)) {
        (Some(voltage), Some(current1), Some(current2)) => Ok(
            TelemetryRecord::DcOutput(DcOutput { voltage, current1, current2 }),
        ),
        _ => Err(ParseError::InvalidField),
    }
}

/// The record that a list of fields reports: the first field is the tag, and
/// the tag decides how many fields follow and what each of them holds.
pub open spec fn record_of_fields(f: Seq<Seq<u8>>) -> Result<TelemetryRecord, ParseError> {
    if f.len() == 0 {
        Err(ParseError::MalformedFrame)
    } else {
        match kind_of_tag(f[0]) {
            None => Err(ParseError::MalformedFrame),
            Some(kind) => if f.len() != 1 + kind.field_count() {
                Err(ParseError::MalformedFrame)
            } else {
                match kind {
                    RecordKind::SwitchesIn => switches_in_of(f[1], f[2], f[3], f[4]),
                    RecordKind::SwitchesOut => switches_out_of(f[1], f[2], f[3], f[4], f[5], f[6]),
                    RecordKind::UpsStatus => ups_status_of(f[1], f[2], f[3], f[4]),
                    RecordKind::Battery => battery_of(f[1], f[2], f[3]),
                    RecordKind::DcOutput => dc_output_of(f[1], f[2], f[3]),
                }
            },
        }
    }
}

/// The record that a frame reports, or why it reports none.
pub open spec fn record_of(frame: Seq<u8>) -> Result<TelemetryRecord, ParseError> {
    if is_frame(frame) {
        record_of_fields(fields_of(payload_of(frame)))
    } else {
        Err(ParseError::MalformedFrame)
    }
}

/// Cuts a payload into its fields.
pub fn split_fields<'a>(payload: &'a [u8]) -> (fields: Vec<&'a [u8]>)
    ensures
        fields@.len() == fields_of(payload@).len(),
        forall|i: int| 0 <= i < fields@.len() ==> (#[trigger] fields@[i])@ == fields_of(payload@)[i],
{
    let mut fields: Vec<&'a [u8]> = Vec::new();
    let mut from: usize = 0;
    let ghost mut done: Seq<Seq<u8>> = Seq::empty();
    assert(payload@.subrange(0, payload@.len() as int) =~= payload@);
    loop
        invariant
            0 <= from <= payload@.len(),
            fields@.len() == done.len(),
            forall|i: int| 0 <= i < fields@.len() ==> (#[trigger] fields@[i])@ == done[i],
            fields_of(payload@) == done + fields_of(
                payload@.subrange(from as int, payload@.len() as int),
            ),
        decreases payload@.len() - from,
    {
        let rest = slice_subrange(payload, from, payload.len());
        let c = find_first(rest, COMMA);
        let field = slice_subrange(rest, 0, c);
        fields.push(field);
        if c >= rest.len() {
            proof {
                assert(field@ =~= rest@);
                done = done.push(rest@);
                assert(fields_of(rest@) == seq![rest@]);
                assert(fields_of(payload@) =~= done);
            }
            return fields;
        }
        proof {
            let tail = rest@.subrange(c + 1, rest@.len() as int);
            assert(tail =~= payload@.subrange(from + c + 1, payload@.len() as int));
            assert(fields_of(rest@) == seq![field@] + fields_of(tail));
            assert(done + (seq![field@] + fields_of(tail)) =~= done.push(field@) + fields_of(tail));
            done = done.push(field@);
        }
        from = from + c + 1;
    }
}

/// Reads the tag of a frame.
pub fn read_tag(tag: &[u8]) -> (kind: Option<RecordKind>)
    ensures
        kind == kind_of_tag(tag@),
{
    let n = tag.len();
    proof {
        assert(RecordKind::SwitchesIn.tag().len() == 2 && RecordKind::SwitchesIn.tag()[0] == 0x49
            && RecordKind::SwitchesIn.tag()[1] == 0x4e);
        assert(RecordKind::SwitchesOut.tag().len() == 2 && RecordKind::SwitchesOut.tag()[0] == 0x4e
            && RecordKind::SwitchesOut.tag()[1] == 0x4f);
        assert(RecordKind::UpsStatus.tag().len() == 3 && RecordKind::UpsStatus.tag()[0] == 0x55
            && RecordKind::UpsStatus.tag()[1] == 0x50 && RecordKind::UpsStatus.tag()[2] == 0x53);
        assert(RecordKind::Battery.tag().len() == 2 && RecordKind::Battery.tag()[0] == 0x42
            && RecordKind::Battery.tag()[1] == 0x54);
        assert(RecordKind::DcOutput.tag().len() == 2 && RecordKind::DcOutput.tag()[0] == 0x44
            && RecordKind::DcOutput.tag()[1] == 0x43);
    }
    if n == 2 && tag[0] == 0x49 && tag[1] == 0x4e {
        assert(tag@ =~= RecordKind::SwitchesIn.tag());
        Some(RecordKind::SwitchesIn)
    } else if n == 2 && tag[0] == 0x4e && tag[1] == 0x4f {
        assert(tag@ =~= RecordKind::SwitchesOut.tag());
        Some(RecordKind::SwitchesOut)
    } else if n == 3 && tag[0] == 0x55 && tag[1] == 0x50 && tag[2] == 0x53 {
        assert(tag@ =~= RecordKind::UpsStatus.tag());
        Some(RecordKind::UpsStatus)
    } else if n == 2 && tag[0] == 0x42 && tag[1] == 0x54 {
        assert(tag@ =~= RecordKind::Battery.tag());
        Some(RecordKind::Battery)
    } else if n == 2 && tag[0] == 0x44 && tag[1] == 0x43 {
        assert(tag@ =~= RecordKind::DcOutput.tag());
        Some(RecordKind::DcOutput)
    } else {
        None
    }
}

fn read_switches_in(a: &[u8], b: &[u8], c: &[u8], d: &[u8]) -> (r: Result<
    TelemetryRecord,
    ParseError,
>)
    ensures
        r == switches_in_of(a@, b@, c@, d@),
{
    match (read_switch(a), read_switch(b), read_switch(c), read_switch(d)) {
        (Some(in1), Some(in2), Some(in3), Some(ac_present)) => Ok(
            TelemetryRecord::SwitchesIn(SwitchesIn { in1, in2, in3, ac_present }),
        ),
        _ => Err(ParseError::InvalidField),
    }
}

fn read_switches_out(a: &[u8], b: &[u8], c: &[u8], d: &[u8], e: &[u8], f: &[u8]) -> (r: Result<
    TelemetryRecord,
    ParseError,
>)
    ensures
        r == switches_out_of(a@, b@, c@, d@, e@, f@),
{
    match (
        read_switch(a),
        read_switch(b),
        read_switch(c),
        read_switch(d),
        read_switch(e),
        read_switch(f),
    ) {
        (Some(no1), Some(no2), Some(no3), Some(no4), Some(nc5), Some(nc6)) => Ok(
            TelemetryRecord::SwitchesOut(SwitchesOut { no1, no2, no3, no4, nc5, nc6 }),
        ),
        _ => Err(ParseError::InvalidField),
    }
}

fn read_ups_status(a: &[u8], b: &[u8], c: &[u8], d: &[u8]) -> (r: Result<
    TelemetryRecord,
    ParseError,
>)
    ensures
        r == ups_status_of(a@, b@, c@, d@),
        r matches Ok(record) ==> record.wf(),
{
    match (read_decimal(a), read_decimal(b), read_decimal(c), read_switch(d)) {
        (Some(voltage), Some(current), Some(power), Some(overvoltage)) => Ok(
            TelemetryRecord::UpsStatus(UpsStatus { voltage, current, power, overvoltage }),
        ),
        _ => Err(ParseError::InvalidField),
    }
}

fn read_battery(a: &[u8], b: &[u8], c: &[u8]) -> (r: Result<TelemetryRecord, ParseError>)
    ensures
        r == battery_of(a@, b@, c@),
        r matches Ok(record) ==> record.wf(),
{
    match (read_decimal(a), read_decimal(b), read_unsigned(c)) {
        (Some(voltage), Some(current), Some(capacity_pct)) => Ok(
            TelemetryRecord::Battery(Battery { voltage, current, capacity_pct }),
        ),
        _ => Err(ParseError::InvalidField),
    }
}

fn read_dc_output(a: &[u8], b: &[u8], c: &[u8]) -> (r: Result<TelemetryRecord, ParseError>)
    ensures
        r == dc_output_of(a@, b@, c@),
        r matches Ok(record) ==> record.wf(),
{
    match (read_decimal(a), read_decimal(b), read_decimal(c)) {
        (Some(voltage), Some(current1), Some(current2)) => Ok(
            TelemetryRecord::DcOutput(DcOutput { voltage, current1, current2 }),
        ),
        _ => Err(ParseError::InvalidField),
    }
}

/// Parses one frame into the record that it reports.
///
/// The frame parses as a whole or not at all: an undelimited frame, an
/// unknown tag or a wrong number of fields is `MalformedFrame`, and a field
/// that does not hold a value of its type is `InvalidField`.
pub fn parse(frame: &[u8]) -> (r: Result<TelemetryRecord, ParseError>)
    ensures
        r == record_of(frame@),
        r matches Ok(record) ==> record.wf(),
{
    let n = frame.len();
    if !(n > 2 && frame[0] == FRAME_START && frame[n - 1] == FRAME_END) {
        return Err(ParseError::MalformedFrame);
    }
    let inner = slice_subrange(frame, 1, n - 1);
    let star = find_first(inner, STAR);
    let payload = slice_subrange(inner, 0, star);
    let f = split_fields(payload);
    if f.len() == 0 {
        return Err(ParseError::MalformedFrame);
    }
    let kind = match read_tag(f[0]) {
        Some(kind) => kind,
        None => {
            return Err(ParseError::MalformedFrame);
        },
    };
    match kind {
        RecordKind::SwitchesIn => if f.len() == 5 {
            read_switches_in(f[1], f[2], f[3], f[4])
        } else {
            Err(ParseError::MalformedFrame)
        },
        RecordKind::SwitchesOut => if f.len() == 7 {
            read_switches_out(f[1], f[2], f[3], f[4], f[5], f[6])
        } else {
            Err(ParseError::MalformedFrame)
        },
        RecordKind::UpsStatus => if f.len() == 5 {
            read_ups_status(f[1], f[2], f[3], f[4])
        } else {
            Err(ParseError::MalformedFrame)
        },
        RecordKind::Battery => if f.len() == 4 {
            read_battery(f[1], f[2], f[3])
        } else {
            Err(ParseError::MalformedFrame)
        },
        RecordKind::DcOutput => if f.len() == 4 {
            read_dc_output(f[1], f[2], f[3])
        } else {
            Err(ParseError::MalformedFrame)
        },
    }
}

} // verus!
