//! The telemetry records that the board reports, one kind per frame tag.

use vstd::prelude::*;
use crate::numeric::Decimal;

verus! {

/// The state of the three inputs and of mains power.
#[derive(Clone, Copy, Debug, PartialEq, Eq, Structural)]
pub struct SwitchesIn {
    pub in1: bool,
    pub in2: bool,
    pub in3: bool,
    pub ac_present: bool,
}

/// The state of the six outputs.
#[derive(Clone, Copy, Debug, PartialEq, Eq, Structural)]
pub struct SwitchesOut {
    pub no1: bool,
    pub no2: bool,
    pub no3: bool,
    pub no4: bool,
    pub nc5: bool,
    pub nc6: bool,
}

/// The supply input: volts, amperes, watts, and whether it is over voltage.
#[derive(Clone, Copy, Debug, PartialEq, Eq, Structural)]
pub struct UpsStatus {
    pub voltage: Decimal,
    pub current: Decimal,
    pub power: Decimal,
    pub overvoltage: bool,
}

/// The battery: volts, amperes, and remaining capacity in percent.
#[derive(Clone, Copy, Debug, PartialEq, Eq, Structural)]
pub struct Battery {
    pub voltage: Decimal,
    pub current: Decimal,
    pub capacity_pct: u32,
}

/// The direct-current output: volts, and the amperes drawn on each of the two
/// outputs.
#[derive(Clone, Copy, Debug, PartialEq, Eq, Structural)]
pub struct DcOutput {
    pub voltage: Decimal,
    pub current1: Decimal,
    pub current2: Decimal,
}

/// One parsed frame.
#[derive(Clone, Copy, Debug, PartialEq, Eq, Structural)]
pub enum TelemetryRecord {
    SwitchesIn(SwitchesIn),
    SwitchesOut(SwitchesOut),
    UpsStatus(UpsStatus),
    Battery(Battery),
    DcOutput(DcOutput),
}

/// The five kinds of record.
#[derive(Clone, Copy, Debug, PartialEq, Eq, Structural)]
pub enum RecordKind {
    SwitchesIn,
    SwitchesOut,
    UpsStatus,
    Battery,
    DcOutput,
}

/// Why a frame gave no record.
#[derive(Clone, Copy, Debug, PartialEq, Eq, Structural)]
pub enum ParseError {
    /// The frame is not delimited, its tag is unknown, or it has the wrong
    /// number of fields for its tag.
    MalformedFrame,
    /// A field does not hold a value of its type.
    InvalidField,
}

impl RecordKind {
    /// The number of fields that follow the tag in a frame of this kind.
    pub open spec fn field_count(self) -> nat {
        match self {
            RecordKind::SwitchesIn => 4,
            RecordKind::SwitchesOut => 6,
            RecordKind::UpsStatus => 4,
            RecordKind::Battery => 3,
            RecordKind::DcOutput => 3,
        }
    }

    /// The tag that opens a frame of this kind.
    pub open spec fn tag(self) -> Seq<u8> {
        match self {
            RecordKind::SwitchesIn => seq![0x49u8, 0x4e],
            RecordKind::SwitchesOut => seq![0x4eu8, 0x4f],
            RecordKind::UpsStatus => seq![0x55u8, 0x50, 0x53],
            RecordKind::Battery => seq![0x42u8, 0x54],
            RecordKind::DcOutput => seq![0x44u8, 0x43],
        }
    }
}

impl TelemetryRecord {
    /// The kind of this record.
    pub open spec fn kind_spec(self) -> RecordKind {
        match self {
            TelemetryRecord::SwitchesIn(_) => RecordKind::SwitchesIn,
            TelemetryRecord::SwitchesOut(_) => RecordKind::SwitchesOut,
            TelemetryRecord::UpsStatus(_) => RecordKind::UpsStatus,
            TelemetryRecord::Battery(_) => RecordKind::Battery,
            TelemetryRecord::DcOutput(_) => RecordKind::DcOutput,
        }
    }

    /// The kind of this record.
    pub fn kind(&self) -> (k: RecordKind)
        ensures
            k == self.kind_spec(),
    {
        match self {
            TelemetryRecord::SwitchesIn(_) => RecordKind::SwitchesIn,
            TelemetryRecord::SwitchesOut(_) => RecordKind::SwitchesOut,
            TelemetryRecord::UpsStatus(_) => RecordKind::UpsStatus,
            TelemetryRecord::Battery(_) => RecordKind::Battery,
            TelemetryRecord::DcOutput(_) => RecordKind::DcOutput,
        }
    }

    /// Every number in the record is in its one representation.
    pub open spec fn wf(self) -> bool {
        match self {
            TelemetryRecord::SwitchesIn(_) => true,
            TelemetryRecord::SwitchesOut(_) => true,
            TelemetryRecord::UpsStatus(u) => u.voltage.wf() && u.current.wf() && u.power.wf(),
            TelemetryRecord::Battery(b) => b.voltage.wf() && b.current.wf(),
            TelemetryRecord::DcOutput(d) => d.voltage.wf() && d.current1.wf() && d.current2.wf(),
        }
    }
}

} // verus!
