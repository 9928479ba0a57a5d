use spb_data_service::numeric::{
    find_first, read_decimal, read_digits, read_switch, read_unsigned, Decimal,
};
use spb_data_service::parser::{parse, read_tag, split_fields};
use spb_data_service::record::{
    Battery, DcOutput, ParseError, RecordKind, SwitchesIn, SwitchesOut, TelemetryRecord, UpsStatus,
};

fn dec(negative: bool, digits: u64, scale: u64) -> Decimal {
    Decimal { negative, digits, scale }
}

fn as_float(d: Decimal) -> f64 {
    let magnitude = d.digits as f64 / 10f64.powi(d.scale as i32);
    if d.negative {
        -magnitude
    } else {
        magnitude
    }
}

#[test]
fn parses_switches_in() {
    assert_eq!(
        parse(b"$IN,1,0,1,1\n"),
        Ok(TelemetryRecord::SwitchesIn(SwitchesIn {
            in1: true,
            in2: false,
            in3: true,
            ac_present: true
        }))
    );
}

#[test]
fn parses_battery() {
    let record = parse(b"$BT,12.5,2.0,80\n");
    assert_eq!(
        record,
        Ok(TelemetryRecord::Battery(Battery {
            voltage: dec(false, 125, 1),
            current: dec(false, 2, 0),
            capacity_pct: 80
        }))
    );
    match record {
        Ok(TelemetryRecord::Battery(b)) => {
            assert_eq!(as_float(b.voltage), 12.5);
            assert_eq!(as_float(b.current), 2.0);
        }
        _ => panic!("no battery record"),
    }
}

#[test]
fn parses_switches_out() {
    assert_eq!(
        parse(b"$NO,1,1,0,0,1,0\n"),
        Ok(TelemetryRecord::SwitchesOut(SwitchesOut {
            no1: true,
            no2: true,
            no3: false,
            no4: false,
            nc5: true,
            nc6: false
        }))
    );
}

#[test]
fn parses_ups_status() {
    assert_eq!(
        parse(b"$UPS,220,01.5,330,0\n"),
        Ok(TelemetryRecord::UpsStatus(UpsStatus {
            voltage: dec(false, 220, 0),
            current: dec(false, 15, 1),
            power: dec(false, 330, 0),
            overvoltage: false
        }))
    );
}

#[test]
fn parses_dc_output() {
    assert_eq!(
        parse(b"$DC,12.1,-0.25,+3\n"),
        Ok(TelemetryRecord::DcOutput(DcOutput {
            voltage: dec(false, 121, 1),
            current1: dec(true, 25, 2),
            current2: dec(false, 3, 0)
        }))
    );
}

#[test]
fn checksum_suffix_is_not_read() {
    assert_eq!(parse(b"$IN,1,0,1,1*5A\n"), parse(b"$IN,1,0,1,1\n"));
    assert_eq!(parse(b"$IN,1,0,1,1*\n"), parse(b"$IN,1,0,1,1\n"));
    assert_eq!(parse(b"$IN,1,0,1*,1\n"), Err(ParseError::MalformedFrame));
}

#[test]
fn wrong_field_count_is_malformed() {
    assert_eq!(parse(b"$IN,1,0,1\n"), Err(ParseError::MalformedFrame));
    assert_eq!(parse(b"$IN,1,0,1,1,1\n"), Err(ParseError::MalformedFrame));
    assert_eq!(parse(b"$NO,1,0,1,1\n"), Err(ParseError::MalformedFrame));
    assert_eq!(parse(b"$BT,12.5,2.0\n"), Err(ParseError::MalformedFrame));
    assert_eq!(parse(b"$DC\n"), Err(ParseError::MalformedFrame));
}

#[test]
fn unknown_tag_is_malformed() {
    assert_eq!(parse(b"$XX,1\n"), Err(ParseError::MalformedFrame));
    assert_eq!(parse(b"$in,1,0,1,1\n"), Err(ParseError::MalformedFrame));
    assert_eq!(parse(b"$,1,0,1,1\n"), Err(ParseError::MalformedFrame));
    assert_eq!(parse(b"$XX,x,y\n"), Err(ParseError::MalformedFrame));
}

#[test]
fn undelimited_frame_is_malformed() {
    assert_eq!(parse(b"IN,1,0,1,1\n"), Err(ParseError::MalformedFrame));
    assert_eq!(parse(b"$IN,1,0,1,1"), Err(ParseError::MalformedFrame));
    assert_eq!(parse(b""), Err(ParseError::MalformedFrame));
    assert_eq!(parse(b"$\n"), Err(ParseError::MalformedFrame));
}

#[test]
fn bad_field_is_invalid() {
    assert_eq!(parse(b"$IN,1,0,2,1\n"), Err(ParseError::InvalidField));
    assert_eq!(parse(b"$IN,1,0,,1\n"), Err(ParseError::InvalidField));
    assert_eq!(parse(b"$IN,1,0,01,1\n"), Err(ParseError::InvalidField));
    assert_eq!(parse(b"$BT,abc,2.0,80\n"), Err(ParseError::InvalidField));
    assert_eq!(parse(b"$BT,12.5,2.0,-1\n"), Err(ParseError::InvalidField));
    assert_eq!(parse(b"$BT,12.5,2.0,8.0\n"), Err(ParseError::InvalidField));
    assert_eq!(parse(b"$BT,12.5,2.0,4294967296\n"), Err(ParseError::InvalidField));
    assert_eq!(parse(b"$UPS,220,1.5,330,yes\n"), Err(ParseError::InvalidField));
    assert_eq!(parse(b"$DC,12.1,0.2.5,3\n"), Err(ParseError::InvalidField));
}

#[test]
fn switch_fields() {
    assert_eq!(read_switch(b"1"), Some(true));
    assert_eq!(read_switch(b"0"), Some(false));
    assert_eq!(read_switch(b""), None);
    assert_eq!(read_switch(b"2"), None);
    assert_eq!(read_switch(b"10"), None);
}

#[test]
fn unsigned_fields() {
    assert_eq!(read_unsigned(b"80"), Some(80));
    assert_eq!(read_unsigned(b"+80"), Some(80));
    assert_eq!(read_unsigned(b"007"), Some(7));
    assert_eq!(read_unsigned(b"4294967295"), Some(u32::MAX));
    assert_eq!(read_unsigned(b"4294967296"), None);
    assert_eq!(read_unsigned(b"99999999999999999999999"), None);
    assert_eq!(read_unsigned(b""), None);
    assert_eq!(read_unsigned(b"+"), None);
    assert_eq!(read_unsigned(b"-1"), None);
    assert_eq!(read_unsigned(b"1 "), None);
}

#[test]
fn decimal_fields() {
    assert_eq!(read_decimal(b"12.5"), Some(dec(false, 125, 1)));
    assert_eq!(read_decimal(b"+12.50"), Some(dec(false, 125, 1)));
    assert_eq!(read_decimal(b"-0.125"), Some(dec(true, 125, 3)));
    assert_eq!(read_decimal(b"100"), Some(dec(false, 100, 0)));
    assert_eq!(read_decimal(b"100.00"), Some(dec(false, 100, 0)));
    assert_eq!(read_decimal(b"5."), Some(dec(false, 5, 0)));
    assert_eq!(read_decimal(b".5"), Some(dec(false, 5, 1)));
    assert_eq!(read_decimal(b"-0.0"), Some(dec(false, 0, 0)));
    assert_eq!(read_decimal(b"0.001"), Some(dec(false, 1, 3)));
    assert_eq!(read_decimal(b"18446744073709551615"), Some(dec(false, u64::MAX, 0)));
    assert_eq!(read_decimal(b"18446744073709551616"), None);
    assert_eq!(read_decimal(b"1844674407370955161.6"), None);
    assert_eq!(read_decimal(b""), None);
    assert_eq!(read_decimal(b"."), None);
    assert_eq!(read_decimal(b"-"), None);
    assert_eq!(read_decimal(b"1e3"), None);
    assert_eq!(read_decimal(b"1.2.3"), None);
    assert_eq!(read_decimal(b"--1"), None);
    assert_eq!(read_decimal(b"1-"), None);
}

#[test]
fn decimal_in_its_one_representation() {
    assert_eq!(Decimal::new(false, 1250, 2), dec(false, 125, 1));
    assert_eq!(Decimal::new(true, 0, 3), dec(false, 0, 0));
    assert_eq!(Decimal::new(true, 70, 0), dec(true, 70, 0));
    assert_eq!(Decimal::zero(), dec(false, 0, 0));
}

#[test]
fn fields_between_commas() {
    let fields: Vec<Vec<u8>> = split_fields(b"IN,1,,0").iter().map(|f| f.to_vec()).collect();
    assert_eq!(fields, vec![b"IN".to_vec(), b"1".to_vec(), b"".to_vec(), b"0".to_vec()]);
    let one: Vec<Vec<u8>> = split_fields(b"").iter().map(|f| f.to_vec()).collect();
    assert_eq!(one, vec![b"".to_vec()]);
    let last: Vec<Vec<u8>> = split_fields(b"a,").iter().map(|f| f.to_vec()).collect();
    assert_eq!(last, vec![b"a".to_vec(), b"".to_vec()]);
}

#[test]
fn tags_and_kinds() {
    assert_eq!(read_tag(b"IN"), Some(RecordKind::SwitchesIn));
    assert_eq!(read_tag(b"NO"), Some(RecordKind::SwitchesOut));
    assert_eq!(read_tag(b"UPS"), Some(RecordKind::UpsStatus));
    assert_eq!(read_tag(b"BT"), Some(RecordKind::Battery));
    assert_eq!(read_tag(b"DC"), Some(RecordKind::DcOutput));
    assert_eq!(read_tag(b"UP"), None);
    assert_eq!(read_tag(b""), None);
    let record = parse(b"$DC,1,2,3\n").unwrap();
    assert_eq!(record.kind(), RecordKind::DcOutput);
}

#[test]
fn first_position_of_a_byte() {
    assert_eq!(find_first(b"a,b,c", b','), 1);
    assert_eq!(find_first(b",", b','), 0);
    assert_eq!(find_first(b"abc", b','), 3);
    assert_eq!(find_first(b"", b','), 0);
}

#[test]
fn digits_onto_a_number() {
    assert_eq!(read_digits(0, b"123"), Some(123));
    assert_eq!(read_digits(12, b"34"), Some(1234));
    assert_eq!(read_digits(7, b""), Some(7));
    assert_eq!(read_digits(0, b"12a"), None);
    assert_eq!(read_digits(0, b"-1"), None);
    assert_eq!(read_digits(1844674407370955161, b"5"), Some(u64::MAX));
    assert_eq!(read_digits(1844674407370955161, b"6"), None);
    assert_eq!(read_digits(u64::MAX, b"0"), None);
}
