use flatslab_cli::entry::SlabCsvEntry;
use flatslab_cli::nanos::{NanosError, parse_nanos};

#[test]
fn raw_nanos_with_separators() {
    assert_eq!(parse_nanos("-11_235_342"), Ok(-11_235_342));
    assert_eq!(parse_nanos("3123456"), Ok(3_123_456));
    assert_eq!(parse_nanos("+3"), Ok(3));
    assert_eq!(parse_nanos("0"), Ok(0));
    assert_eq!(parse_nanos("-2147483648"), Ok(i32::MIN));
    assert_eq!(parse_nanos("2_147_483_647"), Ok(i32::MAX));
}

#[test]
fn percentages_become_nanos() {
    assert_eq!(parse_nanos("1%"), Ok(10_000_000));
    assert_eq!(parse_nanos("0.1%"), Ok(1_000_000));
    assert_eq!(parse_nanos("-1.1235342%"), Ok(-11_235_342));
    assert_eq!(parse_nanos("-2%"), Ok(-20_000_000));
    assert_eq!(parse_nanos("5.%"), Ok(50_000_000));
    assert_eq!(parse_nanos(".5%"), Ok(5_000_000));
    assert_eq!(parse_nanos("214.7483647%"), Ok(i32::MAX));
    assert_eq!(parse_nanos("0.000_000_1%"), Ok(1));
}

#[test]
fn percentages_round_half_away_from_zero() {
    assert_eq!(parse_nanos("0.00000005%"), Ok(1));
    assert_eq!(parse_nanos("-0.00000005%"), Ok(-1));
    assert_eq!(parse_nanos("0.000000049999%"), Ok(0));
    assert_eq!(parse_nanos("1.23456789%"), Ok(12_345_679));
}

#[test]
fn out_of_range_rates() {
    assert_eq!(parse_nanos("2147483648"), Err(NanosError::OutOfRange));
    assert_eq!(parse_nanos("-2147483649"), Err(NanosError::OutOfRange));
    assert_eq!(parse_nanos("99999999999999999999999"), Err(NanosError::OutOfRange));
    assert_eq!(parse_nanos("214.7483648%"), Err(NanosError::OutOfRange));
    assert_eq!(parse_nanos("1_000%"), Err(NanosError::OutOfRange));
    assert_eq!(parse_nanos("-300%"), Err(NanosError::OutOfRange));
}

#[test]
fn malformed_rates() {
    for s in ["", "abc", "%", "-", "-%", ".%", ".", "1.2.3%", "12a", "1.5", "1%%", "1e3%", " 1"] {
        assert_eq!(parse_nanos(s), Err(NanosError::Syntax), "{s:?}");
    }
}

#[test]
fn rates_read_back_as_written() {
    for v in [0, 1, -1, 9, 10, -10, 11_235_342, -20_000_000, 6_000_000, i32::MAX, i32::MIN] {
        assert_eq!(parse_nanos(&v.to_string()), Ok(v));
        let n = (v as i64).unsigned_abs();
        let sign = if v < 0 { "-" } else { "" };
        let pct = format!("{sign}{}.{:07}%", n / 10_000_000, n % 10_000_000);
        assert_eq!(parse_nanos(&pct), Ok(v), "{pct}");
    }
}

#[test]
fn table_rows_round_trip() {
    let rows = vec![
        SlabCsvEntry { mint: [1; 32], inp: -11_235_342, out: -20_000_000 },
        SlabCsvEntry { mint: [0; 32], inp: 3_123_456, out: -4_000_000 },
        SlabCsvEntry { mint: [255; 32], inp: i32::MIN, out: i32::MAX },
    ];
    let mut w = csv::Writer::from_writer(Vec::new());
    w.write_record(["mint", "inp", "out"]).unwrap();
    for r in &rows {
        w.write_record([bs58::encode(r.mint).into_string(), r.inp.to_string(), r.out.to_string()]).unwrap();
    }
    let bytes = w.into_inner().unwrap();
    let mut read = Vec::new();
    for rec in csv::Reader::from_reader(bytes.as_slice()).records() {
        let rec = rec.unwrap();
        let mint: [u8; 32] = bs58::decode(&rec[0]).into_vec().unwrap().try_into().unwrap();
        read.push(SlabCsvEntry { mint, inp: parse_nanos(&rec[1]).unwrap(), out: parse_nanos(&rec[2]).unwrap() });
    }
    assert_eq!(read, rows);
}
