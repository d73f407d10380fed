use esp_radar::flight::MAX_AIRCRAFT;
use esp_radar::network::decoder::{
    aircraft_category, aircraft_size, decode_aircraft, decode_aircraft_record, hex_id, AdsbRecord,
};

fn record<'a>(hex: &'a str, flight: Option<&'a str>, has_position: bool, category: Option<&'a str>) -> AdsbRecord<'a> {
    AdsbRecord { hex, flight, has_position, category }
}

#[test]
fn hex_id_reads_icao_address() {
    assert_eq!(hex_id(b"3c6444"), 0x3c6444);
    assert_eq!(hex_id(b"3C6444"), 0x3c6444);
    assert_eq!(hex_id(b"abcdef"), 0xabcdef);
}

#[test]
fn hex_id_skips_non_hex_bytes() {
    assert_eq!(hex_id(b"~3c-64g44"), 0x3c6444);
    assert_eq!(hex_id(b""), 0);
    assert_eq!(hex_id(b"xyz"), 0);
}

#[test]
fn hex_id_keeps_last_eight_digits() {
    assert_eq!(hex_id(b"ffffffff"), 0xffff_ffff);
    assert_eq!(hex_id(b"123456789"), 0x2345_6789);
}

#[test]
fn category_from_last_byte() {
    assert_eq!(aircraft_category(Some("A3")), 3);
    assert_eq!(aircraft_category(Some("B7")), 7);
    assert_eq!(aircraft_category(Some("A")), 17);
    assert_eq!(aircraft_category(Some("A-")), 0);
    assert_eq!(aircraft_category(Some("")), 0);
    assert_eq!(aircraft_category(None), 0);
}

#[test]
fn size_by_category() {
    assert_eq!(aircraft_size(0), 3);
    assert_eq!(aircraft_size(1), 3);
    assert_eq!(aircraft_size(2), 2);
    assert_eq!(aircraft_size(3), 3);
    assert_eq!(aircraft_size(4), 5);
    assert_eq!(aircraft_size(7), 5);
    assert_eq!(aircraft_size(255), 5);
}

#[test]
fn record_fields_are_decoded() {
    let decoded = decode_aircraft_record(&record("4ca2d1", Some("RYR1234XYZ"), true, Some("A3")), 5);
    assert_eq!(decoded.record, 5);
    assert_eq!(decoded.id, 0x4ca2d1);
    assert_eq!(decoded.name, "RYR1234X");
    assert_eq!(decoded.category, 3);
    assert_eq!(decoded.size, 3);
    let unnamed = decode_aircraft_record(&record("1", None, true, None), 0);
    assert_eq!(unnamed.name, "");
    assert_eq!(unnamed.category, 0);
    assert_eq!(unnamed.size, 3);
}

#[test]
fn batch_skips_records_without_position() {
    let records = vec![
        record("a1", Some("ONE"), true, Some("A2")),
        record("a2", Some("TWO"), false, Some("A2")),
        record("a3", Some("THREE"), true, Some("A5")),
    ];
    let batch = decode_aircraft(&records);
    assert_eq!(batch.len(), MAX_AIRCRAFT);
    let first = batch[0].as_ref().unwrap();
    assert_eq!((first.record, first.id, first.name.as_str(), first.size), (0, 0xa1, "ONE", 2));
    let second = batch[1].as_ref().unwrap();
    assert_eq!((second.record, second.id, second.name.as_str(), second.size), (2, 0xa3, "THREE", 5));
    assert!(batch[2..].iter().all(|slot| slot.is_none()));
}

#[test]
fn batch_looks_at_first_records_only() {
    let mut records: Vec<AdsbRecord> = Vec::new();
    records.push(record("0", None, false, None));
    for _ in 0..40 {
        records.push(record("1", None, true, None));
    }
    let batch = decode_aircraft(&records);
    assert_eq!(batch.len(), MAX_AIRCRAFT);
    let filled = batch.iter().filter(|slot| slot.is_some()).count();
    assert_eq!(filled, MAX_AIRCRAFT - 1);
    assert_eq!(batch[0].as_ref().unwrap().record, 1);
    assert_eq!(batch[30].as_ref().unwrap().record, 31);
    assert!(batch[31].is_none());
}

#[test]
fn empty_response_gives_empty_batch() {
    let batch = decode_aircraft(&[]);
    assert_eq!(batch.len(), MAX_AIRCRAFT);
    assert!(batch.iter().all(|slot| slot.is_none()));
}
