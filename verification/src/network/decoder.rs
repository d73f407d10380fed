//! Decisions taken on aircraft records received from the ADS-B service.

use vstd::arithmetic::div_mod::{lemma_add_mod_noop, lemma_mul_mod_noop_left};
use vstd::arithmetic::power::{lemma_pow_increases, pow};
use vstd::prelude::*;
use vstd::string::StringSliceAdditionalSpecFns;
use vstd::utf8::encode_utf8;

use crate::flight::MAX_AIRCRAFT;
use crate::helpers::{floor_boundary, truncate_string};

verus! {

/// The value of one hexadecimal digit, or `None` for any other byte.
pub open spec fn hex_digit(byte: u8) -> Option<nat> {
    if 0x30 <= byte <= 0x39 {
        Some((byte - 0x30) as nat)
    } else if 0x61 <= byte <= 0x66 {
        Some((byte - 0x61 + 10) as nat)
    } else if 0x41 <= byte <= 0x46 {
        Some((byte - 0x41 + 10) as nat)
    } else {
        None
    }
}

/// The number written by the hexadecimal digits of `bytes`, read most
/// significant first; bytes that are no hexadecimal digit are skipped.
pub open spec fn hex_number(bytes: Seq<u8>) -> nat
    decreases bytes.len(),
{
    if bytes.len() == 0 {
        0
    } else {
        match hex_digit(bytes.last()) {
            Some(d) => hex_number(bytes.drop_last()) * 16 + d,
            None => hex_number(bytes.drop_last()),
        }
    }
}

/// Number of hexadecimal digits among `bytes`.
pub open spec fn hex_digit_count(bytes: Seq<u8>) -> nat
    decreases bytes.len(),
{
    if bytes.len() == 0 {
        0
    } else {
        hex_digit_count(bytes.drop_last()) + if hex_digit(bytes.last()) is Some {
            1nat
        } else {
            0nat
        }
    }
}

proof fn lemma_hex_number_below_power(bytes: Seq<u8>)
    ensures
        hex_number(bytes) < pow(16, hex_digit_count(bytes)),
    decreases bytes.len(),
{
    if bytes.len() > 0 {
        let rest = bytes.drop_last();
        lemma_hex_number_below_power(rest);
        if hex_digit(bytes.last()) is Some {
            assert(pow(16, hex_digit_count(bytes)) == 16 * pow(16, hex_digit_count(rest))) by {
                reveal(pow);
            }
            assert(hex_number(rest) * 16 + 16 <= pow(16, hex_digit_count(rest)) * 16)
                by (nonlinear_arith)
                requires
                    hex_number(rest) < pow(16, hex_digit_count(rest)),
            ;
        }
    } else {
        reveal(pow);
    }
}

/// Law of the identifiers: an address of at most eight hexadecimal digits,
/// such as a 24-bit ICAO address, is read exactly, with nothing cut off.
pub proof fn lemma_short_address_exact(bytes: Seq<u8>)
    requires
        hex_digit_count(bytes) <= 8,
    ensures
        hex_number(bytes) < 0x1_0000_0000,
        hex_number(bytes) % 0x1_0000_0000 == hex_number(bytes),
{
    lemma_hex_number_below_power(bytes);
    lemma_pow_increases(16, hex_digit_count(bytes), 8);
    assert(pow(16, 8) == 0x1_0000_0000) by {
        reveal_with_fuel(pow, 9);
    }
}

/// Law of the hexadecimal addresses: an address reads as a base-16 number.
/// The empty address is zero; appending one of the digits `0`-`9`, `a`-`f` or
/// `A`-`F` multiplies the number by sixteen and adds the digit's value
/// (`0` counting as a digit of value zero, the letters as ten to fifteen);
/// appending any other byte leaves the number as it was.
pub proof fn lemma_hex_digits_read_in_base_16(bytes: Seq<u8>, byte: u8)
    ensures
        hex_number(Seq::<u8>::empty()) == 0,
        0x30 <= byte <= 0x39 ==> hex_number(bytes.push(byte)) == hex_number(bytes) * 16 + (byte
            - 0x30),
        0x61 <= byte <= 0x66 ==> hex_number(bytes.push(byte)) == hex_number(bytes) * 16 + (byte
            - 0x61 + 10),
        0x41 <= byte <= 0x46 ==> hex_number(bytes.push(byte)) == hex_number(bytes) * 16 + (byte
            - 0x41 + 10),
        !(0x30 <= byte <= 0x39 || 0x61 <= byte <= 0x66 || 0x41 <= byte <= 0x46) ==> hex_number(
            bytes.push(byte),
        ) == hex_number(bytes),
{
    assert(bytes.push(byte).drop_last() =~= bytes);
    assert(bytes.push(byte).last() == byte);
}

/// Parses an ICAO address such as `"3c6444"` into its numeric identifier.
/// Bytes that are no hexadecimal digit are skipped, and digits beyond the
/// eighth shift the oldest ones out of the 32-bit result.
pub fn hex_id(bytes: &[u8]) -> (id: u32)
    ensures
        id == hex_number(bytes@) % 0x1_0000_0000,
{
    let mut acc: u32 = 0;
    let mut i: usize = 0;
    while i < bytes.len()
        invariant
            i <= bytes.len(),
            acc == hex_number(bytes@.take(i as int)) % 0x1_0000_0000,
        decreases bytes.len() - i,
    {
        let byte = bytes[i];
        let ghost prefix = bytes@.take(i as int);
        let ghost v = hex_number(prefix);
        assert(bytes@.take(i + 1).drop_last() =~= prefix);
        let digit: Option<u32> = if 0x30 <= byte && byte <= 0x39 {
            Some((byte - 0x30) as u32)
        } else if 0x61 <= byte && byte <= 0x66 {
            Some((byte - 0x61 + 10) as u32)
        } else if 0x41 <= byte && byte <= 0x46 {
            Some((byte - 0x41 + 10) as u32)
        } else {
            None
        };
        if let Some(d) = digit {
            proof {
                assert(hex_number(bytes@.take(i + 1)) == v * 16 + d);
                assert(((acc << 4u32) | d) == (acc * 16 + d) % 0x1_0000_0000) by (bit_vector)
                    requires
                        d < 16,
                ;
                lemma_mul_mod_noop_left(v as int, 16, 0x1_0000_0000);
                lemma_add_mod_noop((v * 16) as int, d as int, 0x1_0000_0000);
                lemma_add_mod_noop(((v % 0x1_0000_0000) * 16) as int, d as int, 0x1_0000_0000);
            }
            acc = (acc << 4u32) | d;
        }
        i = i + 1;
    }
    assert(bytes@.take(bytes.len() as int) =~= bytes@);
    acc
}


/// What the decoder reads of one aircraft state reported by the ADS-B
/// service: the transponder address, the optional call sign, whether both
/// coordinates were reported, and the optional emitter category (such as
/// `"A3"`).
pub struct AdsbRecord<'a> {
    pub hex: &'a str,
    pub flight: Option<&'a str>,
    pub has_position: bool,
    pub category: Option<&'a str>,
}

/// The non-positional part of a decoded aircraft: which record it came from,
/// its numeric identifier, its call sign cut to 8 bytes, its marker size and
/// its emitter category number.
pub struct DecodedAircraft {
    pub record: usize,
    pub id: u32,
    pub name: String,
    pub size: u8,
    pub category: u8,
}

/// The category number carried by the last character of an emitter category
/// such as `"A3"`, or 0 when there is none or it lies below `'0'`.
pub open spec fn category_number(category: Option<&str>) -> u8 {
    match category {
        Some(text) => {
            let bytes = text.spec_bytes();
            if bytes.len() > 0 && bytes.last() >= 0x30 {
                (bytes.last() - 0x30) as u8
            } else {
                0
            }
        },
        None => 0,
    }
}

/// Marker size drawn for an emitter category number.
pub open spec fn marker_size(category: u8) -> u8 {
    if category == 2 {
        2
    } else if category == 3 {
        3
    } else if category >= 4 {
        5
    } else {
        3
    }
}

/// Reads the emitter category number from the last byte of the category text.
pub fn aircraft_category(category: Option<&str>) -> (number: u8)
    ensures
        number == category_number(category),
{
    match category {
        Some(text) => {
            let bytes = text.as_bytes();
            if bytes.len() > 0 {
                let last = bytes[bytes.len() - 1];
                match last.checked_sub(0x30u8) {
                    Some(number) => number,
                    None => 0,
                }
            } else {
                0
            }
        },
        None => 0,
    }
}

/// Marker size for an emitter category: light aircraft are small, heavy and
/// high-performance categories are large.
pub fn aircraft_size(category: u8) -> (size: u8)
    ensures
        size == marker_size(category),
{
    match category {
        2 => 2,
        3 => 3,
        4..=255 => 5,
        _ => 3,
    }
}

/// Indices of the records, among the first `n`, that report a position.
pub open spec fn positioned_upto(records: Seq<AdsbRecord>, n: int) -> Seq<int>
    decreases n,
{
    if n <= 0 {
        Seq::empty()
    } else if records[n - 1].has_position {
        positioned_upto(records, n - 1).push(n - 1)
    } else {
        positioned_upto(records, n - 1)
    }
}

/// Indices of the records that fill the batch: those among the first
/// `MAX_AIRCRAFT` records that report a position, in order.
pub open spec fn batch_records(records: Seq<AdsbRecord>) -> Seq<int> {
    positioned_upto(
        records,
        if records.len() < MAX_AIRCRAFT { records.len() as int } else { MAX_AIRCRAFT as int },
    )
}

/// The call sign kept for a record: at most 8 bytes of it, cut at a
/// character boundary, or nothing when the record has none.
pub open spec fn call_sign_bytes(flight: Option<&str>) -> Seq<u8> {
    match flight {
        Some(text) => text.spec_bytes().subrange(0, floor_boundary(text.spec_bytes(), 8)),
        None => Seq::empty(),
    }
}

/// `aircraft` is the decoding of `record`, found at `index` in the response.
pub open spec fn decodes(aircraft: DecodedAircraft, record: AdsbRecord, index: int) -> bool {
    &&& aircraft.record == index
    &&& aircraft.id == hex_number(record.hex.spec_bytes()) % 0x1_0000_0000
    &&& encode_utf8(aircraft.name@) == call_sign_bytes(record.flight)
    &&& aircraft.category == category_number(record.category)
    &&& aircraft.size == marker_size(aircraft.category)
}

/// Decodes the non-positional fields of one record.
pub fn decode_aircraft_record(record: &AdsbRecord, index: usize) -> (aircraft: DecodedAircraft)
    ensures
        decodes(aircraft, *record, index as int),
{
    let name = match record.flight {
        Some(flight) => truncate_string::<8>(flight),
        None => String::new(),
    };
    proof {
        vstd::utf8::encode_utf8_decode_utf8(name@);
    }
    let category = aircraft_category(record.category);
    DecodedAircraft {
        record: index,
        id: hex_id(record.hex.as_bytes()),
        name,
        size: aircraft_size(category),
        category,
    }
}

/// Fills a batch of `MAX_AIRCRAFT` slots from the aircraft states of one
/// response: only the first `MAX_AIRCRAFT` states are looked at, those
/// without a position are skipped, and the others fill the slots in order;
/// the remaining slots stay empty.
pub fn decode_aircraft(records: &[AdsbRecord]) -> (batch: Vec<Option<DecodedAircraft>>)
    ensures
        batch@.len() == MAX_AIRCRAFT,
        forall|j: int|
            #![trigger batch@[j]]
            0 <= j < MAX_AIRCRAFT ==> {
                let kept = batch_records(records@);
                if j < kept.len() {
                    batch@[j] matches Some(aircraft) && decodes(
                        aircraft,
                        records@[kept[j]],
                        kept[j],
                    )
                } else {
                    batch@[j] is None
                }
            },
{
    let limit = if records.len() < MAX_AIRCRAFT {
        records.len()
    } else {
        MAX_AIRCRAFT
    };
    let mut batch: Vec<Option<DecodedAircraft>> = Vec::new();
    let mut i: usize = 0;
    while i < limit
        invariant
            i <= limit <= records.len(),
            limit <= MAX_AIRCRAFT,
            limit == if records.len() < MAX_AIRCRAFT { records.len() } else { MAX_AIRCRAFT },
            batch@.len() == positioned_upto(records@, i as int).len(),
            positioned_upto(records@, i as int).len() <= i,
            forall|j: int|
                #![trigger batch@[j]]
                0 <= j < batch@.len() ==> {
                    let kept = positioned_upto(records@, i as int);
                    &&& 0 <= kept[j] < i
                    &&& batch@[j] matches Some(aircraft) && decodes(
                        aircraft,
                        records@[kept[j]],
                        kept[j],
                    )
                },
        decreases limit - i,
    {
        if records[i].has_position {
            let aircraft = decode_aircraft_record(&records[i], i);
            batch.push(Some(aircraft));
        }
        i = i + 1;
    }
    let ghost filled = batch@.len();
    while batch.len() < MAX_AIRCRAFT
        invariant
            filled <= batch@.len() <= MAX_AIRCRAFT,
            filled == batch_records(records@).len(),
            forall|j: int|
                #![trigger batch@[j]]
                0 <= j < filled ==> {
                    let kept = batch_records(records@);
                    batch@[j] matches Some(aircraft) && decodes(
                        aircraft,
                        records@[kept[j]],
                        kept[j],
                    )
                },
            forall|j: int| filled <= j < batch@.len() ==> batch@[j] is None,
        decreases MAX_AIRCRAFT - batch@.len(),
    {
        batch.push(None);
    }
    batch
}

} // verus!
