//! Place records from the map service: which become cities on the radar
//! map, and which cities are kept when there are more than the map holds.

use vstd::prelude::*;
use vstd::string::StringSliceAdditionalSpecFns;
use vstd::utf8::encode_utf8;

use crate::flight::MAX_CITIES;
use crate::helpers::{floor_boundary, lemma_encode_utf8_concat, truncate_string};
use crate::text::{decimal_chars, digit_char};

verus! {

/// The value of a sequence of decimal digits, most significant first.
pub open spec fn decimal_value(digits: Seq<u8>) -> nat
    decreases digits.len(),
{
    if digits.len() == 0 {
        0
    } else {
        decimal_value(digits.drop_last()) * 10 + (digits.last() - 0x30) as nat
    }
}

/// Every byte is an ASCII decimal digit.
pub open spec fn all_digits(bytes: Seq<u8>) -> bool {
    forall|i: int| 0 <= i < bytes.len() ==> 0x30 <= #[trigger] bytes[i] <= 0x39
}

/// The digits of an unsigned decimal number: the text without one leading `+`.
pub open spec fn unsigned_digits(bytes: Seq<u8>) -> Seq<u8> {
    if bytes.len() > 0 && bytes[0] == 0x2b {
        bytes.drop_first()
    } else {
        bytes
    }
}

/// The `u32` written by `bytes` as an optional `+` followed by at least one
/// decimal digit, or `None` when the text has another form or the number
/// does not fit in 32 bits.
pub open spec fn parsed_u32(bytes: Seq<u8>) -> Option<u32> {
    let digits = unsigned_digits(bytes);
    if digits.len() > 0 && all_digits(digits) && decimal_value(digits) <= u32::MAX {
        Some(decimal_value(digits) as u32)
    } else {
        None
    }
}

/// Parses an unsigned decimal number the way `str::parse::<u32>` does.
pub fn parse_u32(text: &str) -> (value: Option<u32>)
    ensures
        value == parsed_u32(text.spec_bytes()),
{
    let bytes = text.as_bytes();
    let start: usize = if bytes.len() > 0 && bytes[0] == 0x2b {
        1
    } else {
        0
    };
    let ghost digits = unsigned_digits(bytes@);
    assert(digits =~= bytes@.subrange(start as int, bytes@.len() as int));
    if start >= bytes.len() {
        return None;
    }
    let mut acc: u32 = 0;
    let mut i: usize = start;
    while i < bytes.len()
        invariant
            start <= i <= bytes@.len(),
            bytes@ == text.spec_bytes(),
            digits == unsigned_digits(bytes@),
            digits =~= bytes@.subrange(start as int, bytes@.len() as int),
            all_digits(bytes@.subrange(start as int, i as int)),
            acc == decimal_value(bytes@.subrange(start as int, i as int)),
        decreases bytes.len() - i,
    {
        let byte = bytes[i];
        let ghost prefix = bytes@.subrange(start as int, i as int);
        let ghost next = bytes@.subrange(start as int, i + 1);
        assert(next.drop_last() =~= prefix);
        if byte < 0x30 || byte > 0x39 {
            assert(digits[i - start] == byte);
            assert(!all_digits(digits));
            return None;
        }
        assert(all_digits(next)) by {
            assert forall|k: int| 0 <= k < next.len() implies 0x30 <= #[trigger] next[k] <= 0x39 by {
                if k < prefix.len() {
                    assert(next[k] == prefix[k]);
                }
            }
        }
        let digit = (byte - 0x30) as u32;
        match acc.checked_mul(10) {
            Some(scaled) => match scaled.checked_add(digit) {
                Some(sum) => {
                    acc = sum;
                },
                None => {
                    proof {
                        if all_digits(digits) {
                            assert(digits.subrange(0, (i + 1 - start) as int) =~= next);
                            lemma_decimal_prefix_bound(digits, (i + 1 - start) as int);
                        }
                    }
                    return None;
                },
            },
            None => {
                proof {
                    if all_digits(digits) {
                        assert(digits.subrange(0, (i + 1 - start) as int) =~= next);
                        lemma_decimal_prefix_bound(digits, (i + 1 - start) as int);
                    }
                }
                return None;
            },
        }
        i = i + 1;
    }
    assert(bytes@.subrange(start as int, i as int) =~= digits);
    Some(acc)
}

/// A number is at least the number written by any prefix of its digits.
proof fn lemma_decimal_prefix_bound(digits: Seq<u8>, n: int)
    requires
        0 <= n <= digits.len(),
        all_digits(digits),
    ensures
        decimal_value(digits.subrange(0, n)) <= decimal_value(digits),
    decreases digits.len() - n,
{
    if n < digits.len() {
        lemma_decimal_prefix_bound(digits, n + 1);
        assert(digits.subrange(0, n + 1).drop_last() =~= digits.subrange(0, n));
        assert(0x30 <= digits[n] <= 0x39);
    } else {
        assert(digits.subrange(0, n) =~= digits);
    }
}


/// The encoding of one decimal digit character is its ASCII byte.
proof fn lemma_digit_byte(digit: nat)
    requires
        digit < 10,
    ensures
        encode_utf8(seq![digit_char(digit)]) == seq![(0x30 + digit) as u8],
{
    let chars = seq![digit_char(digit)];
    assert(vstd::utf8::is_ascii_chars(chars));
    vstd::utf8::is_ascii_chars_encode_utf8(chars);
    assert(encode_utf8(chars) =~= seq![(0x30 + digit) as u8]);
}

/// The bytes of `n` written in decimal are digits whose value is `n`.
proof fn lemma_decimal_bytes(n: nat)
    ensures
        encode_utf8(decimal_chars(n)).len() > 0,
        all_digits(encode_utf8(decimal_chars(n))),
        decimal_value(encode_utf8(decimal_chars(n))) == n,
    decreases n,
{
    if n < 10 {
        lemma_digit_byte(n);
        let bytes = seq![(0x30 + n) as u8];
        assert(bytes.drop_last() =~= Seq::<u8>::empty());
        assert(bytes[0] == 0x30 + n);
        assert(all_digits(bytes));
        assert(decimal_value(bytes) == decimal_value(bytes.drop_last()) * 10 + (bytes.last() - 0x30) as nat);
    } else {
        lemma_decimal_bytes(n / 10);
        lemma_digit_byte(n % 10);
        let front = encode_utf8(decimal_chars(n / 10));
        let last = (0x30 + n % 10) as u8;
        assert(last == 0x30 + n % 10);
        lemma_encode_utf8_concat(decimal_chars(n / 10), seq![digit_char(n % 10)]);
        assert(decimal_chars(n / 10).push(digit_char(n % 10)) =~= decimal_chars(n / 10) + seq![
            digit_char(n % 10),
        ]);
        let bytes = front + seq![last];
        assert(encode_utf8(decimal_chars(n)) == bytes);
        assert(bytes.drop_last() =~= front);
        assert(bytes.last() == last);
        assert(decimal_value(bytes) == decimal_value(front) * 10 + (last - 0x30) as nat);
        assert((n / 10) * 10 + n % 10 == n);
        assert(all_digits(bytes)) by {
            assert forall|i: int| 0 <= i < bytes.len() implies 0x30 <= #[trigger] bytes[i] <= 0x39 by {
                if i < front.len() {
                    assert(bytes[i] == front[i]);
                }
            }
        }
    }
}

/// Law of the decimal numbers of the map service: parsing the decimal text
/// of any `u32` (its digits, without leading zeros, as `push_decimal`
/// writes them) gives that number back.
pub proof fn lemma_decimal_round_trip(n: u32)
    ensures
        parsed_u32(encode_utf8(decimal_chars(n as nat))) == Some(n),
{
    lemma_decimal_bytes(n as nat);
    let bytes = encode_utf8(decimal_chars(n as nat));
    assert(0x30 <= bytes[0]);
    assert(unsigned_digits(bytes) == bytes);
}


/// Position of the first smallest population among the cities `kept`
/// (indices into `populations`); ties go to the earliest.
pub open spec fn first_least(populations: Seq<u32>, kept: Seq<int>) -> int
    decreases kept.len(),
{
    if kept.len() <= 1 {
        0
    } else {
        let m = first_least(populations, kept.drop_last());
        if populations[kept.last()] < populations[kept[m]] {
            kept.len() - 1
        } else {
            m
        }
    }
}

/// One step of the city selection: candidate `k` takes a free slot if there
/// is one; otherwise it replaces the first least populated kept city, but
/// only when its own population is strictly larger.
pub open spec fn select_step(populations: Seq<u32>, kept: Seq<int>, k: int) -> Seq<int> {
    if kept.len() < MAX_CITIES {
        kept.push(k)
    } else {
        let m = first_least(populations, kept);
        if populations[k] > populations[kept[m]] {
            kept.update(m, k)
        } else {
            kept
        }
    }
}

/// The candidates kept, slot by slot, after the first `n` have been offered.
pub open spec fn selected_upto(populations: Seq<u32>, n: int) -> Seq<int>
    decreases n,
{
    if n <= 0 {
        Seq::empty()
    } else {
        select_step(populations, selected_upto(populations, n - 1), n - 1)
    }
}

/// The candidates kept, slot by slot, once all have been offered.
pub open spec fn selected(populations: Seq<u32>) -> Seq<int> {
    selected_upto(populations, populations.len() as int)
}

proof fn lemma_first_least(populations: Seq<u32>, kept: Seq<int>)
    requires
        kept.len() > 0,
        forall|j: int| 0 <= j < kept.len() ==> 0 <= #[trigger] kept[j] < populations.len(),
    ensures
        0 <= first_least(populations, kept) < kept.len(),
        forall|j: int|
            #![trigger kept[j]]
            0 <= j < kept.len() ==> populations[kept[first_least(populations, kept)]]
                <= populations[kept[j]],
        forall|j: int|
            #![trigger kept[j]]
            0 <= j < first_least(populations, kept) ==> populations[kept[first_least(
                populations,
                kept,
            )]] < populations[kept[j]],
    decreases kept.len(),
{
    if kept.len() > 1 {
        let prefix = kept.drop_last();
        lemma_first_least(populations, prefix);
        let m = first_least(populations, prefix);
        assert forall|j: int| 0 <= j < prefix.len() implies prefix[j] == #[trigger] kept[j] by {}
    }
}

/// What holds of the kept candidates after the first `n` were offered.
pub open spec fn selection_invariant(populations: Seq<u32>, n: int, kept: Seq<int>) -> bool {
    &&& kept.len() == if n < MAX_CITIES { n } else { MAX_CITIES as int }
    &&& forall|j: int| 0 <= j < kept.len() ==> 0 <= #[trigger] kept[j] < n
    &&& forall|i: int, j: int| 0 <= i < j < kept.len() ==> kept[i] != kept[j]
    &&& forall|d: int, j: int|
        #![trigger populations[d], kept[j]]
        0 <= d < n && !kept.contains(d) && 0 <= j < kept.len() ==> populations[d]
            <= populations[kept[j]]
}

proof fn lemma_selected_upto(populations: Seq<u32>, n: int)
    requires
        0 <= n <= populations.len(),
    ensures
        selection_invariant(populations, n, selected_upto(populations, n)),
        n <= MAX_CITIES ==> selected_upto(populations, n) =~= Seq::new(n as nat, |i: int| i),
    decreases n,
{
    if n > 0 {
        lemma_selected_upto(populations, n - 1);
        let old_kept = selected_upto(populations, n - 1);
        let k = n - 1;
        let kept = selected_upto(populations, n);
        assert(!old_kept.contains(k));
        if old_kept.len() < MAX_CITIES {
            assert(kept =~= old_kept.push(k));
            assert forall|d: int, j: int|
        #![trigger populations[d], kept[j]]
                0 <= d < n && !kept.contains(d) && 0 <= j < kept.len() implies populations[d]
                <= populations[kept[j]] by {
                assert(kept[old_kept.len() as int] == k);
                assert(d != k);
                assert(old_kept[d] == d);
                assert(kept[d] == d);
            }
        } else {
            lemma_first_least(populations, old_kept);
            let m = first_least(populations, old_kept);
            if populations[k] > populations[old_kept[m]] {
                assert(kept =~= old_kept.update(m, k));
                assert forall|d: int, j: int|
        #![trigger populations[d], kept[j]]
                    0 <= d < n && !kept.contains(d) && 0 <= j < kept.len() implies populations[d]
                    <= populations[kept[j]] by {
                    if d == old_kept[m] {
                        if j != m {
                            assert(kept[j] == old_kept[j]);
                        }
                    } else {
                        assert(d != k) by {
                            assert(kept[m] == k);
                        }
                        if old_kept.contains(d) {
                            let w = choose|w: int| 0 <= w < old_kept.len() && old_kept[w] == d;
                            assert(w != m);
                            assert(kept[w] == d);
                        }
                        if j != m {
                            assert(kept[j] == old_kept[j]);
                        }
                        assert(populations[d] <= populations[old_kept[m]]);
                    }
                }
                assert forall|i: int, j: int| 0 <= i < j < kept.len() implies kept[i]
                    != kept[j] by {
                    if i != m && j != m {
                        assert(kept[i] == old_kept[i] && kept[j] == old_kept[j]);
                    }
                }
            } else {
                assert(kept =~= old_kept);
                assert forall|d: int, j: int|
        #![trigger populations[d], kept[j]]
                    0 <= d < n && !kept.contains(d) && 0 <= j < kept.len() implies populations[d]
                    <= populations[kept[j]] by {
                    if d != k {
                    }
                }
            }
        }
    }
}

/// Law of the city selection: at most `MAX_CITIES` candidates are kept,
/// each once; when no more than `MAX_CITIES` are offered, all are kept in the
/// order offered; and no candidate left out has a larger population than a
/// kept one.
pub proof fn lemma_city_selection(populations: Seq<u32>)
    ensures
        ({
            let kept = selected(populations);
            &&& kept.len() <= MAX_CITIES
            &&& forall|j: int| 0 <= j < kept.len() ==> 0 <= #[trigger] kept[j] < populations.len()
            &&& forall|i: int, j: int| 0 <= i < j < kept.len() ==> kept[i] != kept[j]
            &&& populations.len() <= MAX_CITIES ==> kept =~= Seq::new(
                populations.len(),
                |i: int| i,
            )
            &&& forall|d: int, j: int|
        #![trigger populations[d], kept[j]]
                0 <= d < populations.len() && !kept.contains(d) && 0 <= j < kept.len()
                    ==> populations[d] <= populations[kept[j]]
        }),
{
    lemma_selected_upto(populations, populations.len() as int);
}

/// Chooses which candidates take the city slots, given their populations in
/// the order the map service reported them; the result lists, slot by slot,
/// the index of the candidate kept there.
pub fn select_cities(populations: &[u32]) -> (kept: Vec<usize>)
    ensures
        kept@.len() == selected(populations@).len(),
        forall|j: int| 0 <= j < kept@.len() ==> kept@[j] as int == #[trigger] selected(populations@)[j],
{
    let mut kept: Vec<usize> = Vec::new();
    let mut n: usize = 0;
    while n < populations.len()
        invariant
            n <= populations.len(),
            kept@.len() == selected_upto(populations@, n as int).len(),
            forall|j: int|
                0 <= j < kept@.len() ==> kept@[j] as int == #[trigger] selected_upto(
                    populations@,
                    n as int,
                )[j],
        decreases populations.len() - n,
    {
        proof {
            lemma_selected_upto(populations@, n as int);
        }
        let ghost old_spec = selected_upto(populations@, n as int);
        if kept.len() < MAX_CITIES {
            kept.push(n);
        } else {
            proof {
                lemma_first_least(populations@, old_spec);
            }
            let mut m: usize = 0;
            let mut t: usize = 1;
            while t < kept.len()
                invariant
                    1 <= t <= kept@.len(),
                    kept@.len() == MAX_CITIES,
                    kept@.len() == old_spec.len(),
                    forall|j: int| 0 <= j < kept@.len() ==> kept@[j] as int == #[trigger] old_spec[j],
                    forall|j: int| 0 <= j < kept@.len() ==> 0 <= #[trigger] old_spec[j] < n,
                    n < populations@.len(),
                    m as int == first_least(populations@, old_spec.subrange(0, t as int)),
                    m < t,
                decreases kept.len() - t,
            {
                let ghost prefix = old_spec.subrange(0, t as int);
                let ghost next = old_spec.subrange(0, t + 1);
                assert(next.drop_last() =~= prefix);
                assert(next.last() == old_spec[t as int]);
                assert(prefix[m as int] == old_spec[m as int]);
                if populations[kept[t]] < populations[kept[m]] {
                    m = t;
                }
                t = t + 1;
            }
            assert(old_spec.subrange(0, kept.len() as int) =~= old_spec);
            if populations[n] > populations[kept[m]] {
                kept.set(m, n);
            }
        }
        n = n + 1;
    }
    kept
}


/// The tags of a place element: its name and its population, both as text.
pub struct PlaceTags<'a> {
    pub name: Option<&'a str>,
    pub population: Option<&'a str>,
}

/// What the decoder reads of one element of the map service's answer:
/// whether it carries its own coordinates, whether it carries a centre
/// point, and its tags.
pub struct PlaceRecord<'a> {
    pub has_coordinates: bool,
    pub has_center: bool,
    pub tags: Option<PlaceTags<'a>>,
}

/// Which coordinates of an element place the city on the map.
#[derive(PartialEq, Eq, Structural, Clone, Copy, Debug)]
pub enum PlacePosition {
    Coordinates,
    Center,
}

/// The non-positional part of a city: the element it came from, where its
/// coordinates are read, its population and its name cut to 24 bytes.
pub struct CityCandidate {
    pub record: usize,
    pub position: PlacePosition,
    pub population: u32,
    pub name: String,
}

/// Where an element's position is read: its own coordinates when it has
/// both, else its centre point.
pub open spec fn place_position(record: PlaceRecord) -> Option<PlacePosition> {
    if record.has_coordinates {
        Some(PlacePosition::Coordinates)
    } else if record.has_center {
        Some(PlacePosition::Center)
    } else {
        None
    }
}

/// An element becomes a city when it has tags, a name and a position.
pub open spec fn is_city(record: PlaceRecord) -> bool {
    &&& record.tags matches Some(tags)
    &&& tags.name is Some
    &&& place_position(record) is Some
}

/// The population of a city: its population tag read as a number, or 0 when
/// it is missing or no valid number.
pub open spec fn population_number(population: Option<&str>) -> u32 {
    match population {
        Some(text) => match parsed_u32(text.spec_bytes()) {
            Some(value) => value,
            None => 0,
        },
        None => 0,
    }
}

/// `city` is the candidate made from `record`, found at `index`.
pub open spec fn candidate_of(city: CityCandidate, record: PlaceRecord, index: int) -> bool {
    &&& record.tags matches Some(tags)
    &&& tags.name matches Some(name)
    &&& city.record == index
    &&& Some(city.position) == place_position(record)
    &&& city.population == population_number(tags.population)
    &&& encode_utf8(city.name@) == name.spec_bytes().subrange(
        0,
        floor_boundary(name.spec_bytes(), 24),
    )
}

/// Indices of the elements, among the first `n`, that become cities.
pub open spec fn cities_upto(records: Seq<PlaceRecord>, n: int) -> Seq<int>
    decreases n,
{
    if n <= 0 {
        Seq::empty()
    } else if is_city(records[n - 1]) {
        cities_upto(records, n - 1).push(n - 1)
    } else {
        cities_upto(records, n - 1)
    }
}

/// Indices of the elements that become cities, in order.
pub open spec fn city_records(records: Seq<PlaceRecord>) -> Seq<int> {
    cities_upto(records, records.len() as int)
}

/// Populations of the elements that become cities, in order.
pub open spec fn city_populations(records: Seq<PlaceRecord>) -> Seq<u32> {
    city_records(records).map_values(
        |i: int|
            match records[i].tags {
                Some(tags) => population_number(tags.population),
                None => 0,
            },
    )
}

/// Turns one element into a city, when it has a name and a position.
pub fn city_candidate(record: &PlaceRecord, index: usize) -> (city: Option<CityCandidate>)
    ensures
        city is Some <==> is_city(*record),
        city matches Some(c) ==> candidate_of(c, *record, index as int),
{
    let tags = match &record.tags {
        Some(tags) => tags,
        None => return None,
    };
    let name = match tags.name {
        Some(name) => name,
        None => return None,
    };
    let position = if record.has_coordinates {
        PlacePosition::Coordinates
    } else if record.has_center {
        PlacePosition::Center
    } else {
        return None;
    };
    let population = match tags.population {
        Some(text) => match parse_u32(text) {
            Some(value) => value,
            None => 0,
        },
        None => 0,
    };
    let name = truncate_string::<24>(name);
    Some(CityCandidate { record: index, position, population, name })
}

/// Decodes the cities of one answer of the map service into `MAX_CITIES`
/// slots. Elements without tags, name or position are skipped; the others
/// fill the slots in order, and once all slots are taken a city replaces the
/// first least populated one when its own population is strictly larger.
/// Slots that no city took stay empty.
pub fn decode_cities(records: &[PlaceRecord]) -> (cities: Vec<Option<CityCandidate>>)
    ensures
        cities@.len() == MAX_CITIES,
        forall|j: int|
            #![trigger cities@[j]]
            0 <= j < MAX_CITIES ==> {
                let kept = selected(city_populations(records@));
                let found = city_records(records@);
                if j < kept.len() {
                    cities@[j] matches Some(city) && candidate_of(
                        city,
                        records@[found[kept[j]]],
                        found[kept[j]],
                    )
                } else {
                    cities@[j] is None
                }
            },
{
    let mut candidates: Vec<CityCandidate> = Vec::new();
    let mut populations: Vec<u32> = Vec::new();
    let mut i: usize = 0;
    while i < records.len()
        invariant
            i <= records.len(),
            candidates@.len() == cities_upto(records@, i as int).len(),
            populations@.len() == candidates@.len(),
            forall|j: int|
                #![trigger candidates@[j]]
                0 <= j < candidates@.len() ==> {
                    let found = cities_upto(records@, i as int);
                    &&& 0 <= found[j] < i
                    &&& candidate_of(candidates@[j], records@[found[j]], found[j])
                    &&& populations@[j] == candidates@[j].population
                },
        decreases records.len() - i,
    {
        if let Some(city) = city_candidate(&records[i], i) {
            populations.push(city.population);
            candidates.push(city);
        }
        i = i + 1;
    }
    let ghost found = city_records(records@);
    assert(populations@ =~= city_populations(records@)) by {
        assert forall|j: int| 0 <= j < populations@.len() implies #[trigger] populations@[j]
            == city_populations(records@)[j] by {
            assert(candidate_of(candidates@[j], records@[found[j]], found[j]));
        }
    }
    let kept = select_cities(populations.as_slice());
    proof {
        lemma_city_selection(populations@);
    }
    let mut cities: Vec<Option<CityCandidate>> = Vec::new();
    let mut j: usize = 0;
    while j < MAX_CITIES
        invariant
            j <= MAX_CITIES,
            cities@.len() == j,
            kept@.len() == selected(populations@).len(),
            kept@.len() <= MAX_CITIES,
            populations@ == city_populations(records@),
            candidates@.len() == found.len(),
            populations@.len() == found.len(),
            found == city_records(records@),
            forall|t: int| 0 <= t < kept@.len() ==> kept@[t] as int == #[trigger] selected(populations@)[t],
            forall|t: int|
                0 <= t < kept@.len() ==> 0 <= #[trigger] selected(populations@)[t] < populations@.len(),
            forall|t: int|
                #![trigger candidates@[t]]
                0 <= t < candidates@.len() ==> candidate_of(
                    candidates@[t],
                    records@[found[t]],
                    found[t],
                ),
            forall|t: int|
                #![trigger cities@[t]]
                0 <= t < j ==> {
                    let sel = selected(populations@);
                    if t < sel.len() {
                        cities@[t] matches Some(city) && candidate_of(
                            city,
                            records@[found[sel[t]]],
                            found[sel[t]],
                        )
                    } else {
                        cities@[t] is None
                    }
                },
        decreases MAX_CITIES - j,
    {
        if j < kept.len() {
            assert(kept@[j as int] as int == selected(populations@)[j as int]);
            let source = &candidates[kept[j]];
            let city = CityCandidate {
                record: source.record,
                position: source.position,
                population: source.population,
                name: source.name.clone(),
            };
            cities.push(Some(city));
        } else {
            cities.push(None);
        }
        j = j + 1;
    }
    cities
}

} // verus!
