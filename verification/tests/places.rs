use esp_radar::flight::MAX_CITIES;
use esp_radar::network::places::{
    city_candidate, decode_cities, parse_u32, select_cities, PlacePosition, PlaceRecord, PlaceTags,
};

fn place<'a>(coords: bool, center: bool, name: Option<&'a str>, population: Option<&'a str>) -> PlaceRecord<'a> {
    PlaceRecord { has_coordinates: coords, has_center: center, tags: Some(PlaceTags { name, population }) }
}

#[test]
fn parse_u32_matches_std() {
    let cases = ["0", "42", "+7", "007", "4294967295", "4294967296", "", "+", "-1", "12a", " 1", "99999999999"];
    for text in cases {
        assert_eq!(parse_u32(text), text.parse::<u32>().ok(), "{text}");
    }
}

#[test]
fn city_needs_tags_name_and_position() {
    let no_tags = PlaceRecord { has_coordinates: true, has_center: true, tags: None };
    assert!(city_candidate(&no_tags, 0).is_none());
    assert!(city_candidate(&place(true, false, None, Some("5")), 0).is_none());
    assert!(city_candidate(&place(false, false, Some("Town"), Some("5")), 0).is_none());
    let direct = city_candidate(&place(true, true, Some("Regensburg"), Some("150000")), 3).unwrap();
    assert_eq!(direct.record, 3);
    assert_eq!(direct.position, PlacePosition::Coordinates);
    assert_eq!(direct.population, 150000);
    assert_eq!(direct.name, "Regensburg");
    let centred = city_candidate(&place(false, true, Some("Amberg"), Some("many")), 1).unwrap();
    assert_eq!(centred.position, PlacePosition::Center);
    assert_eq!(centred.population, 0);
    let unknown = city_candidate(&place(true, false, Some("Weiden"), None), 1).unwrap();
    assert_eq!(unknown.population, 0);
}

#[test]
fn city_name_is_cut_to_capacity() {
    let long = "Sankt Englmar im Bayerischen Wald";
    let city = city_candidate(&place(true, false, Some(long), None), 0).unwrap();
    assert_eq!(city.name, "Sankt Englmar im Bayeris");
    let umlauts = "Öööööööööööööööööööööö";
    let city = city_candidate(&place(true, false, Some(umlauts), None), 0).unwrap();
    assert_eq!(city.name, "Öööööööööööö");
}

#[test]
fn selection_keeps_all_when_few() {
    let kept = select_cities(&[5, 1, 9]);
    assert_eq!(kept, vec![0, 1, 2]);
    assert!(select_cities(&[]).is_empty());
}

#[test]
fn selection_replaces_first_least_populated() {
    let mut populations: Vec<u32> = (0..MAX_CITIES as u32).map(|i| 100 + i).collect();
    populations[10] = 50;
    populations[20] = 50;
    populations.push(60);
    populations.push(50);
    populations.push(1000);
    let kept = select_cities(&populations);
    assert_eq!(kept.len(), MAX_CITIES);
    assert_eq!(kept[10], MAX_CITIES);
    assert_eq!(kept[20], MAX_CITIES + 2);
    assert!(!kept.contains(&(MAX_CITIES + 1)));
}

#[test]
fn selection_law_on_values() {
    let populations: Vec<u32> = (0..200u32).map(|i| (i * 7919) % 1000).collect();
    let kept = select_cities(&populations);
    assert_eq!(kept.len(), MAX_CITIES);
    let least_kept = kept.iter().map(|&i| populations[i]).min().unwrap();
    for index in 0..populations.len() {
        if !kept.contains(&index) {
            assert!(populations[index] <= least_kept);
        }
    }
    let mut sorted = kept.clone();
    sorted.sort();
    sorted.dedup();
    assert_eq!(sorted.len(), MAX_CITIES);
}

#[test]
fn decode_cities_fills_slots() {
    let records = vec![
        place(true, false, Some("A"), Some("10")),
        PlaceRecord { has_coordinates: true, has_center: false, tags: None },
        place(false, true, Some("B"), Some("20")),
    ];
    let cities = decode_cities(&records);
    assert_eq!(cities.len(), MAX_CITIES);
    let first = cities[0].as_ref().unwrap();
    assert_eq!((first.record, first.name.as_str(), first.population), (0, "A", 10));
    let second = cities[1].as_ref().unwrap();
    assert_eq!((second.record, second.name.as_str(), second.population), (2, "B", 20));
    assert_eq!(second.position, PlacePosition::Center);
    assert!(cities[2..].iter().all(|c| c.is_none()));
}
