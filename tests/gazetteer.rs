use waymarks::city_matcher::{match_cities, Coordinates, FeatureClass, Geoname};
use waymarks::config::{Config, Docs, GeoNames};
use waymarks::country_index::{get_country_info, CountryInfo, CountryMaps, GazetteerError};
use waymarks::merge::CityOutcome;
use waymarks::pipeline::{merge_requested_cities, update_country};
use waymarks::report::{city_exists_message, city_not_found_message, country_added_message, country_exists_message};
use waymarks::store::{Cities, Countries};

fn coords(lat: f64, lon: f64) -> Coordinates {
    Coordinates { lat_bits: lat.to_bits(), lon_bits: lon.to_bits() }
}

fn country(iso: &str, name: &str) -> CountryInfo {
    CountryInfo {
        iso: iso.to_string(),
        iso3: String::new(),
        iso_numeric: String::new(),
        fips: None,
        country: name.to_string(),
    }
}

fn place(id: i64, name: &str, ascii: Option<&str>, code: &str, lat: f64, lon: f64) -> Geoname {
    Geoname {
        geonameid: id,
        name: name.to_string(),
        asciiname: ascii.map(|a| a.to_string()),
        country_code: Some(code.to_string()),
        coordinates: coords(lat, lon),
    }
}

fn strings(v: &[&str]) -> Vec<String> {
    v.iter().map(|s| s.to_string()).collect()
}

fn country_rows() -> Vec<CountryInfo> {
    vec![country("AD", "Andorra"), country("DE", "Germany"), country("US", "United States")]
}

#[test]
fn test_add_and_save_load() {
    let mut cities = Cities::new();
    let berlin = coords(52.5200, 13.4050);
    let munich = coords(48.13743, 11.57549);

    assert!(cities.add("Berlin".to_string(), berlin));
    assert!(cities.add("Munich".to_string(), munich));
    assert!(!cities.add("Berlin".to_string(), berlin));

    let saved = cities.entries();
    let loaded = Cities::from_entries(&saved);
    assert_eq!(loaded.get("Berlin"), Some(berlin));
    assert_eq!(loaded.get("Munich"), Some(munich));
}

#[test]
fn test_countries() {
    let mut countries = Countries::new();
    assert!(countries.add("Germany"));
    assert!(countries.add("France"));
    assert!(countries.add("Japan"));

    let saved = countries.names();
    let loaded = Countries::from_names(&saved);
    assert!(loaded.contains("Germany"));
    assert!(loaded.contains("France"));
    assert!(loaded.contains("Japan"));
}

#[test]
fn resolve_is_case_insensitive_for_codes_and_names() {
    let mut maps = CountryMaps::new();
    for row in country_rows() {
        maps.add_country(row.country.clone(), row.iso.clone());
    }
    let by_code = maps.resolve_country("DE");
    assert_eq!(by_code, Some(("de".to_string(), "germany".to_string())));
    assert_eq!(maps.resolve_country("de"), by_code);
    assert_eq!(maps.resolve_country("dE"), by_code);
    assert_eq!(maps.resolve_country("Germany"), by_code);
    assert_eq!(maps.resolve_country("GERMANY"), by_code);
    assert_eq!(maps.get_iso("germany"), Some(&"de".to_string()));
    assert_eq!(maps.get_name("de"), Some(&"germany".to_string()));
}

#[test]
fn get_country_info_underscores_spaces() {
    let rows = country_rows();
    assert_eq!(
        get_country_info(&rows, "united states"),
        Ok(("us".to_string(), "united_states".to_string()))
    );
    assert_eq!(get_country_info(&rows, "US"), Ok(("us".to_string(), "united_states".to_string())));
}

#[test]
fn unknown_country_is_unresolved() {
    let rows = country_rows();
    assert_eq!(
        get_country_info(&rows, "Atlantis"),
        Err(GazetteerError::UnresolvedCountry("Atlantis".to_string()))
    );
    let mut maps = CountryMaps::new();
    maps.add_country("Germany".to_string(), "DE".to_string());
    assert_eq!(maps.resolve_country("xx"), None);
}

#[test]
fn unresolved_country_leaves_set_untouched() {
    let mut countries = Countries::new();
    countries.add("andorra");
    let r = update_country(&mut countries, &country_rows(), "Nowhere");
    assert_eq!(r.err(), Some(GazetteerError::UnresolvedCountry("Nowhere".to_string())));
    assert_eq!(countries.names(), vec!["andorra".to_string()]);
}

#[test]
fn update_country_reports_new_then_existing() {
    let mut countries = Countries::new();
    let rows = country_rows();
    let first = update_country(&mut countries, &rows, "DE").ok().unwrap();
    assert_eq!(first, ("de".to_string(), "germany".to_string(), true));
    let second = update_country(&mut countries, &rows, "germany").ok().unwrap();
    assert_eq!(second, ("de".to_string(), "germany".to_string(), false));
    assert_eq!(countries.names().len(), 1);
}

#[test]
fn duplicate_requested_names_share_one_slot() {
    let places = vec![place(1, "Paris", Some("Paris"), "FR", 48.85, 2.35)];
    let names = strings(&["Paris", "paris"]);
    let m = match_cities(&names, "FR", &places);
    assert_eq!(m.len(), 1);
    assert_eq!(m[0].key, "paris");
    assert_eq!(m[0].requested, "Paris");
    assert_eq!(m[0].place, Some(0));

    let none = match_cities(&strings(&["Lyon", "LYON"]), "FR", &places);
    assert_eq!(none.len(), 1);
    assert_eq!(none[0].place, None);
}

#[test]
fn earlier_record_wins_a_tie() {
    let places = vec![
        place(10, "Springfield", None, "US", 39.8, -89.6),
        place(11, "Springfield", None, "US", 42.1, -72.6),
    ];
    let m = match_cities(&strings(&["springfield"]), "us", &places);
    assert_eq!(m[0].place, Some(0));
}

#[test]
fn matching_filters_by_country_and_uses_ascii_name() {
    let places = vec![
        place(1, "München", Some("Muenchen"), "AT", 0.0, 0.0),
        place(2, "Berlin", None, "us", 0.0, 0.0),
        place(3, "München", Some("Muenchen"), "de", 48.137, 11.575),
        place(4, "Berlin", None, "DE", 52.52, 13.405),
    ];
    let m = match_cities(&strings(&["muenchen", "Berlin", "Hamburg"]), "DE", &places);
    assert_eq!(m.len(), 3);
    assert_eq!(m[0].place, Some(2));
    assert_eq!(m[1].place, Some(3));
    assert_eq!(m[2].place, None);
}

#[test]
fn record_binds_only_one_slot() {
    // The primary name binds first; the ASCII name of the same record is not tried.
    let places = vec![
        place(1, "Alpha", Some("Beta"), "XX", 1.0, 1.0),
        place(2, "Beta", None, "XX", 2.0, 2.0),
    ];
    let m = match_cities(&strings(&["alpha", "beta"]), "XX", &places);
    assert_eq!(m[0].place, Some(0));
    assert_eq!(m[1].place, Some(1));
}

#[test]
fn city_add_keeps_first_coordinates() {
    let mut cities = Cities::new();
    let first = coords(1.5, 2.5);
    let second = coords(3.5, 4.5);
    assert!(cities.add("Town".to_string(), first));
    assert!(!cities.add("Town".to_string(), second));
    assert_eq!(cities.get("Town"), Some(first));
    assert_eq!(cities.entries().len(), 1);
}

#[test]
fn country_add_is_idempotent() {
    let mut countries = Countries::new();
    assert!(countries.add("Germany"));
    let size = countries.names().len();
    assert!(!countries.add("Germany"));
    assert_eq!(countries.names().len(), size);
    assert!(countries.add("germany"));
}

#[test]
fn round_trip_ignores_insertion_order() {
    let mut a = Cities::new();
    a.add("Berlin".to_string(), coords(52.52, 13.405));
    a.add("Munich".to_string(), coords(48.13743, 11.57549));
    let mut b = Cities::new();
    b.add("Munich".to_string(), coords(48.13743, 11.57549));
    b.add("Berlin".to_string(), coords(52.52, 13.405));
    let la = Cities::from_entries(&a.entries());
    let lb = Cities::from_entries(&b.entries());
    for name in ["Berlin", "Munich", "Paris"] {
        assert_eq!(la.get(name), lb.get(name));
        assert_eq!(la.get(name), a.get(name));
    }
    let mut c = Countries::new();
    c.add("Japan");
    c.add("France");
    let back = Countries::from_names(&c.names());
    assert!(back.contains("Japan") && back.contains("France") && !back.contains("Spain"));
    assert_eq!(back.names().len(), 2);
}

#[test]
fn from_entries_keeps_first_of_a_name() {
    let entries = vec![("A".to_string(), coords(1.0, 1.0)), ("A".to_string(), coords(2.0, 2.0))];
    let c = Cities::from_entries(&entries);
    assert_eq!(c.get("A"), Some(coords(1.0, 1.0)));
    assert_eq!(c.entries().len(), 1);
}

fn germany_places() -> Vec<Geoname> {
    vec![
        place(2950159, "Berlin", Some("Berlin"), "DE", 52.52, 13.405),
        place(2988507, "Paris", Some("Paris"), "FR", 48.85, 2.35),
    ]
}

#[test]
fn end_to_end_adds_found_and_reports_missing() {
    let mut cities = Cities::new();
    let names = strings(&["Berlin", "Nope"]);
    let (matches, outcomes, changed) = merge_requested_cities(&mut cities, &names, "de", &germany_places());
    assert!(changed);
    assert_eq!(matches.len(), 2);
    match &outcomes[0] {
        CityOutcome::Added { name, coordinates } => {
            assert_eq!(name, "Berlin");
            assert_eq!(f64::from_bits(coordinates.lat_bits), 52.52);
            assert_eq!(f64::from_bits(coordinates.lon_bits), 13.405);
        }
        _ => panic!("Berlin should be added"),
    }
    match &outcomes[1] {
        CityOutcome::NotFound { name } => {
            assert_eq!(city_not_found_message(name, "Germany"), "City 'Nope' not found in country 'Germany'");
        }
        _ => panic!("Nope should not be found"),
    }
    assert_eq!(cities.entries(), vec![("Berlin".to_string(), coords(52.52, 13.405))]);

    let mut countries = Countries::new();
    assert!(countries.add("Germany"));
    assert_eq!(countries.names(), vec!["Germany".to_string()]);
}

#[test]
fn end_to_end_second_run_reports_existing() {
    let mut cities = Cities::new();
    let names = strings(&["Berlin", "Nope"]);
    let places = germany_places();
    merge_requested_cities(&mut cities, &names, "DE", &places);
    let before = cities.entries();
    let (_, outcomes, changed) = merge_requested_cities(&mut cities, &names, "DE", &places);
    assert!(!changed);
    match &outcomes[0] {
        CityOutcome::AlreadyExists { name } => {
            assert_eq!(city_exists_message(name, "Germany"), "City 'Berlin' already exists in country 'Germany'");
        }
        _ => panic!("Berlin should already exist"),
    }
    assert!(matches!(&outcomes[1], CityOutcome::NotFound { .. }));
    assert_eq!(cities.entries(), before);
}

#[test]
fn messages_have_their_exact_text() {
    assert_eq!(country_added_message("Germany"), "Added country: Germany");
    assert_eq!(country_exists_message("Germany"), "Country 'Germany' already exists");
}

#[test]
fn urls_join_base_and_file() {
    let cfg = Config {
        geonames: GeoNames {
            base_url: "https://download.geonames.org/export/dump/".to_string(),
            country_info_file: "countryInfo.txt".to_string(),
            cities_file: "cities500.zip".to_string(),
            download_dir: "data".to_string(),
        },
        docs: Docs { dir: "docs".to_string(), countries_file: "countries.json".to_string(), cities_folder: "cities".to_string() },
    };
    assert_eq!(cfg.country_info_url(), "https://download.geonames.org/export/dump/countryInfo.txt");
    assert_eq!(cfg.cities_url(), "https://download.geonames.org/export/dump/cities500.zip");
}

#[test]
fn feature_class_symbols() {
    assert_eq!(FeatureClass::P.symbol(), "P");
    assert_eq!(FeatureClass::A.symbol(), "A");
    assert_eq!(FeatureClass::V.symbol(), "V");
}
