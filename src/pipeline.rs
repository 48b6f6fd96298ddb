//! The decisions of an "add cities" request, in order: resolve the country
//! and record it, then bind the requested cities and merge them.
use vstd::prelude::*;
use crate::city_matcher::{bindings, match_cities, request_keys, widen_one, CityMatch, Geoname};
use crate::country_index::{get_country_info, resolve_in_rows, CountryInfo, GazetteerError};
use crate::merge::{found_of, merge_cities, merged, outcome_is, CityOutcome};
use crate::store::{Cities, Countries};
use crate::text::underscored;

verus! {

/// Resolves `country` against the country list and adds its storage name to
/// `countries`. Gives the code, the storage name, and whether the name was
/// new (and so the set must be saved). An unresolved token leaves the set
/// untouched.
pub fn update_country(countries: &mut Countries, rows: &Vec<CountryInfo>, country: &str) -> (r: Result<(String, String, bool), GazetteerError>)
    requires
        old(countries).wf(),
    ensures
        final(countries).wf(),
        r is Err <==> resolve_in_rows(rows@, country@) is None,
        r matches Err(GazetteerError::UnresolvedCountry(t)) ==> t@ == country@ && final(countries)@ == old(countries)@,
        r matches Ok((iso, name, added)) ==> {
            &&& resolve_in_rows(rows@, country@) matches Some(q)
            &&& iso@ == q.0
            &&& name@ == underscored(q.1)
            &&& added == !old(countries)@.contains(name@)
            &&& final(countries)@ == old(countries)@.insert(name@)
        },
{
    match get_country_info(rows, country) {
        Ok((iso, name)) => {
            let added = countries.add(name.as_str());
            Ok((iso, name, added))
        },
        Err(e) => Err(e),
    }
}

/// Binds the requested city names to the place records of country
/// `country_iso` and merges the bound cities into `cities`, reporting one
/// outcome per distinct requested name, in request order, and whether
/// anything was added.
pub fn merge_requested_cities(cities: &mut Cities, names: &[String], country_iso: &str, places: &Vec<Geoname>) -> (r: (Vec<CityMatch>, Vec<CityOutcome>, bool))
    requires
        old(cities).wf(),
    ensures
        final(cities).wf(),
        r.0@.len() == request_keys(names@).len(),
        forall|s: int| 0 <= s < r.0@.len() ==> {
            &&& #[trigger] r.0@[s].key@ == request_keys(names@)[s]
            &&& widen_one(r.0@[s].place) == bindings(names@, places@, country_iso@)[s]
        },
        final(cities)@ == merged(old(cities)@, found_of(r.0@, places@), r.0@.len()),
        r.1@.len() == r.0@.len(),
        forall|s: int| 0 <= s < r.0@.len() ==> outcome_is(
            #[trigger] r.1@[s],
            r.0@[s].requested@,
            found_of(r.0@, places@)[s],
            merged(old(cities)@, found_of(r.0@, places@), s as nat),
        ),
        r.2 == exists|s: int| 0 <= s < r.1@.len() && #[trigger] r.1@[s] is Added,
{
    let matches = match_cities(names, country_iso, places);
    let (outcomes, changed) = merge_cities(cities, &matches, places);
    (matches, outcomes, changed)
}

} // verus!
