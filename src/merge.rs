//! Merging matched cities into a country's collection, one outcome per slot.
use vstd::prelude::*;
use crate::city_matcher::{CityMatch, Coordinates, Geoname};
use crate::store::Cities;

verus! {

/// What became of one requested city.
#[derive(Clone, Debug)]
pub enum CityOutcome {
    /// The city was new and is now stored.
    Added { name: String, coordinates: Coordinates },
    /// A city of that name was already stored; its coordinates stay.
    AlreadyExists { name: String },
    /// No record of the country answers to the requested name, given as written.
    NotFound { name: String },
}

/// For each slot, the matched record's name and coordinates, if any.
pub open spec fn found_of(matches: Seq<CityMatch>, places: Seq<Geoname>) -> Seq<Option<(Seq<char>, Coordinates)>> {
    matches.map_values(|m: CityMatch| match m.place {
        Some(p) => Some((places[p as int].name@, places[p as int].coordinates)),
        None => None,
    })
}

/// The collection after merging the first `n` slots into `m`: a found city
/// is added unless its name is already there.
pub open spec fn merged(
    m: Map<Seq<char>, Coordinates>,
    f: Seq<Option<(Seq<char>, Coordinates)>>,
    n: nat,
) -> Map<Seq<char>, Coordinates>
    decreases n,
{
    if n == 0 {
        m
    } else {
        let prev = merged(m, f, (n - 1) as nat);
        match f[n - 1] {
            Some(e) => if prev.contains_key(e.0) {
                prev
            } else {
                prev.insert(e.0, e.1)
            },
            None => prev,
        }
    }
}

/// The outcome reported for a slot requested as `requested` with match
/// `found`, given the collection `before` it is merged.
pub open spec fn outcome_is(
    o: CityOutcome,
    requested: Seq<char>,
    found: Option<(Seq<char>, Coordinates)>,
    before: Map<Seq<char>, Coordinates>,
) -> bool {
    match found {
        None => o matches CityOutcome::NotFound { name } && name@ == requested,
        Some(e) => if before.contains_key(e.0) {
            o matches CityOutcome::AlreadyExists { name } && name@ == e.0
        } else {
            o matches CityOutcome::Added { name, coordinates } && name@ == e.0 && coordinates == e.1
        },
    }
}

/// Adds each matched city, in slot order, and reports per slot whether it was
/// added, already there, or not found; the flag tells whether anything was
/// added, that is whether the collection must be saved.
pub fn merge_cities(cities: &mut Cities, matches: &Vec<CityMatch>, places: &Vec<Geoname>) -> (r: (Vec<CityOutcome>, bool))
    requires
        old(cities).wf(),
        forall|s: int| 0 <= s < matches@.len() ==> (#[trigger] matches@[s].place matches Some(p) ==> p < places@.len()),
    ensures
        final(cities).wf(),
        final(cities)@ == merged(old(cities)@, found_of(matches@, places@), matches@.len()),
        r.0@.len() == matches@.len(),
        forall|s: int| 0 <= s < matches@.len() ==> outcome_is(
            #[trigger] r.0@[s],
            matches@[s].requested@,
            found_of(matches@, places@)[s],
            merged(old(cities)@, found_of(matches@, places@), s as nat),
        ),
        r.1 == exists|s: int| 0 <= s < r.0@.len() && #[trigger] r.0@[s] is Added,
{
    let ghost f = found_of(matches@, places@);
    let ghost start = cities@;
    let mut outcomes: Vec<CityOutcome> = Vec::new();
    let mut changed = false;
    let mut s: usize = 0;
    while s < matches.len()
        invariant
            s <= matches@.len(),
            f == found_of(matches@, places@),
            start == old(cities)@,
            forall|t: int| 0 <= t < matches@.len() ==> (#[trigger] matches@[t].place matches Some(p) ==> p < places@.len()),
            cities.wf(),
            cities@ == merged(start, f, s as nat),
            outcomes@.len() == s,
            forall|t: int| 0 <= t < s ==> outcome_is(
                #[trigger] outcomes@[t],
                matches@[t].requested@,
                f[t],
                merged(start, f, t as nat),
            ),
            changed == exists|t: int| 0 <= t < outcomes@.len() && #[trigger] outcomes@[t] is Added,
        decreases matches@.len() - s,
    {
        let ghost prev_out = outcomes@;
        match matches[s].place {
            Some(p) => {
                let place = &places[p];
                if cities.add(place.name.clone(), place.coordinates) {
                    outcomes.push(CityOutcome::Added { name: place.name.clone(), coordinates: place.coordinates });
                    changed = true;
                    assert(outcomes@[s as int] is Added);
                } else {
                    outcomes.push(CityOutcome::AlreadyExists { name: place.name.clone() });
                }
            },
            None => {
                outcomes.push(CityOutcome::NotFound { name: matches[s].requested.clone() });
            },
        }
        assert(forall|t: int| 0 <= t < s ==> outcomes@[t] == prev_out[t]);
        s = s + 1;
    }
    (outcomes, changed)
}

/// What merging keeps: a name already in `m` stays with its coordinates.
pub proof fn lemma_merged_keeps(m: Map<Seq<char>, Coordinates>, f: Seq<Option<(Seq<char>, Coordinates)>>, n: nat, k: Seq<char>)
    requires
        n <= f.len(),
        m.contains_key(k),
    ensures
        merged(m, f, n).contains_key(k),
        merged(m, f, n)[k] == m[k],
    decreases n,
{
    if n > 0 {
        lemma_merged_keeps(m, f, (n - 1) as nat, k);
    }
}

/// After merging, every found city's name is in the collection.
pub proof fn lemma_merged_holds_found(m: Map<Seq<char>, Coordinates>, f: Seq<Option<(Seq<char>, Coordinates)>>, n: nat, s: int)
    requires
        n <= f.len(),
        0 <= s < n,
        f[s] is Some,
    ensures
        merged(m, f, n).contains_key(f[s]->Some_0.0),
    decreases n,
{
    if s < n - 1 {
        lemma_merged_holds_found(m, f, (n - 1) as nat, s);
        lemma_merged_keeps(merged(m, f, (n - 1) as nat), f, n, f[s]->Some_0.0);
        if n - 1 > 0 {
            let prev = merged(m, f, (n - 1) as nat);
            assert(prev.contains_key(f[s]->Some_0.0));
        }
    }
}

/// Running the same merge a second time adds nothing: every found city is
/// reported as already there, and the collection stays as the first run left it.
pub proof fn law_merge_again_adds_nothing(m: Map<Seq<char>, Coordinates>, f: Seq<Option<(Seq<char>, Coordinates)>>)
    ensures
        forall|s: int| #![trigger f[s]] 0 <= s < f.len() && f[s] is Some ==>
            merged(merged(m, f, f.len()), f, s as nat).contains_key(f[s]->Some_0.0),
        merged(merged(m, f, f.len()), f, f.len()) == merged(m, f, f.len()),
{
    let m2 = merged(m, f, f.len());
    assert forall|s: int| #![trigger f[s]] 0 <= s < f.len() && f[s] is Some implies
        merged(m2, f, s as nat).contains_key(f[s]->Some_0.0) by {
        lemma_merged_holds_found(m, f, f.len(), s);
        lemma_merged_keeps(m2, f, s as nat, f[s]->Some_0.0);
    }
    assert forall|s: int| #![trigger f[s]] 0 <= s < f.len() && f[s] is Some implies m2.contains_key(f[s]->Some_0.0) by {
        lemma_merged_holds_found(m, f, f.len(), s);
    }
    lemma_merge_of_covered(m2, f, f.len());
}

/// Merging into a collection that already holds every found name changes nothing.
proof fn lemma_merge_of_covered(m: Map<Seq<char>, Coordinates>, f: Seq<Option<(Seq<char>, Coordinates)>>, n: nat)
    requires
        n <= f.len(),
        forall|s: int| #![trigger f[s]] 0 <= s < n && f[s] is Some ==> m.contains_key(f[s]->Some_0.0),
    ensures
        merged(m, f, n) == m,
    decreases n,
{
    if n > 0 {
        lemma_merge_of_covered(m, f, (n - 1) as nat);
    }
}

} // verus!
