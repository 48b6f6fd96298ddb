//! Lookup of countries by name or by ISO code, in either case.
use vstd::prelude::*;
use crate::text::{lower_of, to_lower, underscore_spaces, underscored};

verus! {

/// A mapping from strings to strings held as a list of entries with unique keys.
pub struct StrMap {
    entries: Vec<(String, String)>,
    model: Ghost<Map<Seq<char>, Seq<char>>>,
}

impl View for StrMap {
    type V = Map<Seq<char>, Seq<char>>;

    closed spec fn view(&self) -> Map<Seq<char>, Seq<char>> {
        self.model@
    }
}

impl StrMap {
    /// The entries agree with the model, cover it, and have unique keys.
    pub closed spec fn wf(&self) -> bool {
        &&& forall|i: int|
            0 <= i < self.entries@.len() ==> {
                &&& self.model@.contains_key(#[trigger] self.entries@[i].0@)
                &&& self.model@[self.entries@[i].0@] == self.entries@[i].1@
            }
        &&& forall|k: Seq<char>|
            #[trigger] self.model@.contains_key(k) ==> exists|i: int|
                0 <= i < self.entries@.len() && #[trigger] self.entries@[i].0@ == k
        &&& forall|i: int, j: int|
            0 <= i < self.entries@.len() && 0 <= j < self.entries@.len()
                && #[trigger] self.entries@[i].0@ == #[trigger] self.entries@[j].0@ ==> i == j
    }

    pub fn new() -> (r: StrMap)
        ensures
            r.wf(),
            r@ == Map::<Seq<char>, Seq<char>>::empty(),
    {
        StrMap { entries: Vec::new(), model: Ghost(Map::empty()) }
    }

    /// The position of the entry with key `k`, if there is one.
    fn position(&self, k: &str) -> (r: Option<usize>)
        requires
            self.wf(),
        ensures
            r is None <==> !self@.contains_key(k@),
            r matches Some(i) ==> i < self.entries@.len() && self.entries@[i as int].0@ == k@,
    {
        let key: String = k.to_owned();
        let mut i: usize = 0;
        while i < self.entries.len()
            invariant
                self.wf(),
                key@ == k@,
                i <= self.entries@.len(),
                forall|j: int| 0 <= j < i ==> self.entries@[j].0@ != k@,
            decreases self.entries@.len() - i,
        {
            if self.entries[i].0.eq(&key) {
                return Some(i);
            }
            i = i + 1;
        }
        None
    }

    /// The value stored under `k`.
    pub fn get(&self, k: &str) -> (r: Option<&String>)
        requires
            self.wf(),
        ensures
            r is None <==> !self@.contains_key(k@),
            r matches Some(v) ==> v@ == self@[k@],
    {
        match self.position(k) {
            Some(i) => Some(&self.entries[i].1),
            None => None,
        }
    }

    /// Stores `v` under `k`, replacing what was there.
    pub fn insert(&mut self, k: String, v: String)
        requires
            old(self).wf(),
        ensures
            final(self).wf(),
            final(self)@ == old(self)@.insert(k@, v@),
    {
        let ghost km = k@;
        let ghost vm = v@;
        match self.position(k.as_str()) {
            Some(i) => {
                self.entries.set(i, (k, v));
                self.model = Ghost(self.model@.insert(km, vm));
                assert forall|kk: Seq<char>| #[trigger] self.model@.contains_key(kk) implies exists|j: int|
                    0 <= j < self.entries@.len() && #[trigger] self.entries@[j].0@ == kk by {
                    if kk != km {
                        let j = choose|j: int| 0 <= j < old(self).entries@.len() && #[trigger] old(self).entries@[j].0@ == kk;
                        assert(self.entries@[j].0@ == kk);
                    } else {
                        assert(self.entries@[i as int].0@ == kk);
                    }
                }
            },
            None => {
                self.entries.push((k, v));
                self.model = Ghost(self.model@.insert(km, vm));
                assert forall|kk: Seq<char>| #[trigger] self.model@.contains_key(kk) implies exists|j: int|
                    0 <= j < self.entries@.len() && #[trigger] self.entries@[j].0@ == kk by {
                    if kk != km {
                        let j = choose|j: int| 0 <= j < old(self).entries@.len() && #[trigger] old(self).entries@[j].0@ == kk;
                        assert(self.entries@[j].0@ == kk);
                    } else {
                        assert(self.entries@[self.entries@.len() - 1].0@ == kk);
                    }
                }
            },
        }
    }
}

/// One row of the reference country list.
#[derive(Clone, Debug)]
pub struct CountryInfo {
    pub iso: String,
    pub iso3: String,
    pub iso_numeric: String,
    pub fips: Option<String>,
    pub country: String,
}

/// Why a request could not be carried out.
#[derive(Debug, PartialEq, Eq)]
pub enum GazetteerError {
    /// The token names neither a known country nor a known ISO code.
    UnresolvedCountry(String),
}

/// Country names and ISO codes, both lower-cased, in both directions.
pub struct CountryMaps {
    name_to_iso: StrMap,
    iso_to_name: StrMap,
}

/// The canonical (code, name) pair for a lower-cased token: a known code
/// first, then a known name.
pub open spec fn resolve_spec(
    name_to_iso: Map<Seq<char>, Seq<char>>,
    iso_to_name: Map<Seq<char>, Seq<char>>,
    t: Seq<char>,
) -> Option<(Seq<char>, Seq<char>)> {
    if iso_to_name.contains_key(t) {
        Some((t, iso_to_name[t]))
    } else if name_to_iso.contains_key(t) {
        Some((name_to_iso[t], t))
    } else {
        None
    }
}

impl CountryMaps {
    pub closed spec fn wf(&self) -> bool {
        self.name_to_iso.wf() && self.iso_to_name.wf()
    }

    /// Lower-cased name to lower-cased code.
    pub closed spec fn names(&self) -> Map<Seq<char>, Seq<char>> {
        self.name_to_iso@
    }

    /// Lower-cased code to lower-cased name.
    pub closed spec fn isos(&self) -> Map<Seq<char>, Seq<char>> {
        self.iso_to_name@
    }

    /// What a token resolves to.
    pub open spec fn resolves_to(&self, token: Seq<char>) -> Option<(Seq<char>, Seq<char>)> {
        resolve_spec(self.names(), self.isos(), lower_of(token))
    }

    pub fn new() -> (r: CountryMaps)
        ensures
            r.wf(),
            r.names() == Map::<Seq<char>, Seq<char>>::empty(),
            r.isos() == Map::<Seq<char>, Seq<char>>::empty(),
    {
        CountryMaps { name_to_iso: StrMap::new(), iso_to_name: StrMap::new() }
    }

    /// Registers a country in both directions, lower-cased.
    pub fn add_country(&mut self, name: String, iso: String)
        requires
            old(self).wf(),
        ensures
            final(self).wf(),
            final(self).names() == old(self).names().insert(lower_of(name@), lower_of(iso@)),
            final(self).isos() == old(self).isos().insert(lower_of(iso@), lower_of(name@)),
    {
        let name = to_lower(name.as_str());
        let iso = to_lower(iso.as_str());
        self.name_to_iso.insert(name.clone(), iso.clone());
        self.iso_to_name.insert(iso, name);
    }

    /// The code registered for a lower-cased name.
    pub fn get_iso(&self, name: &str) -> (r: Option<&String>)
        requires
            self.wf(),
        ensures
            r is None <==> !self.names().contains_key(name@),
            r matches Some(v) ==> v@ == self.names()[name@],
    {
        self.name_to_iso.get(name)
    }

    /// The name registered for a lower-cased code.
    pub fn get_name(&self, iso: &str) -> (r: Option<&String>)
        requires
            self.wf(),
        ensures
            r is None <==> !self.isos().contains_key(iso@),
            r matches Some(v) ==> v@ == self.isos()[iso@],
    {
        self.iso_to_name.get(iso)
    }

    /// Resolves a name or an ISO code, in any case, to its (code, name) pair.
    pub fn resolve_country(&self, name_or_iso: &str) -> (r: Option<(String, String)>)
        requires
            self.wf(),
        ensures
            r is None <==> self.resolves_to(name_or_iso@) is None,
            r matches Some(p) ==> self.resolves_to(name_or_iso@) == Some((p.0@, p.1@)),
    {
        let token = to_lower(name_or_iso);
        match self.get_name(token.as_str()) {
            Some(name) => Some((token.clone(), name.clone())),
            None => match self.get_iso(token.as_str()) {
                Some(iso) => Some((iso.clone(), token.clone())),
                None => None,
            },
        }
    }
}

/// The name-to-code mapping that registering `rows` in order builds.
pub open spec fn names_of_rows(rows: Seq<CountryInfo>) -> Map<Seq<char>, Seq<char>>
    decreases rows.len(),
{
    if rows.len() == 0 {
        Map::empty()
    } else {
        let last = rows.last();
        names_of_rows(rows.drop_last()).insert(lower_of(last.country@), lower_of(last.iso@))
    }
}

/// The code-to-name mapping that registering `rows` in order builds.
pub open spec fn isos_of_rows(rows: Seq<CountryInfo>) -> Map<Seq<char>, Seq<char>>
    decreases rows.len(),
{
    if rows.len() == 0 {
        Map::empty()
    } else {
        let last = rows.last();
        isos_of_rows(rows.drop_last()).insert(lower_of(last.iso@), lower_of(last.country@))
    }
}

/// What `token` resolves to against the country list `rows`.
pub open spec fn resolve_in_rows(rows: Seq<CountryInfo>, token: Seq<char>) -> Option<(Seq<char>, Seq<char>)> {
    resolve_spec(names_of_rows(rows), isos_of_rows(rows), lower_of(token))
}

/// Indexes every row of the country list and resolves `country` against it,
/// giving the code and the storage form of the name (spaces as underscores).
pub fn get_country_info(countries: &Vec<CountryInfo>, country: &str) -> (r: Result<(String, String), GazetteerError>)
    ensures
        r is Err <==> resolve_in_rows(countries@, country@) is None,
        r matches Err(GazetteerError::UnresolvedCountry(t)) ==> t@ == country@,
        r matches Ok(p) ==> resolve_in_rows(countries@, country@) matches Some(q)
            && p.0@ == q.0 && p.1@ == underscored(q.1),
{
    let mut maps = CountryMaps::new();
    let mut i: usize = 0;
    while i < countries.len()
        invariant
            maps.wf(),
            i <= countries@.len(),
            maps.names() == names_of_rows(countries@.take(i as int)),
            maps.isos() == isos_of_rows(countries@.take(i as int)),
        decreases countries@.len() - i,
    {
        assert(countries@.take(i as int + 1).drop_last() == countries@.take(i as int));
        maps.add_country(countries[i].country.clone(), countries[i].iso.clone());
        i = i + 1;
    }
    assert(countries@.take(i as int) == countries@);
    match maps.resolve_country(country) {
        Some((iso, name)) => Ok((iso, underscore_spaces(name.as_str()))),
        None => Err(GazetteerError::UnresolvedCountry(country.to_string())),
    }
}


/// A token resolves by its lower-cased form alone: tokens that differ only in
/// case resolve to the same (code, name) pair, and a token that is a
/// registered code or name, in any case, resolves.
pub proof fn law_resolve_ignores_case(c: CountryMaps, t1: Seq<char>, t2: Seq<char>)
    requires
        c.wf(),
        lower_of(t1) == lower_of(t2),
    ensures
        c.resolves_to(t1) == c.resolves_to(t2),
        c.isos().contains_key(lower_of(t1)) ==> c.resolves_to(t1) == Some((lower_of(t1), c.isos()[lower_of(t1)])),
        !c.isos().contains_key(lower_of(t1)) && c.names().contains_key(lower_of(t1))
            ==> c.resolves_to(t1) == Some((c.names()[lower_of(t1)], lower_of(t1))),
{
}

/// A token that is neither a registered code nor a registered name, in any
/// case, does not resolve.
pub proof fn law_unknown_token_unresolved(c: CountryMaps, t: Seq<char>)
    requires
        c.wf(),
        !c.isos().contains_key(lower_of(t)),
        !c.names().contains_key(lower_of(t)),
    ensures
        c.resolves_to(t) is None,
{
}

} // verus!
