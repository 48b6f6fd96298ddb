//! The persisted collections: the set of countries and, per country, its
//! cities with their coordinates. Both grow by merging and never overwrite.
use vstd::prelude::*;
use crate::city_matcher::{key_views, no_duplicates, Coordinates};

verus! {

/// The set of the strings in `s`.
pub open spec fn set_of(s: Seq<Seq<char>>) -> Set<Seq<char>> {
    Set::new(|n: Seq<char>| s.contains(n))
}

/// Appending `x` to a sequence adds `x` to its set.
pub proof fn lemma_set_of_push(s: Seq<Seq<char>>, x: Seq<char>)
    ensures
        set_of(s.push(x)) == set_of(s).insert(x),
{
    assert forall|n: Seq<char>| #[trigger] set_of(s.push(x)).contains(n) <==> set_of(s).insert(x).contains(n) by {
        if s.contains(n) {
            let j = choose|j: int| 0 <= j < s.len() && s[j] == n;
            assert(s.push(x)[j] == n);
        }
        if n == x {
            assert(s.push(x)[s.len() as int] == x);
        }
        if s.push(x).contains(n) {
            let j = choose|j: int| 0 <= j < s.len() + 1 && s.push(x)[j] == n;
            if j < s.len() {
                assert(s[j] == n);
            }
        }
    }
    assert(set_of(s.push(x)) =~= set_of(s).insert(x));
}

/// The set of canonical country names.
pub struct Countries {
    countries: Vec<String>,
}

impl View for Countries {
    type V = Set<Seq<char>>;

    closed spec fn view(&self) -> Set<Seq<char>> {
        set_of(key_views(self.countries@))
    }
}

impl Countries {
    /// Each name is held once.
    pub closed spec fn wf(&self) -> bool {
        no_duplicates(key_views(self.countries@))
    }

    /// The number of names, which is also the length of the list that is saved.
    pub closed spec fn len(&self) -> nat {
        self.countries@.len()
    }

    /// The names in the order `names` hands them out.
    pub closed spec fn name_seq(&self) -> Seq<Seq<char>> {
        key_views(self.countries@)
    }

    pub fn new() -> (r: Countries)
        ensures
            r.wf(),
            r@ == Set::<Seq<char>>::empty(),
            r.len() == 0,
    {
        let r = Countries { countries: Vec::new() };
        assert(r@ =~= Set::<Seq<char>>::empty());
        r
    }

    /// Whether `country` is in the set.
    pub fn contains(&self, country: &str) -> (r: bool)
        requires
            self.wf(),
        ensures
            r == self@.contains(country@),
    {
        let key: String = country.to_owned();
        let mut i: usize = 0;
        while i < self.countries.len()
            invariant
                i <= self.countries@.len(),
                key@ == country@,
                forall|j: int| 0 <= j < i ==> self.countries@[j]@ != country@,
            decreases self.countries@.len() - i,
        {
            if self.countries[i].eq(&key) {
                assert(key_views(self.countries@)[i as int] == country@);
                return true;
            }
            i = i + 1;
        }
        proof {
            if key_views(self.countries@).contains(country@) {
                let j = choose|j: int| 0 <= j < self.countries@.len() && key_views(self.countries@)[j] == country@;
                assert(self.countries@[j]@ == country@);
            }
        }
        false
    }

    /// Inserts `country`; true when it was not there before. A name already
    /// present leaves the set, and its size, unchanged.
    pub fn add(&mut self, country: &str) -> (r: bool)
        requires
            old(self).wf(),
        ensures
            final(self).wf(),
            r == !old(self)@.contains(country@),
            final(self)@ == old(self)@.insert(country@),
            final(self).len() == old(self).len() + if r { 1nat } else { 0nat },
    {
        if self.contains(country) {
            assert(self@ =~= old(self)@.insert(country@));
            false
        } else {
            let ghost before = key_views(self.countries@);
            self.countries.push(country.to_owned());
            assert(key_views(self.countries@) =~= before.push(country@));
            proof {
                lemma_set_of_push(before, country@);
            }
            assert(no_duplicates(key_views(self.countries@))) by {
                assert(!before.contains(country@));
                assert forall|i: int, j: int| 0 <= i < before.len() + 1 && 0 <= j < before.len() + 1
                    && key_views(self.countries@)[i] == key_views(self.countries@)[j] implies i == j by {
                    if i < before.len() && j == before.len() {
                        assert(before[i] == country@);
                    }
                    if j < before.len() && i == before.len() {
                        assert(before[j] == country@);
                    }
                }
            }
            true
        }
    }

    /// The names, each once, for saving.
    pub fn names(&self) -> (r: Vec<String>)
        requires
            self.wf(),
        ensures
            key_views(r@) == self.name_seq(),
            r@.len() == self.len(),
    {
        let mut r: Vec<String> = Vec::new();
        let mut i: usize = 0;
        while i < self.countries.len()
            invariant
                i <= self.countries@.len(),
                key_views(r@) == key_views(self.countries@).take(i as int),
            decreases self.countries@.len() - i,
        {
            let ghost prev = key_views(r@);
            r.push(self.countries[i].clone());
            assert(key_views(r@) =~= prev.push(self.countries@[i as int]@));
            assert(key_views(r@) =~= key_views(self.countries@).take(i as int + 1));
            i = i + 1;
        }
        assert(key_views(self.countries@).take(i as int) =~= key_views(self.countries@));
        r
    }

    /// The set of the given names; a repeated name counts once.
    pub fn from_names(names: &Vec<String>) -> (r: Countries)
        ensures
            r.wf(),
            r@ == set_of(key_views(names@)),
    {
        let mut r = Countries::new();
        let mut i: usize = 0;
        while i < names.len()
            invariant
                i <= names@.len(),
                r.wf(),
                r@ == set_of(key_views(names@).take(i as int)),
            decreases names@.len() - i,
        {
            r.add(names[i].as_str());
            assert(key_views(names@).take(i as int + 1) =~= key_views(names@).take(i as int).push(names@[i as int]@));
            proof {
                lemma_set_of_push(key_views(names@).take(i as int), names@[i as int]@);
            }
            i = i + 1;
        }
        assert(key_views(names@).take(i as int) =~= key_views(names@));
        r
    }
}

/// Saving the names of a set and reading them back gives the same set.
pub proof fn law_countries_round_trip(c: Countries)
    requires
        c.wf(),
    ensures
        set_of(c.name_seq()) == c@,
{
}

/// Adding a name that is already present changes neither the set nor its size:
/// a second `add` of the same name reports false.
pub proof fn law_country_add_idempotent(c: Countries, name: Seq<char>)
    requires
        c.wf(),
    ensures
        c@.insert(name).contains(name),
        c@.insert(name).insert(name) == c@.insert(name),
{
    assert(c@.insert(name).insert(name) =~= c@.insert(name));
}


/// Each (name, coordinates) entry with the name as characters.
pub open spec fn entry_views(e: Seq<(String, Coordinates)>) -> Seq<(Seq<char>, Coordinates)> {
    e.map_values(|p: (String, Coordinates)| (p.0@, p.1))
}

/// The mapping that adding `e` in order to an empty collection builds: the
/// first entry of a name wins.
pub open spec fn map_of_entries(e: Seq<(Seq<char>, Coordinates)>) -> Map<Seq<char>, Coordinates>
    decreases e.len(),
{
    if e.len() == 0 {
        Map::empty()
    } else {
        let m = map_of_entries(e.drop_last());
        if m.contains_key(e.last().0) {
            m
        } else {
            m.insert(e.last().0, e.last().1)
        }
    }
}

pub open spec fn unique_names(e: Seq<(Seq<char>, Coordinates)>) -> bool {
    forall|i: int, j: int| 0 <= i < e.len() && 0 <= j < e.len() && #[trigger] e[i].0 == #[trigger] e[j].0 ==> i == j
}

/// Entries with distinct names build the mapping that holds exactly them.
pub proof fn lemma_map_of_unique(e: Seq<(Seq<char>, Coordinates)>)
    requires
        unique_names(e),
    ensures
        forall|i: int| 0 <= i < e.len() ==> {
            &&& map_of_entries(e).contains_key(#[trigger] e[i].0)
            &&& map_of_entries(e)[e[i].0] == e[i].1
        },
        forall|k: Seq<char>| #[trigger] map_of_entries(e).contains_key(k) ==> exists|i: int| 0 <= i < e.len() && e[i].0 == k,
    decreases e.len(),
{
    if e.len() > 0 {
        let t = e.drop_last();
        assert(unique_names(t)) by {
            assert forall|i: int, j: int| 0 <= i < t.len() && 0 <= j < t.len() && #[trigger] t[i].0 == #[trigger] t[j].0 implies i == j by {
                assert(e[i].0 == e[j].0);
            }
        }
        lemma_map_of_unique(t);
        let last = e.last();
        if map_of_entries(t).contains_key(last.0) {
            let i = choose|i: int| 0 <= i < t.len() && t[i].0 == last.0;
            assert(e[i].0 == e[e.len() - 1].0);
        }
        assert forall|i: int| 0 <= i < e.len() implies {
            &&& map_of_entries(e).contains_key(#[trigger] e[i].0)
            &&& map_of_entries(e)[e[i].0] == e[i].1
        } by {
            if i < e.len() - 1 {
                assert(t[i] == e[i]);
                assert(e[i].0 != e[e.len() - 1].0);
            }
        }
        assert forall|k: Seq<char>| #[trigger] map_of_entries(e).contains_key(k) implies exists|i: int| 0 <= i < e.len() && e[i].0 == k by {
            if map_of_entries(t).contains_key(k) {
                let i = choose|i: int| 0 <= i < t.len() && t[i].0 == k;
                assert(e[i].0 == k);
            } else {
                assert(e[e.len() - 1].0 == k);
            }
        }
    }
}

/// Two lists of entries with distinct names and the same entries build the
/// same collection, whatever their order.
pub proof fn law_cities_order_free(e1: Seq<(Seq<char>, Coordinates)>, e2: Seq<(Seq<char>, Coordinates)>)
    requires
        unique_names(e1),
        unique_names(e2),
        forall|p: (Seq<char>, Coordinates)| e1.contains(p) <==> e2.contains(p),
    ensures
        map_of_entries(e1) == map_of_entries(e2),
{
    lemma_map_of_unique(e1);
    lemma_map_of_unique(e2);
    assert forall|k: Seq<char>| map_of_entries(e1).contains_key(k) implies map_of_entries(e2).contains_key(k)
        && map_of_entries(e2)[k] == map_of_entries(e1)[k] by {
        let i = choose|i: int| 0 <= i < e1.len() && e1[i].0 == k;
        assert(e1.contains(e1[i]));
        let j = choose|j: int| 0 <= j < e2.len() && e2[j] == e1[i];
        assert(e2[j].0 == k);
    }
    assert forall|k: Seq<char>| map_of_entries(e2).contains_key(k) implies map_of_entries(e1).contains_key(k) by {
        let j = choose|j: int| 0 <= j < e2.len() && e2[j].0 == k;
        assert(e2.contains(e2[j]));
        let i = choose|i: int| 0 <= i < e1.len() && e1[i] == e2[j];
        assert(e1[i].0 == k);
    }
    assert(map_of_entries(e1) =~= map_of_entries(e2));
}

/// The cities of one country: each name with its coordinates.
pub struct Cities {
    cities: Vec<(String, Coordinates)>,
    model: Ghost<Map<Seq<char>, Coordinates>>,
}

impl View for Cities {
    type V = Map<Seq<char>, Coordinates>;

    closed spec fn view(&self) -> Map<Seq<char>, Coordinates> {
        self.model@
    }
}

impl Cities {
    /// The entries hold the mapping exactly, each name once.
    pub closed spec fn wf(&self) -> bool {
        &&& unique_names(entry_views(self.cities@))
        &&& forall|i: int|
            0 <= i < self.cities@.len() ==> {
                &&& self.model@.contains_key(#[trigger] self.cities@[i].0@)
                &&& self.model@[self.cities@[i].0@] == self.cities@[i].1
            }
        &&& forall|k: Seq<char>|
            #[trigger] self.model@.contains_key(k) ==> exists|i: int|
                0 <= i < self.cities@.len() && #[trigger] self.cities@[i].0@ == k
    }

    /// The number of cities.
    pub closed spec fn len(&self) -> nat {
        self.cities@.len()
    }

    /// The entries in the order `entries` hands them out.
    pub closed spec fn entry_seq(&self) -> Seq<(Seq<char>, Coordinates)> {
        entry_views(self.cities@)
    }

    pub fn new() -> (r: Cities)
        ensures
            r.wf(),
            r@ == Map::<Seq<char>, Coordinates>::empty(),
            r.len() == 0,
    {
        Cities { cities: Vec::new(), model: Ghost(Map::empty()) }
    }

    /// The coordinates stored under `name`.
    pub fn get(&self, name: &str) -> (r: Option<Coordinates>)
        requires
            self.wf(),
        ensures
            r is None <==> !self@.contains_key(name@),
            r matches Some(c) ==> c == self@[name@],
    {
        let key: String = name.to_owned();
        let mut i: usize = 0;
        while i < self.cities.len()
            invariant
                self.wf(),
                key@ == name@,
                i <= self.cities@.len(),
                forall|j: int| 0 <= j < i ==> self.cities@[j].0@ != name@,
            decreases self.cities@.len() - i,
        {
            if self.cities[i].0.eq(&key) {
                return Some(self.cities[i].1);
            }
            i = i + 1;
        }
        None
    }

    /// Inserts `name` with `coordinates`; true when the name was new. An
    /// existing name keeps its coordinates and nothing changes.
    pub fn add(&mut self, name: String, coordinates: Coordinates) -> (r: bool)
        requires
            old(self).wf(),
        ensures
            final(self).wf(),
            r == !old(self)@.contains_key(name@),
            final(self)@ == if r { old(self)@.insert(name@, coordinates) } else { old(self)@ },
            final(self).len() == old(self).len() + if r { 1nat } else { 0nat },
    {
        match self.get(name.as_str()) {
            Some(_) => false,
            None => {
                let ghost km = name@;
                let ghost before = entry_views(self.cities@);
                self.cities.push((name, coordinates));
                self.model = Ghost(self.model@.insert(km, coordinates));
                proof {
                    let ev = entry_views(self.cities@);
                    assert(ev =~= before.push((km, coordinates)));
                    assert forall|i: int, j: int| 0 <= i < ev.len() && 0 <= j < ev.len() && #[trigger] ev[i].0 == #[trigger] ev[j].0 implies i == j by {
                        if i < before.len() && j == before.len() {
                            assert(old(self).cities@[i].0@ == km);
                        }
                        if j < before.len() && i == before.len() {
                            assert(old(self).cities@[j].0@ == km);
                        }
                        if i < before.len() && j < before.len() {
                            assert(before[i].0 == before[j].0);
                        }
                    }
                    assert forall|k: Seq<char>| #[trigger] self.model@.contains_key(k) implies exists|j: int|
                        0 <= j < self.cities@.len() && #[trigger] self.cities@[j].0@ == k by {
                        if k != km {
                            let j = choose|j: int| 0 <= j < old(self).cities@.len() && #[trigger] old(self).cities@[j].0@ == k;
                            assert(self.cities@[j].0@ == k);
                        } else {
                            assert(self.cities@[self.cities@.len() - 1].0@ == k);
                        }
                    }
                }
                true
            },
        }
    }

    /// The entries, each name once, for saving.
    pub fn entries(&self) -> (r: Vec<(String, Coordinates)>)
        requires
            self.wf(),
        ensures
            entry_views(r@) == self.entry_seq(),
    {
        let mut r: Vec<(String, Coordinates)> = Vec::new();
        let mut i: usize = 0;
        while i < self.cities.len()
            invariant
                i <= self.cities@.len(),
                entry_views(r@) == entry_views(self.cities@).take(i as int),
            decreases self.cities@.len() - i,
        {
            let ghost prev = entry_views(r@);
            r.push((self.cities[i].0.clone(), self.cities[i].1));
            assert(entry_views(r@) =~= prev.push((self.cities@[i as int].0@, self.cities@[i as int].1)));
            assert(entry_views(r@) =~= entry_views(self.cities@).take(i as int + 1));
            i = i + 1;
        }
        assert(entry_views(self.cities@).take(i as int) =~= entry_views(self.cities@));
        r
    }

    /// The collection that adding the entries in order builds.
    pub fn from_entries(entries: &Vec<(String, Coordinates)>) -> (r: Cities)
        ensures
            r.wf(),
            r@ == map_of_entries(entry_views(entries@)),
    {
        let mut r = Cities::new();
        let mut i: usize = 0;
        while i < entries.len()
            invariant
                i <= entries@.len(),
                r.wf(),
                r@ == map_of_entries(entry_views(entries@).take(i as int)),
            decreases entries@.len() - i,
        {
            assert(entry_views(entries@).take(i as int + 1).drop_last() =~= entry_views(entries@).take(i as int));
            r.add(entries[i].0.clone(), entries[i].1);
            i = i + 1;
        }
        assert(entry_views(entries@).take(i as int) =~= entry_views(entries@));
        r
    }
}

/// Saving a collection's entries and adding them back to an empty collection
/// gives the same names with the same coordinates.
pub proof fn law_cities_round_trip(c: Cities)
    requires
        c.wf(),
    ensures
        map_of_entries(c.entry_seq()) == c@,
{
    lemma_map_of_unique(c.entry_seq());
    assert forall|k: Seq<char>| c@.contains_key(k) implies map_of_entries(c.entry_seq()).contains_key(k) by {
        let j = choose|j: int| 0 <= j < c.cities@.len() && #[trigger] c.cities@[j].0@ == k;
        assert(c.entry_seq()[j].0 == k);
    }
    assert forall|k: Seq<char>| #[trigger] map_of_entries(c.entry_seq()).contains_key(k) implies c@.contains_key(k)
        && c@[k] == map_of_entries(c.entry_seq())[k] by {
        let i = choose|i: int| 0 <= i < c.entry_seq().len() && c.entry_seq()[i].0 == k;
        assert(c.cities@[i].0@ == k);
    }
    assert(map_of_entries(c.entry_seq()) =~= c@);
}

} // verus!
