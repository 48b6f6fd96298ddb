//! Binding requested city names to place records of one country.
use vstd::prelude::*;
use crate::text::{eq_ignore_ascii_case, eq_ignore_ascii_case_spec, lower_of, to_lower};

verus! {

/// A latitude and a longitude in degrees, each held as the 64-bit pattern of
/// its binary floating-point value, so that it is stored exactly as read.
#[derive(Clone, Copy, Debug, PartialEq, Eq, Structural)]
pub struct Coordinates {
    pub lat_bits: u64,
    pub lon_bits: u64,
}

/// One place record of the reference dataset, reduced to what matching and
/// storing read.
#[derive(Clone, Debug)]
pub struct Geoname {
    pub geonameid: i64,
    pub name: String,
    pub asciiname: Option<String>,
    pub country_code: Option<String>,
    pub coordinates: Coordinates,
}

/// The kind of a place record.
#[derive(Clone, Copy, Debug, PartialEq, Eq, Structural, Hash)]
pub enum FeatureClass {
    /// Country, state, region.
    A,
    /// Stream, lake.
    H,
    /// Park, area.
    L,
    /// City, village.
    P,
    /// Road, railroad.
    R,
    /// Spot, building, farm.
    S,
    /// Mountain, hill, rock.
    T,
    /// Undersea.
    U,
    /// Forest, heath.
    V,
}

/// The one-letter code of a feature class.
pub open spec fn feature_symbol(c: FeatureClass) -> Seq<char> {
    match c {
        FeatureClass::A => seq!['A'],
        FeatureClass::H => seq!['H'],
        FeatureClass::L => seq!['L'],
        FeatureClass::P => seq!['P'],
        FeatureClass::R => seq!['R'],
        FeatureClass::S => seq!['S'],
        FeatureClass::T => seq!['T'],
        FeatureClass::U => seq!['U'],
        FeatureClass::V => seq!['V'],
    }
}

impl FeatureClass {
    /// The class's one-letter code, as the reference dataset writes it.
    pub fn symbol(&self) -> (r: &'static str)
        ensures
            r@ == feature_symbol(*self),
    {
        match self {
            FeatureClass::A => {
                proof { reveal_strlit("A"); }
                "A"
            },
            FeatureClass::H => {
                proof { reveal_strlit("H"); }
                "H"
            },
            FeatureClass::L => {
                proof { reveal_strlit("L"); }
                "L"
            },
            FeatureClass::P => {
                proof { reveal_strlit("P"); }
                "P"
            },
            FeatureClass::R => {
                proof { reveal_strlit("R"); }
                "R"
            },
            FeatureClass::S => {
                proof { reveal_strlit("S"); }
                "S"
            },
            FeatureClass::T => {
                proof { reveal_strlit("T"); }
                "T"
            },
            FeatureClass::U => {
                proof { reveal_strlit("U"); }
                "U"
            },
            FeatureClass::V => {
                proof { reveal_strlit("V"); }
                "V"
            },
        }
    }
}

/// A requested name as first written, its lower-cased key, and the position
/// of the place record bound to it, if any.
#[derive(Clone, Debug)]
pub struct CityMatch {
    pub requested: String,
    pub key: String,
    pub place: Option<usize>,
}

/// Each requested name lower-cased.
pub open spec fn lowered(names: Seq<String>) -> Seq<Seq<char>> {
    names.map_values(|n: String| lower_of(n@))
}

/// The distinct values of `s`, each at its first occurrence.
pub open spec fn dedup(s: Seq<Seq<char>>) -> Seq<Seq<char>>
    decreases s.len(),
{
    if s.len() == 0 {
        Seq::empty()
    } else {
        let d = dedup(s.drop_last());
        if d.contains(s.last()) {
            d
        } else {
            d.push(s.last())
        }
    }
}

/// The slots of a request: its lower-cased names, duplicates collapsed.
pub open spec fn request_keys(names: Seq<String>) -> Seq<Seq<char>> {
    dedup(lowered(names))
}

pub open spec fn no_duplicates(s: Seq<Seq<char>>) -> bool {
    forall|i: int, j: int| 0 <= i < s.len() && 0 <= j < s.len() && s[i] == s[j] ==> i == j
}

/// The record's country code equals `code` up to ASCII case.
pub open spec fn in_country(p: Geoname, code: Seq<char>) -> bool {
    p.country_code matches Some(c) && eq_ignore_ascii_case_spec(c@, code)
}

/// Some slot for key `k` is still unbound.
pub open spec fn open_slot(keys: Seq<Seq<char>>, st: Seq<Option<int>>, k: Seq<char>) -> bool {
    exists|s: int| 0 <= s < keys.len() && keys[s] == k && st[s] is None
}

/// The unbound slot for key `k` bound to record `idx`.
pub open spec fn bind(keys: Seq<Seq<char>>, st: Seq<Option<int>>, k: Seq<char>, idx: int) -> Seq<Option<int>> {
    Seq::new(st.len(), |s: int| if keys[s] == k && st[s] is None { Some(idx) } else { st[s] })
}

/// The bindings after looking at record `idx`: its primary name, lower-cased,
/// binds an open slot; failing that, its ASCII name does.
pub open spec fn step(keys: Seq<Seq<char>>, st: Seq<Option<int>>, p: Geoname, idx: int, code: Seq<char>) -> Seq<Option<int>> {
    let primary = lower_of(p.name@);
    if !in_country(p, code) {
        st
    } else if open_slot(keys, st, primary) {
        bind(keys, st, primary, idx)
    } else {
        match p.asciiname {
            Some(a) => if open_slot(keys, st, lower_of(a@)) {
                bind(keys, st, lower_of(a@), idx)
            } else {
                st
            },
            None => st,
        }
    }
}

/// The bindings after the first `n` records, in dataset order.
pub open spec fn scan(keys: Seq<Seq<char>>, places: Seq<Geoname>, code: Seq<char>, n: nat) -> Seq<Option<int>>
    decreases n,
{
    if n == 0 {
        Seq::new(keys.len(), |s: int| None)
    } else {
        step(keys, scan(keys, places, code, (n - 1) as nat), places[n - 1], n - 1, code)
    }
}

/// The final binding of each slot of the request `names`.
pub open spec fn bindings(names: Seq<String>, places: Seq<Geoname>, code: Seq<char>) -> Seq<Option<int>> {
    scan(request_keys(names), places, code, places.len())
}

/// Record `p` answers to key `k`, by its primary or its ASCII name.
pub open spec fn answers_to(p: Geoname, k: Seq<char>) -> bool {
    lower_of(p.name@) == k || (p.asciiname matches Some(a) && lower_of(a@) == k)
}

pub open spec fn widen_one(o: Option<usize>) -> Option<int> {
    match o {
        Some(v) => Some(v as int),
        None => None,
    }
}

pub open spec fn widen(st: Seq<Option<usize>>) -> Seq<Option<int>> {
    st.map_values(|o: Option<usize>| widen_one(o))
}

pub open spec fn key_views(keys: Seq<String>) -> Seq<Seq<char>> {
    keys.map_values(|k: String| k@)
}

/// The keys of `dedup(s)` are distinct, are those of `s`, and hold each of its items.
pub proof fn lemma_dedup(s: Seq<Seq<char>>)
    ensures
        no_duplicates(dedup(s)),
        forall|i: int| 0 <= i < s.len() ==> dedup(s).contains(#[trigger] s[i]),
        forall|x: Seq<char>| #[trigger] dedup(s).contains(x) ==> s.contains(x),
    decreases s.len(),
{
    if s.len() > 0 {
        let t = s.drop_last();
        lemma_dedup(t);
        let d = dedup(t);
        assert forall|i: int| 0 <= i < s.len() implies dedup(s).contains(#[trigger] s[i]) by {
            if i < s.len() - 1 {
                assert(t[i] == s[i]);
                let j = choose|j: int| 0 <= j < d.len() && d[j] == t[i];
                if !d.contains(s.last()) {
                    assert(dedup(s)[j] == s[i]);
                }
            } else if !d.contains(s.last()) {
                assert(dedup(s)[d.len() as int] == s[i]);
            }
        }
        assert forall|x: Seq<char>| dedup(s).contains(x) implies s.contains(x) by {
            if d.contains(x) {
                assert(t.contains(x));
                let j = choose|j: int| 0 <= j < t.len() && t[j] == x;
                assert(s[j] == x);
            } else {
                assert(s[s.len() - 1] == x);
            }
        }
    }
}

/// Bindings keep their length, and a bound slot holds an earlier record of
/// the country that answers to the slot's key.
pub proof fn lemma_scan_sound(keys: Seq<Seq<char>>, places: Seq<Geoname>, code: Seq<char>, n: nat)
    requires
        n <= places.len(),
    ensures
        scan(keys, places, code, n).len() == keys.len(),
        forall|s: int| 0 <= s < keys.len() && #[trigger] scan(keys, places, code, n)[s] is Some ==> {
            let p = scan(keys, places, code, n)[s]->Some_0;
            &&& 0 <= p < n
            &&& in_country(places[p], code)
            &&& answers_to(places[p], keys[s])
        },
    decreases n,
{
    if n > 0 {
        lemma_scan_sound(keys, places, code, (n - 1) as nat);
    }
}

/// A bound slot stays bound to the same record.
pub proof fn lemma_scan_stable(keys: Seq<Seq<char>>, places: Seq<Geoname>, code: Seq<char>, n: nat, m: nat, s: int)
    requires
        n <= m <= places.len(),
        0 <= s < keys.len(),
        scan(keys, places, code, n)[s] is Some,
    ensures
        scan(keys, places, code, m)[s] == scan(keys, places, code, n)[s],
    decreases m - n,
{
    if m > n {
        lemma_scan_stable(keys, places, code, n, (m - 1) as nat, s);
        lemma_scan_sound(keys, places, code, (m - 1) as nat);
    }
}

/// Once every slot is bound, later records change nothing: the scan may stop.
pub proof fn lemma_scan_settled(keys: Seq<Seq<char>>, places: Seq<Geoname>, code: Seq<char>, n: nat, m: nat)
    requires
        n <= m <= places.len(),
        forall|s: int| 0 <= s < keys.len() ==> (#[trigger] scan(keys, places, code, n)[s]) is Some,
    ensures
        scan(keys, places, code, m) == scan(keys, places, code, n),
    decreases m - n,
{
    if m > n {
        lemma_scan_settled(keys, places, code, n, (m - 1) as nat);
        let st = scan(keys, places, code, n);
        lemma_scan_sound(keys, places, code, n);
        assert forall|k: Seq<char>| !open_slot(keys, st, k) by {}
    }
}

/// A record of the country whose primary name gives key `keys[s]` leaves that
/// slot bound to itself or to an earlier record: later records with the same
/// name are ignored.
pub proof fn lemma_first_primary_wins(keys: Seq<Seq<char>>, places: Seq<Geoname>, code: Seq<char>, n: nat, i: int, s: int)
    requires
        n <= places.len(),
        0 <= i < n,
        0 <= s < keys.len(),
        in_country(places[i], code),
        lower_of(places[i].name@) == keys[s],
    ensures
        scan(keys, places, code, n)[s] matches Some(p) && p <= i,
{
    let before = scan(keys, places, code, i as nat);
    lemma_scan_sound(keys, places, code, i as nat);
    lemma_scan_sound(keys, places, code, (i + 1) as nat);
    if before[s] is None {
        assert(open_slot(keys, before, keys[s]));
        assert(scan(keys, places, code, (i + 1) as nat)[s] == Some(i));
    }
    lemma_scan_stable(keys, places, code, (i + 1) as nat, n, s);
}


/// The position of an unbound slot for key `k`.
fn find_open(keys: &Vec<String>, st: &Vec<Option<usize>>, k: &String) -> (r: Option<usize>)
    requires
        keys@.len() == st@.len(),
    ensures
        r is None <==> !open_slot(key_views(keys@), widen(st@), k@),
        r matches Some(s) ==> s < keys@.len() && keys@[s as int]@ == k@ && st@[s as int] is None,
{
    let mut s: usize = 0;
    while s < keys.len()
        invariant
            keys@.len() == st@.len(),
            s <= keys@.len(),
            forall|t: int| 0 <= t < s ==> !(keys@[t]@ == k@ && st@[t] is None),
        decreases keys@.len() - s,
    {
        if keys[s].eq(k) && st[s].is_none() {
            proof {
                assert(key_views(keys@)[s as int] == k@ && widen(st@)[s as int] is None);
            }
            return Some(s);
        }
        s = s + 1;
    }
    proof {
        if open_slot(key_views(keys@), widen(st@), k@) {
            let t = choose|t: int| 0 <= t < keys@.len() && key_views(keys@)[t] == k@ && widen(st@)[t] is None;
            assert(keys@[t]@ == k@ && st@[t] is None);
        }
    }
    None
}

/// Every slot is bound.
fn all_bound(st: &Vec<Option<usize>>) -> (r: bool)
    ensures
        r == forall|s: int| 0 <= s < st@.len() ==> (#[trigger] st@[s]) is Some,
{
    let mut s: usize = 0;
    while s < st.len()
        invariant
            s <= st@.len(),
            forall|t: int| 0 <= t < s ==> (#[trigger] st@[t]) is Some,
        decreases st@.len() - s,
    {
        if st[s].is_none() {
            return false;
        }
        s = s + 1;
    }
    true
}

/// Binds the open slot `s` for key `k` to record `idx`.
fn bind_slot(keys: &Vec<String>, st: &mut Vec<Option<usize>>, k: &String, s: usize, idx: usize)
    requires
        keys@.len() == old(st)@.len(),
        no_duplicates(key_views(keys@)),
        s < keys@.len(),
        keys@[s as int]@ == k@,
        old(st)@[s as int] is None,
    ensures
        final(st)@.len() == old(st)@.len(),
        widen(final(st)@) == bind(key_views(keys@), widen(old(st)@), k@, idx as int),
{
    st.set(s, Some(idx));
    proof {
        let kv = key_views(keys@);
        assert forall|t: int| 0 <= t < keys@.len() && kv[t] == k@ implies t == s by {
            assert(kv[s as int] == k@);
        }
        assert(widen(st@) =~= bind(kv, widen(old(st)@), k@, idx as int));
    }
}

/// Binds each requested name, lower-cased and with duplicates collapsed, to
/// the first record of country `country_iso` (any ASCII case) that answers to
/// it by primary name or, failing that, by ASCII name; a record binds at most
/// one slot. The slots keep the order of the request.
pub fn match_cities(names: &[String], country_iso: &str, places: &Vec<Geoname>) -> (r: Vec<CityMatch>)
    ensures
        r@.len() == request_keys(names@).len(),
        forall|s: int| 0 <= s < r@.len() ==> {
            &&& #[trigger] r@[s].key@ == request_keys(names@)[s]
            &&& lower_of(r@[s].requested@) == r@[s].key@
            &&& exists|i: int| 0 <= i < names@.len() && names@[i]@ == r@[s].requested@
            &&& widen_one(r@[s].place) == bindings(names@, places@, country_iso@)[s]
        },
        forall|s: int| 0 <= s < r@.len() && #[trigger] r@[s].place is Some ==> {
            let p = r@[s].place->Some_0 as int;
            &&& p < places@.len()
            &&& in_country(places@[p], country_iso@)
            &&& answers_to(places@[p], r@[s].key@)
        },
{
    let ghost lw = lowered(names@);
    let mut keys: Vec<String> = Vec::new();
    let mut requested: Vec<String> = Vec::new();
    let mut i: usize = 0;
    while i < names.len()
        invariant
            i <= names@.len(),
            lw == lowered(names@),
            key_views(keys@) == dedup(lw.take(i as int)),
            requested@.len() == keys@.len(),
            forall|t: int| 0 <= t < keys@.len() ==> {
                &&& lower_of(#[trigger] requested@[t]@) == keys@[t]@
                &&& exists|j: int| 0 <= j < names@.len() && names@[j]@ == requested@[t]@
            },
        decreases names@.len() - i,
    {
        let k = to_lower(names[i].as_str());
        let ghost before = key_views(keys@);
        proof {
            assert(lw.take(i as int + 1).drop_last() =~= lw.take(i as int));
            assert(lw.take(i as int + 1).last() == k@);
        }
        let mut j: usize = 0;
        let mut seen = false;
        while j < keys.len()
            invariant
                j <= keys@.len(),
                key_views(keys@) == before,
                seen ==> before.contains(k@),
                !seen ==> forall|t: int| 0 <= t < j ==> before[t] != k@,
            decreases keys@.len() - j,
        {
            if keys[j].eq(&k) {
                seen = true;
                proof {
                    assert(before[j as int] == k@);
                }
            }
            j = j + 1;
        }
        if !seen {
            requested.push(names[i].clone());
            assert(names@[i as int]@ == requested@[requested@.len() - 1]@);
            keys.push(k);
            proof {
                assert(key_views(keys@) =~= before.push(k@));
            }
        }
        i = i + 1;
    }
    proof {
        assert(lw.take(i as int) =~= lw);
        lemma_dedup(lw);
    }
    let ghost kv = key_views(keys@);
    let ghost code = country_iso@;
    let mut st: Vec<Option<usize>> = Vec::new();
    let mut s: usize = 0;
    while s < keys.len()
        invariant
            s <= keys@.len(),
            st@.len() == s,
            forall|t: int| 0 <= t < s ==> st@[t] is None,
        decreases keys@.len() - s,
    {
        st.push(None);
        s = s + 1;
    }
    proof {
        assert(widen(st@) =~= scan(kv, places@, code, 0));
    }
    let mut idx: usize = 0;
    while idx < places.len()
        invariant
            idx <= places@.len(),
            kv == key_views(keys@),
            kv == request_keys(names@),
            no_duplicates(kv),
            st@.len() == keys@.len(),
            code == country_iso@,
            widen(st@) == scan(kv, places@, code, idx as nat),
        ensures
            widen(st@) == scan(kv, places@, code, places@.len()),
            st@.len() == keys@.len(),
            kv == request_keys(names@),
            kv == key_views(keys@),
            code == country_iso@,
        decreases places@.len() - idx,
    {
        let place = &places[idx];
        let mut newly_bound = false;
        let in_target = match &place.country_code {
            Some(c) => eq_ignore_ascii_case(c.as_str(), country_iso),
            None => false,
        };
        if in_target {
            let primary = to_lower(place.name.as_str());
            match find_open(&keys, &st, &primary) {
                Some(slot) => {
                    bind_slot(&keys, &mut st, &primary, slot, idx);
                    newly_bound = true;
                },
                None => {
                    match &place.asciiname {
                        Some(a) => {
                            let alt = to_lower(a.as_str());
                            match find_open(&keys, &st, &alt) {
                                Some(slot) => {
                                    bind_slot(&keys, &mut st, &alt, slot, idx);
                                    newly_bound = true;
                                },
                                None => {},
                            }
                        },
                        None => {},
                    }
                },
            }
        }
        idx = idx + 1;
        if newly_bound && all_bound(&st) {
            proof {
                lemma_scan_settled(kv, places@, code, idx as nat, places@.len());
            }
            break;
        }
    }
    proof {
        lemma_scan_sound(kv, places@, code, places@.len());
    }
    let mut r: Vec<CityMatch> = Vec::new();
    let mut s: usize = 0;
    while s < keys.len()
        invariant
            s <= keys@.len(),
            r@.len() == s,
            kv == key_views(keys@),
            kv == request_keys(names@),
            st@.len() == keys@.len(),
            code == country_iso@,
            widen(st@) == bindings(names@, places@, country_iso@),
            requested@.len() == keys@.len(),
            forall|t: int| 0 <= t < keys@.len() ==> {
                &&& lower_of(#[trigger] requested@[t]@) == keys@[t]@
                &&& exists|j: int| 0 <= j < names@.len() && names@[j]@ == requested@[t]@
            },
            forall|t: int| 0 <= t < s ==> {
                &&& #[trigger] r@[t].key@ == kv[t]
                &&& r@[t].place == st@[t]
                &&& r@[t].requested@ == requested@[t]@
            },
        decreases keys@.len() - s,
    {
        r.push(CityMatch { requested: requested[s].clone(), key: keys[s].clone(), place: st[s] });
        s = s + 1;
    }
    proof {
        assert forall|t: int| 0 <= t < r@.len() implies lower_of(#[trigger] r@[t].requested@) == r@[t].key@
            && exists|i: int| 0 <= i < names@.len() && names@[i]@ == r@[t].requested@ by {
            assert(r@[t].key@ == kv[t]);
            assert(lower_of(requested@[t]@) == keys@[t]@);
        }
        assert forall|t: int| 0 <= t < r@.len() && #[trigger] r@[t].place is Some implies {
            let p = r@[t].place->Some_0 as int;
            &&& p < places@.len()
            &&& in_country(places@[p], country_iso@)
            &&& answers_to(places@[p], r@[t].key@)
        } by {
            assert(r@[t].key@ == kv[t]);
            assert(widen(st@)[t] == widen_one(st@[t]));
            assert(scan(kv, places@, code, places@.len())[t] is Some);
        }
    }
    r
}


/// Requested names that are equal once lower-cased share one slot, and so
/// one binding.
pub proof fn law_duplicate_names_share_slot(names: Seq<String>, i: int, j: int)
    requires
        0 <= i < names.len(),
        0 <= j < names.len(),
        lower_of(names[i]@) == lower_of(names[j]@),
    ensures
        exists|s: int| 0 <= s < request_keys(names).len() && request_keys(names)[s] == lower_of(names[i]@),
        forall|s: int, t: int|
            0 <= s < request_keys(names).len() && 0 <= t < request_keys(names).len()
                && request_keys(names)[s] == lower_of(names[i]@)
                && request_keys(names)[t] == lower_of(names[j]@) ==> s == t,
{
    let lw = lowered(names);
    lemma_dedup(lw);
    assert(lw[i] == lower_of(names[i]@));
    assert(request_keys(names).contains(lw[i]));
}

/// Of two records of the country with the same primary name, the later one is
/// never bound to that name's slot: the earlier one, or one before it, is.
pub proof fn law_first_record_wins(names: Seq<String>, places: Seq<Geoname>, code: Seq<char>, i: int, j: int, s: int)
    requires
        0 <= i < j < places.len(),
        0 <= s < request_keys(names).len(),
        in_country(places[i], code),
        in_country(places[j], code),
        lower_of(places[i].name@) == request_keys(names)[s],
        lower_of(places[j].name@) == request_keys(names)[s],
    ensures
        bindings(names, places, code)[s] matches Some(p) && p <= i,
        bindings(names, places, code)[s] != Some(j),
{
    lemma_first_primary_wins(request_keys(names), places, code, places.len(), i, s);
}

} // verus!
