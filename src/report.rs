//! The lines that tell the user what became of each country and city.
use vstd::prelude::*;
use crate::text::concat;

verus! {

/// "Added country: <name>"
pub fn country_added_message(name: &str) -> (r: String)
    ensures
        r@ == "Added country: "@ + name@,
{
    concat("Added country: ", name)
}

/// "Country '<name>' already exists"
pub fn country_exists_message(name: &str) -> (r: String)
    ensures
        r@ == "Country '"@ + name@ + "' already exists"@,
{
    let a = concat("Country '", name);
    concat(a.as_str(), "' already exists")
}

/// "City '<name>' already exists in country '<country>'"
pub fn city_exists_message(name: &str, country: &str) -> (r: String)
    ensures
        r@ == "City '"@ + name@ + "' already exists in country '"@ + country@ + "'"@,
{
    let a = concat("City '", name);
    let b = concat(a.as_str(), "' already exists in country '");
    let c = concat(b.as_str(), country);
    concat(c.as_str(), "'")
}

/// "City '<name>' not found in country '<country>'"
pub fn city_not_found_message(name: &str, country: &str) -> (r: String)
    ensures
        r@ == "City '"@ + name@ + "' not found in country '"@ + country@ + "'"@,
{
    let a = concat("City '", name);
    let b = concat(a.as_str(), "' not found in country '");
    let c = concat(b.as_str(), country);
    concat(c.as_str(), "'")
}

} // verus!
