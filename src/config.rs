//! Where the reference data comes from and where the gazetteer is stored.
use vstd::prelude::*;
use crate::text::concat;

verus! {

/// The reference dataset's location and the local download directory.
pub struct GeoNames {
    pub base_url: String,
    pub country_info_file: String,
    pub cities_file: String,
    pub download_dir: String,
}

/// Where the gazetteer's own files live.
pub struct Docs {
    pub dir: String,
    pub countries_file: String,
    pub cities_folder: String,
}

pub struct Config {
    pub geonames: GeoNames,
    pub docs: Docs,
}

impl Config {
    /// The address of the country list: the base address followed by its file name.
    pub fn country_info_url(&self) -> (r: String)
        ensures
            r@ == self.geonames.base_url@ + self.geonames.country_info_file@,
    {
        concat(self.geonames.base_url.as_str(), self.geonames.country_info_file.as_str())
    }

    /// The address of the city archive: the base address followed by its file name.
    pub fn cities_url(&self) -> (r: String)
        ensures
            r@ == self.geonames.base_url@ + self.geonames.cities_file@,
    {
        concat(self.geonames.base_url.as_str(), self.geonames.cities_file.as_str())
    }
}

} // verus!
