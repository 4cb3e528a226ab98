//! The local data store: where downloaded files go, and what a data file's
//! name says about it.

use vstd::prelude::*;
use crate::text::{
    after_last, after_last_spec, concat, lemma_split_nonempty, parse_u32, parse_u32_spec, split,
    split_spec,
};

verus! {

/// `rel` appended to the directory `base` as a path component.
pub open spec fn join_spec(base: Seq<char>, rel: Seq<char>) -> Seq<char> {
    if base.len() == 0 {
        rel
    } else if base.last() == '/' {
        base + rel
    } else {
        base + "/"@ + rel
    }
}

/// `rel` appended to the directory `base` as a path component.
pub fn join_path(base: &str, rel: &str) -> (r: String)
    ensures
        r@ == join_spec(base@, rel@),
{
    let n = base.unicode_len();
    if n == 0 {
        String::from_str(rel)
    } else if base.get_char(n - 1) == '/' {
        concat(base, rel)
    } else {
        let with_slash = concat(base, "/");
        concat(with_slash.as_str(), rel)
    }
}

/// The directory tree that holds the downloaded files and the database.
pub struct DataStore {
    pub root: String,
}

impl DataStore {
    /// A data store rooted at the directory `root`.
    pub fn new(root: String) -> (r: DataStore)
        ensures
            r.root == root,
    {
        DataStore { root }
    }

    /// The directory of the capability files.
    pub fn capability_dir(&self) -> (r: String)
        ensures
            r@ == join_spec(self.root@, "raw/capability"@),
    {
        join_path(self.root.as_str(), "raw/capability")
    }

    /// The directory of the observation data files.
    pub fn rawdata_dir(&self) -> (r: String)
        ensures
            r@ == join_spec(self.root@, "raw/data"@),
    {
        join_path(self.root.as_str(), "raw/data")
    }

    /// The directory of the database.
    pub fn db_dir(&self) -> (r: String)
        ensures
            r@ == join_spec(self.root@, "db"@),
    {
        join_path(self.root.as_str(), "db")
    }
}

/// The `_`-separated fields of the file name of `path`.
pub open spec fn name_fields(path: Seq<char>) -> Seq<Seq<char>> {
    split_spec(after_last_spec(path, '/'), '_')
}

/// The year field of a data file name: the eighth field up to its first `.`.
pub open spec fn year_field(path: Seq<char>) -> Seq<char> {
    split_spec(name_fields(path)[7], '.')[0]
}

/// `path` names a data file: its name has at least eight `_`-separated
/// fields, the fifth a station number and the eighth a year followed by the
/// extension.
pub open spec fn is_data_file_path(path: Seq<char>) -> bool {
    &&& name_fields(path).len() >= 8
    &&& parse_u32_spec(name_fields(path)[4]) is Some
    &&& parse_u32_spec(year_field(path)) is Some
}

/// What the name of a data file says: collection, title, dataset version,
/// county, station number and name, quality-control version and year, as in
/// `midas-open_uk-hourly-weather-obs_dv-202407_aberdeenshire_00144_corgarff-castle-lodge_qcv-1_1997.csv`.
#[derive(Debug)]
pub struct FileProperties {
    pub path: String,
    pub collection_name: String,
    pub title: String,
    pub updated: String,
    pub county_name: String,
    pub station_id: u32,
    pub station_name: String,
    pub qcv: String,
    pub year: u32,
}

impl FileProperties {
    /// The fields of `p` are those that the name of `path` gives.
    pub open spec fn describes(p: FileProperties, path: Seq<char>) -> bool {
        let f = name_fields(path);
        &&& p.path@ == path
        &&& p.collection_name@ == f[0]
        &&& p.title@ == f[1]
        &&& p.updated@ == f[2]
        &&& p.county_name@ == f[3]
        &&& p.station_id == parse_u32_spec(f[4])->0
        &&& p.station_name@ == f[5]
        &&& p.qcv@ == f[6]
        &&& p.year == parse_u32_spec(year_field(path))->0
    }

    /// The properties of the data file at `path`; `None` where its name is
    /// not that of a data file.
    pub fn try_new(path: String) -> (r: Option<FileProperties>)
        ensures
            r is Some <==> is_data_file_path(path@),
            r matches Some(p) ==> FileProperties::describes(p, path@),
    {
        let name = after_last(path.as_str(), '/');
        let parts = split(name.as_str(), '_');
        if parts.len() < 8 {
            return None;
        }
        let station_id = match parse_u32(parts[4].as_str()) {
            Some(v) => v,
            None => return None,
        };
        let year_parts = split(parts[7].as_str(), '.');
        proof {
            lemma_split_nonempty(parts@[7]@, '.');
        }
        let year = match parse_u32(year_parts[0].as_str()) {
            Some(v) => v,
            None => return None,
        };
        Some(FileProperties {
            path,
            collection_name: parts[0].clone(),
            title: parts[1].clone(),
            updated: parts[2].clone(),
            county_name: parts[3].clone(),
            station_id,
            station_name: parts[5].clone(),
            qcv: parts[6].clone(),
            year,
        })
    }

    /// The properties of the data file at `path`, whose name is that of a
    /// data file.
    pub fn new(path: String) -> (r: FileProperties)
        requires
            is_data_file_path(path@),
        ensures
            FileProperties::describes(r, path@),
    {
        FileProperties::try_new(path).unwrap()
    }
}

} // verus!
