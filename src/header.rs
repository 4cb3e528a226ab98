//! The line structure of a data file: metadata lines of the form
//! `key,G,value`, followed by an observation table that starts at its
//! `ob_time` header line and is closed by an `end data` line.

use vstd::prelude::*;
use crate::error::AppError;
use crate::text::{
    index_of, index_of_from, lemma_split_nonempty, opt_view, parse_u32,
    parse_u32_spec, split, split_spec, views,
};

verus! {

/// The line of the observation station's name.
pub const OBSERVATION_STATION_LINE: usize = 10;

/// The line of the historic county name.
pub const HISTORIC_COUNTY_NAME_LINE: usize = 11;

/// The line of the station number.
pub const MIDAS_STATION_ID_LINE: usize = 13;

/// The line of the station's height.
pub const HEIGHT_LINE: usize = 15;

/// The value of the metadata line `row` of `lines` where its key is `key`:
/// the third comma-separated field.
pub open spec fn metadata_value(lines: Seq<Seq<char>>, row: int, key: Seq<char>) -> Option<
    Seq<char>,
> {
    if 0 <= row < lines.len() {
        let parts = split_spec(lines[row], ',');
        if parts[0] == key && parts.len() > 2 {
            Some(parts[2])
        } else {
            None
        }
    } else {
        None
    }
}

/// The comma-separated fields of line `row` of `lines` where its first
/// field is `key`.
pub open spec fn metadata_fields(lines: Seq<Seq<char>>, row: int, key: Seq<char>) -> Option<
    Seq<Seq<char>>,
> {
    if 0 <= row < lines.len() && split_spec(lines[row], ',')[0] == key {
        Some(split_spec(lines[row], ','))
    } else {
        None
    }
}

/// The comma-separated fields of the metadata line `row` where its key is `key`.
pub fn metadata_line(lines: &Vec<String>, row: usize, key: &str) -> (r: Option<Vec<String>>)
    ensures
        match r {
            Some(v) => metadata_fields(views(lines@), row as int, key@) == Some(views(v@)),
            None => metadata_fields(views(lines@), row as int, key@) is None,
        },
{
    if row >= lines.len() {
        return None;
    }
    let parts = split(lines[row].as_str(), ',');
    proof {
        lemma_split_nonempty(lines@[row as int]@, ',');
    }
    let k = String::from_str(key);
    if parts[0] == k {
        Some(parts)
    } else {
        None
    }
}

/// The value of the metadata line `row` where its key is `key`.
pub fn metadata_field(lines: &Vec<String>, row: usize, key: &str) -> (r: Option<String>)
    ensures
        opt_view(r) == metadata_value(views(lines@), row as int, key@),
{
    match metadata_line(lines, row, key) {
        Some(parts) => if parts.len() > 2 {
            Some(parts[2].clone())
        } else {
            None
        },
        None => None,
    }
}

/// The name of the observation station.
pub fn parse_observation_station(lines: &Vec<String>) -> (r: Result<String, AppError>)
    ensures
        match r {
            Ok(v) => metadata_value(views(lines@), OBSERVATION_STATION_LINE as int, "observation_station"@) == Some(v@),
            Err(e) => metadata_value(views(lines@), OBSERVATION_STATION_LINE as int, "observation_station"@) is None
                && e == AppError::CsvObservationStationParsingError,
        },
{
    match metadata_field(lines, OBSERVATION_STATION_LINE, "observation_station") {
        Some(v) => Ok(v),
        None => Err(AppError::CsvObservationStationParsingError),
    }
}

/// The historic county name of the station.
pub fn parse_historic_county_name(lines: &Vec<String>) -> (r: Result<String, AppError>)
    ensures
        match r {
            Ok(v) => metadata_value(views(lines@), HISTORIC_COUNTY_NAME_LINE as int, "historic_county_name"@) == Some(v@),
            Err(e) => metadata_value(views(lines@), HISTORIC_COUNTY_NAME_LINE as int, "historic_county_name"@) is None
                && e == AppError::CsvHistoricCountyNameParsingError,
        },
{
    match metadata_field(lines, HISTORIC_COUNTY_NAME_LINE, "historic_county_name") {
        Some(v) => Ok(v),
        None => Err(AppError::CsvHistoricCountyNameParsingError),
    }
}

/// The number that the metadata line `row` with key `key` holds.
pub open spec fn metadata_number(lines: Seq<Seq<char>>, row: int, key: Seq<char>) -> Option<u32> {
    match metadata_value(lines, row, key) {
        Some(v) => parse_u32_spec(v),
        None => None,
    }
}

/// The station number.
pub fn parse_midas_station_id(lines: &Vec<String>) -> (r: Result<u32, AppError>)
    ensures
        match r {
            Ok(v) => metadata_number(views(lines@), MIDAS_STATION_ID_LINE as int, "midas_station_id"@) == Some(v),
            Err(e) => metadata_number(views(lines@), MIDAS_STATION_ID_LINE as int, "midas_station_id"@) is None
                && e == AppError::CsvMidasStationIdParsingError,
        },
{
    match metadata_field(lines, MIDAS_STATION_ID_LINE, "midas_station_id") {
        Some(v) => match parse_u32(v.as_str()) {
            Some(n) => Ok(n),
            None => Err(AppError::CsvMidasStationIdParsingError),
        },
        None => Err(AppError::CsvMidasStationIdParsingError),
    }
}

/// The height of the station.
pub fn parse_height(lines: &Vec<String>) -> (r: Result<u32, AppError>)
    ensures
        match r {
            Ok(v) => metadata_number(views(lines@), HEIGHT_LINE as int, "height"@) == Some(v),
            Err(e) => metadata_number(views(lines@), HEIGHT_LINE as int, "height"@) is None && e
                == AppError::CsvHeightParsingError,
        },
{
    match metadata_field(lines, HEIGHT_LINE, "height") {
        Some(v) => match parse_u32(v.as_str()) {
            Some(n) => Ok(n),
            None => Err(AppError::CsvHeightParsingError),
        },
        None => Err(AppError::CsvHeightParsingError),
    }
}

/// The first comma-separated field of a line.
pub open spec fn first_field(line: Seq<char>) -> Seq<char> {
    split_spec(line, ',')[0]
}

/// Index of the first line of `lines`, at or after `i`, whose first field is
/// `ob_time`; -1 where there is none.
pub open spec fn table_start_from(lines: Seq<Seq<char>>, i: int) -> int
    decreases lines.len() - i,
{
    if i < 0 || i >= lines.len() {
        -1
    } else if first_field(lines[i]) == "ob_time"@ {
        i
    } else {
        table_start_from(lines, i + 1)
    }
}

/// The lines of `lines` whose first field is not `end data`, in order.
pub open spec fn without_end_marker(lines: Seq<Seq<char>>) -> Seq<Seq<char>>
    decreases lines.len(),
{
    if lines.len() == 0 {
        Seq::empty()
    } else if first_field(lines.last()) == "end data"@ {
        without_end_marker(lines.drop_last())
    } else {
        without_end_marker(lines.drop_last()).push(lines.last())
    }
}

/// The observation table of a data file: from its `ob_time` header line on,
/// without the `end data` line; empty where there is no header line.
pub open spec fn observation_table_spec(lines: Seq<Seq<char>>) -> Seq<Seq<char>> {
    let h = table_start_from(lines, 0);
    if h >= 0 {
        without_end_marker(lines.subrange(h, lines.len() as int))
    } else {
        Seq::empty()
    }
}

/// Whether the first field of `line` is `key`.
fn first_field_is(line: &String, key: &String) -> (r: bool)
    ensures
        r == (first_field(line@) == key@),
{
    let parts = split(line.as_str(), ',');
    proof {
        lemma_split_nonempty(line@, ',');
    }
    parts[0] == *key
}

/// The lines of the observation table of a data file.
pub fn observation_table(lines: &Vec<String>) -> (r: Vec<String>)
    ensures
        views(r@) == observation_table_spec(views(lines@)),
{
    let ghost ls = views(lines@);
    let header = String::from_str("ob_time");
    let end = String::from_str("end data");
    let mut h: usize = 0;
    while h < lines.len()
        invariant
            h <= lines@.len(),
            ls == views(lines@),
            header@ == "ob_time"@,
            table_start_from(ls, 0) == table_start_from(ls, h as int),
        ensures
            h < lines@.len() ==> table_start_from(ls, 0) == h,
            h == lines@.len() ==> table_start_from(ls, 0) == -1,
        decreases lines@.len() - h,
    {
        if first_field_is(&lines[h], &header) {
            break;
        }
        h = h + 1;
    }
    let mut r: Vec<String> = Vec::new();
    if h == lines.len() {
        return r;
    }
    let mut i: usize = h;
    while i < lines.len()
        invariant
            h <= i <= lines@.len(),
            ls == views(lines@),
            end@ == "end data"@,
            views(r@) == without_end_marker(ls.subrange(h as int, i as int)),
        decreases lines@.len() - i,
    {
        let ghost prev = r@;
        assert(ls.subrange(h as int, i + 1).drop_last() =~= ls.subrange(h as int, i as int));
        if !first_field_is(&lines[i], &end) {
            r.push(lines[i].clone());
            assert(views(r@) =~= views(prev).push(ls[i as int]));
        }
        i = i + 1;
    }
    r
}

/// The position of the column `name` among the table's `headers`; an error
/// naming the column where it is missing.
pub fn get_column_index(headers: &Vec<String>, name: &str) -> (r: Result<usize, AppError>)
    ensures
        match r {
            Ok(i) => i < headers@.len() && headers@[i as int]@ == name@ && i as int == index_of_from(
                views(headers@),
                name@,
                0,
            ),
            Err(e) => index_of_from(views(headers@), name@, 0) == -1 && (e matches AppError::ColumnNotFound(n) && n@ == name@),
        },
{
    match index_of(headers, name) {
        Some(i) => Ok(i),
        None => Err(AppError::ColumnNotFound(String::from_str(name))),
    }
}

} // verus!
