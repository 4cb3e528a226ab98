use ceda_harvest::error::AppError;
use ceda_harvest::header::{
    get_column_index, metadata_line, observation_table, parse_height, parse_historic_county_name,
    parse_midas_station_id, parse_observation_station,
};

fn sample_lines() -> Vec<String> {
    [
        "Conventions,G,BADC-CSV,1",
        "title,G,uk-hourly-weather-obs",
        "source,G,Met Office MIDAS database",
        "creator,G,Met Office",
        "activity,G,Met Office MIDAS Open",
        "feature_type,G,point collection",
        "collection_name,G,midas-open",
        "collection_version_number,G,dataset-version-202407",
        "history,G,Created 2024-07",
        "last_revised_date,G,2024-07-01",
        "observation_station,G,portglenone",
        "historic_county_name,G,antrim",
        "quality_control_version,G,1",
        "midas_station_id,G,01448",
        "location,G,54.865,-6.458",
        "height,G,64,m",
        "date_valid,G,1994-01-01 00:00:00,1994-12-31 23:59:59",
        "data",
        "ob_time,id,wind_speed,wind_direction,wind_speed_unit_id,src_opr_type",
        "1994-10-01 00:00:00,3915,4,170,,",
        "1994-10-01 01:00:00,3915,5,180,,",
        "end data",
    ]
    .iter()
    .map(|s| s.to_string())
    .collect()
}

#[test]
fn it_gets_historic_county_name() {
    assert_eq!(parse_historic_county_name(&sample_lines()).unwrap(), "antrim");
}

#[test]
fn it_gets_observation_station() {
    assert_eq!(parse_observation_station(&sample_lines()).unwrap(), "portglenone");
}

#[test]
fn it_gets_midas_station_id() {
    assert_eq!(parse_midas_station_id(&sample_lines()).unwrap(), 1448);
}

#[test]
fn it_gets_height() {
    assert_eq!(parse_height(&sample_lines()).unwrap(), 64);
}

#[test]
fn wrong_key_is_a_parse_error() {
    let mut lines = sample_lines();
    lines[11] = "county,G,antrim".to_string();
    assert!(matches!(parse_historic_county_name(&lines), Err(AppError::CsvHistoricCountyNameParsingError)));
    lines[15] = "height,G,tall".to_string();
    assert!(matches!(parse_height(&lines), Err(AppError::CsvHeightParsingError)));
    lines[13] = "midas_station_id,G,x".to_string();
    assert!(matches!(parse_midas_station_id(&lines), Err(AppError::CsvMidasStationIdParsingError)));
    lines[10] = "observation_station".to_string();
    assert!(matches!(parse_observation_station(&lines), Err(AppError::CsvObservationStationParsingError)));
}

#[test]
fn short_file_is_a_parse_error() {
    let lines = vec!["Conventions,G,BADC-CSV,1".to_string()];
    assert!(matches!(parse_height(&lines), Err(AppError::CsvHeightParsingError)));
}

#[test]
fn observation_table_runs_from_header_to_end_marker() {
    let table = observation_table(&sample_lines());
    assert_eq!(table.len(), 3);
    assert!(table[0].starts_with("ob_time,"));
    assert!(table[2].starts_with("1994-10-01 01:00:00"));
    assert!(observation_table(&vec!["a,b".to_string()]).is_empty());
}

#[test]
fn column_index_finds_named_columns() {
    let headers: Vec<String> = ["ob_time", "id", "wind_speed"].iter().map(|s| s.to_string()).collect();
    assert_eq!(get_column_index(&headers, "wind_speed").unwrap(), 2);
    match get_column_index(&headers, "src_opr_type") {
        Err(AppError::ColumnNotFound(name)) => assert_eq!(name, "src_opr_type"),
        other => panic!("unexpected {:?}", other),
    }
}

#[test]
fn metadata_line_gives_all_fields_of_a_keyed_line() {
    let fields = metadata_line(&sample_lines(), 14, "location").unwrap();
    assert_eq!(fields, vec!["location".to_string(), "G".to_string(), "54.865".to_string(), "-6.458".to_string()]);
    assert!(metadata_line(&sample_lines(), 14, "height").is_none());
    assert!(metadata_line(&sample_lines(), 99, "location").is_none());
}
