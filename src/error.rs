//! Errors of the harvesting pipeline.

use vstd::prelude::*;

verus! {

/// What can go wrong while resolving the catalog, downloading its files or
/// reading a downloaded file.
#[derive(Debug)]
pub enum AppError {
    /// A failure with nothing more specific to say.
    GenericError,
    /// A page could not be fetched or read; the text says why.
    DocumentFetchError(String),
    /// A CSS selector of the pipeline did not parse.
    InvalidSelector,
    /// A station page has no folder marked with the required quality-control version.
    QCV1NotFound,
    /// No access token was configured.
    MissingAccessToken,
    /// A file link names no file.
    NoFileName,
    /// A file could not be fetched or stored.
    DownloadError,
    /// Every item of a non-empty stage failed.
    StageFailed,
    /// A data file does not exist.
    FileNotFound,
    /// A data file could not be read.
    FileReadError,
    /// The observation station line of a data file is malformed.
    CsvObservationStationParsingError,
    /// The historic county name line of a data file is malformed.
    CsvHistoricCountyNameParsingError,
    /// The station id of a data file is not a number.
    CsvMidasStationIdParsingError,
    /// The height line of a data file is malformed.
    CsvHeightParsingError,
    /// The location line of a data file is missing.
    CsvLocationMissingError,
    /// The location of a data file is not a pair of numbers.
    CsvLocationParsingError,
    /// The valid-date line of a data file is missing.
    CsvDateValidMissingError,
    /// A date of a data file did not parse.
    CsvDateParseError,
    /// The observation table lacks the named column.
    ColumnNotFound(String),
    /// The database refused a connection or a statement; the text says why.
    DatabaseConnectionError(String),
}

} // verus!
