use ceda_harvest::download::{
    destination_filename, summarize, DownloadEvent, DownloadJob, DownloadOutcome, DownloadPhase,
    DownloadStep,
};
use ceda_harvest::error::AppError;

#[test]
fn filename_drops_the_appended_query() {
    let url = "https://data.ceda.ac.uk/badc/x/qc-version-1/midas-open_uk-hourly-weather-obs_dv-202407_antrim_01448_portglenone_qcv-1_1994.csv?foo=bar";
    assert_eq!(
        destination_filename(url),
        "midas-open_uk-hourly-weather-obs_dv-202407_antrim_01448_portglenone_qcv-1_1994.csv"
    );
}

#[test]
fn filename_without_extension_is_the_last_segment() {
    assert_eq!(destination_filename("/a/b/readme"), "readme");
    assert_eq!(destination_filename("plain.csv"), "plain.csv");
}

#[test]
fn link_without_file_name_is_refused() {
    assert!(matches!(DownloadJob::new("/a/b/"), Err(AppError::NoFileName)));
}

#[test]
fn present_file_is_skipped_without_fetching() {
    let (mut job, step) = DownloadJob::new("/a/x.csv").unwrap();
    assert!(matches!(step, DownloadStep::CheckExisting { ref file_name } if file_name == "x.csv"));
    let next = job.advance(DownloadEvent::Existing(true));
    assert!(matches!(next, DownloadStep::Finished(DownloadOutcome::Skipped)));
    assert_eq!(job.phase(), DownloadPhase::Done(DownloadOutcome::Skipped));
}

#[test]
fn absent_file_is_fetched_to_a_temporary_name_then_renamed() {
    let (mut job, _) = DownloadJob::new("/a/x.csv?k=v").unwrap();
    match job.advance(DownloadEvent::Existing(false)) {
        DownloadStep::Fetch { url, temp_name } => {
            assert_eq!(url, "/a/x.csv?k=v");
            assert_eq!(temp_name, "x.csv.part");
        }
        other => panic!("unexpected step {:?}", other),
    }
    match job.advance(DownloadEvent::Fetched(true)) {
        DownloadStep::Commit { temp_name, file_name } => {
            assert_eq!(temp_name, "x.csv.part");
            assert_eq!(file_name, "x.csv");
        }
        other => panic!("unexpected step {:?}", other),
    }
    assert!(matches!(
        job.advance(DownloadEvent::Committed(true)),
        DownloadStep::Finished(DownloadOutcome::Downloaded)
    ));
}

#[test]
fn failed_fetch_ends_the_download() {
    let (mut job, _) = DownloadJob::new("/a/x.csv").unwrap();
    job.advance(DownloadEvent::Existing(false));
    assert!(matches!(job.advance(DownloadEvent::Fetched(false)), DownloadStep::Finished(DownloadOutcome::Failed)));
    assert!(matches!(job.advance(DownloadEvent::Committed(true)), DownloadStep::Finished(DownloadOutcome::Failed)));
}

#[test]
fn out_of_turn_event_fails_the_download() {
    let (mut job, _) = DownloadJob::new("/a/x.csv").unwrap();
    assert!(matches!(job.advance(DownloadEvent::Fetched(true)), DownloadStep::Finished(DownloadOutcome::Failed)));
}

#[test]
fn second_download_of_the_same_link_is_a_skip() {
    let mut present: Vec<String> = Vec::new();
    let mut fetches = 0;
    for _ in 0..2 {
        let (mut job, mut step) = DownloadJob::new("/a/x.csv?foo=bar").unwrap();
        let outcome = loop {
            step = match step {
                DownloadStep::CheckExisting { file_name } => job.advance(DownloadEvent::Existing(present.contains(&file_name))),
                DownloadStep::Fetch { .. } => {
                    fetches += 1;
                    job.advance(DownloadEvent::Fetched(true))
                }
                DownloadStep::Commit { file_name, .. } => {
                    present.push(file_name);
                    job.advance(DownloadEvent::Committed(true))
                }
                DownloadStep::Finished(o) => break o,
            };
        };
        assert_ne!(outcome, DownloadOutcome::Failed);
    }
    assert_eq!(fetches, 1);
}

#[test]
fn outcomes_are_tallied() {
    let s = summarize(&vec![
        DownloadOutcome::Downloaded,
        DownloadOutcome::Skipped,
        DownloadOutcome::Failed,
        DownloadOutcome::Skipped,
    ]);
    assert_eq!((s.downloaded, s.skipped, s.failed), (1, 2, 1));
    let empty = summarize(&Vec::new());
    assert_eq!((empty.downloaded, empty.skipped, empty.failed), (0, 0, 0));
}
