use std::collections::{HashMap, HashSet};

use ceda_harvest::catalog::{CedaClient, QcPolicy};
use ceda_harvest::download::{summarize, DownloadEvent, DownloadJob, DownloadStep, DownloadSummary};
use ceda_harvest::error::AppError;
use ceda_harvest::stage::collect_stage;

const ROOT: &str = "https://catalog.test";

fn results_page(entries: &[(String, String)]) -> String {
    let mut s = String::from("<html><body><table id=\"results\">");
    for (href, text) in entries {
        s.push_str(&format!("<tr><td><a href=\"{}\">{}</a></td></tr>", href, text));
    }
    s.push_str("</table></body></html>");
    s
}

fn station_table(links: &[&str]) -> String {
    let mut s = String::from("<html><body><div id=\"content-main\"><div class=\"row\"><div><table>");
    for l in links {
        s.push_str(&format!("<tr><td><a href=\"{}\">{}</a></td></tr>", l, l));
    }
    s.push_str("</table></div></div></div></body></html>");
    s
}

fn catalog(client: &CedaClient) -> HashMap<String, String> {
    let mut pages = HashMap::new();
    pages.insert(
        client.county_index_url(),
        results_page(&[
            ("/a/".into(), "a".into()),
            ("/b/".into(), "b".into()),
            ("/a/change_log_station_files".into(), "log".into()),
        ]),
    );
    for county in ["a", "b"] {
        let station = format!("/{}/s1/", county);
        pages.insert(client.page_url(&format!("/{}/", county)), station_table(&[&station]));
        let v0 = format!("{}qc-version-0/", station);
        let v1 = format!("{}qc-version-1/", station);
        pages.insert(
            client.page_url(&station),
            results_page(&[(v0, "qc-version-0".into()), (v1.clone(), "qc-version-1".into())]),
        );
        let files = [
            format!("{}midas-open_uk_dv-202407_{}_00001_s1_capability.csv", v1, county),
            format!("{}midas-open_uk_dv-202407_{}_00001_s1_qcv-1_1994.csv?x=1", v1, county),
            format!("{}midas-open_uk_dv-202407_{}_00001_s1_qcv-1_1995.csv", v1, county),
        ];
        let entries: Vec<(String, String)> = files.iter().map(|f| (f.clone(), "file".to_string())).collect();
        pages.insert(client.page_url(&v1), results_page(&entries));
    }
    pages
}

fn fetch(pages: &HashMap<String, String>, url: &str) -> Result<String, AppError> {
    pages.get(url).cloned().ok_or(AppError::DocumentFetchError(url.to_string()))
}

fn resolve(client: &CedaClient, pages: &HashMap<String, String>) -> Vec<String> {
    let counties = client.get_county_links(&fetch(pages, &client.county_index_url()).unwrap()).unwrap();
    assert_eq!(counties, vec!["/a/".to_string(), "/b/".to_string()]);

    let stations = collect_stage(
        counties.iter().map(|c| fetch(pages, &client.page_url(c)).and_then(|p| client.get_station_links(&p))).collect(),
    );
    assert_eq!(stations.links.len(), 2);

    let folders = collect_stage(
        stations
            .links
            .iter()
            .map(|s| {
                fetch(pages, &client.page_url(s))
                    .and_then(|p| client.get_data_folder_link(&p, QcPolicy::RequireVersion1))
                    .map(|l| vec![l])
            })
            .collect(),
    );
    assert_eq!(folders.links, vec!["/a/s1/qc-version-1/".to_string(), "/b/s1/qc-version-1/".to_string()]);

    let files = collect_stage(
        folders.links.iter().map(|f| fetch(pages, &client.page_url(f)).and_then(|p| client.get_data_file_links(&p))).collect(),
    );
    files.links
}

fn download_all(files: &[String], present: &mut HashSet<String>, fetches: &mut usize) -> DownloadSummary {
    let mut outcomes = Vec::new();
    for url in files {
        let (mut job, mut step) = DownloadJob::new(url).unwrap();
        let outcome = loop {
            step = match step {
                DownloadStep::CheckExisting { file_name } => job.advance(DownloadEvent::Existing(present.contains(&file_name))),
                DownloadStep::Fetch { .. } => {
                    *fetches += 1;
                    job.advance(DownloadEvent::Fetched(true))
                }
                DownloadStep::Commit { file_name, .. } => {
                    present.insert(file_name);
                    job.advance(DownloadEvent::Committed(true))
                }
                DownloadStep::Finished(o) => break o,
            };
        };
        outcomes.push(outcome);
    }
    summarize(&outcomes)
}

#[test]
fn end_to_end_run_downloads_then_skips() {
    let client = CedaClient::new("202407", "test-token").unwrap().with_catalog(ROOT, "/");
    let pages = catalog(&client);
    let files = resolve(&client, &pages);
    assert_eq!(files.len(), 6);

    let mut present = HashSet::new();
    let mut fetches = 0;
    let first = download_all(&files, &mut present, &mut fetches);
    assert_eq!((first.downloaded, first.skipped, first.failed), (6, 0, 0));
    assert_eq!(fetches, 6);

    let second = download_all(&resolve(&client, &pages), &mut present, &mut fetches);
    assert_eq!((second.downloaded, second.skipped, second.failed), (0, 6, 0));
    assert_eq!(fetches, 6);
    assert!(present.contains("midas-open_uk_dv-202407_a_00001_s1_qcv-1_1994.csv"));
}
