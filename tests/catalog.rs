use ceda_harvest::catalog::{
    filter_county_links, select_data_folder, CedaClient, DataLinks, QcPolicy,
};
use ceda_harvest::error::AppError;
use ceda_harvest::links::select_elements;

fn client() -> CedaClient {
    CedaClient::new("202407", "test-token").unwrap()
}

fn results_page(entries: &[(&str, &str)]) -> String {
    let mut s = String::from("<html><body><table id=\"results\">");
    for (href, text) in entries {
        s.push_str(&format!("<tr><td><a href=\"{}\">{}</a></td></tr>", href, text));
    }
    s.push_str("</table></body></html>");
    s
}

#[test]
fn client_needs_an_access_token() {
    assert!(matches!(CedaClient::new("202407", ""), Err(AppError::MissingAccessToken)));
}

#[test]
fn client_sends_a_bearer_credential() {
    let c = CedaClient::new("202407", "abc").unwrap();
    assert_eq!(c.authorization(), "Bearer abc");
    assert_eq!(c.dataset_version(), "202407");
}

#[test]
fn county_index_url_names_the_dataset_version() {
    assert_eq!(
        client().county_index_url(),
        "https://data.ceda.ac.uk/badc/ukmo-midas-open/data/uk-hourly-weather-obs/dataset-version-202407/"
    );
    assert_eq!(client().page_url("/badc/x/"), "https://data.ceda.ac.uk/badc/x/");
}

#[test]
fn county_links_keep_catalog_paths_without_change_log() {
    let page = results_page(&[
        ("/badc/ukmo/antrim", "antrim"),
        ("/other/place", "other"),
        ("/badc/ukmo/change_log_station_files", "log"),
        ("/badc/ukmo/armagh", "armagh"),
    ]);
    let links = client().get_county_links(&page).unwrap();
    assert_eq!(links, vec!["/badc/ukmo/antrim".to_string(), "/badc/ukmo/armagh".to_string()]);
}

#[test]
fn county_filter_uses_the_configured_prefix() {
    let links: Vec<String> = ["/a/", "/b/", "/a/change_log_station_files"].iter().map(|s| s.to_string()).collect();
    assert_eq!(filter_county_links(&links, "/"), vec!["/a/".to_string(), "/b/".to_string()]);
}

#[test]
fn station_links_come_from_the_station_table() {
    let page = "<html><body><div id=\"content-main\"><div class=\"row\"><div><table>\
        <tr><td><a href=\"/badc/c/s1/\">s1</a></td></tr><tr><td><a href=\"/badc/c/s2/\">s2</a></td></tr>\
        </table></div></div></div><a href=\"/elsewhere/\">x</a></body></html>";
    let links = client().get_station_links(page).unwrap();
    assert_eq!(links, vec!["/badc/c/s1/".to_string(), "/badc/c/s2/".to_string()]);
}

#[test]
fn data_folder_is_the_qc_version_1_entry() {
    let page = results_page(&[
        ("/badc/c/s/qc-version-0/", "qc-version-0"),
        ("/badc/c/s/qc-version-1/", "qc-version-1"),
        ("/badc/c/s/change_log", "change_log"),
    ]);
    for policy in [QcPolicy::RequireVersion1, QcPolicy::FallBackToVersion0] {
        assert_eq!(client().get_data_folder_link(&page, policy).unwrap(), "/badc/c/s/qc-version-1/");
    }
}

#[test]
fn data_folder_is_chosen_by_text_not_href() {
    let page = results_page(&[("/badc/c/s/qc-version-1/", "other"), ("/badc/c/s/latest/", "qc-version-1")]);
    assert_eq!(client().get_data_folder_link(&page, QcPolicy::RequireVersion1).unwrap(), "/badc/c/s/latest/");
}

#[test]
fn missing_qc_version_1_fails_without_fallback() {
    let page = results_page(&[("/badc/c/s/qc-version-0/", "qc-version-0")]);
    assert!(matches!(
        client().get_data_folder_link(&page, QcPolicy::RequireVersion1),
        Err(AppError::QCV1NotFound)
    ));
    assert_eq!(
        client().get_data_folder_link(&page, QcPolicy::FallBackToVersion0).unwrap(),
        "/badc/c/s/qc-version-0/"
    );
}

#[test]
fn marked_entry_without_href_is_not_a_folder() {
    let page = "<html><body><table id=\"results\"><tr><td><a>qc-version-1</a></td></tr></table></body></html>";
    let anchors = select_elements(page, "#results a").unwrap();
    assert_eq!(select_data_folder(&anchors, QcPolicy::RequireVersion1), None);
    assert!(matches!(
        client().get_data_folder_link(page, QcPolicy::RequireVersion1),
        Err(AppError::QCV1NotFound)
    ));
}

#[test]
fn marked_entries_without_usable_href_are_passed_over() {
    let page = "<html><body><table id=\"results\">\
        <tr><td><a>qc-version-1</a></td></tr>\
        <tr><td><a href=\"\">qc-version-1</a></td></tr>\
        <tr><td><a href=\"/badc/s/qc-version-1/\">qc-version-1</a></td></tr>\
        </table></body></html>";
    let anchors = select_elements(page, "#results a").unwrap();
    assert_eq!(
        select_data_folder(&anchors, QcPolicy::RequireVersion1).as_deref(),
        Some("/badc/s/qc-version-1/")
    );
    assert_eq!(
        client().get_data_folder_link(page, QcPolicy::RequireVersion1).unwrap(),
        "/badc/s/qc-version-1/"
    );
}

#[test]
fn download_url_keeps_absolute_links() {
    let c = client();
    assert_eq!(c.download_url("https://dap.ceda.ac.uk/badc/x/f.csv?download=1"), "https://dap.ceda.ac.uk/badc/x/f.csv?download=1");
    assert_eq!(c.download_url("http://h/f.csv"), "http://h/f.csv");
    assert_eq!(c.download_url("/badc/x/f.csv"), "https://data.ceda.ac.uk/badc/x/f.csv");
}

#[test]
fn data_file_links_include_the_capability_file() {
    let page = results_page(&[("/f/x_capability.csv", "cap"), ("/f/x_1994.csv", "1994")]);
    let links = client().get_data_file_links(&page).unwrap();
    assert_eq!(links.len(), 2);
    let split = DataLinks::from_links(&links).unwrap();
    assert_eq!(split.capability, "/f/x_capability.csv");
    assert_eq!(split.data, vec!["/f/x_1994.csv".to_string()]);
}

#[test]
fn data_links_need_a_capability_file() {
    let links = vec!["/f/x_1994.csv".to_string()];
    assert!(DataLinks::from_links(&links).is_none());
}
