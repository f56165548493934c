use iiif_core::version::{version_line, version_line_for, VERSION};

#[test]
fn version_line_reports_the_crate_version() {
    assert!(version_line().starts_with(&format!("iiif-server {}", VERSION)));
}

#[test]
fn revision_is_reported_when_known() {
    assert_eq!(version_line_for("unknown"), format!("iiif-server {VERSION}"));
    assert_eq!(version_line_for("abc123"), format!("iiif-server {VERSION} (abc123)"));
}
