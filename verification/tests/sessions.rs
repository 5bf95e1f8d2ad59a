use verditum::session::{export_stem, Session};

#[test]
fn opens_requested_files_once_the_page_is_ready() {
    let mut session: Session<String> = Session::new();
    assert!(!session.files_requested(vec!["file:///a.udf".into(), "file:///b.udf".into()]));
    let to_open = session.page_ready();
    assert_eq!(to_open, vec!["file:///a.udf".to_string(), "file:///b.udf".to_string()]);
    assert!(session.ready);
    assert!(session.files_requested(vec!["file:///c.udf".into()]));
    assert_eq!(session.page_ready(), vec!["file:///c.udf".to_string()]);
}

#[test]
fn a_reload_after_ready_starts_over() {
    let mut session: Session<String> = Session::new();
    session.files_requested(vec!["file:///a.udf".into()]);
    session.page_ready();
    session.document_opened(Some("/tmp/a.udf".into()));
    session.page_loaded();
    assert!(session.urls.is_empty());
    assert!(session.file_path.is_none());
    assert!(!session.ready);
    assert!(session.page_ready().is_empty());
}

#[test]
fn a_load_before_ready_keeps_pending_files() {
    let mut session: Session<String> = Session::new();
    session.files_requested(vec!["file:///a.udf".into()]);
    session.page_loaded();
    assert_eq!(session.urls, vec!["file:///a.udf".to_string()]);
}

#[test]
fn names_exports_after_the_document() {
    assert_eq!(export_stem(Some("dilekce".into())), "dilekce");
    assert_eq!(export_stem(None), "document");
}
