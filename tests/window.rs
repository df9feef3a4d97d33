use peak::app_state::{file_label, file_summary, file_text, hover_text, DroppedFile, HoveredFile, Pane, PeakApp};
use peak::message::{parse_text, HeaderField};

fn dropped(path: Option<&str>, name: &str, mime: &str, bytes: Option<&[u8]>) -> DroppedFile {
    DroppedFile {
        path: path.map(|p| p.to_string()),
        name: name.to_string(),
        mime: mime.to_string(),
        bytes: bytes.map(|b| b.to_vec()),
    }
}

fn all_shown(a: &PeakApp) -> bool {
    a.email_body_visible && a.email_html_visible && a.headers_visible && a.recipients_visible && a.senders_visible
}

#[test]
fn default_state() {
    let a = PeakApp::default();
    assert!(a.dropped_files.is_empty());
    assert_eq!(a.filename, "Email");
    assert!(a.nothing_loaded);
    assert_eq!(a.email_raw, "No email file loaded");
    assert_eq!(a.email_body, "<iframe>Body Text</iframe>");
    assert!(a.headers.is_empty());
    assert_eq!(a.recipients, "example@recipient.com");
    assert_eq!(a.senders, "example@sender.com");
    assert!(!a.email_body_visible && !a.email_html_visible && !a.headers_visible);
    assert!(!a.recipients_visible && !a.senders_visible);
}

#[test]
fn show_hide_and_toggle() {
    let mut a = PeakApp::default();
    a.show_all();
    assert!(all_shown(&a));
    a.toggle(Pane::Headers);
    assert!(!a.headers_visible);
    assert!(a.email_body_visible && a.senders_visible);
    a.toggle(Pane::Headers);
    assert!(a.headers_visible);
    a.hide_all();
    assert!(!a.email_body_visible && !a.email_html_visible && !a.headers_visible);
    assert!(!a.recipients_visible && !a.senders_visible);
    a.toggle(Pane::Senders);
    assert!(a.senders_visible && !a.recipients_visible);
}

#[test]
fn dropping_files_loads() {
    let mut a = PeakApp::default();
    a.receive_dropped(vec![]);
    assert!(a.nothing_loaded);
    a.receive_dropped(vec![dropped(None, "", "", None)]);
    assert!(a.nothing_loaded);
    assert_eq!(a.dropped_files.len(), 1);
    a.receive_dropped(vec![dropped(None, "mail.eml", "", None)]);
    assert!(!a.nothing_loaded);
    a.receive_dropped(vec![]);
    assert_eq!(a.dropped_files.len(), 1);
    assert!(!a.nothing_loaded);
}

#[test]
fn analyze_last_dropped_file() {
    let mut a = PeakApp::default();
    a.receive_dropped(vec![
        dropped(Some("/tmp/first.eml"), "", "", Some(b"From: x@x.com")),
        dropped(Some("/tmp/second.eml"), "", "", Some(b"From: a@x.com\nTo: b@y.com\n\nHello body")),
    ]);
    a.analyze();
    assert!(all_shown(&a));
    assert_eq!(a.filename, "/tmp/second.eml");
    assert_eq!(a.email_raw, "From: a@x.com\nTo: b@y.com\n\nHello body");
    assert_eq!(a.email_body, "Hello body");
    assert_eq!(a.senders, "a@x.com");
    assert_eq!(a.recipients, "b@y.com");
    assert_eq!(a.headers.len(), 2);
    assert_eq!(a.headers[1], HeaderField { name: "To".to_string(), value: "b@y.com".to_string() });
}

#[test]
fn analyze_without_parts_shows_placeholders() {
    let mut a = PeakApp::default();
    a.receive_dropped(vec![dropped(None, "x.eml", "", Some(b"Subject: hi"))]);
    a.analyze();
    assert_eq!(a.filename, "x.eml");
    assert_eq!(a.email_body, "Failed to parse body");
    assert_eq!(a.senders, "Failed to parse sender");
    assert_eq!(a.recipients, "Failed to parse recipient");
    assert_eq!(a.headers.len(), 1);
}

#[test]
fn analyze_invalid_bytes_shows_failure() {
    let mut a = PeakApp::default();
    a.receive_dropped(vec![dropped(None, "bad.eml", "", Some(&[0xc3, 0x28]))]);
    a.analyze();
    assert_eq!(a.filename, "bad.eml");
    assert_eq!(a.email_raw, "No email file loaded");
    assert_eq!(a.email_body, "Failed to parse body");
    assert!(a.headers.is_empty());
    assert!(all_shown(&a));
}

#[test]
fn analyze_file_without_bytes() {
    let mut a = PeakApp::default();
    a.receive_dropped(vec![dropped(None, "", "", None)]);
    a.analyze();
    assert_eq!(a.filename, "???");
    assert_eq!(a.email_raw, "No email file loaded");
    assert!(a.headers.is_empty());
    assert_eq!(a.email_body, "Failed to parse body");
}

#[test]
fn analyze_with_nothing_dropped_reads_current_text() {
    let mut a = PeakApp::default();
    a.email_raw = "To: me@x.com\n\nbody".to_string();
    a.analyze();
    assert_eq!(a.filename, "Email");
    assert_eq!(a.recipients, "me@x.com");
    assert_eq!(a.email_body, "body");
}

#[test]
fn show_message_fills_panes() {
    let mut a = PeakApp::default();
    a.show_message(parse_text("From: s@x.com\n\nb"));
    assert_eq!(a.senders, "s@x.com");
    assert_eq!(a.recipients, "Failed to parse recipient");
    assert_eq!(a.email_body, "b");
    a.show_failure();
    assert_eq!(a.senders, "Failed to parse sender");
    assert!(a.headers.is_empty());
}

#[test]
fn labels_of_dropped_files() {
    assert_eq!(file_label(&dropped(Some("/a/b.eml"), "b.eml", "", None)), "/a/b.eml");
    assert_eq!(file_label(&dropped(None, "b.eml", "", None)), "b.eml");
    assert_eq!(file_label(&dropped(None, "", "", None)), "???");
}

#[test]
fn text_of_dropped_files() {
    assert_eq!(file_text(&dropped(None, "", "", Some("Caf\u{e9}".as_bytes()))), Some("Caf\u{e9}".to_string()));
    assert_eq!(file_text(&dropped(None, "", "", Some(&[0xff]))), None);
    assert_eq!(file_text(&dropped(None, "", "", None)), Some("No email file loaded".to_string()));
}

#[test]
fn summaries_of_dropped_files() {
    assert_eq!(file_summary(&dropped(None, "m.eml", "message/rfc822", Some(&[0u8; 1234]))), "m.eml (type: message/rfc822, 1234 bytes)");
    assert_eq!(file_summary(&dropped(None, "m.eml", "", Some(&[0u8; 7]))), "m.eml (7 bytes)");
    assert_eq!(file_summary(&dropped(None, "m.eml", "text/plain", None)), "m.eml (type: text/plain)");
    assert_eq!(file_summary(&dropped(None, "", "", Some(&[]))), "??? (0 bytes)");
    assert_eq!(file_summary(&dropped(Some("/p.eml"), "", "", None)), "/p.eml");
}

#[test]
fn hover_notice() {
    let files = vec![
        HoveredFile { path: Some("/x/a.eml".to_string()), mime: "text/plain".to_string() },
        HoveredFile { path: None, mime: "message/rfc822".to_string() },
        HoveredFile { path: None, mime: String::new() },
    ];
    assert_eq!(hover_text(&files), "Dropping files:\n\n/x/a.eml\nmessage/rfc822\n???");
    assert_eq!(hover_text(&vec![]), "Dropping files:\n");
}
