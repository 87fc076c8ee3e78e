use json_tree_viewer::json::JsonValue;
use json_tree_viewer::state::{upload_files, App, FileDetails, LoadError, Msg, PendingFile};
use json_tree_viewer::theme::{theme_name, toggle_theme_class};

fn pending(name: &str, mime: &str) -> PendingFile {
    PendingFile {
        name: name.to_string(),
        file_type: mime.to_string(),
    }
}

#[test]
fn error_messages_are_exact() {
    assert_eq!(
        LoadError::UnsupportedFileType("notes.txt".to_string()).message(),
        "File notes.txt is not a JSON file"
    );
    assert_eq!(LoadError::ReadError.message(), "failed to read file");
    assert_eq!(
        LoadError::ParseError("broken.json".to_string(), "oops".to_string()).message(),
        "failed to parse file: broken.json: oops"
    );
}

#[test]
fn upload_accepts_json_batches() {
    let batch = vec![pending("a.json", "application/json")];
    assert_eq!(upload_files(Some(batch.clone())), Msg::Files(batch));
}

#[test]
fn upload_accepts_empty_selection() {
    assert_eq!(upload_files(None), Msg::Files(Vec::new()));
    assert_eq!(upload_files(Some(Vec::new())), Msg::Files(Vec::new()));
}

#[test]
fn upload_rejects_non_json_naming_the_file() {
    let batch = vec![
        pending("a.json", "application/json"),
        pending("notes.txt", "text/plain"),
    ];
    assert_eq!(
        upload_files(Some(batch)),
        Msg::Error("File notes.txt is not a JSON file".to_string())
    );
}

#[test]
fn upload_rejects_on_the_first_offender() {
    let batch = vec![pending("one.txt", "text/plain"), pending("two.txt", "text/plain")];
    assert_eq!(
        upload_files(Some(batch)),
        Msg::Error("File one.txt is not a JSON file".to_string())
    );
}

#[test]
fn fresh_session_is_empty() {
    let app = App::create();
    assert!(app.files.is_empty());
    assert!(app.readers.is_empty());
    assert_eq!(app.is_error, (false, String::new()));
    assert!(!app.is_loading);
}

#[test]
fn loaded_appends_the_file_and_retires_its_read() {
    let mut app = App::create();
    app.update(Msg::Files(vec![pending("a.json", "application/json")]));
    assert_eq!(app.readers, vec!["a.json".to_string()]);
    let value = JsonValue::Object(vec![("x".to_string(), JsonValue::Number("1".to_string()))]);
    let redraw = app.update(Msg::Loaded(
        "a.json".to_string(),
        "application/json".to_string(),
        value.clone(),
    ));
    assert!(redraw);
    assert_eq!(
        app.files,
        vec![FileDetails {
            name: "a.json".to_string(),
            file_type: "application/json".to_string(),
            data: value,
        }]
    );
    assert!(app.readers.is_empty());
    assert_eq!(app.is_error, (false, String::new()));
    assert!(!app.is_loading);
}

#[test]
fn error_clears_every_accumulated_file() {
    let mut app = App::create();
    app.update(Msg::Loaded(
        "a.json".to_string(),
        "application/json".to_string(),
        JsonValue::Null,
    ));
    assert_eq!(app.files.len(), 1);
    let redraw = app.update(Msg::Error("File notes.txt is not a JSON file".to_string()));
    assert!(redraw);
    assert!(app.files.is_empty());
    assert_eq!(
        app.is_error,
        (true, "File notes.txt is not a JSON file".to_string())
    );
    assert!(!app.is_loading);
}

#[test]
fn files_records_reads_and_ends_not_loading() {
    let mut app = App::create();
    let redraw = app.update(Msg::Files(vec![
        pending("a.json", "application/json"),
        pending("b.json", "application/json"),
    ]));
    assert!(redraw);
    assert_eq!(app.readers, vec!["a.json".to_string(), "b.json".to_string()]);
    assert!(app.files.is_empty());
    assert_eq!(app.is_error, (false, String::new()));
    assert!(!app.is_loading);
}

#[test]
fn loading_switches_the_indicator() {
    let mut app = App::create();
    app.update(Msg::Loading(true));
    assert!(app.is_loading);
    app.update(Msg::Loading(false));
    assert!(!app.is_loading);
}

#[test]
fn theme_toggle_rewrites_the_class_attribute() {
    assert_eq!(toggle_theme_class(""), " dark");
    assert_eq!(toggle_theme_class("theme"), "theme dark");
    assert_eq!(toggle_theme_class("theme dark"), "theme ");
    assert_eq!(toggle_theme_class("dark"), "");
    assert_eq!(toggle_theme_class("darkdark"), "");
}

#[test]
fn theme_name_reports_dark_or_light() {
    assert_eq!(theme_name("a dark b"), "dark");
    assert_eq!(theme_name(""), "light");
    assert_eq!(theme_name("light"), "light");
}
