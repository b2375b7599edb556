use document_processor::commands::{greet, select_document};
use document_processor::error::Error;

#[test]
fn greeting_names_the_caller() {
    assert_eq!(greet("Ada"), "Hello, Ada! You've been greeted from Rust!");
}

#[test]
fn dismissed_picker_is_no_selection() {
    assert_eq!(select_document(None), Err(Error::NoSelection));
    assert_eq!(select_document(Some("/d/x.pdf".to_string())), Ok("/d/x.pdf".to_string()));
}

#[test]
fn rasterizer_error_text_carries_code_and_stderr() {
    let e = Error::ExternalTool { code: 1, stderr: "no delegate for this image format".to_string() };
    assert_eq!(e.message(), "Magick command failed with exit code 1, stderr: no delegate for this image format");
    let e = Error::ExternalTool { code: -1073741515, stderr: String::new() };
    assert_eq!(e.message(), "Magick command failed with exit code -1073741515, stderr: ");
    let e = Error::ExternalTool { code: i32::MIN, stderr: "x".to_string() };
    assert_eq!(e.message(), format!("Magick command failed with exit code {}, stderr: x", i32::MIN));
}

#[test]
fn other_errors_have_fixed_or_passed_on_text() {
    assert_eq!(Error::DocumentLoad.message(), "Failed to load PDF document");
    assert_eq!(Error::NoSelection.message(), "No document selected");
    assert_eq!(Error::InvalidPath.message(), "The document path has no file name");
    assert_eq!(Error::Io { message: "disk full".to_string() }.message(), "disk full");
}
