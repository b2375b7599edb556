use document_processor::error::Error;
use document_processor::paths::create_output_paths;
use document_processor::rasterizer::{create_magick_args, page_selector_string};

#[test]
fn report_cache_directory_is_beside_the_document() {
    let (dir, pattern) = create_output_paths("/docs/report.pdf").unwrap();
    assert_eq!(dir, "/docs/report_data");
    assert_eq!(pattern, "/docs/report_data/page.webp");
}

#[test]
fn cache_directory_is_the_same_on_every_call() {
    let first = create_output_paths("/docs/report.pdf").unwrap();
    let second = create_output_paths("/docs/report.pdf").unwrap();
    assert_eq!(first, second);
}

#[test]
fn only_the_last_extension_is_dropped() {
    let (dir, _) = create_output_paths("/a/b/archive.tar.gz").unwrap();
    assert_eq!(dir, "/a/b/archive.tar_data");
}

#[test]
fn a_leading_dot_is_no_extension() {
    let (dir, _) = create_output_paths("/home/.hidden").unwrap();
    assert_eq!(dir, "/home/.hidden_data");
}

#[test]
fn a_name_without_extension_keeps_its_name() {
    let (dir, _) = create_output_paths("notes").unwrap();
    assert_eq!(dir, "notes_data");
}

#[test]
fn backslashes_separate_components() {
    let (dir, _) = create_output_paths("C:\\docs\\scan.pdf").unwrap();
    assert_eq!(dir, "C:\\docs\\scan_data");
}

#[test]
fn a_path_without_file_name_is_refused() {
    assert_eq!(create_output_paths("/docs/"), Err(Error::InvalidPath));
    assert_eq!(create_output_paths(""), Err(Error::InvalidPath));
    assert_eq!(create_output_paths("/docs/.."), Err(Error::InvalidPath));
    assert_eq!(create_output_paths("."), Err(Error::InvalidPath));
}

#[test]
fn rasterizer_arguments_are_fixed_around_input_and_output() {
    let args = create_magick_args("/d/x.pdf[0]", "/d/x_data/1.webp");
    let expected = vec![
        "-density", "150", "/d/x.pdf[0]", "-resize", "1000x1000", "-scene", "1", "+adjoin",
        "/d/x_data/1.webp",
    ];
    assert_eq!(args, expected);
}

#[test]
fn page_selector_appends_the_zero_based_index() {
    assert_eq!(page_selector_string("/d/x.pdf", 0), "/d/x.pdf[0]");
    assert_eq!(page_selector_string("/d/x.pdf", 12), "/d/x.pdf[12]");
    assert_eq!(page_selector_string("/d/x.pdf", 1907), "/d/x.pdf[1907]");
}
