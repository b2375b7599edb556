use document_processor::cache::{count_webp_files, inspect_cache, is_page_file_name, stale_files, CacheStatus};

fn names(v: &[&str]) -> Vec<String> {
    v.iter().map(|s| s.to_string()).collect()
}

#[test]
fn page_files_carry_the_image_extension() {
    assert!(is_page_file_name(&"1.webp".to_string()));
    assert!(is_page_file_name(&"page.webp".to_string()));
    assert!(!is_page_file_name(&".webp".to_string()));
    assert!(!is_page_file_name(&"1.png".to_string()));
    assert!(!is_page_file_name(&"1.webp.txt".to_string()));
    assert!(!is_page_file_name(&"webp".to_string()));
}

#[test]
fn only_page_files_are_counted() {
    assert_eq!(count_webp_files(&names(&[])), 0);
    assert_eq!(count_webp_files(&names(&["1.webp", "notes.txt", "2.webp", ".webp"])), 2);
}

#[test]
fn stale_files_are_the_page_files_with_their_directory() {
    let stale = stale_files("/d/x_data", &names(&["2.webp", "notes.txt", "7.webp"]));
    assert_eq!(stale, names(&["/d/x_data/2.webp", "/d/x_data/7.webp"]));
}

#[test]
fn cache_status_follows_the_count() {
    assert_eq!(inspect_cache(&None, 3), CacheStatus::Absent);
    assert_eq!(inspect_cache(&Some(names(&["1.webp", "2.webp", "3.webp"])), 3), CacheStatus::Complete);
    assert_eq!(inspect_cache(&Some(names(&["1.webp", "x.txt"])), 3), CacheStatus::Mismatched(1));
    assert_eq!(inspect_cache(&Some(names(&["1.webp", "2.webp", "3.webp", "4.webp"])), 3), CacheStatus::Mismatched(4));
    assert_eq!(inspect_cache(&Some(names(&[])), 0), CacheStatus::Complete);
}
