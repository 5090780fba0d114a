use pdfsvg::merge::{split_merge_args, MergeArgsError};

#[test]
fn merge_two_sources_into_a_pdf() {
    let files = vec!["a.svg".to_string(), "b.svg".to_string(), "c.pdf".to_string()];
    let (sources, destination) = split_merge_args(files).unwrap();
    assert_eq!(sources, vec!["a.svg", "b.svg"]);
    assert_eq!(destination, "c.pdf");
}

#[test]
fn merge_with_only_a_destination() {
    let (sources, destination) = split_merge_args(vec!["only.pdf".to_string()]).unwrap();
    assert!(sources.is_empty());
    assert_eq!(destination, "only.pdf");
}

#[test]
fn merge_without_arguments_is_refused() {
    let files: Vec<String> = Vec::new();
    assert_eq!(split_merge_args(files), Err(MergeArgsError::MissingDestination));
}

#[test]
fn extracted_names_merge_back_in_page_order() {
    let names = pdfsvg::naming::page_file_names("out", 12);
    let mut files = names.clone();
    files.push("back.pdf".to_string());
    let (sources, destination) = split_merge_args(files).unwrap();
    assert_eq!(sources, names);
    assert_eq!(sources.len(), 12);
    assert_eq!(destination, "back.pdf");
}
