use pdfsvg::naming::{decimal_width, page_file_name_of, page_file_names, page_label_of};

fn check_names(page_count: u32, width: usize) {
    let names = page_file_names("page", page_count);
    assert_eq!(names.len(), page_count as usize);
    for (i, name) in names.iter().enumerate() {
        let label = &name["page-".len()..name.len() - ".svg".len()];
        assert_eq!(label.len(), width);
        assert!(label.chars().all(|c| c.is_ascii_digit()));
        assert_eq!(label.parse::<usize>().unwrap(), i + 1);
    }
    let mut sorted = names.clone();
    sorted.sort();
    assert_eq!(sorted, names);
}

#[test]
fn one_page_has_one_digit_labels() {
    check_names(1, 1);
}

#[test]
fn nine_pages_have_one_digit_labels() {
    check_names(9, 1);
}

#[test]
fn ten_pages_have_two_digit_labels() {
    check_names(10, 2);
}

#[test]
fn ninety_nine_pages_have_two_digit_labels() {
    check_names(99, 2);
}

#[test]
fn hundred_pages_have_three_digit_labels() {
    check_names(100, 3);
}

#[test]
fn three_pages_with_prefix_out() {
    let names = page_file_names("out", 3);
    assert_eq!(names, vec!["out-1.svg", "out-2.svg", "out-3.svg"]);
}

#[test]
fn no_pages_no_names() {
    assert!(page_file_names("output", 0).is_empty());
}

#[test]
fn decimal_widths() {
    assert_eq!(decimal_width(0), 1);
    assert_eq!(decimal_width(1), 1);
    assert_eq!(decimal_width(9), 1);
    assert_eq!(decimal_width(10), 2);
    assert_eq!(decimal_width(99), 2);
    assert_eq!(decimal_width(100), 3);
    assert_eq!(decimal_width(12345), 5);
    assert_eq!(decimal_width(u32::MAX), 10);
}

#[test]
fn labels_are_padded_to_the_page_count() {
    assert_eq!(page_label_of(0, 100), "001");
    assert_eq!(page_label_of(41, 100), "042");
    assert_eq!(page_label_of(99, 100), "100");
    assert_eq!(page_label_of(8, 9), "9");
    assert_eq!(page_label_of(0, u32::MAX), "0000000001");
}

#[test]
fn file_name_of_a_single_page() {
    assert_eq!(page_file_name_of("output", 6, 12), "output-07.svg");
    assert_eq!(page_file_name_of("", 0, 1), "-1.svg");
    assert_eq!(page_file_name_of("dir/doc", 9, 10), "dir/doc-10.svg");
}
