use pathx::options::scan_options;

fn options(items: &[&str]) -> Vec<String> {
    items.iter().map(|s| s.to_string()).collect()
}

#[test]
fn scan_options_finds_the_templates() {
    let layout = scan_options(&options(&[
        "--output", "out[00].mkv", "--title", "x", "(", "a[00].mkv", ")", "(", "b[00].mkv", ")",
    ]))
    .unwrap();
    assert_eq!(layout.output, Some(1));
    assert_eq!(layout.inputs, vec![5, 8]);
}

#[test]
fn scan_options_of_nothing() {
    let layout = scan_options(&vec![]).unwrap();
    assert_eq!(layout.output, None);
    assert_eq!(layout.inputs, Vec::<usize>::new());
}

#[test]
fn scan_options_takes_the_last_output() {
    let layout = scan_options(&options(&["--output", "a", "--output", "b"])).unwrap();
    assert_eq!(layout.output, Some(3));
}

#[test]
fn scan_options_reads_no_marker_in_a_template() {
    let layout = scan_options(&options(&["(", "(", "--output", "--output", "(", "x"])).unwrap();
    assert_eq!(layout.output, Some(3));
    assert_eq!(layout.inputs, vec![1, 5]);
}

#[test]
fn scan_options_misses_the_template_behind_a_last_marker() {
    assert!(scan_options(&options(&["--output", "a", "("])).is_none());
    assert!(scan_options(&options(&["--output"])).is_none());
    assert!(scan_options(&options(&["(", "a", "--output"])).is_none());
}
