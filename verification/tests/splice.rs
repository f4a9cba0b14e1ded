use pathx::splice::substitute;
use pathx::text::{can_slice, slice};

fn owned(items: &[&str]) -> Vec<String> {
    items.iter().map(|s| s.to_string()).collect()
}

#[test]
fn substitute_replaces_each_span() {
    let spans = vec![Some((0, 1)), Some((2, 4))];
    assert_eq!(
        substitute("abcdef", &spans, &owned(&["X", "YZW"])),
        Some("XbYZWef".to_string())
    );
}

#[test]
fn substitute_without_spans_copies_the_text() {
    assert_eq!(substitute("abc", &[], &vec![]), Some("abc".to_string()));
    assert_eq!(substitute("", &[], &vec![]), Some(String::new()));
}

#[test]
fn substitute_does_not_use_values_beyond_the_spans() {
    assert_eq!(
        substitute("abc", &[Some((1, 2))], &owned(&["-", "unused"])),
        Some("a-c".to_string())
    );
}

#[test]
fn substitute_takes_empty_and_touching_spans() {
    let spans = vec![Some((0, 0)), Some((0, 2)), Some((2, 2)), Some((3, 3))];
    assert_eq!(
        substitute("abc", &spans, &owned(&["1", "2", "3", "4"])),
        Some("123c4".to_string())
    );
}

#[test]
fn substitute_needs_a_value_for_every_span() {
    assert_eq!(
        substitute("abc", &[Some((0, 1)), Some((1, 2))], &owned(&["x"])),
        None
    );
}

#[test]
fn substitute_needs_every_span_present() {
    assert_eq!(
        substitute("abc", &[Some((0, 1)), None], &owned(&["x", "y"])),
        None
    );
}

#[test]
fn substitute_needs_spans_in_order() {
    assert_eq!(
        substitute("abc", &[Some((1, 2)), Some((0, 1))], &owned(&["x", "y"])),
        None
    );
    assert_eq!(
        substitute("abc", &[Some((0, 2)), Some((1, 3))], &owned(&["x", "y"])),
        None
    );
}

#[test]
fn substitute_needs_spans_inside_the_text() {
    assert_eq!(substitute("abc", &[Some((2, 4))], &owned(&["x"])), None);
    assert_eq!(substitute("abc", &[Some((2, 1))], &owned(&["x"])), None);
    assert_eq!(substitute("abc", &[Some((4, 4))], &owned(&["x"])), None);
}

#[test]
fn substitute_needs_spans_between_characters() {
    assert_eq!(substitute("aéb", &[Some((1, 2))], &owned(&["x"])), None);
    assert_eq!(substitute("aéb", &[Some((2, 3))], &owned(&["x"])), None);
    assert_eq!(
        substitute("aéb", &[Some((1, 3))], &owned(&["x"])),
        Some("axb".to_string())
    );
}

#[test]
fn can_slice_tells_whether_a_range_is_a_slice() {
    assert!(can_slice("aéb", 0, 4));
    assert!(can_slice("aéb", 1, 3));
    assert!(can_slice("aéb", 3, 3));
    assert!(!can_slice("aéb", 1, 2));
    assert!(!can_slice("aéb", 2, 4));
    assert!(!can_slice("aéb", 3, 1));
    assert!(!can_slice("aéb", 0, 5));
}

#[test]
fn slice_takes_the_bytes_between() {
    assert_eq!(slice("aéb", 1, 3), "é");
    assert_eq!(slice("aéb", 0, 4), "aéb");
    assert_eq!(slice("aéb", 4, 4), "");
}
