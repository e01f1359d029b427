use binwalk::common::is_offset_safe;

#[test]
fn offsets_must_be_inside_the_data() {
    assert!(is_offset_safe(10, 0, None));
    assert!(is_offset_safe(10, 9, None));
    assert!(!is_offset_safe(10, 10, None));
    assert!(!is_offset_safe(0, 0, None));
}

#[test]
fn offsets_must_advance() {
    assert!(is_offset_safe(10, 5, Some(4)));
    assert!(!is_offset_safe(10, 5, Some(5)));
    assert!(!is_offset_safe(10, 5, Some(6)));
    assert!(!is_offset_safe(10, 12, Some(6)));
}
