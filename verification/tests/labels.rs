use copper_mind::labels::labels_in_range;

#[test]
fn labels_below_the_output_size_pass() {
    assert!(labels_in_range(&[0, 9, 3, 9], 10));
}

#[test]
fn label_equal_to_the_output_size_fails() {
    assert!(!labels_in_range(&[0, 1, 10], 10));
}

#[test]
fn one_bad_label_anywhere_fails() {
    assert!(!labels_in_range(&[12, 1, 2], 10));
    assert!(!labels_in_range(&[1, 12, 2], 10));
}

#[test]
fn no_labels_always_pass() {
    assert!(labels_in_range(&[], 0));
}

#[test]
fn nothing_fits_zero_outputs() {
    assert!(!labels_in_range(&[0], 0));
}
