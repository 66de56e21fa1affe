use teamdate::text::{push_blanks, push_centered, push_left_aligned, push_right_aligned};

#[test]
fn blanks_are_appended() {
    let mut out = String::from("a");
    push_blanks(&mut out, 2);
    push_blanks(&mut out, 0);
    out.push('b');
    push_blanks(&mut out, 1);
    assert_eq!(out, "a  b ");
}

#[test]
fn right_aligned_pads_on_the_left() {
    let mut out = String::from("[");
    push_right_aligned(&mut out, "abc", 6);
    out.push(']');
    assert_eq!(out, "[   abc]");
}

#[test]
fn left_aligned_pads_on_the_right() {
    let mut out = String::from("[");
    push_left_aligned(&mut out, "abc", 6);
    out.push(']');
    assert_eq!(out, "[abc   ]");
}

#[test]
fn centered_gives_the_odd_blank_to_the_right() {
    let mut out = String::new();
    push_centered(&mut out, "a", 4);
    assert_eq!(out, " a  ");
    let mut even = String::new();
    push_centered(&mut even, "ab", 6);
    assert_eq!(even, "  ab  ");
}

#[test]
fn a_text_wider_than_its_cell_is_left_as_it_is() {
    let mut right = String::new();
    push_right_aligned(&mut right, "abcdef", 3);
    assert_eq!(right, "abcdef");
    let mut left = String::new();
    push_left_aligned(&mut left, "abcdef", 6);
    assert_eq!(left, "abcdef");
    let mut middle = String::new();
    push_centered(&mut middle, "abcdef", 0);
    assert_eq!(middle, "abcdef");
}

#[test]
fn padding_counts_characters() {
    let mut out = String::new();
    push_right_aligned(&mut out, "Zoë", 5);
    assert_eq!(out, "  Zoë");
}
