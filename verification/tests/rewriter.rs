use styled::rewrite::{fix_px_units, rewrite_style, substitute_placeholder, swap_scoped_selectors};

#[test]
fn substitute_none() {
    let out = substitute_placeholder("a { color: red; }", "stylist-", "styled-1");
    assert_eq!(out, "a { color: red; }");
}

#[test]
fn substitute_one() {
    let out = substitute_placeholder(".stylist-abc123 { color: blue; }", "stylist-", "styled-1");
    assert_eq!(out, ".styled-1 { color: blue; }");
}

#[test]
fn substitute_many() {
    let out = substitute_placeholder(
        ".stylist-a1 .stylist-b2, .stylist-c3 div { }",
        "stylist-",
        "styled-9",
    );
    assert_eq!(out, ".styled-9 .styled-9, .styled-9 div { }");
}

#[test]
fn substitute_stops_at_non_alphanumeric() {
    let out = substitute_placeholder(".stylist-abc123-10px { }", "stylist-", "styled-1");
    assert_eq!(out, ".styled-1-10px { }");
}

#[test]
fn substitute_needs_suffix() {
    // A bare prefix with no alphanumeric run after it is not a placeholder.
    let out = substitute_placeholder(".stylist- { }", "stylist-", "styled-1");
    assert_eq!(out, ".stylist- { }");
}

#[test]
fn pixel_fix_inserts_space() {
    let out = fix_px_units("margin: 10px-5px;");
    assert_eq!(out, "margin: 10px -5px;");
    assert!(out.contains("10px -5px"));
}

#[test]
fn pixel_fix_leaves_plain_value() {
    let out = fix_px_units("width: 10px;");
    assert_eq!(out, "width: 10px;");
}

#[test]
fn pixel_fix_requires_digit() {
    let out = fix_px_units("font: aapx-5px;");
    assert_eq!(out, "font: aapx-5px;");
}

#[test]
fn pixel_fix_chain() {
    let out = fix_px_units("padding: 1px-2px-3px;");
    assert_eq!(out, "padding: 1px -2px -3px;");
}

#[test]
fn swap_repeated_scoping_classes() {
    let out = swap_scoped_selectors(".styled-7 .styled-7 .icon { color: red; }", "styled-7");
    assert_eq!(out, ".icon.styled-7.styled-7 { color: red; }");
}

#[test]
fn swap_single_scoping_class() {
    let out = swap_scoped_selectors(".styled-42 button { color: red; }", "styled-42");
    assert_eq!(out, "button.styled-42 { color: red; }");
}

#[test]
fn swap_leaves_block_alone() {
    let out = swap_scoped_selectors(".styled-42 { color: red; }", "styled-42");
    assert_eq!(out, ".styled-42 { color: red; }");
}

#[test]
fn swap_leaves_other_classes_alone() {
    let out = swap_scoped_selectors(".other .icon { color: red; }", "styled-42");
    assert_eq!(out, ".other .icon { color: red; }");
}

#[test]
fn rewrite_end_to_end() {
    let input = ".stylist-abc123 { color: blue; } .stylist-abc123-10px-5px { margin: 10px-5px; }";
    let out = rewrite_style(input, "stylist-", "styled-1");
    assert_eq!(
        out,
        ".styled-1 { color: blue; } .styled-1-10px -5px { margin: 10px -5px; }"
    );
    assert!(!out.contains("stylist-abc123"));
    assert!(out.contains("10px -5px"));
}

#[test]
fn rewrite_without_defect_only_substitutes() {
    let input = ".stylist-abc { color: red; }";
    let out = rewrite_style(input, "stylist-", "styled-2");
    assert_eq!(out, substitute_placeholder(input, "stylist-", "styled-2"));
    assert_eq!(out, ".styled-2 { color: red; }");
}

#[test]
fn rewrite_applies_swap_after_substitution() {
    let input = ".stylist-abc123 .stylist-abc123 button { border: 0; }";
    let out = rewrite_style(input, "stylist-", "styled-3");
    assert_eq!(out, "button.styled-3.styled-3 { border: 0; }");
}
