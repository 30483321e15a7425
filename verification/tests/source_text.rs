use lci::source::{remove_shebang, strip_byte_order_marks};

#[test]
fn shebang_line_becomes_spaces() {
    assert_eq!(remove_shebang("#!/usr/bin/lci\nHAI"), "              \nHAI");
}

#[test]
fn shebang_counts_bytes() {
    // 'é' takes two bytes in UTF-8.
    assert_eq!(remove_shebang("#!é\nX"), "    \nX");
}

#[test]
fn shebang_only_line_becomes_spaces() {
    assert_eq!(remove_shebang("#!/usr/bin/lci"), " ".repeat(14));
    assert_eq!(remove_shebang("#!"), "  ");
}

#[test]
fn text_without_shebang_is_kept() {
    assert_eq!(remove_shebang("HAI\n#!x\n"), "HAI\n#!x\n");
    assert_eq!(remove_shebang("#"), "#");
    assert_eq!(remove_shebang(""), "");
}

#[test]
fn removing_shebang_twice_changes_nothing_more() {
    let once = remove_shebang("#!lci -x\nHAI\n");
    assert_eq!(remove_shebang(&once), once);
}

#[test]
fn byte_order_marks_are_stripped() {
    assert_eq!(strip_byte_order_marks("\u{FEFF}HAI"), (true, "HAI".to_string()));
    assert_eq!(strip_byte_order_marks("\u{FEFF}\u{FEFF}HAI"), (true, "HAI".to_string()));
    assert_eq!(strip_byte_order_marks("HAI\u{FEFF}"), (false, "HAI\u{FEFF}".to_string()));
    assert_eq!(strip_byte_order_marks(""), (false, String::new()));
}

#[test]
fn stripping_marks_again_finds_none() {
    let (_, rest) = strip_byte_order_marks("\u{FEFF}\u{FEFF}x");
    assert_eq!(strip_byte_order_marks(&rest), (false, rest.clone()));
}
