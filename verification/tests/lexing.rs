use lci::lexer::{scan_buffer, scan_halts, Lexeme, LexemeList};

fn images(src: &str) -> Vec<(String, usize)> {
    assert!(scan_halts(src));
    let list = scan_buffer(src, "prog.lol").unwrap();
    list.lexemes.iter().map(|l| (l.image.clone(), l.line)).collect()
}

fn pairs(v: &[(&str, usize)]) -> Vec<(String, usize)> {
    v.iter().map(|(s, n)| (s.to_string(), *n)).collect()
}

#[test]
fn scan_small_program() {
    let src = "HAI 1.2\nVISIBLE \"HAI:)\"\nKTHXBYE";
    assert_eq!(
        images(src),
        pairs(&[
            ("HAI", 1),
            ("1.2", 1),
            ("\n", 1),
            ("VISIBLE", 2),
            ("\"HAI:)\"", 2),
            ("\n", 2),
            ("KTHXBYE", 3),
        ])
    );
}

#[test]
fn scan_records_file_name() {
    let list = scan_buffer("A B", "some.lol").unwrap();
    assert_eq!(list.lexemes.len(), 2);
    assert!(list.lexemes.iter().all(|l| l.fname == "some.lol"));
}

#[test]
fn scan_comma_is_soft_newline() {
    assert_eq!(images("A, B"), pairs(&[("A", 1), ("\n", 1), ("B", 1)]));
}

#[test]
fn scan_skips_line_comment() {
    assert_eq!(images("A BTW a remark\nB"), pairs(&[("A", 1), ("\n", 1), ("B", 2)]));
}

#[test]
fn scan_skips_block_comment_and_counts_its_lines() {
    assert_eq!(
        images("A OBTW x\ny\nTLDR z\nB"),
        pairs(&[("A", 1), ("\n", 3), ("B", 4)])
    );
}

#[test]
fn scan_joins_continued_lines() {
    assert_eq!(images("A ...\nB"), pairs(&[("A", 1), ("B", 2)]));
}

#[test]
fn scan_carriage_returns() {
    assert_eq!(images("A\r\nB\rC"), pairs(&[("A", 1), ("\n", 1), ("B", 2), ("\n", 2), ("C", 3)]));
}

#[test]
fn scan_bang_and_apostrophe_z() {
    assert_eq!(
        images("X'Z Y!"),
        pairs(&[("X", 1), ("'Z", 1), ("Y", 1), ("!", 1)])
    );
}

#[test]
fn scan_unclosed_string_stops_at_line_end() {
    assert_eq!(images("\"abc\nB"), pairs(&[("\"abc", 1), ("\n", 1), ("B", 2)]));
}

#[test]
fn scan_string_keeps_escapes_and_delimiters() {
    assert_eq!(images("\"a, b:\" c\" D"), pairs(&[("\"a, b:\" c\"", 1), ("D", 1)]));
}

#[test]
fn scan_empty_buffer() {
    assert_eq!(scan_buffer("", "f").unwrap().lexemes.len(), 0);
}

#[test]
fn scan_halts_except_on_lone_apostrophe() {
    assert!(!scan_halts("A 'B"));
    assert!(scan_halts("A 'Z"));
    assert!(scan_halts("\"it's\""));
    assert!(scan_halts("BTW it's fine"));
}

#[test]
fn scan_lines_never_decrease() {
    let src = "HAI\nA, B ...\nC OBTW\n\nTLDR\nD\r\nE";
    let list = scan_buffer(src, "f").unwrap();
    let lines: Vec<usize> = list.lexemes.iter().map(|l| l.line).collect();
    assert!(lines.iter().all(|&l| l >= 1));
    assert!(lines.windows(2).all(|w| w[0] <= w[1]));
    assert!(list.lexemes.iter().all(|l| !l.image.is_empty()));
}

#[test]
fn lexeme_new_keeps_fields() {
    let l = Lexeme::new("WORD".to_string(), "f.lol".to_string(), 7);
    assert_eq!(l.image, "WORD");
    assert_eq!(l.fname, "f.lol");
    assert_eq!(l.line, 7);
}

#[test]
fn lexeme_list_add_appends() {
    let mut list = LexemeList::new();
    assert!(list.lexemes.is_empty());
    list.add(Lexeme::new("A".to_string(), "f".to_string(), 1));
    list.add(Lexeme::new("B".to_string(), "f".to_string(), 2));
    assert_eq!(list.lexemes.len(), 2);
    assert_eq!(list.lexemes[1].image, "B");
    let d = LexemeList::default();
    assert!(d.lexemes.is_empty());
}

#[test]
fn scan_crlf_same_as_lf() {
    let crlf = "HAI 1.2\r\nVISIBLE \"a b\" BTW x\r\nOBTW\r\n c\r\nTLDR\r\nX ...\r\nY, Z\r\nKTHXBYE";
    let lf = crlf.replace("\r\n", "\n");
    assert_eq!(images(crlf), images(&lf));
    // A CR right before a CR LF pair is a line break of its own.
    assert_eq!(images("A\r\r\nB"), pairs(&[("A", 1), ("\n", 1), ("\n", 2), ("B", 3)]));
}

#[test]
fn scan_crlf_same_as_lf_inside_block_comment() {
    let crlf = "A OBTW\r\r\nx\r\nTLDR\r\nB";
    let lf = crlf.replace("\r\n", "\n");
    assert_eq!(images(crlf), images(&lf));
    assert_eq!(images(crlf), pairs(&[("A", 1), ("\n", 3), ("B", 4)]));
}
