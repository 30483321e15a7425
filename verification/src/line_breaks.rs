//! Line breaks: scanning a text whose lines end in CR LF gives the same
//! lexemes, on the same lines, as scanning it with LF line ends, unless the
//! lexer meets a lone CR right before a CR LF pair where it reads line
//! breaks, or a `:` escape in front of a CR in a string literal.

use vstd::prelude::*;
use crate::lexer::{
    block_comment, is_delimiter, lex_from, lex_step, line_end, skip_blanks, spec_scan, spells3,
    spells4, string_body, word_end,
};

verus! {

/// The text with each CR LF pair replaced by LF.
pub open spec fn crlf_to_lf(s: Seq<char>) -> Seq<char>
    decreases s.len(),
{
    if s.len() == 0 {
        Seq::empty()
    } else if s.len() >= 2 && s[0] == '\r' && s[1] == '\n' {
        seq!['\n'] + crlf_to_lf(s.skip(2))
    } else {
        seq![s[0]] + crlf_to_lf(s.skip(1))
    }
}

/// Position `i` of `s` and position `j` of `t` are where the same text
/// remains, once its CR LF pairs are replaced by LF.
pub open spec fn aligned(s: Seq<char>, t: Seq<char>, i: int, j: int) -> bool {
    &&& 0 <= i <= s.len()
    &&& 0 <= j <= t.len()
    &&& crlf_to_lf(s.skip(i)) == t.skip(j)
}

/// There is a CR LF pair at `i`.
pub open spec fn crlf_at(s: Seq<char>, i: int) -> bool {
    0 <= i && i + 1 < s.len() && s[i] == '\r' && s[i + 1] == '\n'
}

/// A lone CR at `k`, if there is one there, is not followed by a CR LF
/// pair.
pub open spec fn lone_cr_safe(cs: Seq<char>, k: int) -> bool {
    (0 <= k < cs.len() && cs[k] == '\r' && !crlf_at(cs, k)) ==> !crlf_at(cs, k + 1)
}

/// The rest of a string literal from `j` on has no `:` escape in front of
/// a CR.
pub open spec fn string_safe(cs: Seq<char>, j: int) -> bool
    decreases cs.len() - j,
{
    if j < 0 || j >= cs.len() {
        true
    } else if cs[j] == ':' && j + 1 < cs.len() {
        cs[j + 1] != '\r' && string_safe(cs, j + 2)
    } else if cs[j] == '"' || cs[j] == '\n' || cs[j] == '\r' {
        true
    } else {
        string_safe(cs, j + 1)
    }
}

/// The lexer's step at `i` meets no lone CR before a CR LF pair where it
/// reads line breaks, and no `:` escape in front of a CR in a string
/// literal.
pub open spec fn step_safe(cs: Seq<char>, i: int) -> bool {
    if cs[i] == '\r' {
        lone_cr_safe(cs, i)
    } else if cs[i] == '"' {
        string_safe(cs, i + 1)
    } else if spells3(cs, i, '.', '.', '.') {
        lone_cr_safe(cs, skip_blanks(cs, i + 3))
    } else {
        true
    }
}

/// Every step of scanning `cs` from `i` on is safe.
pub open spec fn scan_safe_from(cs: Seq<char>, i: int, line: int) -> bool
    decreases cs.len() - i,
{
    if i < 0 || i >= cs.len() {
        true
    } else {
        let (e, n, l2) = lex_step(cs, i, line);
        step_safe(cs, i) && (n <= i || n > cs.len() || scan_safe_from(cs, n, l2))
    }
}

/// Every step of scanning `cs` is safe: no CR LF pair comes right after a
/// lone CR where the lexer reads line breaks (outside comments and string
/// literals, and after a line continuation), and no `:` escape in a string
/// literal stands in front of a CR.
pub open spec fn crlf_safe(cs: Seq<char>) -> bool {
    scan_safe_from(cs, 0, 1)
}

/// No `:`, the escape character of string literals, stands right before a
/// CR.
pub open spec fn no_colon_before_cr(s: Seq<char>) -> bool {
    forall|k: int| 0 <= k && k + 1 < s.len() ==> !(#[trigger] s[k] == ':' && s[k + 1] == '\r')
}

/// No CR stands right before a CR LF pair.
pub open spec fn no_cr_before_crlf(s: Seq<char>) -> bool {
    forall|k: int| 0 <= k && k + 2 < s.len() ==> !(#[trigger] s[k] == '\r' && s[k + 1] == '\r' && s[k
        + 2] == '\n')
}

proof fn lemma_step(s: Seq<char>, t: Seq<char>, i: int, j: int)
    requires
        aligned(s, t, i, j),
    ensures
        i == s.len() ==> j == t.len(),
        i < s.len() ==> j < t.len(),
        crlf_at(s, i) ==> t[j] == '\n' && aligned(s, t, i + 2, j + 1),
        i < s.len() && !crlf_at(s, i) ==> t[j] == s[i] && aligned(s, t, i + 1, j + 1),
{
    let u = s.skip(i);
    assert(t.skip(j) == crlf_to_lf(u));
    if i == s.len() {
        assert(u.len() == 0);
    } else if crlf_at(s, i) {
        assert(u[0] == '\r' && u[1] == '\n');
        assert(crlf_to_lf(u) == seq!['\n'] + crlf_to_lf(u.skip(2)));
        assert(u.skip(2) =~= s.skip(i + 2));
        assert(t.skip(j)[0] == t[j]);
        assert(t.skip(j + 1) =~= t.skip(j).skip(1));
        assert((seq!['\n'] + crlf_to_lf(u.skip(2))).skip(1) =~= crlf_to_lf(u.skip(2)));
    } else {
        assert(crlf_to_lf(u) == seq![u[0]] + crlf_to_lf(u.skip(1)));
        assert(u.skip(1) =~= s.skip(i + 1));
        assert(t.skip(j)[0] == t[j]);
        assert(t.skip(j + 1) =~= t.skip(j).skip(1));
        assert((seq![u[0]] + crlf_to_lf(u.skip(1))).skip(1) =~= crlf_to_lf(u.skip(1)));
    }
}

/// A lone CR stays a lone CR.
proof fn lemma_lone_cr(s: Seq<char>, t: Seq<char>, i: int, j: int)
    requires
        aligned(s, t, i, j),
        lone_cr_safe(s, i),
        0 <= i < s.len(),
        s[i] == '\r',
        !crlf_at(s, i),
    ensures
        t[j] == '\r',
        aligned(s, t, i + 1, j + 1),
        !(j + 1 < t.len() && t[j + 1] == '\n'),
{
    lemma_step(s, t, i, j);
    lemma_step(s, t, i + 1, j + 1);
}

/// A character other than CR or LF is at `i` exactly when it is at `j`.
proof fn lemma_char(s: Seq<char>, t: Seq<char>, i: int, j: int, a: char)
    requires
        aligned(s, t, i, j),
        a != '\r',
        a != '\n',
    ensures
        (i < s.len() && s[i] == a) == (j < t.len() && t[j] == a),
        i < s.len() && s[i] == a ==> aligned(s, t, i + 1, j + 1),
{
    lemma_step(s, t, i, j);
}

proof fn lemma_spells3(s: Seq<char>, t: Seq<char>, i: int, j: int, a: char, b: char, c: char)
    requires
        aligned(s, t, i, j),
        a != '\r' && a != '\n' && b != '\r' && b != '\n' && c != '\r' && c != '\n',
    ensures
        spells3(s, i, a, b, c) == spells3(t, j, a, b, c),
        spells3(s, i, a, b, c) ==> aligned(s, t, i + 3, j + 3),
{
    lemma_char(s, t, i, j, a);
    if i < s.len() && s[i] == a {
        lemma_char(s, t, i + 1, j + 1, b);
        if i + 1 < s.len() && s[i + 1] == b {
            lemma_char(s, t, i + 2, j + 2, c);
        }
    }
}

proof fn lemma_spells4(
    s: Seq<char>,
    t: Seq<char>,
    i: int,
    j: int,
    a: char,
    b: char,
    c: char,
    d: char,
)
    requires
        aligned(s, t, i, j),
        a != '\r' && a != '\n' && b != '\r' && b != '\n' && c != '\r' && c != '\n' && d != '\r'
            && d != '\n',
    ensures
        spells4(s, i, a, b, c, d) == spells4(t, j, a, b, c, d),
        spells4(s, i, a, b, c, d) ==> aligned(s, t, i + 4, j + 4),
{
    lemma_char(s, t, i, j, a);
    if i < s.len() && s[i] == a {
        lemma_spells3(s, t, i + 1, j + 1, b, c, d);
    }
}

proof fn lemma_word_end(s: Seq<char>, t: Seq<char>, i: int, j: int)
    requires
        aligned(s, t, i, j),
    ensures
        aligned(s, t, word_end(s, i), word_end(t, j)),
        word_end(s, i) >= i,
        word_end(t, j) >= j,
        s.subrange(i, word_end(s, i)) == t.subrange(j, word_end(t, j)),
    decreases s.len() - i,
{
    lemma_step(s, t, i, j);
    if i < s.len() && !is_delimiter(s[i]) {
        lemma_word_end(s, t, i + 1, j + 1);
        assert(s.subrange(i, word_end(s, i)) =~= seq![s[i]] + s.subrange(i + 1, word_end(s, i + 1)));
        assert(t.subrange(j, word_end(t, j)) =~= seq![t[j]] + t.subrange(j + 1, word_end(t, j + 1)));
    } else {
        assert(s.subrange(i, i) =~= t.subrange(j, j));
    }
}

proof fn lemma_skip_blanks(s: Seq<char>, t: Seq<char>, i: int, j: int)
    requires
        aligned(s, t, i, j),
    ensures
        aligned(s, t, skip_blanks(s, i), skip_blanks(t, j)),
        skip_blanks(s, i) >= i,
        skip_blanks(t, j) >= j,
    decreases s.len() - i,
{
    lemma_step(s, t, i, j);
    if i < s.len() && (s[i] == ' ' || s[i] == '\t') {
        lemma_skip_blanks(s, t, i + 1, j + 1);
    }
}

proof fn lemma_line_end(s: Seq<char>, t: Seq<char>, i: int, j: int)
    requires
        aligned(s, t, i, j),
    ensures
        aligned(s, t, line_end(s, i), line_end(t, j)),
        line_end(s, i) >= i,
        line_end(t, j) >= j,
    decreases s.len() - i,
{
    lemma_step(s, t, i, j);
    if i < s.len() && !(s[i] == '\n' || s[i] == '\r') {
        lemma_line_end(s, t, i + 1, j + 1);
    }
}

proof fn lemma_string_body(s: Seq<char>, t: Seq<char>, i: int, j: int)
    requires
        aligned(s, t, i, j),
        string_safe(s, i),
    ensures
        string_body(s, i).0 == string_body(t, j).0,
        aligned(s, t, string_body(s, i).1, string_body(t, j).1),
        string_body(s, i).1 >= i,
        string_body(t, j).1 >= j,
    decreases s.len() - i,
{
    lemma_step(s, t, i, j);
    if i < s.len() {
        if s[i] == ':' && i + 1 < s.len() {
            lemma_step(s, t, i + 1, j + 1);
            lemma_string_body(s, t, i + 2, j + 2);
        } else if s[i] != '"' && s[i] != '\n' && s[i] != '\r' {
            lemma_step(s, t, i + 1, j + 1);
            lemma_string_body(s, t, i + 1, j + 1);
        }
    }
}

proof fn lemma_block_comment(s: Seq<char>, t: Seq<char>, i: int, j: int, line: int)
    requires
        aligned(s, t, i, j),
    ensures
        block_comment(s, i, line).1 == block_comment(t, j, line).1,
        aligned(s, t, block_comment(s, i, line).0, block_comment(t, j, line).0),
        block_comment(s, i, line).0 >= i,
        block_comment(t, j, line).0 >= j,
    decreases s.len() - i,
{
    lemma_step(s, t, i, j);
    if i < s.len() {
        if crlf_at(s, i) {
            assert(!spells4(s, i, 'T', 'L', 'D', 'R'));
            assert(!spells4(s, i + 1, 'T', 'L', 'D', 'R'));
            assert(!spells4(t, j, 'T', 'L', 'D', 'R'));
            assert(block_comment(s, i, line) == block_comment(s, i + 1, line));
            assert(block_comment(s, i + 1, line) == block_comment(s, i + 2, line + 1));
            assert(block_comment(t, j, line) == block_comment(t, j + 1, line + 1));
            lemma_block_comment(s, t, i + 2, j + 1, line + 1);
        } else {
            let l2 = if s[i] == '\n' { line + 1 } else { line };
            lemma_spells4(s, t, i, j, 'T', 'L', 'D', 'R');
            if spells4(s, i, 'T', 'L', 'D', 'R') {
                lemma_line_end(s, t, i + 4, j + 4);
            } else {
                lemma_block_comment(s, t, i + 1, j + 1, l2);
            }
        }
    }
}

/// The step the lexer takes at `i` of `s` and at `j` of `t` emits the same
/// lexeme and counts the same lines, and both resume aligned.
#[verifier::spinoff_prover]
#[verifier::rlimit(40)]
proof fn lemma_lex_step_aligned(s: Seq<char>, t: Seq<char>, i: int, j: int, line: int)
    requires
        aligned(s, t, i, j),
        0 <= i < s.len(),
        step_safe(s, i),
    ensures
        lex_step(s, i, line).0 == lex_step(t, j, line).0,
        lex_step(s, i, line).2 == lex_step(t, j, line).2,
        (lex_step(s, i, line).1 <= i) == (lex_step(t, j, line).1 <= j),
        lex_step(s, i, line).1 > i ==> aligned(s, t, lex_step(s, i, line).1, lex_step(t, j, line).1),
{
    lemma_step(s, t, i, j);
    let c = s[i];
    if crlf_at(s, i) {
        assert(lex_step(s, i, line) == (Some(crate::lexer::newline_image()), i + 2, line + 1));
        assert(lex_step(t, j, line) == (Some(crate::lexer::newline_image()), j + 1, line + 1));
    } else if c == ' ' || c == '\t' || c == '\n' || c == ',' || c == '!' {
    } else if c == '\r' {
        lemma_lone_cr(s, t, i, j);
    } else {
        lemma_char(s, t, i + 1, j + 1, 'Z');
        if i + 1 < s.len() && c == '\'' && s[i + 1] == 'Z' {
        } else if c == '"' {
            lemma_string_body(s, t, i + 1, j + 1);
        } else {
            lemma_spells3(s, t, i, j, 'B', 'T', 'W');
            lemma_spells4(s, t, i, j, 'O', 'B', 'T', 'W');
            lemma_spells3(s, t, i, j, '.', '.', '.');
            if spells3(s, i, 'B', 'T', 'W') {
                lemma_line_end(s, t, i + 1, j + 1);
                assert(line_end(s, i) == line_end(s, i + 1));
                assert(line_end(t, j) == line_end(t, j + 1));
            } else if spells4(s, i, 'O', 'B', 'T', 'W') {
                lemma_block_comment(s, t, i + 4, j + 4, line);
            } else if spells3(s, i, '.', '.', '.') {
                lemma_skip_blanks(s, t, i + 3, j + 3);
                let k = skip_blanks(s, i + 3);
                let k2 = skip_blanks(t, j + 3);
                lemma_step(s, t, k, k2);
                if k < s.len() && s[k] == '\r' && !crlf_at(s, k) {
                    lemma_lone_cr(s, t, k, k2);
                }
            } else {
                lemma_word_end(s, t, i, j);
                let n = word_end(s, i);
                let n2 = word_end(t, j);
                assert(s.subrange(i, n).len() == n - i);
                assert(t.subrange(j, n2).len() == n2 - j);
            }
        }
    }
}

/// Scanning from aligned positions gives the same lexemes.
proof fn lemma_lex_from_aligned(s: Seq<char>, t: Seq<char>, i: int, j: int, line: int)
    requires
        aligned(s, t, i, j),
        scan_safe_from(s, i, line),
    ensures
        lex_from(s, i, line) == lex_from(t, j, line),
    decreases s.len() - i,
{
    lemma_step(s, t, i, j);
    if i < s.len() {
        lemma_lex_step_aligned(s, t, i, j, line);
        let (e, n, l2) = lex_step(s, i, line);
        let (e2, n2, l3) = lex_step(t, j, line);
        if n > i {
            lemma_lex_from_aligned(s, t, n, n2, l2);
        }
    }
}

/// A text scans to the same lexemes, on the same lines, as the text with
/// each CR LF pair replaced by LF, unless the lexer meets a lone CR right
/// before a CR LF pair where it reads line breaks, or a `:` escape in front
/// of a CR in a string literal: CR LF ends a line as LF does.
pub proof fn crlf_scans_as_lf(s: Seq<char>)
    requires
        crlf_safe(s),
    ensures
        spec_scan(s) == spec_scan(crlf_to_lf(s)),
{
    let t = crlf_to_lf(s);
    assert(s.skip(0) =~= s);
    assert(t.skip(0) =~= t);
    lemma_lex_from_aligned(s, t, 0, 0, 1);
}

proof fn lemma_string_safe(s: Seq<char>, j: int)
    requires
        no_colon_before_cr(s),
    ensures
        string_safe(s, j),
    decreases s.len() - j,
{
    if 0 <= j < s.len() {
        if s[j] == ':' && j + 1 < s.len() {
            lemma_string_safe(s, j + 2);
        } else if !(s[j] == '"' || s[j] == '\n' || s[j] == '\r') {
            lemma_string_safe(s, j + 1);
        }
    }
}

proof fn lemma_scan_safe(s: Seq<char>, i: int, line: int)
    requires
        no_colon_before_cr(s),
        no_cr_before_crlf(s),
    ensures
        scan_safe_from(s, i, line),
    decreases s.len() - i,
{
    if 0 <= i < s.len() {
        lemma_string_safe(s, i + 1);
        let k = skip_blanks(s, i + 3);
        if 0 <= k < s.len() && s[k] == '\r' && !crlf_at(s, k) && crlf_at(s, k + 1) {
            assert(s[k] == '\r' && s[k + 1] == '\r' && s[k + 2] == '\n');
        }
        if s[i] == '\r' && !crlf_at(s, i) && crlf_at(s, i + 1) {
            assert(s[i] == '\r' && s[i + 1] == '\r' && s[i + 2] == '\n');
        }
        let (e, n, l2) = lex_step(s, i, line);
        if n > i && n <= s.len() {
            lemma_scan_safe(s, n, l2);
        }
    }
}

/// A text in which no `:` stands right before a CR and no CR right before a
/// CR LF pair is safe to scan, so it scans as its CR LF pairs replaced by
/// LF do.
pub proof fn plain_crlf_scans_as_lf(s: Seq<char>)
    requires
        no_colon_before_cr(s),
        no_cr_before_crlf(s),
    ensures
        crlf_safe(s),
        spec_scan(s) == spec_scan(crlf_to_lf(s)),
{
    lemma_scan_safe(s, 0, 1);
    crlf_scans_as_lf(s);
}

} // verus!
