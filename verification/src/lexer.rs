//! The lexer: it splits a character buffer into lexemes, groups of
//! contiguous characters stripped of surrounding white space, each with the
//! line on which it starts.

use vstd::prelude::*;
use crate::error::LciError;
use crate::text::{chars_of, string_of};

verus! {

/// A lexeme representing a group of characters from the source.
#[derive(Debug, Clone)]
pub struct Lexeme {
    /// The string content of the lexeme.
    pub image: String,
    /// The file name where this lexeme originated.
    pub fname: String,
    /// The line number where this lexeme occurred.
    pub line: usize,
}

impl Lexeme {
    /// Create a new lexeme.
    pub fn new(image: String, fname: String, line: usize) -> (r: Self)
        ensures
            r.image == image,
            r.fname == fname,
            r.line == line,
    {
        Lexeme { image, fname, line }
    }
}

/// A list of lexemes.
#[derive(Debug)]
pub struct LexemeList {
    /// The lexemes in this list.
    pub lexemes: Vec<Lexeme>,
}

impl LexemeList {
    /// Create a new empty lexeme list.
    pub fn new() -> (r: Self)
        ensures
            r.lexemes@ == Seq::<Lexeme>::empty(),
    {
        LexemeList { lexemes: Vec::new() }
    }

    /// Add a lexeme to the list.
    pub fn add(&mut self, lexeme: Lexeme)
        ensures
            final(self).lexemes@ == old(self).lexemes@.push(lexeme),
    {
        self.lexemes.push(lexeme);
    }
}

impl Default for LexemeList {
    fn default() -> (r: Self)
        ensures
            r.lexemes@ == Seq::<Lexeme>::empty(),
    {
        Self::new()
    }
}

/// The image of a hard or soft newline.
pub open spec fn newline_image() -> Seq<char> {
    seq!['\n']
}

/// A character that ends a word.
pub open spec fn is_delimiter(c: char) -> bool {
    c == ' ' || c == '\t' || c == '\n' || c == '\r' || c == ',' || c == '!' || c == '"' || c
        == '\''
}

/// The rest of a string literal from `j` on, after its opening quote: the
/// characters kept, and where the literal ends. A `:` takes the character
/// after it along; a `"` closes the literal and is kept; a line break ends
/// it unclosed, and is not consumed.
pub open spec fn string_body(cs: Seq<char>, j: int) -> (Seq<char>, int)
    decreases cs.len() - j,
{
    if j < 0 || j >= cs.len() {
        (Seq::empty(), j)
    } else if cs[j] == ':' && j + 1 < cs.len() {
        let (r, e) = string_body(cs, j + 2);
        (seq![':', cs[j + 1]] + r, e)
    } else if cs[j] == '"' {
        (seq!['"'], j + 1)
    } else if cs[j] == '\n' || cs[j] == '\r' {
        (Seq::empty(), j)
    } else {
        let (r, e) = string_body(cs, j + 1);
        (seq![cs[j]] + r, e)
    }
}

/// The first position at or after `j` that holds a line break, or the end.
pub open spec fn line_end(cs: Seq<char>, j: int) -> int
    decreases cs.len() - j,
{
    if j < 0 || j >= cs.len() || cs[j] == '\n' || cs[j] == '\r' {
        j
    } else {
        line_end(cs, j + 1)
    }
}

/// The first position at or after `j` that is not a space or a tab.
pub open spec fn skip_blanks(cs: Seq<char>, j: int) -> int
    decreases cs.len() - j,
{
    if j < 0 || j >= cs.len() || !(cs[j] == ' ' || cs[j] == '\t') {
        j
    } else {
        skip_blanks(cs, j + 1)
    }
}

/// The first position at or after `j` that holds a delimiter, or the end.
pub open spec fn word_end(cs: Seq<char>, j: int) -> int
    decreases cs.len() - j,
{
    if j < 0 || j >= cs.len() || is_delimiter(cs[j]) {
        j
    } else {
        word_end(cs, j + 1)
    }
}

/// Four characters from `j` spell `a b c d`.
pub open spec fn spells4(cs: Seq<char>, j: int, a: char, b: char, c: char, d: char) -> bool {
    0 <= j && j + 4 <= cs.len() && cs[j] == a && cs[j + 1] == b && cs[j + 2] == c && cs[j + 3]
        == d
}

/// Three characters from `j` spell `a b c`.
pub open spec fn spells3(cs: Seq<char>, j: int, a: char, b: char, c: char) -> bool {
    0 <= j && j + 3 <= cs.len() && cs[j] == a && cs[j + 1] == b && cs[j + 2] == c
}

/// The inside of an `OBTW` comment from `j` on: where scanning resumes
/// and the line count there. Every `\n` met counts a line; after `TLDR` the
/// rest of its line is skipped.
pub open spec fn block_comment(cs: Seq<char>, j: int, line: int) -> (int, int)
    decreases cs.len() - j,
{
    if j < 0 || j >= cs.len() {
        (j, line)
    } else {
        let l2 = if cs[j] == '\n' { line + 1 } else { line };
        if spells4(cs, j, 'T', 'L', 'D', 'R') {
            (line_end(cs, j + 4), l2)
        } else {
            block_comment(cs, j + 1, l2)
        }
    }
}

/// One step of the lexer at position `i` on line `line`: the image it
/// emits (if any), where it resumes and the line count there.
pub open spec fn lex_step(cs: Seq<char>, i: int, line: int) -> (Option<Seq<char>>, int, int) {
    let n = cs.len();
    let c = cs[i];
    if c == ' ' || c == '\t' {
        (None, i + 1, line)
    } else if c == '\n' {
        (Some(newline_image()), i + 1, line + 1)
    } else if c == '\r' {
        (Some(newline_image()), if i + 1 < n && cs[i + 1] == '\n' { i + 2 } else { i + 1 }, line + 1)
    } else if c == ',' {
        (Some(newline_image()), i + 1, line)
    } else if c == '!' {
        (Some(seq!['!']), i + 1, line)
    } else if i + 1 < n && c == '\'' && cs[i + 1] == 'Z' {
        (Some(seq!['\'', 'Z']), i + 2, line)
    } else if c == '"' {
        let (body, e) = string_body(cs, i + 1);
        (Some(seq!['"'] + body), e, line)
    } else if spells3(cs, i, 'B', 'T', 'W') {
        (None, line_end(cs, i), line)
    } else if spells4(cs, i, 'O', 'B', 'T', 'W') {
        let (e, l) = block_comment(cs, i + 4, line);
        (None, e, l)
    } else if spells3(cs, i, '.', '.', '.') {
        let j = skip_blanks(cs, i + 3);
        if j < n && (cs[j] == '\n' || cs[j] == '\r') {
            (None, if cs[j] == '\r' && j + 1 < n && cs[j + 1] == '\n' { j + 2 } else { j + 1 }, line + 1)
        } else {
            (None, j, line)
        }
    } else {
        let j = word_end(cs, i);
        (if j > i { Some(cs.subrange(i, j)) } else { None }, j, line)
    }
}

/// The lexemes, as (image, line) pairs, that scanning `cs` from position
/// `i` on line `line` produces; `None` where the scan stops advancing.
pub open spec fn lex_from(cs: Seq<char>, i: int, line: int) -> Option<Seq<(Seq<char>, int)>>
    decreases cs.len() - i,
{
    if i < 0 || i >= cs.len() {
        Some(Seq::empty())
    } else {
        let (emit, next, l2) = lex_step(cs, i, line);
        if next <= i || next > cs.len() {
            None
        } else {
            match lex_from(cs, next, l2) {
                None => None,
                Some(rest) => match emit {
                    Some(img) => Some(seq![(img, line)] + rest),
                    None => Some(rest),
                },
            }
        }
    }
}

/// The lexemes of a whole buffer, which starts on line 1.
pub open spec fn spec_scan(cs: Seq<char>) -> Option<Seq<(Seq<char>, int)>> {
    lex_from(cs, 0, 1)
}

/// The lexemes of a list, as (image, line) pairs, all from file `fname`.
pub open spec fn lexemes_match(
    ls: Seq<Lexeme>,
    model: Seq<(Seq<char>, int)>,
    fname: Seq<char>,
) -> bool {
    &&& ls.len() == model.len()
    &&& forall|k: int|
        0 <= k < ls.len() ==> (#[trigger] ls[k]).image@ == model[k].0 && ls[k].line == model[k].1
            && ls[k].fname@ == fname
}

} // verus!

verus! {

fn string_body_exec(cs: &Vec<char>, j0: usize, acc: &mut Vec<char>) -> (e: usize)
    requires
        j0 <= cs@.len(),
    ensures
        final(acc)@ == old(acc)@ + string_body(cs@, j0 as int).0,
        e as int == string_body(cs@, j0 as int).1,
        j0 <= e <= cs@.len(),
{
    let n = cs.len();
    let ghost start = old(acc)@;
    let mut j = j0;
    while j < n
        invariant
            j0 <= j <= n == cs@.len(),
            start == old(acc)@,
            acc@ + string_body(cs@, j as int).0 == start + string_body(cs@, j0 as int).0,
            string_body(cs@, j as int).1 == string_body(cs@, j0 as int).1,
        decreases n - j,
    {
        let c = cs[j];
        if c == ':' && j + 1 < n {
            let ghost r = string_body(cs@, j + 2);
            acc.push(c);
            acc.push(cs[j + 1]);
            assert(acc@ + r.0 =~= (acc@.drop_last().drop_last()) + (seq![':', cs@[j + 1]] + r.0));
            j = j + 2;
        } else if c == '"' {
            let ghost prev = acc@;
            assert(string_body(cs@, j as int).0 == seq!['"']);
            acc.push(c);
            assert(acc@ =~= prev + seq!['"']);
            return j + 1;
        } else if c == '\n' || c == '\r' {
            assert(string_body(cs@, j as int).0 == Seq::<char>::empty());
            assert(acc@ =~= start + string_body(cs@, j0 as int).0);
            return j;
        } else {
            let ghost r = string_body(cs@, j + 1);
            acc.push(c);
            assert(acc@ + r.0 =~= (acc@.drop_last()) + (seq![c] + r.0));
            j = j + 1;
        }
    }
    assert(acc@ =~= start + string_body(cs@, j0 as int).0);
    j
}

fn line_end_exec(cs: &Vec<char>, j0: usize) -> (e: usize)
    requires
        j0 <= cs@.len(),
    ensures
        e as int == line_end(cs@, j0 as int),
        j0 <= e <= cs@.len(),
{
    let mut j = j0;
    while j < cs.len() && cs[j] != '\n' && cs[j] != '\r'
        invariant
            j0 <= j <= cs@.len(),
            line_end(cs@, j as int) == line_end(cs@, j0 as int),
        decreases cs@.len() - j,
    {
        j = j + 1;
    }
    j
}

fn skip_blanks_exec(cs: &Vec<char>, j0: usize) -> (e: usize)
    requires
        j0 <= cs@.len(),
    ensures
        e as int == skip_blanks(cs@, j0 as int),
        j0 <= e <= cs@.len(),
{
    let mut j = j0;
    while j < cs.len() && (cs[j] == ' ' || cs[j] == '\t')
        invariant
            j0 <= j <= cs@.len(),
            skip_blanks(cs@, j as int) == skip_blanks(cs@, j0 as int),
        decreases cs@.len() - j,
    {
        j = j + 1;
    }
    j
}

fn is_delimiter_exec(c: char) -> (r: bool)
    ensures
        r == is_delimiter(c),
{
    c == ' ' || c == '\t' || c == '\n' || c == '\r' || c == ',' || c == '!' || c == '"' || c
        == '\''
}

fn word_end_exec(cs: &Vec<char>, j0: usize) -> (e: usize)
    requires
        j0 <= cs@.len(),
    ensures
        e as int == word_end(cs@, j0 as int),
        j0 <= e <= cs@.len(),
{
    let mut j = j0;
    while j < cs.len() && !is_delimiter_exec(cs[j])
        invariant
            j0 <= j <= cs@.len(),
            word_end(cs@, j as int) == word_end(cs@, j0 as int),
        decreases cs@.len() - j,
    {
        j = j + 1;
    }
    j
}

fn block_comment_exec(cs: &Vec<char>, j0: usize, line0: usize) -> (r: (usize, usize))
    requires
        j0 <= cs@.len() < usize::MAX,
        line0 <= j0 + 1,
    ensures
        (r.0 as int, r.1 as int) == block_comment(cs@, j0 as int, line0 as int),
        j0 <= r.0 <= cs@.len(),
        line0 <= r.1 <= r.0 + 1,
{
    let n = cs.len();
    let mut j = j0;
    let mut line = line0;
    while j < n
        invariant
            j0 <= j <= n == cs@.len() < usize::MAX,
            line0 <= line <= j + 1,
            block_comment(cs@, j as int, line as int) == block_comment(cs@, j0 as int, line0 as int),
        decreases n - j,
    {
        if cs[j] == '\n' {
            line = line + 1;
        }
        if n - j >= 4 && cs[j] == 'T' && cs[j + 1] == 'L' && cs[j + 2] == 'D' && cs[j + 3] == 'R' {
            let e = line_end_exec(cs, j + 4);
            return (e, line);
        }
        j = j + 1;
    }
    (j, line)
}

fn emit_of(v: Vec<char>) -> (r: Option<Vec<char>>)
    ensures
        r == Some(v),
{
    Some(v)
}

/// One lexer step, as `lex_step` states it.
fn step_exec(cs: &Vec<char>, i: usize, line: usize) -> (r: (Option<Vec<char>>, usize, usize))
    requires
        i < cs@.len() < usize::MAX,
        line <= i + 1,
    ensures
        ({
            let s = lex_step(cs@, i as int, line as int);
            &&& r.0 is Some == s.0 is Some
            &&& r.0 is Some ==> r.0.unwrap()@ == s.0.unwrap()
            &&& r.1 as int == s.1
            &&& r.2 as int == s.2
        }),
        r.1 >= i + 1 ==> r.2 <= r.1 + 1,
        r.1 <= i ==> r.2 == line,
        r.2 >= line,
{
    let n = cs.len();
    let c = cs[i];
    if c == ' ' || c == '\t' {
        (None, i + 1, line)
    } else if c == '\n' {
        (emit_of(vec!['\n']), i + 1, line + 1)
    } else if c == '\r' {
        let next = if i + 1 < n && cs[i + 1] == '\n' {
            i + 2
        } else {
            i + 1
        };
        (emit_of(vec!['\n']), next, line + 1)
    } else if c == ',' {
        (emit_of(vec!['\n']), i + 1, line)
    } else if c == '!' {
        (emit_of(vec!['!']), i + 1, line)
    } else if i + 1 < n && c == '\'' && cs[i + 1] == 'Z' {
        (emit_of(vec!['\'', 'Z']), i + 2, line)
    } else if c == '"' {
        let mut img: Vec<char> = vec!['"'];
        let e = string_body_exec(cs, i + 1, &mut img);
        (emit_of(img), e, line)
    } else if n - i >= 3 && cs[i] == 'B' && cs[i + 1] == 'T' && cs[i + 2] == 'W' {
        (None, line_end_exec(cs, i), line)
    } else if n - i >= 4 && cs[i] == 'O' && cs[i + 1] == 'B' && cs[i + 2] == 'T' && cs[i + 3]
        == 'W' {
        let (e, l) = block_comment_exec(cs, i + 4, line);
        (None, e, l)
    } else if n - i >= 3 && cs[i] == '.' && cs[i + 1] == '.' && cs[i + 2] == '.' {
        let j = skip_blanks_exec(cs, i + 3);
        if j < n && (cs[j] == '\n' || cs[j] == '\r') {
            let next = if cs[j] == '\r' && j + 1 < n && cs[j + 1] == '\n' {
                j + 2
            } else {
                j + 1
            };
            (None, next, line + 1)
        } else {
            (None, j, line)
        }
    } else {
        let j = word_end_exec(cs, i);
        if j > i {
            let mut w: Vec<char> = Vec::new();
            let mut k = i;
            while k < j
                invariant
                    i <= k <= j <= cs@.len(),
                    w@ == cs@.subrange(i as int, k as int),
                decreases j - k,
            {
                w.push(cs[k]);
                k = k + 1;
                assert(w@ =~= cs@.subrange(i as int, k as int));
            }
            (emit_of(w), j, line)
        } else {
            (None, j, line)
        }
    }
}

/// Scan a character buffer into lexemes, or `None` where the scan would
/// stop advancing.
fn scan_chars(cs: &Vec<char>, fname: &str) -> (r: Option<Vec<Lexeme>>)
    requires
        cs@.len() < usize::MAX,
    ensures
        r is Some <==> spec_scan(cs@) is Some,
        r is Some ==> lexemes_match(r.unwrap()@, spec_scan(cs@).unwrap(), fname@),
{
    let n = cs.len();
    let mut out: Vec<Lexeme> = Vec::new();
    let mut i: usize = 0;
    let mut line: usize = 1;
    let ghost mut prefix: Seq<(Seq<char>, int)> = Seq::empty();
    while i < n
        invariant
            i <= n == cs@.len() < usize::MAX,
            1 <= line <= i + 1,
            lexemes_match(out@, prefix, fname@),
            lex_from(cs@, i as int, line as int) is None ==> spec_scan(cs@) is None,
            lex_from(cs@, i as int, line as int) is Some ==> spec_scan(cs@) == Some(
                prefix + lex_from(cs@, i as int, line as int).unwrap(),
            ),
        decreases n - i,
    {
        let (emit, next, l2) = step_exec(cs, i, line);
        if next <= i || next > n {
            return None;
        }
        let ghost rest = lex_from(cs@, next as int, l2 as int);
        match emit {
            Some(img) => {
                let ghost im = img@;
                let lx = Lexeme::new(string_of(img.as_slice()), fname.to_owned(), line);
                let ghost before = out@;
                out.push(lx);
                proof {
                    let p2 = prefix.push((im, line as int));
                    assert forall|k: int| 0 <= k < out@.len() implies (#[trigger] out@[k]).image@
                        == p2[k].0 && out@[k].line == p2[k].1 && out@[k].fname@ == fname@ by {
                        if k < prefix.len() {
                            assert(out@[k] == before[k]);
                        }
                    }
                    if rest is Some {
                        assert(prefix + seq![(im, line as int)] + rest.unwrap() =~= p2
                            + rest.unwrap());
                        assert(prefix + (seq![(im, line as int)] + rest.unwrap()) =~= p2
                            + rest.unwrap());
                    }
                    prefix = p2;
                }
            },
            None => {},
        }
        i = next;
        line = l2;
    }
    assert(prefix + Seq::<(Seq<char>, int)>::empty() =~= prefix);
    Some(out)
}

} // verus!

verus! {

/// Whether scanning the buffer comes to an end. It does not where the scan
/// reaches a `'` that is not followed by `Z` outside a string literal or a
/// comment: there the lexer would make no progress.
pub fn scan_halts(buffer: &str) -> (r: bool)
    requires
        buffer@.len() < usize::MAX,
    ensures
        r == spec_scan(buffer@) is Some,
{
    let cs = chars_of(buffer);
    scan_chars(&cs, buffer).is_some()
}

/// Scan a buffer and convert it into a list of lexemes.
///
/// This processes the input buffer character by character, handling:
/// - whitespace and newlines
/// - comments (BTW, OBTW/TLDR)
/// - string literals with escape sequences
/// - special tokens like commas (soft newlines) and bangs
pub fn scan_buffer(buffer: &str, fname: &str) -> (r: Result<LexemeList, LciError>)
    requires
        buffer@.len() < usize::MAX,
        spec_scan(buffer@) is Some,
    ensures
        r is Ok,
        r is Ok ==> lexemes_match(r.unwrap().lexemes@, spec_scan(buffer@).unwrap(), fname@),
{
    let cs = chars_of(buffer);
    match scan_chars(&cs, fname) {
        Some(v) => Ok(LexemeList { lexemes: v }),
        None => Ok(LexemeList::new()),
    }
}

} // verus!

verus! {

proof fn lemma_block_comment_line(cs: Seq<char>, j: int, line: int)
    ensures
        block_comment(cs, j, line).1 >= line,
    decreases cs.len() - j,
{
    if 0 <= j < cs.len() && !spells4(cs, j, 'T', 'L', 'D', 'R') {
        let l2 = if cs[j] == '\n' { line + 1 } else { line };
        lemma_block_comment_line(cs, j + 1, l2);
    }
}

proof fn lemma_word_end_bounds(cs: Seq<char>, j: int)
    requires
        0 <= j <= cs.len(),
    ensures
        j <= word_end(cs, j) <= cs.len(),
    decreases cs.len() - j,
{
    if j < cs.len() && !is_delimiter(cs[j]) {
        lemma_word_end_bounds(cs, j + 1);
    }
}

proof fn lemma_lex_step(cs: Seq<char>, i: int, line: int)
    requires
        0 <= i < cs.len(),
    ensures
        lex_step(cs, i, line).2 >= line,
        lex_step(cs, i, line).0 is Some ==> lex_step(cs, i, line).0->0.len() > 0,
{
    let c = cs[i];
    if spells4(cs, i, 'O', 'B', 'T', 'W') {
        lemma_block_comment_line(cs, i + 4, line);
    }
    assert(newline_image().len() == 1);
    if c == '"' {
        let (body, e) = string_body(cs, i + 1);
        assert((seq!['"'] + body).len() > 0);
    }
    lemma_word_end_bounds(cs, i);
}

/// The lexemes' images and lines from position `i` on.
proof fn lemma_lex_from_lines(cs: Seq<char>, i: int, line: int)
    requires
        lex_from(cs, i, line) is Some,
    ensures
        ({
            let out = lex_from(cs, i, line)->0;
            &&& forall|k: int| 0 <= k < out.len() ==> (#[trigger] out[k]).0.len() > 0 && out[k].1 >= line
            &&& forall|a: int, b: int| 0 <= a <= b < out.len() ==> (#[trigger] out[a]).1 <= (#[trigger] out[b]).1
        }),
    decreases cs.len() - i,
{
    if 0 <= i < cs.len() {
        let (emit, next, l2) = lex_step(cs, i, line);
        lemma_lex_step(cs, i, line);
        lemma_lex_from_lines(cs, next, l2);
        let rest = lex_from(cs, next, l2)->0;
        let out = lex_from(cs, i, line)->0;
        if emit is Some {
            assert(out == seq![(emit->0, line)] + rest);
            assert forall|k: int| 0 <= k < out.len() implies (#[trigger] out[k]).0.len() > 0 && out[k].1 >= line by {
                if k > 0 {
                    assert(out[k] == rest[k - 1]);
                }
            }
            assert forall|a: int, b: int| 0 <= a <= b < out.len() implies (#[trigger] out[a]).1 <= (#[trigger] out[b]).1 by {
                if a > 0 {
                    assert(out[a] == rest[a - 1]);
                    assert(out[b] == rest[b - 1]);
                } else if b > 0 {
                    assert(out[b] == rest[b - 1]);
                }
            }
        }
    }
}

/// Every lexeme has a nonempty image and a line of at least 1, and the
/// lines never go down from one lexeme to the next.
pub proof fn scan_lines_ordered(cs: Seq<char>)
    requires
        spec_scan(cs) is Some,
    ensures
        ({
            let out = spec_scan(cs)->0;
            &&& forall|k: int| 0 <= k < out.len() ==> (#[trigger] out[k]).0.len() > 0 && out[k].1 >= 1
            &&& forall|a: int, b: int| 0 <= a <= b < out.len() ==> (#[trigger] out[a]).1 <= (#[trigger] out[b]).1
        }),
{
    lemma_lex_from_lines(cs, 0, 1);
}

} // verus!

verus! {

proof fn lemma_word_has_no_blank(cs: Seq<char>, j: int, p: int)
    requires
        0 <= j <= p < word_end(cs, j),
    ensures
        cs[p] != ' ' && cs[p] != '\t',
    decreases cs.len() - j,
{
    if j < p {
        lemma_word_has_no_blank(cs, j + 1, p);
    }
}

/// A lexeme that is not a string literal has no blank in it.
pub open spec fn blank_free(img: Seq<char>) -> bool {
    img.len() > 0 && (img[0] == '"' || forall|c: int| 0 <= c < img.len() ==> img[c] != ' ' && img[c]
        != '\t')
}

proof fn lemma_step_image_blank_free(cs: Seq<char>, i: int, line: int)
    requires
        0 <= i < cs.len(),
    ensures
        lex_step(cs, i, line).0 is Some ==> blank_free(lex_step(cs, i, line).0->0),
{
    lemma_word_end_bounds(cs, i);
    let j = word_end(cs, i);
    assert forall|c: int| 0 <= c < j - i implies cs.subrange(i, j)[c] != ' ' && cs.subrange(i, j)[c]
        != '\t' by {
        lemma_word_has_no_blank(cs, i, i + c);
    }
    assert(newline_image()[0] == '\n');
    assert(seq!['!'][0] == '!');
    assert(seq!['\'', 'Z'][0] == '\'' && seq!['\'', 'Z'][1] == 'Z');
    if cs[i] == '"' {
        let (body, e) = string_body(cs, i + 1);
        assert((seq!['"'] + body)[0] == '"');
    }
}

proof fn lemma_lex_from_blank_free(cs: Seq<char>, i: int, line: int)
    requires
        lex_from(cs, i, line) is Some,
    ensures
        forall|k: int|
            0 <= k < lex_from(cs, i, line)->0.len() ==> blank_free(
                #[trigger] lex_from(cs, i, line)->0[k].0,
            ),
    decreases cs.len() - i,
{
    if 0 <= i < cs.len() {
        let (emit, next, l2) = lex_step(cs, i, line);
        lemma_step_image_blank_free(cs, i, line);
        lemma_lex_from_blank_free(cs, next, l2);
        let rest = lex_from(cs, next, l2)->0;
        let out = lex_from(cs, i, line)->0;
        if emit is Some {
            assert forall|k: int| 0 <= k < out.len() implies blank_free(#[trigger] out[k].0) by {
                if k > 0 {
                    assert(out[k] == rest[k - 1]);
                }
            }
        }
    }
}

/// Blanks carry no lexemes: a space or a tab where the lexer takes a step
/// emits nothing, keeps the line and moves on, so the scan from it is the
/// scan from the next character; and outside string literals no lexeme
/// holds a space or a tab.
pub proof fn blanks_carry_no_lexemes(cs: Seq<char>)
    ensures
        forall|i: int, line: int|
            0 <= i < cs.len() && (cs[i] == ' ' || cs[i] == '\t') ==> #[trigger] lex_from(cs, i, line)
                == lex_from(cs, i + 1, line),
        forall|i: int, line: int|
            0 <= i < cs.len() && (cs[i] == ' ' || cs[i] == '\t') ==> #[trigger] lex_step(cs, i, line)
                == (None::<Seq<char>>, i + 1, line),
        spec_scan(cs) is Some ==> forall|k: int|
            0 <= k < spec_scan(cs)->0.len() ==> blank_free(#[trigger] spec_scan(cs)->0[k].0),
{
    if spec_scan(cs) is Some {
        lemma_lex_from_blank_free(cs, 0, 1);
    }
}

} // verus!

verus! {

/// What the lexer does at each kind of character where it takes a step: a
/// line feed, or a CR with or without a following line feed, gives a
/// newline lexeme and starts the next line; a comma gives a newline lexeme
/// on the same line; a bang gives `!`; `'Z` gives `'Z`; `BTW` starts a
/// comment that runs to the next line break and gives nothing.
pub proof fn lexer_steps_law(cs: Seq<char>, i: int, line: int)
    requires
        0 <= i < cs.len(),
    ensures
        cs[i] == '\n' ==> lex_step(cs, i, line) == (Some(seq!['\n']), i + 1, line + 1),
        cs[i] == '\r' && i + 1 < cs.len() && cs[i + 1] == '\n' ==> lex_step(cs, i, line) == (
            Some(seq!['\n']),
            i + 2,
            line + 1,
        ),
        cs[i] == '\r' && !(i + 1 < cs.len() && cs[i + 1] == '\n') ==> lex_step(cs, i, line) == (
            Some(seq!['\n']),
            i + 1,
            line + 1,
        ),
        cs[i] == ',' ==> lex_step(cs, i, line) == (Some(seq!['\n']), i + 1, line),
        cs[i] == '!' ==> lex_step(cs, i, line) == (Some(seq!['!']), i + 1, line),
        cs[i] == '\'' && i + 1 < cs.len() && cs[i + 1] == 'Z' ==> lex_step(cs, i, line) == (
            Some(seq!['\'', 'Z']),
            i + 2,
            line,
        ),
        spells3(cs, i, 'B', 'T', 'W') ==> ({
            let (e, n, l) = lex_step(cs, i, line);
            &&& e is None
            &&& l == line
            &&& i < n <= cs.len()
            &&& n == cs.len() || cs[n] == '\n' || cs[n] == '\r'
            &&& forall|p: int| i <= p < n ==> cs[p] != '\n' && cs[p] != '\r'
        }),
{
    assert(newline_image() =~= seq!['\n']);
    if spells3(cs, i, 'B', 'T', 'W') {
        lemma_line_end_props(cs, i);
    }
}

proof fn lemma_line_end_props(cs: Seq<char>, j: int)
    requires
        0 <= j <= cs.len(),
    ensures
        j <= line_end(cs, j) <= cs.len(),
        line_end(cs, j) == cs.len() || cs[line_end(cs, j)] == '\n' || cs[line_end(cs, j)] == '\r',
        forall|p: int| j <= p < line_end(cs, j) ==> cs[p] != '\n' && cs[p] != '\r',
    decreases cs.len() - j,
{
    if j < cs.len() && !(cs[j] == '\n' || cs[j] == '\r') {
        lemma_line_end_props(cs, j + 1);
    }
}

} // verus!
