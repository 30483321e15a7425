//! Preparing a program's text before it is scanned: the shebang line and
//! leading byte order marks.

use vstd::prelude::*;
use crate::text::{chars_of, string_of};

verus! {

broadcast use vstd::string::group_string_axioms;

/// The number of bytes of `c` in UTF-8.
pub open spec fn utf8_width(c: char) -> nat {
    if (c as u32) < 0x80 {
        1
    } else if (c as u32) < 0x800 {
        2
    } else if (c as u32) < 0x10000 {
        3
    } else {
        4
    }
}

/// The number of bytes of `s` in UTF-8.
pub open spec fn utf8_len(s: Seq<char>) -> nat
    decreases s.len(),
{
    if s.len() == 0 {
        0
    } else {
        utf8_len(s.drop_last()) + utf8_width(s.last())
    }
}

/// The index of the first newline of `s` at or after `i`, if it has one.
pub open spec fn newline_from(s: Seq<char>, i: int) -> Option<int>
    decreases s.len() - i,
{
    if i < 0 || i >= s.len() {
        None
    } else if s[i] == '\n' {
        Some(i)
    } else {
        newline_from(s, i + 1)
    }
}

/// The index of the first newline of `s`, if it has one.
pub open spec fn first_newline(s: Seq<char>) -> Option<int> {
    newline_from(s, 0)
}

/// `n` spaces.
pub open spec fn spaces(n: nat) -> Seq<char> {
    Seq::new(n, |i: int| ' ')
}

/// Where the first line of `s` ends: at its first newline, or at the end.
pub open spec fn first_line_end(s: Seq<char>) -> int {
    match first_newline(s) {
        Some(k) => k,
        None => s.len() as int,
    }
}

/// The text with its shebang line blanked out: when the text starts with
/// `#!`, everything before the first newline (all of it, if it has none)
/// becomes one space per byte, so that line numbers and byte offsets stay
/// put.
pub open spec fn spec_remove_shebang(s: Seq<char>) -> Seq<char> {
    if s.len() >= 2 && s[0] == '#' && s[1] == '!' {
        let k = first_line_end(s);
        spaces(utf8_len(s.take(k))) + s.skip(k)
    } else {
        s
    }
}

/// The byte order mark.
pub open spec fn bom() -> char {
    '\u{FEFF}'
}

/// The number of byte order marks that `s` starts with.
pub open spec fn leading_marks(s: Seq<char>) -> nat
    decreases s.len(),
{
    if s.len() > 0 && s[0] == bom() {
        1 + leading_marks(s.drop_first())
    } else {
        0
    }
}

proof fn lemma_newline_from(s: Seq<char>, i: int)
    requires
        0 <= i,
    ensures
        match newline_from(s, i) {
            Some(k) => i <= k < s.len() && s[k] == '\n' && forall|j: int| i <= j < k ==> s[j] != '\n',
            None => forall|j: int| i <= j < s.len() ==> s[j] != '\n',
        },
    decreases s.len() - i,
{
    if i < s.len() && s[i] != '\n' {
        lemma_newline_from(s, i + 1);
    }
}

proof fn lemma_leading_marks_at(s: Seq<char>, i: int)
    requires
        0 <= i <= s.len(),
        forall|j: int| 0 <= j < i ==> s[j] == bom(),
        i < s.len() ==> s[i] != bom(),
    ensures
        leading_marks(s) == i,
    decreases i,
{
    if i > 0 {
        lemma_leading_marks_at(s.drop_first(), i - 1);
    }
}

/// Pushes `n` spaces.
fn push_spaces(out: &mut Vec<char>, n: usize)
    ensures
        final(out)@ == old(out)@ + spaces(n as nat),
{
    let mut i: usize = 0;
    while i < n
        invariant
            i <= n,
            out@ == old(out)@ + spaces(i as nat),
        decreases n - i,
    {
        out.push(' ');
        i = i + 1;
        assert(out@ =~= old(out)@ + spaces(i as nat));
    }
}

fn utf8_width_exec(c: char) -> (w: usize)
    ensures
        w == utf8_width(c),
{
    let u: u32 = c as u32;
    if u < 0x80 {
        1
    } else if u < 0x800 {
        2
    } else if u < 0x10000 {
        3
    } else {
        4
    }
}

/// Blanks out the shebang line of a program, keeping byte offsets and line
/// numbers: see `spec_remove_shebang`.
pub fn remove_shebang(content: &str) -> (r: String)
    ensures
        r@ == spec_remove_shebang(content@),
{
    let cs = chars_of(content);
    if cs.len() < 2 || cs[0] != '#' || cs[1] != '!' {
        return string_of(cs.as_slice());
    }
    let mut out: Vec<char> = Vec::new();
    let mut i: usize = 0;
    while i < cs.len()
        invariant
            cs@ == content@,
            cs@.len() >= 2 && cs@[0] == '#' && cs@[1] == '!',
            i <= cs@.len(),
            first_newline(cs@) == newline_from(cs@, i as int),
            out@ == spaces(utf8_len(cs@.take(i as int))),
        decreases cs@.len() - i,
    {
        if cs[i] == '\n' {
            let mut j: usize = i;
            while j < cs.len()
                invariant
                    cs@ == content@,
                    cs@.len() >= 2 && cs@[0] == '#' && cs@[1] == '!',
                    first_newline(cs@) == Some(i as int),
                    i <= j <= cs@.len(),
                    out@ == spaces(utf8_len(cs@.take(i as int))) + cs@.subrange(i as int, j as int),
                decreases cs@.len() - j,
            {
                out.push(cs[j]);
                j = j + 1;
                assert(out@ =~= spaces(utf8_len(cs@.take(i as int))) + cs@.subrange(i as int, j as int));
            }
            assert(cs@.subrange(i as int, cs@.len() as int) =~= cs@.skip(i as int));
            return string_of(out.as_slice());
        }
        let w = utf8_width_exec(cs[i]);
        push_spaces(&mut out, w);
        proof {
            assert(cs@.take(i + 1).drop_last() =~= cs@.take(i as int));
            assert(cs@.take(i + 1).last() == cs@[i as int]);
        }
        i = i + 1;
        assert(out@ =~= spaces(utf8_len(cs@.take(i as int))));
    }
    assert(out@ =~= spaces(utf8_len(cs@.take(cs@.len() as int))) + cs@.skip(cs@.len() as int));
    string_of(out.as_slice())
}

/// Strips the byte order marks that the text starts with, and says whether
/// there was one.
pub fn strip_byte_order_marks(content: &str) -> (r: (bool, String))
    ensures
        r.0 == (leading_marks(content@) > 0),
        r.1@ == content@.skip(leading_marks(content@) as int),
{
    let cs = chars_of(content);
    let mut i: usize = 0;
    while i < cs.len() && cs[i] == '\u{FEFF}'
        invariant
            cs@ == content@,
            i <= cs@.len(),
            forall|j: int| 0 <= j < i ==> cs@[j] == bom(),
        decreases cs@.len() - i,
    {
        i = i + 1;
    }
    proof {
        lemma_leading_marks_at(cs@, i as int);
    }
    let mut out: Vec<char> = Vec::new();
    let mut j: usize = i;
    while j < cs.len()
        invariant
            cs@ == content@,
            i <= j <= cs@.len(),
            out@ == cs@.subrange(i as int, j as int),
        decreases cs@.len() - j,
    {
        out.push(cs[j]);
        j = j + 1;
        assert(out@ =~= cs@.subrange(i as int, j as int));
    }
    assert(out@ =~= cs@.skip(i as int));
    (i > 0, string_of(out.as_slice()))
}

proof fn lemma_utf8_len_at_least(s: Seq<char>)
    ensures
        utf8_len(s) >= s.len(),
    decreases s.len(),
{
    if s.len() > 0 {
        lemma_utf8_len_at_least(s.drop_last());
    }
}

/// Blanking the shebang line twice is blanking it once: what is left
/// starts with a space, not `#!`.
pub proof fn remove_shebang_idempotent(s: Seq<char>)
    ensures
        spec_remove_shebang(spec_remove_shebang(s)) == spec_remove_shebang(s),
{
    let r = spec_remove_shebang(s);
    if s.len() >= 2 && s[0] == '#' && s[1] == '!' {
        let k = first_line_end(s);
        lemma_newline_from(s, 0);
        assert(k >= 2);
        lemma_utf8_len_at_least(s.take(k));
        assert(r[0] == ' ');
    }
}

/// Blanking the shebang line keeps the text from its first newline on, and
/// puts no newline before it: every line keeps its number.
pub proof fn remove_shebang_keeps_lines(s: Seq<char>)
    requires
        first_newline(s) is Some,
    ensures
        ({
            let k = first_newline(s)->0;
            let r = spec_remove_shebang(s);
            &&& r.len() >= s.len() - k
            &&& r.skip(r.len() - (s.len() - k)) == s.skip(k)
            &&& forall|j: int| 0 <= j < r.len() - (s.len() - k) ==> r[j] != '\n'
        }),
{
    let k = first_newline(s)->0;
    lemma_newline_from(s, 0);
    let r = spec_remove_shebang(s);
    if s.len() >= 2 && s[0] == '#' && s[1] == '!' {
        let n = utf8_len(s.take(k));
        assert(r.len() == n + s.len() - k);
        assert(r.skip(n as int) =~= s.skip(k));
    } else {
        assert(r.skip(k) =~= s.skip(k));
    }
}

proof fn lemma_leading_marks_skip(s: Seq<char>)
    ensures
        leading_marks(s) <= s.len(),
        leading_marks(s.skip(leading_marks(s) as int)) == 0,
    decreases s.len(),
{
    if s.len() > 0 && s[0] == bom() {
        let t = s.drop_first();
        lemma_leading_marks_skip(t);
        assert(s.skip(leading_marks(s) as int) =~= t.skip(leading_marks(t) as int));
    } else {
        assert(s.skip(0) =~= s);
    }
}

/// Stripping the byte order marks leaves none at the start: stripping
/// again changes nothing.
pub proof fn strip_marks_leaves_none(s: Seq<char>)
    ensures
        leading_marks(s.skip(leading_marks(s) as int)) == 0,
        s.skip(leading_marks(s) as int).skip(0) == s.skip(leading_marks(s) as int),
{
    lemma_leading_marks_skip(s);
    let t = s.skip(leading_marks(s) as int);
    assert(t.skip(0) =~= t);
}

} // verus!
