//! Separator expansion for the fallback merge: braces and semicolons outside
//! string literals are put on lines of their own before a line merge, and
//! opening braces are glued back afterwards.

use vstd::prelude::*;
use crate::text::{append_chars, chars_of, lines, seqs_of, split_lines, string_of, trim, trimmed};

verus! {

/// State of the scanner that expands separators.
pub struct Scan {
    /// The text written so far.
    pub out: Seq<char>,
    /// Whether the scanner stands inside a string literal.
    pub in_string: bool,
    /// Whether the next character is escaped by a backslash.
    pub escape_next: bool,
    /// The quote that opened the current string literal.
    pub quote: char,
}

/// Whether `c` opens a string literal.
pub open spec fn is_quote(c: char) -> bool {
    c == '"' || c == '\'' || c == '`'
}

/// Whether `c` is a separator.
pub open spec fn is_separator(c: char) -> bool {
    c == '{' || c == '}' || c == ';'
}

/// `out` with the separator `c` on a line of its own: a line feed before
/// it, unless `out` is empty or ends in one, and a line feed behind it.
pub open spec fn with_separator(out: Seq<char>, c: char) -> Seq<char> {
    if out.len() > 0 && out.last() != '\n' {
        out.push('\n').push(c).push('\n')
    } else {
        out.push(c).push('\n')
    }
}

/// The scanner before the first character.
pub open spec fn scan_start() -> Scan {
    Scan { out: Seq::empty(), in_string: false, escape_next: false, quote: '"' }
}

/// The scanner after reading `c`.
///
/// An escaped character is copied. Inside a string literal a backslash
/// escapes the next character and the opening quote closes the literal;
/// everything in it is copied. Outside, a quote opens a literal and a
/// separator is put on a line of its own.
pub open spec fn scan_step(st: Scan, c: char) -> Scan {
    if st.escape_next {
        Scan { out: st.out.push(c), escape_next: false, ..st }
    } else if c == '\\' && st.in_string {
        Scan { out: st.out.push(c), escape_next: true, ..st }
    } else if !st.in_string && is_quote(c) {
        Scan { out: st.out.push(c), in_string: true, quote: c, ..st }
    } else if st.in_string && c == st.quote {
        Scan { out: st.out.push(c), in_string: false, ..st }
    } else if !st.in_string && is_separator(c) {
        Scan { out: with_separator(st.out, c), ..st }
    } else {
        Scan { out: st.out.push(c), ..st }
    }
}

/// The scanner after reading all of `s`.
pub open spec fn scan(s: Seq<char>) -> Scan
    decreases s.len(),
{
    if s.len() == 0 {
        scan_start()
    } else {
        scan_step(scan(s.drop_last()), s.last())
    }
}

/// `s` with every separator outside string literals on a line of its own.
pub open spec fn expanded(s: Seq<char>) -> Seq<char> {
    scan(s).out
}

/// Whether a line holds one opening brace and, besides it, only white space.
pub open spec fn brace_line(line: Seq<char>) -> bool {
    trim(line) == seq!['{']
}

/// The text after one more line: an opening brace alone on its line is
/// glued to the end of the line before it, behind a space; any other line,
/// and a brace line that is the first, is added as it stands.
pub open spec fn collapse_step(acc: Seq<char>, line: Seq<char>) -> Seq<char> {
    if brace_line(line) && acc.len() > 0 {
        acc.drop_last() + seq![' ', '{', '\n']
    } else {
        acc + line + seq!['\n']
    }
}

/// The lines `ls` put together with opening braces glued back.
pub open spec fn collapse_lines(ls: Seq<Seq<char>>) -> Seq<char>
    decreases ls.len(),
{
    if ls.len() == 0 {
        Seq::empty()
    } else {
        collapse_step(collapse_lines(ls.drop_last()), ls.last())
    }
}

/// Whether `s` ends in two line feeds.
pub open spec fn ends_blank(s: Seq<char>) -> bool {
    s.len() >= 2 && s[s.len() - 1] == '\n' && s[s.len() - 2] == '\n'
}

/// `s` without the blank lines at its end: line feeds are dropped from the
/// end for as long as two of them stand there.
pub open spec fn strip_trailing_blank(s: Seq<char>) -> Seq<char>
    decreases s.len(),
{
    if ends_blank(s) {
        strip_trailing_blank(s.drop_last())
    } else {
        s
    }
}

/// A merged, expanded text brought back towards its usual shape.
pub open spec fn collapsed(merged: Seq<char>) -> Seq<char> {
    strip_trailing_blank(collapse_lines(lines(merged)))
}

/// Puts every `{`, `}` and `;` outside string literals on a line of its own.
pub fn expand_separators(content: &str) -> (r: String)
    ensures
        r@ == expanded(content@),
{
    let text = chars_of(content);
    let mut out: Vec<char> = Vec::new();
    let mut in_string = false;
    let mut escape_next = false;
    let mut quote = '"';
    let mut i: usize = 0;
    proof {
        assert(text@.take(0) == Seq::<char>::empty());
    }
    while i < text.len()
        invariant
            i <= text.len(),
            scan(text@.take(i as int)) == (Scan {
                out: out@,
                in_string: in_string,
                escape_next: escape_next,
                quote: quote,
            }),
        decreases text.len() - i,
    {
        let c = text[i];
        proof {
            assert(text@.take(i + 1).drop_last() == text@.take(i as int));
            assert(text@.take(i + 1).last() == c);
        }
        if escape_next {
            out.push(c);
            escape_next = false;
        } else if c == '\\' && in_string {
            out.push(c);
            escape_next = true;
        } else if !in_string && (c == '"' || c == '\'' || c == '`') {
            out.push(c);
            in_string = true;
            quote = c;
        } else if in_string && c == quote {
            out.push(c);
            in_string = false;
        } else if !in_string && (c == '{' || c == '}' || c == ';') {
            if out.len() > 0 && out[out.len() - 1] != '\n' {
                out.push('\n');
            }
            out.push(c);
            out.push('\n');
        } else {
            out.push(c);
        }
        i += 1;
    }
    assert(text@.take(text.len() as int) == text@);
    string_of(&out)
}

/// Glues opening braces that stand alone on a line back to the line before
/// them, leaves closing braces and semicolons on their own lines, and drops
/// blank lines from the end.
pub fn collapse_separators(merged: &str, _base: &str) -> (r: String)
    ensures
        r@ == collapsed(merged@),
{
    let text = chars_of(merged);
    let ls = split_lines(&text);
    let ghost lv = seqs_of(ls@);
    let mut out: Vec<char> = Vec::new();
    let mut i: usize = 0;
    proof {
        assert(lv.take(0) == Seq::<Seq<char>>::empty());
    }
    while i < ls.len()
        invariant
            i <= ls.len(),
            lv == seqs_of(ls@),
            out@ == collapse_lines(lv.take(i as int)),
        decreases ls.len() - i,
    {
        proof {
            assert(lv.take(i + 1).drop_last() == lv.take(i as int));
            assert(lv.take(i + 1).last() == ls@[i as int]@);
        }
        let t = trimmed(&ls[i]);
        let is_brace = t.len() == 1 && t[0] == '{';
        assert(is_brace == brace_line(ls@[i as int]@)) by {
            if is_brace {
                assert(t@ == seq!['{']);
            }
        }
        if is_brace && out.len() > 0 {
            let ghost before = out@;
            out.pop();
            out.push(' ');
            out.push('{');
            out.push('\n');
            assert(out@ == before.drop_last() + seq![' ', '{', '\n']);
        } else {
            let ghost before = out@;
            append_chars(&mut out, &ls[i]);
            out.push('\n');
            assert(out@ == before + ls@[i as int]@ + seq!['\n']);
        }
        i += 1;
    }
    assert(lv.take(ls.len() as int) == lv);
    let ghost full = out@;
    while out.len() >= 2 && out[out.len() - 1] == '\n' && out[out.len() - 2] == '\n'
        invariant
            strip_trailing_blank(out@) == strip_trailing_blank(full),
        decreases out.len(),
    {
        let ghost before = out@;
        out.pop();
        assert(out@ == before.drop_last());
    }
    string_of(&out)
}

} // verus!
