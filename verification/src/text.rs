//! Character-sequence primitives shared by the merge components.
//!
//! Text is modelled as `Seq<char>`. Executable code works on `Vec<char>` and
//! converts from and to `String` at the public boundary.

use vstd::prelude::*;

verus! {

/// `String::push` appends exactly one character to the end of the string.
pub assume_specification[ String::push ](s: &mut String, c: char)
    ensures
        final(s)@ == old(s)@.push(c),
;

/// Whether `c` carries the Unicode `White_Space` property.
pub open spec fn is_space(c: char) -> bool {
    let n = c as u32;
    (0x09 <= n && n <= 0x0D) || n == 0x20 || n == 0x85 || n == 0xA0 || n == 0x1680 || (0x2000 <= n
        && n <= 0x200A) || n == 0x2028 || n == 0x2029 || n == 0x202F || n == 0x205F || n == 0x3000
}

/// The predicate "is white space" as a value.
pub open spec fn space_pred() -> spec_fn(char) -> bool {
    |c: char| is_space(c)
}

/// The predicate "is not a line feed" as a value.
pub open spec fn not_newline_pred() -> spec_fn(char) -> bool {
    |c: char| c != '\n'
}

/// Length of the longest prefix of `s` all of whose elements satisfy `p`.
pub open spec fn prefix_len<T>(s: Seq<T>, p: spec_fn(T) -> bool) -> nat
    decreases s.len(),
{
    if s.len() > 0 && p(s[0]) {
        1 + prefix_len(s.skip(1), p)
    } else {
        0
    }
}

/// Length of the longest suffix of `s` all of whose elements satisfy `p`.
pub open spec fn suffix_len<T>(s: Seq<T>, p: spec_fn(T) -> bool) -> nat
    decreases s.len(),
{
    if s.len() > 0 && p(s.last()) {
        1 + suffix_len(s.drop_last(), p)
    } else {
        0
    }
}

pub proof fn lemma_prefix_len<T>(s: Seq<T>, p: spec_fn(T) -> bool)
    ensures
        prefix_len(s, p) <= s.len(),
        forall|i: int| 0 <= i < prefix_len(s, p) ==> p(#[trigger] s[i]),
        prefix_len(s, p) < s.len() ==> !p(s[prefix_len(s, p) as int]),
    decreases s.len(),
{
    if s.len() > 0 && p(s[0]) {
        let t = s.skip(1);
        lemma_prefix_len(t, p);
        assert forall|i: int| 0 <= i < prefix_len(s, p) implies p(#[trigger] s[i]) by {
            if i > 0 {
                assert(s[i] == t[i - 1]);
            }
        }
        if prefix_len(s, p) < s.len() {
            assert(s[prefix_len(s, p) as int] == t[prefix_len(t, p) as int]);
        }
    }
}

/// A position `k` up to which `p` holds and at which it fails is the prefix length.
pub proof fn lemma_prefix_len_is<T>(s: Seq<T>, p: spec_fn(T) -> bool, k: int)
    requires
        0 <= k <= s.len(),
        forall|i: int| 0 <= i < k ==> p(#[trigger] s[i]),
        k < s.len() ==> !p(s[k]),
    ensures
        prefix_len(s, p) == k,
    decreases s.len(),
{
    if k > 0 {
        let t = s.skip(1);
        assert(p(s[0]));
        assert forall|i: int| 0 <= i < k - 1 implies p(#[trigger] t[i]) by {
            assert(t[i] == s[i + 1]);
        }
        if k - 1 < t.len() {
            assert(t[k - 1] == s[k]);
        }
        lemma_prefix_len_is(t, p, k - 1);
    }
}

/// A position `k` from which `p` holds and before which it fails marks the suffix.
pub proof fn lemma_suffix_len_is<T>(s: Seq<T>, p: spec_fn(T) -> bool, k: int)
    requires
        0 <= k <= s.len(),
        forall|i: int| k <= i < s.len() ==> p(#[trigger] s[i]),
        k > 0 ==> !p(s[k - 1]),
    ensures
        suffix_len(s, p) == s.len() - k,
    decreases s.len(),
{
    if k < s.len() {
        let t = s.drop_last();
        assert(p(s[s.len() - 1]));
        assert forall|i: int| k <= i < t.len() implies p(#[trigger] t[i]) by {
            assert(t[i] == s[i]);
        }
        if k > 0 {
            assert(t[k - 1] == s[k - 1]);
        }
        lemma_suffix_len_is(t, p, k);
    }
}

/// `s` without its leading white space.
pub open spec fn trim_start(s: Seq<char>) -> Seq<char> {
    s.skip(prefix_len(s, space_pred()) as int)
}

/// `s` without its trailing white space.
pub open spec fn trim_end(s: Seq<char>) -> Seq<char> {
    s.take(s.len() - suffix_len(s, space_pred()))
}

/// `s` without leading and trailing white space.
pub open spec fn trim(s: Seq<char>) -> Seq<char> {
    trim_end(trim_start(s))
}

/// Whether `s` holds nothing but white space.
pub open spec fn is_blank(s: Seq<char>) -> bool {
    forall|i: int| 0 <= i < s.len() ==> is_space(#[trigger] s[i])
}

/// Whether `s` begins with `p`.
pub open spec fn starts_with(s: Seq<char>, p: Seq<char>) -> bool {
    p.len() <= s.len() && s.take(p.len() as int) == p
}

/// Whether the last character of `s` is `c`.
pub open spec fn ends_with_char(s: Seq<char>, c: char) -> bool {
    s.len() > 0 && s.last() == c
}

/// Whether `p` occurs in `s` as a contiguous run that starts at index `i`.
pub open spec fn occurs_at(s: Seq<char>, p: Seq<char>, i: int) -> bool {
    0 <= i && i + p.len() <= s.len() && s.subrange(i, i + p.len()) == p
}

/// Whether `p` occurs in `s` as a contiguous run.
pub open spec fn has_sub(s: Seq<char>, p: Seq<char>) -> bool {
    exists|i: int| occurs_at(s, p, i)
}

/// Index of the first line feed in `s`, or `s.len()` when it has none.
pub open spec fn first_newline(s: Seq<char>) -> int {
    prefix_len(s, not_newline_pred()) as int
}

/// A line body without the carriage return that preceded its line feed.
pub open spec fn strip_cr(l: Seq<char>) -> Seq<char> {
    if l.len() > 0 && l.last() == '\r' {
        l.drop_last()
    } else {
        l
    }
}

/// The lines of `s`: runs ended by a line feed, or by a carriage return and a
/// line feed; the terminator is not part of the line. A last run without a
/// terminator is a line as it stands; an empty last run is not a line.
pub open spec fn lines(s: Seq<char>) -> Seq<Seq<char>>
    decreases s.len(),
    via lines_decreases
{
    if s.len() == 0 {
        Seq::empty()
    } else {
        let k = first_newline(s);
        if k == s.len() {
            seq![s]
        } else {
            seq![strip_cr(s.take(k))] + lines(s.skip(k + 1))
        }
    }
}

#[via_fn]
proof fn lines_decreases(s: Seq<char>) {
    lemma_prefix_len(s, not_newline_pred());
}

/// Each line followed by a line feed, all concatenated.
pub open spec fn join_lines(ls: Seq<Seq<char>>) -> Seq<char>
    decreases ls.len(),
{
    if ls.len() == 0 {
        Seq::empty()
    } else {
        join_lines(ls.drop_last()) + ls.last() + seq!['\n']
    }
}

/// The lines concatenated with a line feed between neighbours.
pub open spec fn join_with_newline(ls: Seq<Seq<char>>) -> Seq<char>
    decreases ls.len(),
{
    if ls.len() == 0 {
        Seq::empty()
    } else if ls.len() == 1 {
        ls[0]
    } else {
        join_with_newline(ls.drop_last()) + seq!['\n'] + ls.last()
    }
}

/// The views of the elements of `s`, in order.
pub open spec fn view_all<T: View>(s: Seq<T>) -> Seq<T::V> {
    Seq::new(s.len(), |i: int| s[i]@)
}

pub proof fn lemma_view_all_push<T: View>(s: Seq<T>, x: T)
    ensures
        view_all(s.push(x)) == view_all(s).push(x@),
{
    assert(view_all(s.push(x)) =~= view_all(s).push(x@));
}

/// The character sequences held by a vector of character vectors.
pub open spec fn seqs_of(v: Seq<Vec<char>>) -> Seq<Seq<char>> {
    Seq::new(v.len(), |i: int| v[i]@)
}

pub proof fn lemma_seqs_of_push(v: Seq<Vec<char>>, x: Vec<char>)
    ensures
        seqs_of(v.push(x)) == seqs_of(v).push(x@),
{
    assert(seqs_of(v.push(x)) =~= seqs_of(v).push(x@));
}

pub proof fn lemma_join_lines_push(ls: Seq<Seq<char>>, l: Seq<char>)
    ensures
        join_lines(ls.push(l)) == join_lines(ls) + l + seq!['\n'],
{
    assert(ls.push(l).drop_last() =~= ls);
}

pub proof fn lemma_join_with_newline_push(ls: Seq<Seq<char>>, l: Seq<char>)
    ensures
        join_with_newline(ls.push(l)) == if ls.len() == 0 {
            l
        } else {
            join_with_newline(ls) + seq!['\n'] + l
        },
{
    assert(ls.push(l).drop_last() =~= ls);
}

/// With the first line feed of `s` at `k`, the lines of `s` are the run before
/// it followed by the lines of what comes after it.
pub proof fn lemma_lines_step(s: Seq<char>, k: int)
    requires
        0 <= k < s.len(),
        s[k] == '\n',
        forall|i: int| 0 <= i < k ==> #[trigger] s[i] != '\n',
    ensures
        lines(s) == seq![strip_cr(s.take(k))] + lines(s.skip(k + 1)),
{
    let p = not_newline_pred();
    assert forall|i: int| 0 <= i < k implies p(#[trigger] s[i]) by {}
    lemma_prefix_len_is(s, p, k);
}

/// A non-empty text without a line feed is a single line.
pub proof fn lemma_lines_last(s: Seq<char>)
    requires
        s.len() > 0,
        forall|i: int| 0 <= i < s.len() ==> #[trigger] s[i] != '\n',
    ensures
        lines(s) == seq![s],
{
    let p = not_newline_pred();
    assert forall|i: int| 0 <= i < s.len() implies p(#[trigger] s[i]) by {}
    lemma_prefix_len_is(s, p, s.len() as int);
}

/// Executable test for the `White_Space` property.
pub fn char_is_space(c: char) -> (r: bool)
    ensures
        r == is_space(c),
{
    let n: u32 = c as u32;
    (0x09 <= n && n <= 0x0D) || n == 0x20 || n == 0x85 || n == 0xA0 || n == 0x1680 || (0x2000 <= n
        && n <= 0x200A) || n == 0x2028 || n == 0x2029 || n == 0x202F || n == 0x205F || n == 0x3000
}

/// The characters of `s`, in order.
pub fn chars_of(s: &str) -> (r: Vec<char>)
    ensures
        r@ == s@,
{
    let mut out: Vec<char> = Vec::new();
    for c in it: s.chars()
        invariant
            out@ == it.seq().take(it.index()),
    {
        out.push(c);
    }
    out
}

/// The string that holds the characters of `v`, in order.
pub fn string_of(v: &Vec<char>) -> (r: String)
    ensures
        r@ == v@,
{
    let mut out = String::new();
    let mut i: usize = 0;
    while i < v.len()
        invariant
            i <= v.len(),
            out@ == v@.take(i as int),
        decreases v.len() - i,
    {
        out.push(v[i]);
        i += 1;
    }
    out
}

/// A copy of `s[from..to]`.
pub fn copy_range(s: &Vec<char>, from: usize, to: usize) -> (r: Vec<char>)
    requires
        from <= to <= s.len(),
    ensures
        r@ == s@.subrange(from as int, to as int),
{
    let mut out: Vec<char> = Vec::new();
    let mut i: usize = from;
    while i < to
        invariant
            from <= i <= to,
            to <= s.len(),
            out@ == s@.subrange(from as int, i as int),
        decreases to - i,
    {
        out.push(s[i]);
        i += 1;
    }
    out
}

/// Appends the characters of `src` to `dst`.
pub fn append_chars(dst: &mut Vec<char>, src: &Vec<char>)
    ensures
        final(dst)@ == old(dst)@ + src@,
{
    let mut i: usize = 0;
    while i < src.len()
        invariant
            i <= src.len(),
            dst@ == old(dst)@ + src@.take(i as int),
        decreases src.len() - i,
    {
        dst.push(src[i]);
        i += 1;
    }
}

/// Appends the characters of the string `src` to `dst`.
pub fn append_str(dst: &mut Vec<char>, src: &str)
    ensures
        final(dst)@ == old(dst)@ + src@,
{
    let v = chars_of(src);
    append_chars(dst, &v);
}

/// The last decimal digit `d` as a character.
pub open spec fn digit_char(d: int) -> char {
    if d == 0 {
        '0'
    } else if d == 1 {
        '1'
    } else if d == 2 {
        '2'
    } else if d == 3 {
        '3'
    } else if d == 4 {
        '4'
    } else if d == 5 {
        '5'
    } else if d == 6 {
        '6'
    } else if d == 7 {
        '7'
    } else if d == 8 {
        '8'
    } else {
        '9'
    }
}

/// The decimal numeral of `n`, without leading zeros.
pub open spec fn decimal(n: nat) -> Seq<char>
    decreases n,
{
    if n < 10 {
        seq![digit_char(n as int)]
    } else {
        decimal(n / 10).push(digit_char((n % 10) as int))
    }
}

fn digit_of(d: usize) -> (r: char)
    requires
        d < 10,
    ensures
        r == digit_char(d as int),
{
    if d == 0 {
        '0'
    } else if d == 1 {
        '1'
    } else if d == 2 {
        '2'
    } else if d == 3 {
        '3'
    } else if d == 4 {
        '4'
    } else if d == 5 {
        '5'
    } else if d == 6 {
        '6'
    } else if d == 7 {
        '7'
    } else if d == 8 {
        '8'
    } else {
        '9'
    }
}

/// Appends the decimal numeral of `n` to `dst`.
pub fn append_decimal(dst: &mut Vec<char>, n: usize)
    ensures
        final(dst)@ == old(dst)@ + decimal(n as nat),
    decreases n,
{
    if n >= 10 {
        append_decimal(dst, n / 10);
    }
    dst.push(digit_of(n % 10));
}

/// A copy of `s`.
pub fn clone_chars(s: &Vec<char>) -> (r: Vec<char>)
    ensures
        r@ == s@,
{
    let r = copy_range(s, 0, s.len());
    assert(s@.subrange(0, s.len() as int) == s@);
    r
}

/// The lines of `ls[from..]` whose flag equals `want`, where the flags tell
/// of each line whether `p` holds of it.
pub(crate) fn keep_flagged(
    ls: &Vec<Vec<char>>,
    flags: &Vec<bool>,
    want: bool,
    from: usize,
    Ghost(p): Ghost<spec_fn(Seq<char>) -> bool>,
) -> (r: Vec<Vec<char>>)
    requires
        from <= ls.len(),
        flags.len() == ls.len(),
        forall|i: int| from <= i < ls.len() ==> ((#[trigger] flags[i]) == want) == p(ls[i]@),
    ensures
        seqs_of(r@) == seqs_of(ls@).skip(from as int).filter(p),
{
    let ghost all = seqs_of(ls@).skip(from as int);
    let mut out: Vec<Vec<char>> = Vec::new();
    let mut i: usize = from;
    proof {
        assert(all.take(0) == Seq::<Seq<char>>::empty());
        reveal(Seq::filter);
        assert(seqs_of(out@) == all.take(0).filter(p));
    }
    while i < ls.len()
        invariant
            from <= i <= ls.len(),
            flags.len() == ls.len(),
            forall|k: int| from <= k < ls.len() ==> ((#[trigger] flags[k]) == want) == p(ls[k]@),
            all == seqs_of(ls@).skip(from as int),
            seqs_of(out@) == all.take(i - from).filter(p),
        decreases ls.len() - i,
    {
        proof {
            let x = all[i - from];
            assert(x == ls@[i as int]@);
            assert(all.take(i - from).push(x) == all.take(i - from + 1));
            all.take(i - from).lemma_filter_push(x, p);
        }
        if flags[i] == want {
            let c = clone_chars(&ls[i]);
            proof {
                lemma_seqs_of_push(out@, c);
            }
            out.push(c);
        }
        i += 1;
    }
    assert(all.take(ls.len() - from) == all);
    out
}

/// Whether the line `l` occurs in `set`.
pub fn line_in(set: &Vec<Vec<char>>, l: &Vec<char>) -> (r: bool)
    ensures
        r == seqs_of(set@).contains(l@),
{
    let mut i: usize = 0;
    while i < set.len()
        invariant
            i <= set.len(),
            forall|k: int| 0 <= k < i ==> seqs_of(set@)[k] != l@,
        decreases set.len() - i,
    {
        if same_text(&set[i], l) {
            assert(seqs_of(set@)[i as int] == l@);
            return true;
        }
        i += 1;
    }
    false
}

/// Whether two character vectors hold the same text.
pub fn same_text(a: &Vec<char>, b: &Vec<char>) -> (r: bool)
    ensures
        r == (a@ == b@),
{
    if a.len() != b.len() {
        return false;
    }
    let mut i: usize = 0;
    while i < a.len()
        invariant
            i <= a.len(),
            a.len() == b.len(),
            a@.take(i as int) == b@.take(i as int),
        decreases a.len() - i,
    {
        if a[i] != b[i] {
            return false;
        }
        assert(a@.take(i + 1) == a@.take(i as int).push(a@[i as int]));
        assert(b@.take(i + 1) == b@.take(i as int).push(b@[i as int]));
        i += 1;
    }
    assert(a@ == a@.take(a.len() as int));
    assert(b@ == b@.take(b.len() as int));
    true
}

/// Whether `p` occurs in `s` at position `at`.
pub fn matches_at(s: &Vec<char>, at: usize, p: &Vec<char>) -> (r: bool)
    requires
        at <= s.len(),
    ensures
        r == starts_with(s@.skip(at as int), p@),
{
    if p.len() > s.len() - at {
        return false;
    }
    let ghost t = s@.skip(at as int);
    let mut i: usize = 0;
    while i < p.len()
        invariant
            i <= p.len(),
            at + p.len() <= s.len(),
            t == s@.skip(at as int),
            t.take(i as int) == p@.take(i as int),
        decreases p.len() - i,
    {
        if s[at + i] != p[i] {
            assert(t.take(p.len() as int)[i as int] != p@[i as int]);
            return false;
        }
        assert(t.take(i + 1) == t.take(i as int).push(t[i as int]));
        assert(p@.take(i + 1) == p@.take(i as int).push(p@[i as int]));
        i += 1;
    }
    assert(p@ == p@.take(p.len() as int));
    true
}

/// Whether `s` begins with the literal `p`.
pub fn begins_with(s: &Vec<char>, p: &str) -> (r: bool)
    ensures
        r == starts_with(s@, p@),
{
    let pat = chars_of(p);
    assert(s@.skip(0) == s@);
    matches_at(s, 0, &pat)
}

/// Whether `pat` occurs anywhere in `s`.
pub fn contains_chars(s: &Vec<char>, pat: &Vec<char>) -> (r: bool)
    ensures
        r == has_sub(s@, pat@),
{
    if pat.len() == 0 {
        assert(occurs_at(s@, pat@, 0)) by {
            assert(s@.subrange(0, 0) == pat@);
        }
        return true;
    }
    if pat.len() > s.len() {
        return false;
    }
    let last: usize = s.len() - pat.len();
    let mut i: usize = 0;
    while i <= last
        invariant
            i <= last + 1,
            last == s.len() - pat.len(),
            pat.len() > 0,
            forall|k: int| 0 <= k < i ==> !occurs_at(s@, pat@, k),
        decreases last + 1 - i,
    {
        let hit = matches_at(s, i, pat);
        assert(s@.skip(i as int).take(pat.len() as int) == s@.subrange(i as int, i + pat.len()));
        if hit {
            assert(occurs_at(s@, pat@, i as int));
            return true;
        }
        i += 1;
    }
    false
}

/// Whether the literal `p` occurs anywhere in `s`.
pub fn contains_str(s: &Vec<char>, p: &str) -> (r: bool)
    ensures
        r == has_sub(s@, p@),
{
    let pat = chars_of(p);
    contains_chars(s, &pat)
}

/// Index of the first character of `s` that is not white space.
pub fn skip_spaces(s: &Vec<char>) -> (r: usize)
    ensures
        r == prefix_len(s@, space_pred()),
        r <= s.len(),
        s@.skip(r as int) == trim_start(s@),
{
    let mut i: usize = 0;
    while i < s.len() && char_is_space(s[i])
        invariant
            i <= s.len(),
            forall|k: int| 0 <= k < i ==> is_space(#[trigger] s@[k]),
        decreases s.len() - i,
    {
        i += 1;
    }
    proof {
        let p = space_pred();
        assert forall|k: int| 0 <= k < i implies p(#[trigger] s@[k]) by {}
        lemma_prefix_len_is(s@, p, i as int);
    }
    i
}

/// `s` without its leading white space.
pub fn trimmed_start(s: &Vec<char>) -> (r: Vec<char>)
    ensures
        r@ == trim_start(s@),
{
    let k = skip_spaces(s);
    copy_range(s, k, s.len())
}

/// `s` without leading and trailing white space.
pub fn trimmed(s: &Vec<char>) -> (r: Vec<char>)
    ensures
        r@ == trim(s@),
{
    let k = skip_spaces(s);
    let mut e: usize = s.len();
    while e > k && char_is_space(s[e - 1])
        invariant
            k <= e <= s.len(),
            forall|j: int| e <= j < s.len() ==> is_space(#[trigger] s@[j]),
        decreases e,
    {
        e -= 1;
    }
    proof {
        let p = space_pred();
        let t = s@.skip(k as int);
        assert forall|j: int| e - k <= j < t.len() implies p(#[trigger] t[j]) by {
            assert(t[j] == s@[j + k]);
        }
        if e > k {
            assert(t[e - k - 1] == s@[e - 1]);
        }
        lemma_suffix_len_is(t, p, e - k);
        assert(t.take(e - k) == s@.subrange(k as int, e as int));
    }
    copy_range(s, k, e)
}

/// `s` without its trailing white space.
pub fn trimmed_end(s: &Vec<char>) -> (r: Vec<char>)
    ensures
        r@ == trim_end(s@),
{
    let mut e: usize = s.len();
    while e > 0 && char_is_space(s[e - 1])
        invariant
            e <= s.len(),
            forall|j: int| e <= j < s.len() ==> is_space(#[trigger] s@[j]),
        decreases e,
    {
        e -= 1;
    }
    proof {
        let p = space_pred();
        assert forall|j: int| e <= j < s.len() implies p(#[trigger] s@[j]) by {}
        lemma_suffix_len_is(s@, p, e as int);
        assert(s@.take(e as int) == s@.subrange(0, e as int));
    }
    copy_range(s, 0, e)
}

/// Whether `s` holds nothing but white space.
pub fn blank(s: &Vec<char>) -> (r: bool)
    ensures
        r == is_blank(s@),
{
    let k = skip_spaces(s);
    proof {
        lemma_prefix_len(s@, space_pred());
        if k < s.len() {
            assert(!is_space(s@[k as int]));
        }
    }
    k == s.len()
}

/// The lines of `s`.
pub fn split_lines(s: &Vec<char>) -> (r: Vec<Vec<char>>)
    ensures
        seqs_of(r@) == lines(s@),
{
    let n = s.len();
    let mut out: Vec<Vec<char>> = Vec::new();
    let mut start: usize = 0;
    proof {
        assert(s@.skip(0) == s@);
        assert(seqs_of(out@) + lines(s@) == lines(s@));
    }
    while start < n
        invariant
            start <= n,
            n == s.len(),
            lines(s@) == seqs_of(out@) + lines(s@.skip(start as int)),
        decreases n - start,
    {
        let ghost rest = s@.skip(start as int);
        let mut j: usize = start;
        while j < n && s[j] != '\n'
            invariant
                start <= j <= n,
                n == s.len(),
                forall|k: int| start <= k < j ==> #[trigger] s@[k] != '\n',
            decreases n - j,
        {
            j += 1;
        }
        assert forall|i: int| 0 <= i < j - start implies #[trigger] rest[i] != '\n' by {
            assert(rest[i] == s@[start + i]);
        }
        if j == n {
            let line = copy_range(s, start, n);
            proof {
                lemma_lines_last(rest);
                assert(line@ == rest);
                lemma_seqs_of_push(out@, line);
                assert(s@.skip(n as int).len() == 0);
                assert(seqs_of(out@.push(line)) + lines(s@.skip(n as int)) == seqs_of(out@) + seq![
                    rest,
                ]);
            }
            out.push(line);
            start = n;
        } else {
            let mut end: usize = j;
            if end > start && s[end - 1] == '\r' {
                end -= 1;
            }
            let line = copy_range(s, start, end);
            proof {
                lemma_lines_step(rest, j - start);
                let body = rest.take(j - start);
                assert(body == s@.subrange(start as int, j as int));
                if j > start {
                    assert(body.last() == s@[j - 1]);
                }
                assert(line@ == strip_cr(body));
                assert(rest.skip(j - start + 1) == s@.skip(j + 1));
                lemma_seqs_of_push(out@, line);
                assert(seqs_of(out@.push(line)) + lines(s@.skip(j + 1)) == seqs_of(out@) + (seq![
                    strip_cr(body),
                ] + lines(s@.skip(j + 1))));
            }
            out.push(line);
            start = j + 1;
        }
    }
    proof {
        assert(s@.skip(n as int).len() == 0);
        assert(seqs_of(out@) + lines(s@.skip(n as int)) == seqs_of(out@));
    }
    out
}

/// Each of `ls[from..to]` followed by a line feed, all concatenated.
pub fn join_line_range(ls: &Vec<Vec<char>>, from: usize, to: usize) -> (r: Vec<char>)
    requires
        from <= to <= ls.len(),
    ensures
        r@ == join_lines(seqs_of(ls@).subrange(from as int, to as int)),
{
    let mut out: Vec<char> = Vec::new();
    let mut i: usize = from;
    let ghost all = seqs_of(ls@);
    while i < to
        invariant
            from <= i <= to,
            to <= ls.len(),
            all == seqs_of(ls@),
            out@ == join_lines(all.subrange(from as int, i as int)),
        decreases to - i,
    {
        proof {
            lemma_join_lines_push(all.subrange(from as int, i as int), all[i as int]);
            assert(all.subrange(from as int, i as int).push(all[i as int]) == all.subrange(
                from as int,
                i + 1,
            ));
        }
        append_chars(&mut out, &ls[i]);
        out.push('\n');
        i += 1;
    }
    out
}

/// The lines concatenated with a line feed between neighbours.
pub fn join_newline(ls: &Vec<Vec<char>>) -> (r: Vec<char>)
    ensures
        r@ == join_with_newline(seqs_of(ls@)),
{
    let mut out: Vec<char> = Vec::new();
    let mut i: usize = 0;
    let ghost all = seqs_of(ls@);
    while i < ls.len()
        invariant
            i <= ls.len(),
            all == seqs_of(ls@),
            out@ == join_with_newline(all.take(i as int)),
        decreases ls.len() - i,
    {
        proof {
            lemma_join_with_newline_push(all.take(i as int), all[i as int]);
            assert(all.take(i as int).push(all[i as int]) == all.take(i + 1));
        }
        if i > 0 {
            out.push('\n');
        }
        append_chars(&mut out, &ls[i]);
        i += 1;
    }
    assert(all.take(ls.len() as int) == all);
    out
}

/// The lines of `ls`, each without its trailing white space.
pub open spec fn trimmed_ends(ls: Seq<Seq<char>>) -> Seq<Seq<char>> {
    Seq::new(ls.len(), |i: int| trim_end(ls[i]))
}

/// A text with the white space at the end of its lines removed and its
/// lines joined by single line feeds: two texts that differ only in such
/// white space, in their line terminators, or in a final line feed have
/// the same normal form.
pub open spec fn normalized(t: Seq<char>) -> Seq<char> {
    join_with_newline(trimmed_ends(lines(t)))
}

/// The normal form of `s` for comparing texts by their lines.
pub fn normalize(s: &str) -> (r: String)
    ensures
        r@ == normalized(s@),
{
    let text = chars_of(s);
    let ls = split_lines(&text);
    let mut out: Vec<Vec<char>> = Vec::new();
    let mut i: usize = 0;
    while i < ls.len()
        invariant
            i <= ls.len(),
            out.len() == i,
            forall|k: int| 0 <= k < i ==> (#[trigger] out[k])@ == trim_end(ls[k]@),
        decreases ls.len() - i,
    {
        out.push(trimmed_end(&ls[i]));
        i += 1;
    }
    assert(seqs_of(out@) =~= trimmed_ends(seqs_of(ls@)));
    let joined = join_newline(&out);
    string_of(&joined)
}

} // verus!
