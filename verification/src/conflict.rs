//! Conflicts between two sides of a merge: their kinds, an advisory
//! complexity classification, their rendering as marker blocks, and the
//! counters a merge keeps.

use vstd::prelude::*;
use crate::text::{
    append_chars, append_decimal, append_str, begins_with, chars_of, clone_chars, decimal,
    lemma_seqs_of_push, lines, same_text, seqs_of, split_lines, starts_with, string_of, trim_start,
    trimmed_start,
};

verus! {

/// How two sides' changes to one entity collide.
#[derive(Debug, Clone, Copy, PartialEq, Eq)]
pub enum ConflictKind {
    /// Both sides changed the entity and the changes could not be combined.
    BothModified,
    /// One side changed the entity and the other removed it.
    ModifyDelete { modified_in_ours: bool },
    /// Both sides added an entity of the same identity with different content.
    BothAdded,
}

/// Which dimensions of an entity differ between the sides and the base.
#[derive(Debug, Clone, Copy, PartialEq, Eq)]
pub enum ConflictComplexity {
    /// Only comment lines differ.
    Text,
    /// Only the signature line differs.
    Syntax,
    /// Only body code differs.
    Functional,
    /// Comments and signature differ.
    TextSyntax,
    /// Comments and body code differ.
    TextFunctional,
    /// Signature and body code differ.
    SyntaxFunctional,
    /// All three dimensions differ.
    TextSyntaxFunctional,
    /// Nothing could be told apart.
    Unknown,
}

/// The wording of a conflict kind in marker lines and reports.
pub open spec fn kind_text(k: ConflictKind) -> Seq<char> {
    match k {
        ConflictKind::BothModified => "both modified"@,
        ConflictKind::ModifyDelete { modified_in_ours: true } =>
            "modified in ours, deleted in theirs"@,
        ConflictKind::ModifyDelete { modified_in_ours: false } =>
            "deleted in ours, modified in theirs"@,
        ConflictKind::BothAdded => "both added"@,
    }
}

/// The short tag of a complexity class.
pub open spec fn complexity_text(c: ConflictComplexity) -> Seq<char> {
    match c {
        ConflictComplexity::Text => "T"@,
        ConflictComplexity::Syntax => "S"@,
        ConflictComplexity::Functional => "F"@,
        ConflictComplexity::TextSyntax => "T+S"@,
        ConflictComplexity::TextFunctional => "T+F"@,
        ConflictComplexity::SyntaxFunctional => "S+F"@,
        ConflictComplexity::TextSyntaxFunctional => "T+S+F"@,
        ConflictComplexity::Unknown => "?"@,
    }
}

impl ConflictKind {
    /// The wording of this kind.
    pub fn as_str(&self) -> (r: &'static str)
        ensures
            r@ == kind_text(*self),
    {
        match self {
            ConflictKind::BothModified => "both modified",
            ConflictKind::ModifyDelete { modified_in_ours: true } =>
                "modified in ours, deleted in theirs",
            ConflictKind::ModifyDelete { modified_in_ours: false } =>
                "deleted in ours, modified in theirs",
            ConflictKind::BothAdded => "both added",
        }
    }

    /// The wording of this kind, as an owned string.
    pub fn to_string(&self) -> (r: String)
        ensures
            r@ == kind_text(*self),
    {
        self.as_str().to_owned()
    }
}

impl ConflictComplexity {
    /// The short tag of this class.
    pub fn as_str(&self) -> (r: &'static str)
        ensures
            r@ == complexity_text(*self),
    {
        match self {
            ConflictComplexity::Text => "T",
            ConflictComplexity::Syntax => "S",
            ConflictComplexity::Functional => "F",
            ConflictComplexity::TextSyntax => "T+S",
            ConflictComplexity::TextFunctional => "T+F",
            ConflictComplexity::SyntaxFunctional => "S+F",
            ConflictComplexity::TextSyntaxFunctional => "T+S+F",
            ConflictComplexity::Unknown => "?",
        }
    }

    /// The short tag of this class, as an owned string.
    pub fn to_string(&self) -> (r: String)
        ensures
            r@ == complexity_text(*self),
    {
        self.as_str().to_owned()
    }
}

/// Whether a line is a comment: after its leading white space it begins with
/// one of the comment openers.
pub open spec fn comment_line(line: Seq<char>) -> bool {
    let t = trim_start(line);
    starts_with(t, "//"@) || starts_with(t, "/*"@) || starts_with(t, "*"@) || starts_with(t, "#"@)
        || starts_with(t, "\"\"\""@) || starts_with(t, "'''"@)
}

/// The predicate "is not a comment line" as a value.
pub open spec fn code_pred() -> spec_fn(Seq<char>) -> bool {
    |l: Seq<char>| !comment_line(l)
}

/// The first line, taken as the signature; empty when there is none.
pub open spec fn signature_line(ls: Seq<Seq<char>>) -> Seq<char> {
    if ls.len() > 0 {
        ls[0]
    } else {
        Seq::empty()
    }
}

/// The lines after the first.
pub open spec fn body_lines(ls: Seq<Seq<char>>) -> Seq<Seq<char>> {
    if ls.len() > 0 {
        ls.skip(1)
    } else {
        ls
    }
}

/// The three dimensions in which one version differs from another.
pub struct ChangeDimensions {
    pub text: bool,
    pub syntax: bool,
    pub functional: bool,
}

/// How `modified` differs from `base`.
///
/// The signature counts as a comment change when either signature line is a
/// comment, else as a syntax change. The bodies count as a comment change
/// when they differ but agree once comment lines are dropped, else, when
/// they differ, as a functional change.
pub open spec fn change_dimensions(base: Seq<char>, modified: Seq<char>) -> ChangeDimensions {
    if base == modified {
        ChangeDimensions { text: false, syntax: false, functional: false }
    } else {
        let b = lines(base);
        let m = lines(modified);
        let sig_differs = signature_line(b) != signature_line(m);
        let sig_comment = comment_line(signature_line(b)) || comment_line(signature_line(m));
        let body_differs = body_lines(b) != body_lines(m);
        let code_same = body_lines(b).filter(code_pred()) == body_lines(m).filter(code_pred());
        ChangeDimensions {
            text: (sig_differs && sig_comment) || (body_differs && code_same),
            syntax: sig_differs && !sig_comment,
            functional: body_differs && !code_same,
        }
    }
}

/// The class for a triple of dimension flags.
pub open spec fn complexity_of(text: bool, syntax: bool, functional: bool) -> ConflictComplexity {
    if text && !syntax && !functional {
        ConflictComplexity::Text
    } else if !text && syntax && !functional {
        ConflictComplexity::Syntax
    } else if !text && !syntax && functional {
        ConflictComplexity::Functional
    } else if text && syntax && !functional {
        ConflictComplexity::TextSyntax
    } else if text && !syntax && functional {
        ConflictComplexity::TextFunctional
    } else if !text && syntax && functional {
        ConflictComplexity::SyntaxFunctional
    } else if text && syntax && functional {
        ConflictComplexity::TextSyntaxFunctional
    } else {
        ConflictComplexity::Unknown
    }
}

/// The text of an optional version; a missing version counts as empty.
pub open spec fn text_or_empty(o: Option<Seq<char>>) -> Seq<char> {
    match o {
        Some(s) => s,
        None => Seq::empty(),
    }
}

/// The complexity class of a conflict: the union of what each side changed
/// against the base.
pub open spec fn conflict_complexity(
    base: Option<Seq<char>>,
    ours: Option<Seq<char>>,
    theirs: Option<Seq<char>>,
) -> ConflictComplexity {
    let o = change_dimensions(text_or_empty(base), text_or_empty(ours));
    let t = change_dimensions(text_or_empty(base), text_or_empty(theirs));
    complexity_of(o.text || t.text, o.syntax || t.syntax, o.functional || t.functional)
}

/// The view of an optional string slice.
pub open spec fn opt_str_view(o: Option<&str>) -> Option<Seq<char>> {
    match o {
        Some(s) => Some(s@),
        None => None,
    }
}

/// The view of an optional string.
pub open spec fn opt_string_view(o: Option<String>) -> Option<Seq<char>> {
    match o {
        Some(s) => Some(s@),
        None => None,
    }
}

/// Whether the line held in `line` is a comment.
pub fn comment_line_chars(line: &Vec<char>) -> (r: bool)
    ensures
        r == comment_line(line@),
{
    let t = trimmed_start(line);
    begins_with(&t, "//") || begins_with(&t, "/*") || begins_with(&t, "*") || begins_with(&t, "#")
        || begins_with(&t, "\"\"\"") || begins_with(&t, "'''")
}

/// Whether `line` is a comment line.
pub fn is_comment_line(line: &str) -> (r: bool)
    ensures
        r == comment_line(line@),
{
    let v = chars_of(line);
    comment_line_chars(&v)
}

/// Whether two lists of lines hold the same lines in the same order.
pub fn same_lines(a: &Vec<Vec<char>>, b: &Vec<Vec<char>>) -> (r: bool)
    ensures
        r == (seqs_of(a@) == seqs_of(b@)),
{
    if a.len() != b.len() {
        assert(seqs_of(a@).len() != seqs_of(b@).len());
        return false;
    }
    let mut i: usize = 0;
    while i < a.len()
        invariant
            i <= a.len(),
            a.len() == b.len(),
            forall|k: int| 0 <= k < i ==> seqs_of(a@)[k] == seqs_of(b@)[k],
        decreases a.len() - i,
    {
        if !same_text(&a[i], &b[i]) {
            assert(seqs_of(a@)[i as int] != seqs_of(b@)[i as int]);
            return false;
        }
        i += 1;
    }
    assert(seqs_of(a@) =~= seqs_of(b@));
    true
}

/// The lines of `ls` from index `from` on that are not comments.
fn code_lines_from(ls: &Vec<Vec<char>>, from: usize) -> (r: Vec<Vec<char>>)
    requires
        from <= ls.len(),
    ensures
        seqs_of(r@) == seqs_of(ls@).skip(from as int).filter(code_pred()),
{
    let ghost all = seqs_of(ls@).skip(from as int);
    let mut out: Vec<Vec<char>> = Vec::new();
    let mut i: usize = from;
    proof {
        assert(all.take(0) == Seq::<Seq<char>>::empty());
        reveal(Seq::filter);
        assert(seqs_of(out@) == all.take(0).filter(code_pred()));
    }
    while i < ls.len()
        invariant
            from <= i <= ls.len(),
            all == seqs_of(ls@).skip(from as int),
            seqs_of(out@) == all.take(i - from).filter(code_pred()),
        decreases ls.len() - i,
    {
        proof {
            let x = all[i - from];
            assert(x == ls@[i as int]@);
            assert(all.take(i - from).push(x) == all.take(i - from + 1));
            all.take(i - from).lemma_filter_push(x, code_pred());
        }
        if !comment_line_chars(&ls[i]) {
            let c = clone_chars(&ls[i]);
            proof {
                lemma_seqs_of_push(out@, c);
            }
            out.push(c);
        }
        i += 1;
    }
    assert(all.take(ls.len() - from) == all);
    out
}

/// How the text `modified` differs from the text `base`.
pub fn classify_change(base: &Vec<char>, modified: &Vec<char>) -> (r: ChangeDimensions)
    ensures
        r == change_dimensions(base@, modified@),
{
    if same_text(base, modified) {
        return ChangeDimensions { text: false, syntax: false, functional: false };
    }
    let b = split_lines(base);
    let m = split_lines(modified);
    let ghost bs = seqs_of(b@);
    let ghost ms = seqs_of(m@);
    let empty: Vec<char> = Vec::new();
    let b_sig = if b.len() > 0 {
        &b[0]
    } else {
        &empty
    };
    let m_sig = if m.len() > 0 {
        &m[0]
    } else {
        &empty
    };
    assert(b_sig@ == signature_line(bs));
    assert(m_sig@ == signature_line(ms));
    let sig_differs = !same_text(b_sig, m_sig);
    let sig_comment = comment_line_chars(b_sig) || comment_line_chars(m_sig);
    let b_from: usize = if b.len() > 0 {
        1
    } else {
        0
    };
    let m_from: usize = if m.len() > 0 {
        1
    } else {
        0
    };
    assert(bs.skip(b_from as int) == body_lines(bs));
    assert(ms.skip(m_from as int) == body_lines(ms));
    let b_code = code_lines_from(&b, b_from);
    let m_code = code_lines_from(&m, m_from);
    let code_same = same_lines(&b_code, &m_code);
    let body_differs = !same_line_tails(&b, b_from, &m, m_from);
    ChangeDimensions {
        text: (sig_differs && sig_comment) || (body_differs && code_same),
        syntax: sig_differs && !sig_comment,
        functional: body_differs && !code_same,
    }
}

/// Whether `a[from_a..]` and `b[from_b..]` hold the same lines.
fn same_line_tails(a: &Vec<Vec<char>>, from_a: usize, b: &Vec<Vec<char>>, from_b: usize) -> (r:
    bool)
    requires
        from_a <= a.len(),
        from_b <= b.len(),
    ensures
        r == (seqs_of(a@).skip(from_a as int) == seqs_of(b@).skip(from_b as int)),
{
    let ghost sa = seqs_of(a@).skip(from_a as int);
    let ghost sb = seqs_of(b@).skip(from_b as int);
    if a.len() - from_a != b.len() - from_b {
        assert(sa.len() != sb.len());
        return false;
    }
    let n: usize = a.len() - from_a;
    let mut i: usize = 0;
    while i < n
        invariant
            i <= n,
            n == a.len() - from_a,
            n == b.len() - from_b,
            from_a <= a.len(),
            from_b <= b.len(),
            sa == seqs_of(a@).skip(from_a as int),
            sb == seqs_of(b@).skip(from_b as int),
            forall|k: int| 0 <= k < i ==> sa[k] == sb[k],
        decreases n - i,
    {
        if !same_text(&a[from_a + i], &b[from_b + i]) {
            assert(sa[i as int] != sb[i as int]);
            return false;
        }
        i += 1;
    }
    assert(sa =~= sb);
    true
}

/// Classifies a conflict by what each side changed against the base.
///
/// A missing version is compared as the empty text. The class is advisory:
/// it is shown in marker lines and decides nothing.
pub fn classify_conflict(base: Option<&str>, ours: Option<&str>, theirs: Option<&str>) -> (r:
    ConflictComplexity)
    ensures
        r == conflict_complexity(opt_str_view(base), opt_str_view(ours), opt_str_view(theirs)),
{
    let b = match base {
        Some(s) => chars_of(s),
        None => Vec::new(),
    };
    let o = match ours {
        Some(s) => chars_of(s),
        None => Vec::new(),
    };
    let t = match theirs {
        Some(s) => chars_of(s),
        None => Vec::new(),
    };
    classify_texts(&b, &o, &t)
}

/// Classifies a conflict from the three texts, a missing one given as empty.
pub fn classify_texts(base: &Vec<char>, ours: &Vec<char>, theirs: &Vec<char>) -> (r:
    ConflictComplexity)
    ensures
        r == conflict_complexity(Some(base@), Some(ours@), Some(theirs@)),
{
    let od = classify_change(base, ours);
    let td = classify_change(base, theirs);
    let text = od.text || td.text;
    let syntax = od.syntax || td.syntax;
    let functional = od.functional || td.functional;
    if text && !syntax && !functional {
        ConflictComplexity::Text
    } else if !text && syntax && !functional {
        ConflictComplexity::Syntax
    } else if !text && !syntax && functional {
        ConflictComplexity::Functional
    } else if text && syntax && !functional {
        ConflictComplexity::TextSyntax
    } else if text && !syntax && functional {
        ConflictComplexity::TextFunctional
    } else if !text && syntax && functional {
        ConflictComplexity::SyntaxFunctional
    } else if text && syntax && functional {
        ConflictComplexity::TextSyntaxFunctional
    } else {
        ConflictComplexity::Unknown
    }
}

/// A conflict on one entity.
#[derive(Debug, Clone)]
pub struct EntityConflict {
    pub entity_name: String,
    pub entity_type: String,
    pub kind: ConflictKind,
    pub complexity: ConflictComplexity,
    pub ours_content: Option<String>,
    pub theirs_content: Option<String>,
    pub base_content: Option<String>,
}

/// The mathematical content of an [`EntityConflict`].
pub struct ConflictView {
    pub entity_name: Seq<char>,
    pub entity_type: Seq<char>,
    pub kind: ConflictKind,
    pub complexity: ConflictComplexity,
    pub ours_content: Option<Seq<char>>,
    pub theirs_content: Option<Seq<char>>,
    pub base_content: Option<Seq<char>>,
}

impl View for EntityConflict {
    type V = ConflictView;

    open spec fn view(&self) -> ConflictView {
        ConflictView {
            entity_name: self.entity_name@,
            entity_type: self.entity_type@,
            kind: self.kind,
            complexity: self.complexity,
            ours_content: opt_string_view(self.ours_content),
            theirs_content: opt_string_view(self.theirs_content),
            base_content: opt_string_view(self.base_content),
        }
    }
}

/// The description of a conflict that both marker lines carry.
pub open spec fn conflict_label(c: ConflictView) -> Seq<char> {
    c.entity_type + " `"@ + c.entity_name + "` ("@ + kind_text(c.kind) + ", complexity: "@
        + complexity_text(c.complexity) + ")"@
}

/// `t`, with a line feed added when it is not empty and does not end in one.
pub open spec fn newline_terminated(t: Seq<char>) -> Seq<char> {
    if t.len() > 0 && t.last() != '\n' {
        t.push('\n')
    } else {
        t
    }
}

/// The line that opens a marker block.
pub open spec fn opening_marker(c: ConflictView) -> Seq<char> {
    "<<<<<<< ours \u{2014} "@ + conflict_label(c) + "\n"@
}

/// The line that separates the two sides of a marker block.
pub open spec fn separator_marker() -> Seq<char> {
    "=======\n"@
}

/// The line that closes a marker block.
pub open spec fn closing_marker(c: ConflictView) -> Seq<char> {
    ">>>>>>> theirs \u{2014} "@ + conflict_label(c) + "\n"@
}

/// A conflict rendered as a marker block: the opening line, our text, the
/// separator line, their text, the closing line. Either text may be empty;
/// each is ended by a line feed so that every marker stands on its own line.
pub open spec fn conflict_markers(c: ConflictView) -> Seq<char> {
    opening_marker(c) + newline_terminated(text_or_empty(c.ours_content)) + separator_marker()
        + newline_terminated(text_or_empty(c.theirs_content)) + closing_marker(c)
}

/// A copy of an optional string.
pub fn clone_opt_string(o: &Option<String>) -> (r: Option<String>)
    ensures
        opt_string_view(r) == opt_string_view(*o),
{
    match o {
        Some(s) => Some(s.clone()),
        None => None,
    }
}

fn append_newline_terminated(dst: &mut Vec<char>, o: &Option<String>)
    ensures
        final(dst)@ == old(dst)@ + newline_terminated(text_or_empty(opt_string_view(*o))),
{
    let t = match o {
        Some(s) => chars_of(s.as_str()),
        None => Vec::new(),
    };
    append_chars(dst, &t);
    if t.len() > 0 && t[t.len() - 1] != '\n' {
        dst.push('\n');
        assert(dst@ == old(dst)@ + t@.push('\n'));
    }
}

impl EntityConflict {
    /// A copy of this conflict.
    pub fn copy(&self) -> (r: EntityConflict)
        ensures
            r@ == self@,
    {
        EntityConflict {
            entity_name: self.entity_name.clone(),
            entity_type: self.entity_type.clone(),
            kind: self.kind,
            complexity: self.complexity,
            ours_content: clone_opt_string(&self.ours_content),
            theirs_content: clone_opt_string(&self.theirs_content),
            base_content: clone_opt_string(&self.base_content),
        }
    }

    fn label_chars(&self) -> (r: Vec<char>)
        ensures
            r@ == conflict_label(self@),
    {
        let mut out: Vec<char> = Vec::new();
        append_str(&mut out, self.entity_type.as_str());
        append_str(&mut out, " `");
        append_str(&mut out, self.entity_name.as_str());
        append_str(&mut out, "` (");
        append_str(&mut out, self.kind.as_str());
        append_str(&mut out, ", complexity: ");
        append_str(&mut out, self.complexity.as_str());
        append_str(&mut out, ")");
        assert(out@ == conflict_label(self@));
        out
    }

    /// The marker block of this conflict, as characters.
    pub fn marker_chars(&self) -> (r: Vec<char>)
        ensures
            r@ == conflict_markers(self@),
    {
        let label = self.label_chars();
        let mut out: Vec<char> = Vec::new();
        append_str(&mut out, "<<<<<<< ours \u{2014} ");
        append_chars(&mut out, &label);
        append_str(&mut out, "\n");
        assert(out@ == opening_marker(self@));
        append_newline_terminated(&mut out, &self.ours_content);
        append_str(&mut out, "=======\n");
        append_newline_terminated(&mut out, &self.theirs_content);
        let ghost before = out@;
        append_str(&mut out, ">>>>>>> theirs \u{2014} ");
        append_chars(&mut out, &label);
        append_str(&mut out, "\n");
        assert(out@ == before + closing_marker(self@));
        out
    }

    /// Renders this conflict as a marker block.
    pub fn to_conflict_markers(&self) -> (r: String)
        ensures
            r@ == conflict_markers(self@),
    {
        let v = self.marker_chars();
        string_of(&v)
    }
}

/// Counters kept over one merge.
#[derive(Debug, Clone, Copy)]
pub struct MergeStats {
    pub entities_unchanged: usize,
    pub entities_ours_only: usize,
    pub entities_theirs_only: usize,
    pub entities_both_changed_merged: usize,
    pub entities_conflicted: usize,
    pub entities_added_ours: usize,
    pub entities_added_theirs: usize,
    pub entities_deleted: usize,
    pub used_fallback: bool,
    pub semantic_warnings: usize,
    pub resolved_via_diffy: usize,
    pub resolved_via_inner_merge: usize,
}

/// The counters of a merge in which nothing has been counted yet.
pub open spec fn zero_stats() -> MergeStats {
    MergeStats {
        entities_unchanged: 0,
        entities_ours_only: 0,
        entities_theirs_only: 0,
        entities_both_changed_merged: 0,
        entities_conflicted: 0,
        entities_added_ours: 0,
        entities_added_theirs: 0,
        entities_deleted: 0,
        used_fallback: false,
        semantic_warnings: 0,
        resolved_via_diffy: 0,
        resolved_via_inner_merge: 0,
    }
}

/// The qualitative label for how a merge was resolved.
pub open spec fn confidence_text(s: MergeStats) -> Seq<char> {
    if s.entities_conflicted > 0 {
        "conflict"@
    } else if s.resolved_via_inner_merge > 0 || s.used_fallback {
        "medium"@
    } else if s.resolved_via_diffy > 0 {
        "high"@
    } else {
        "very_high"@
    }
}

/// One `, label: n` item of the summary line, present only for a positive count.
pub open spec fn count_item(label: Seq<char>, n: usize) -> Seq<char> {
    if n > 0 {
        label + decimal(n as nat)
    } else {
        Seq::empty()
    }
}

/// The one-line summary of the counters.
pub open spec fn stats_text(s: MergeStats) -> Seq<char> {
    "unchanged: "@ + decimal(s.entities_unchanged as nat) + count_item(
        ", ours-only: "@,
        s.entities_ours_only,
    ) + count_item(", theirs-only: "@, s.entities_theirs_only) + count_item(
        ", auto-merged: "@,
        s.entities_both_changed_merged,
    ) + count_item(", added-ours: "@, s.entities_added_ours) + count_item(
        ", added-theirs: "@,
        s.entities_added_theirs,
    ) + count_item(", deleted: "@, s.entities_deleted) + count_item(
        ", CONFLICTS: "@,
        s.entities_conflicted,
    ) + count_item(", semantic-warnings: "@, s.semantic_warnings) + (if s.used_fallback {
        " (line-level fallback)"@
    } else {
        Seq::empty()
    })
}

fn append_count_item(dst: &mut Vec<char>, label: &str, n: usize)
    ensures
        final(dst)@ == old(dst)@ + count_item(label@, n),
{
    if n > 0 {
        append_str(dst, label);
        append_decimal(dst, n);
        assert(dst@ == old(dst)@ + (label@ + decimal(n as nat)));
    } else {
        assert(dst@ == old(dst)@ + Seq::<char>::empty());
    }
}

impl Default for MergeStats {
    fn default() -> (r: MergeStats)
        ensures
            r == zero_stats(),
    {
        MergeStats {
            entities_unchanged: 0,
            entities_ours_only: 0,
            entities_theirs_only: 0,
            entities_both_changed_merged: 0,
            entities_conflicted: 0,
            entities_added_ours: 0,
            entities_added_theirs: 0,
            entities_deleted: 0,
            used_fallback: false,
            semantic_warnings: 0,
            resolved_via_diffy: 0,
            resolved_via_inner_merge: 0,
        }
    }
}

impl MergeStats {
    /// Whether any entity was left in conflict.
    pub fn has_conflicts(&self) -> (r: bool)
        ensures
            r == (self.entities_conflicted > 0),
    {
        self.entities_conflicted > 0
    }

    /// How far the merge can be relied on: `"conflict"` when an entity was
    /// left in conflict; else `"medium"` when an inner merge or the fallback
    /// was used; else `"high"` when a line merge resolved an entity; else
    /// `"very_high"`.
    pub fn confidence(&self) -> (r: &'static str)
        ensures
            r@ == confidence_text(*self),
    {
        if self.entities_conflicted > 0 {
            "conflict"
        } else if self.resolved_via_inner_merge > 0 || self.used_fallback {
            "medium"
        } else if self.resolved_via_diffy > 0 {
            "high"
        } else {
            "very_high"
        }
    }

    /// The one-line summary of the counters.
    pub fn to_string(&self) -> (r: String)
        ensures
            r@ == stats_text(*self),
    {
        let mut out: Vec<char> = Vec::new();
        append_str(&mut out, "unchanged: ");
        append_decimal(&mut out, self.entities_unchanged);
        append_count_item(&mut out, ", ours-only: ", self.entities_ours_only);
        append_count_item(&mut out, ", theirs-only: ", self.entities_theirs_only);
        append_count_item(&mut out, ", auto-merged: ", self.entities_both_changed_merged);
        append_count_item(&mut out, ", added-ours: ", self.entities_added_ours);
        append_count_item(&mut out, ", added-theirs: ", self.entities_added_theirs);
        append_count_item(&mut out, ", deleted: ", self.entities_deleted);
        append_count_item(&mut out, ", CONFLICTS: ", self.entities_conflicted);
        append_count_item(&mut out, ", semantic-warnings: ", self.semantic_warnings);
        if self.used_fallback {
            append_str(&mut out, " (line-level fallback)");
        } else {
            assert(out@ == out@ + Seq::<char>::empty());
        }
        string_of(&out)
    }
}

} // verus!
