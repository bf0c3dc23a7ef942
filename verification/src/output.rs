//! The report as text for a terminal.
use vstd::prelude::*;

use crate::model::{Evidence, EvidenceRelation, ReasonStatus, Reference, Report};
use crate::text::{
    join_lines, lemma_decimal_no_breaks, lemma_join_concat, lemma_lines_of_join,
    lemma_no_breaks_concat, lines, no_breaks,
    append_str, char_is_control, chars_of, decimal, decimal_string, is_control, push_char,
};

verus! {

/// A character that could change how a terminal shows text: a control code,
/// or a mark that changes the direction or the lines of text.
pub open spec fn is_unsafe_char(c: char) -> bool {
    ||| is_control(c)
    ||| c == '\u{61c}'
    ||| c == '\u{200e}'
    ||| c == '\u{200f}'
    ||| c == '\u{2028}'
    ||| c == '\u{2029}'
    ||| '\u{202a}' <= c <= '\u{202e}'
    ||| '\u{2066}' <= c <= '\u{2069}'
}

/// `c`, or a space in place of an unsafe character.
pub open spec fn sanitized_char(c: char) -> char {
    if is_unsafe_char(c) {
        ' '
    } else {
        c
    }
}

/// `s` with each unsafe character replaced by a space.
pub open spec fn sanitized(s: Seq<char>) -> Seq<char> {
    s.map_values(|c: char| sanitized_char(c))
}

/// Replaces each character of `value` that could change how a terminal shows
/// text by a space.
pub fn sanitize(value: &str) -> (r: String)
    ensures
        r@ == sanitized(value@),
        r@.len() == value@.len(),
        forall|i: int| 0 <= i < r@.len() ==> !is_unsafe_char(#[trigger] r@[i]),
{
    let chars = chars_of(value);
    let mut r = String::new();
    let mut i: usize = 0;
    while i < chars.len()
        invariant
            0 <= i <= chars.len(),
            chars@ == value@,
            r@ == sanitized(chars@.take(i as int)),
        decreases chars.len() - i,
    {
        let c = chars[i];
        let unsafe_char = char_is_control(c) || c == '\u{61c}' || c == '\u{200e}' || c
            == '\u{200f}' || c == '\u{2028}' || c == '\u{2029}' || ('\u{202a}' <= c && c
            <= '\u{202e}') || ('\u{2066}' <= c && c <= '\u{2069}');
        if unsafe_char {
            push_char(&mut r, ' ');
        } else {
            push_char(&mut r, c);
        }
        assert(chars@.take(i + 1) =~= chars@.take(i as int).push(c));
        assert(r@ =~= sanitized(chars@.take(i + 1)));
        i += 1;
    }
    assert(chars@.take(chars.len() as int) =~= chars@);
    r
}

/// Sanitizing twice is sanitizing once.
pub proof fn lemma_sanitize_idempotent(s: Seq<char>)
    ensures
        sanitized(sanitized(s)) == sanitized(s),
{
    assert(sanitized(sanitized(s)) =~= sanitized(s));
}

/// Text that holds no unsafe character but line feeds.
pub open spec fn is_clean_lines(s: Seq<char>) -> bool {
    forall|i: int| 0 <= i < s.len() ==> s[i] == '\n' || !is_unsafe_char(#[trigger] s[i])
}

// ---------------------------------------------------------------------------
// The text of a report
// ---------------------------------------------------------------------------

/// The label of an evidence relation.
pub open spec fn relation_label(relation: EvidenceRelation) -> Seq<char> {
    match relation {
        EvidenceRelation::LastChanged => "LAST CHANGED"@,
        EvidenceRelation::LineHistory => "LINE HISTORY"@,
        EvidenceRelation::FileHistory => "FILE HISTORY"@,
    }
}

/// The first eight characters of a commit hash, or all of a shorter one.
pub open spec fn short_commit(commit: Seq<char>) -> Seq<char> {
    if commit.len() <= 8 {
        commit
    } else {
        commit.take(8)
    }
}

/// The line that shows one reference.
pub open spec fn reference_text(reference: Reference) -> Seq<char> {
    match reference.url {
        Some(url) => "      Reference #"@ + decimal(reference.number as nat) + "  "@ + sanitized(
            url@,
        ) + "\n"@,
        None => "      Reference #"@ + decimal(reference.number as nat) + "\n"@,
    }
}

/// The lines that show `references`, in order.
pub open spec fn references_text(references: Seq<Reference>) -> Seq<char>
    decreases references.len(),
{
    if references.len() == 0 {
        Seq::empty()
    } else {
        references_text(references.drop_last()) + reference_text(references.last())
    }
}

/// The two lines that show one evidence commit before its references.
pub open spec fn evidence_head(e: Evidence) -> Seq<char> {
    "    "@ + relation_label(e.relation) + "  "@ + sanitized(short_commit(e.commit@)) + "  "@
        + sanitized(e.authored_at@) + "  "@ + sanitized(e.author_name@) + "\n"@ + "      "@
        + sanitized(e.subject@) + "\n"@
}

/// The lines that show one evidence commit.
pub open spec fn evidence_text(e: Evidence) -> Seq<char> {
    evidence_head(e) + references_text(e.references@)
}

/// The lines that show `evidence`, in order.
pub open spec fn evidence_list_text(evidence: Seq<Evidence>) -> Seq<char>
    decreases evidence.len(),
{
    if evidence.len() == 0 {
        Seq::empty()
    } else {
        evidence_list_text(evidence.drop_last()) + evidence_text(evidence.last())
    }
}

/// The lines that show `warnings`, in order.
pub open spec fn warnings_text(warnings: Seq<String>) -> Seq<char>
    decreases warnings.len(),
{
    if warnings.len() == 0 {
        Seq::empty()
    } else {
        warnings_text(warnings.drop_last()) + "Warning: "@ + sanitized(warnings.last()@) + "\n"@
    }
}

/// The heading lines: the target, where it stands, and its text.
pub open spec fn heading_text(report: Report) -> Seq<char> {
    sanitized(report.target.path@) + ":"@ + decimal(report.target.line as nat) + " at "@
        + sanitized(report.target.revision@) + (if report.target.dirty {
        " [uncommitted]"@
    } else {
        ""@
    }) + "\n"@ + "    "@ + sanitized(report.target.text@) + "\n"@
}

/// The section that tells the recorded reason, or that there is none.
pub open spec fn reason_section(report: Report) -> Seq<char> {
    match report.reason.status {
        ReasonStatus::Recorded => "\nRECORDED REASON\n"@ + "    "@ + sanitized(
            match report.reason.text {
                Some(t) => t@,
                None => "No reason text was recorded."@,
            },
        ) + "\n"@,
        ReasonStatus::Unknown => "\nNO RECORDED REASON\n"@
            + "    The available commit history does not explain why.\n"@,
    }
}

/// The section that lists the evidence.
pub open spec fn evidence_section(report: Report) -> Seq<char> {
    "\nEVIDENCE\n"@ + (if report.evidence@.len() == 0 {
        "    No relevant commits found.\n"@
    } else {
        ""@
    }) + evidence_list_text(report.evidence@)
}

/// The closing lines: whether the history is complete, and the warnings.
pub open spec fn closing_text(report: Report) -> Seq<char> {
    "\nHistory: "@ + (if report.history_complete {
        "complete"@
    } else {
        "incomplete"@
    }) + "\n"@ + warnings_text(report.warnings@)
}

/// The whole text of a report.
pub open spec fn human_text(report: Report) -> Seq<char> {
    heading_text(report) + reason_section(report) + evidence_section(report) + closing_text(
        report,
    )
}

/// Appends the sanitized `value` to `out`.
fn push_sanitized(out: &mut String, value: &str)
    ensures
        final(out)@ == old(out)@ + sanitized(value@),
{
    let clean = sanitize(value);
    append_str(out, clean.as_str());
}

/// Appends the decimal digits of `n` to `out`.
fn push_number(out: &mut String, n: u64)
    ensures
        final(out)@ == old(out)@ + decimal(n as nat),
{
    let digits = decimal_string(n);
    append_str(out, digits.as_str());
}

/// Appends the lines of one evidence commit to `out`.
fn push_evidence(out: &mut String, e: &Evidence)
    ensures
        final(out)@ == old(out)@ + evidence_text(*e),
{
    let ghost start = out@;
    append_str(out, "    ");
    match e.relation {
        EvidenceRelation::LastChanged => append_str(out, "LAST CHANGED"),
        EvidenceRelation::LineHistory => append_str(out, "LINE HISTORY"),
        EvidenceRelation::FileHistory => append_str(out, "FILE HISTORY"),
    }
    append_str(out, "  ");
    let commit = chars_of(e.commit.as_str());
    let mut short = String::new();
    let mut k: usize = 0;
    while k < commit.len() && k < 8
        invariant
            0 <= k <= commit.len(),
            k <= 8,
            commit@ == e.commit@,
            short@ == commit@.take(k as int),
        decreases commit.len() - k,
    {
        push_char(&mut short, commit[k]);
        assert(commit@.take(k + 1) =~= commit@.take(k as int).push(commit@[k as int]));
        k += 1;
    }
    assert(short@ == short_commit(e.commit@)) by {
        if commit.len() <= 8 {
            assert(commit@.take(commit.len() as int) =~= commit@);
        }
    }
    push_sanitized(out, short.as_str());
    append_str(out, "  ");
    push_sanitized(out, e.authored_at.as_str());
    append_str(out, "  ");
    push_sanitized(out, e.author_name.as_str());
    append_str(out, "\n");
    append_str(out, "      ");
    push_sanitized(out, e.subject.as_str());
    append_str(out, "\n");
    let ghost middle = out@;
    assert(middle =~= start + evidence_head(*e));
    let mut i: usize = 0;
    while i < e.references.len()
        invariant
            0 <= i <= e.references.len(),
            out@ == middle + references_text(e.references@.take(i as int)),
        decreases e.references.len() - i,
    {
        let reference = &e.references[i];
        assert(e.references@.take(i + 1).drop_last() =~= e.references@.take(i as int));
        assert(e.references@.take(i + 1).last() == *reference);
        append_str(out, "      Reference #");
        push_number(out, reference.number);
        match &reference.url {
            Some(url) => {
                append_str(out, "  ");
                push_sanitized(out, url.as_str());
                append_str(out, "\n");
            },
            None => {
                append_str(out, "\n");
            },
        }
        assert(out@ =~= middle + references_text(e.references@.take(i + 1)));
        i += 1;
    }
    assert(e.references@.take(e.references.len() as int) =~= e.references@);
    assert(out@ =~= start + evidence_text(*e));
}

/// Appends the heading lines of `report` to `out`.
fn push_heading(out: &mut String, report: &Report)
    ensures
        final(out)@ == old(out)@ + heading_text(*report),
{
    let ghost start = out@;
    push_sanitized(out, report.target.path.as_str());
    append_str(out, ":");
    push_number(out, report.target.line as u64);
    append_str(out, " at ");
    push_sanitized(out, report.target.revision.as_str());
    if report.target.dirty {
        append_str(out, " [uncommitted]");
    } else {
        append_str(out, "");
    }
    append_str(out, "\n");
    append_str(out, "    ");
    push_sanitized(out, report.target.text.as_str());
    append_str(out, "\n");
    assert(out@ =~= start + heading_text(*report));
}

/// Appends the reason section of `report` to `out`.
fn push_reason(out: &mut String, report: &Report)
    ensures
        final(out)@ == old(out)@ + reason_section(*report),
{
    let ghost start = out@;
    match report.reason.status {
        ReasonStatus::Recorded => {
            append_str(out, "\nRECORDED REASON\n");
            append_str(out, "    ");
            match &report.reason.text {
                Some(t) => push_sanitized(out, t.as_str()),
                None => push_sanitized(out, "No reason text was recorded."),
            }
            append_str(out, "\n");
        },
        ReasonStatus::Unknown => {
            append_str(out, "\nNO RECORDED REASON\n");
            append_str(out, "    The available commit history does not explain why.\n");
        },
    }
    assert(out@ =~= start + reason_section(*report));
}

/// Appends the evidence section of `report` to `out`.
fn push_evidence_section(out: &mut String, report: &Report)
    ensures
        final(out)@ == old(out)@ + evidence_section(*report),
{
    let ghost start = out@;
    append_str(out, "\nEVIDENCE\n");
    if report.evidence.len() == 0 {
        append_str(out, "    No relevant commits found.\n");
    } else {
        append_str(out, "");
    }
    let ghost list_start = out@;
    let mut i: usize = 0;
    while i < report.evidence.len()
        invariant
            0 <= i <= report.evidence.len(),
            out@ == list_start + evidence_list_text(report.evidence@.take(i as int)),
        decreases report.evidence.len() - i,
    {
        assert(report.evidence@.take(i + 1).drop_last() =~= report.evidence@.take(i as int));
        assert(report.evidence@.take(i + 1).last() == report.evidence@[i as int]);
        push_evidence(out, &report.evidence[i]);
        assert(out@ =~= list_start + evidence_list_text(report.evidence@.take(i + 1)));
        i += 1;
    }
    assert(report.evidence@.take(report.evidence.len() as int) =~= report.evidence@);
    assert(out@ =~= start + evidence_section(*report));
}

/// Appends the closing lines of `report` to `out`.
fn push_closing(out: &mut String, report: &Report)
    ensures
        final(out)@ == old(out)@ + closing_text(*report),
{
    let ghost start = out@;
    append_str(out, "\nHistory: ");
    if report.history_complete {
        append_str(out, "complete");
    } else {
        append_str(out, "incomplete");
    }
    append_str(out, "\n");
    let ghost warnings_start = out@;
    let mut j: usize = 0;
    while j < report.warnings.len()
        invariant
            0 <= j <= report.warnings.len(),
            out@ == warnings_start + warnings_text(report.warnings@.take(j as int)),
        decreases report.warnings.len() - j,
    {
        assert(report.warnings@.take(j + 1).drop_last() =~= report.warnings@.take(j as int));
        assert(report.warnings@.take(j + 1).last() == report.warnings@[j as int]);
        append_str(out, "Warning: ");
        push_sanitized(out, report.warnings[j].as_str());
        append_str(out, "\n");
        assert(out@ =~= warnings_start + warnings_text(report.warnings@.take(j + 1)));
        j += 1;
    }
    assert(report.warnings@.take(report.warnings.len() as int) =~= report.warnings@);
    assert(out@ =~= start + closing_text(*report));
}

/// Renders a report as text for a terminal; every value read from the
/// repository is sanitized.
pub fn human(report: &Report) -> (rendered: String)
    ensures
        rendered@ == human_text(*report),
{
    let mut out = String::new();
    push_heading(&mut out, report);
    push_reason(&mut out, report);
    push_evidence_section(&mut out, report);
    push_closing(&mut out, report);
    assert(out@ =~= human_text(*report));
    out
}


/// Text made of clean pieces is clean.
pub broadcast proof fn lemma_clean_concat(a: Seq<char>, b: Seq<char>)
    requires
        is_clean_lines(a),
        is_clean_lines(b),
    ensures
        #[trigger] is_clean_lines(a + b),
{
    assert forall|i: int| 0 <= i < (a + b).len() implies (a + b)[i] == '\n' || !is_unsafe_char(
        #[trigger] (a + b)[i],
    ) by {
        if i < a.len() {
            assert((a + b)[i] == a[i]);
        } else {
            assert((a + b)[i] == b[i - a.len()]);
        }
    }
}

/// Sanitized text is clean.
pub broadcast proof fn lemma_sanitized_clean(s: Seq<char>)
    ensures
        #[trigger] is_clean_lines(sanitized(s)),
{
}

/// Decimal digits are clean.
pub broadcast proof fn lemma_decimal_clean(n: nat)
    ensures
        #[trigger] is_clean_lines(decimal(n)),
    decreases n,
{
    broadcast use lemma_clean_concat;

    if n >= 10 {
        lemma_decimal_clean(n / 10);
        assert(decimal(n) == decimal(n / 10) + seq![crate::text::digit_char(n % 10)]);
    }
}

/// The fixed text of a report is clean.
proof fn lemma_literals_clean()
    ensures
        is_clean_lines(":"@),
        is_clean_lines(" at "@),
        is_clean_lines(" [uncommitted]"@),
        is_clean_lines(""@),
        is_clean_lines("\n"@),
        is_clean_lines("    "@),
        is_clean_lines("  "@),
        is_clean_lines("      "@),
        is_clean_lines("\nRECORDED REASON\n"@),
        is_clean_lines("\nNO RECORDED REASON\n"@),
        is_clean_lines("    The available commit history does not explain why.\n"@),
        is_clean_lines("\nEVIDENCE\n"@),
        is_clean_lines("    No relevant commits found.\n"@),
        is_clean_lines("LAST CHANGED"@),
        is_clean_lines("LINE HISTORY"@),
        is_clean_lines("FILE HISTORY"@),
        is_clean_lines("      Reference #"@),
        is_clean_lines("\nHistory: "@),
        is_clean_lines("complete"@),
        is_clean_lines("incomplete"@),
        is_clean_lines("Warning: "@),
{
    reveal_strlit(":");
    reveal_strlit(" at ");
    reveal_strlit(" [uncommitted]");
    reveal_strlit("");
    reveal_strlit("\n");
    reveal_strlit("    ");
    reveal_strlit("  ");
    reveal_strlit("      ");
    reveal_strlit("\nRECORDED REASON\n");
    reveal_strlit("\nNO RECORDED REASON\n");
    reveal_strlit("    The available commit history does not explain why.\n");
    reveal_strlit("\nEVIDENCE\n");
    reveal_strlit("    No relevant commits found.\n");
    reveal_strlit("LAST CHANGED");
    reveal_strlit("LINE HISTORY");
    reveal_strlit("FILE HISTORY");
    reveal_strlit("      Reference #");
    reveal_strlit("\nHistory: ");
    reveal_strlit("complete");
    reveal_strlit("incomplete");
    reveal_strlit("Warning: ");
}

proof fn lemma_references_clean(references: Seq<Reference>)
    ensures
        is_clean_lines(references_text(references)),
    decreases references.len(),
{
    broadcast use lemma_clean_concat, lemma_sanitized_clean, lemma_decimal_clean;

    lemma_literals_clean();
    if references.len() > 0 {
        lemma_references_clean(references.drop_last());
        assert(is_clean_lines(reference_text(references.last())));
    }
}

proof fn lemma_evidence_list_clean(evidence: Seq<Evidence>)
    ensures
        is_clean_lines(evidence_list_text(evidence)),
    decreases evidence.len(),
{
    broadcast use lemma_clean_concat, lemma_sanitized_clean, lemma_decimal_clean;

    lemma_literals_clean();
    if evidence.len() > 0 {
        let e = evidence.last();
        lemma_evidence_list_clean(evidence.drop_last());
        lemma_references_clean(e.references@);
        assert(is_clean_lines(relation_label(e.relation)));
        assert(is_clean_lines(evidence_head(e)));
        assert(is_clean_lines(evidence_text(e)));
    }
}

proof fn lemma_warnings_clean(warnings: Seq<String>)
    ensures
        is_clean_lines(warnings_text(warnings)),
    decreases warnings.len(),
{
    broadcast use lemma_clean_concat, lemma_sanitized_clean;

    lemma_literals_clean();
    if warnings.len() > 0 {
        lemma_warnings_clean(warnings.drop_last());
    }
}

/// The text of a report holds no character that could change how a terminal
/// shows it, but the line feeds that end its lines: whatever the repository
/// holds, values read from it are sanitized.
pub proof fn lemma_human_clean(report: Report)
    ensures
        is_clean_lines(human_text(report)),
{
    broadcast use lemma_clean_concat, lemma_sanitized_clean, lemma_decimal_clean;

    lemma_literals_clean();
    lemma_evidence_list_clean(report.evidence@);
    lemma_warnings_clean(report.warnings@);
    assert(is_clean_lines(heading_text(report)));
    assert(is_clean_lines(reason_section(report)));
    assert(is_clean_lines(evidence_section(report)));
    assert(is_clean_lines(closing_text(report)));
}


// ---------------------------------------------------------------------------
// The lines of a report
// ---------------------------------------------------------------------------

/// The two heading lines: the target and where it stands, then its text.
pub open spec fn heading_lines(report: Report) -> Seq<Seq<char>> {
    seq![
        sanitized(report.target.path@) + ":"@ + decimal(report.target.line as nat) + " at "@
            + sanitized(report.target.revision@) + (if report.target.dirty {
            " [uncommitted]"@
        } else {
            ""@
        }),
        "    "@ + sanitized(report.target.text@),
    ]
}

/// A blank line, the reason heading and the reason, or the line that says
/// there is none.
pub open spec fn reason_lines(report: Report) -> Seq<Seq<char>> {
    match report.reason.status {
        ReasonStatus::Recorded => seq![
            Seq::empty(),
            "RECORDED REASON"@,
            "    "@ + sanitized(
                match report.reason.text {
                    Some(t) => t@,
                    None => "No reason text was recorded."@,
                },
            ),
        ],
        ReasonStatus::Unknown => seq![
            Seq::empty(),
            "NO RECORDED REASON"@,
            "    The available commit history does not explain why."@,
        ],
    }
}

/// The line of one reference.
pub open spec fn reference_line(reference: Reference) -> Seq<char> {
    match reference.url {
        Some(url) => "      Reference #"@ + decimal(reference.number as nat) + "  "@ + sanitized(
            url@,
        ),
        None => "      Reference #"@ + decimal(reference.number as nat),
    }
}

/// The lines of `references`, one each.
pub open spec fn reference_lines(references: Seq<Reference>) -> Seq<Seq<char>>
    decreases references.len(),
{
    if references.len() == 0 {
        Seq::empty()
    } else {
        reference_lines(references.drop_last()).push(reference_line(references.last()))
    }
}

/// The lines of one evidence commit: relation, short hash, date and author;
/// subject; then its references.
pub open spec fn evidence_lines(e: Evidence) -> Seq<Seq<char>> {
    seq![
        "    "@ + relation_label(e.relation) + "  "@ + sanitized(short_commit(e.commit@)) + "  "@
            + sanitized(e.authored_at@) + "  "@ + sanitized(e.author_name@),
        "      "@ + sanitized(e.subject@),
    ] + reference_lines(e.references@)
}

/// The lines of `evidence`, in order.
pub open spec fn evidence_list_lines(evidence: Seq<Evidence>) -> Seq<Seq<char>>
    decreases evidence.len(),
{
    if evidence.len() == 0 {
        Seq::empty()
    } else {
        evidence_list_lines(evidence.drop_last()) + evidence_lines(evidence.last())
    }
}

/// The number of lines that `evidence` takes: two for each commit and one
/// for each of its references.
pub open spec fn evidence_line_count(evidence: Seq<Evidence>) -> nat
    decreases evidence.len(),
{
    if evidence.len() == 0 {
        0
    } else {
        evidence_line_count(evidence.drop_last()) + 2 + evidence.last().references@.len()
    }
}

/// A blank line, the evidence heading, and the evidence or the line that
/// says there is none.
pub open spec fn evidence_section_lines(report: Report) -> Seq<Seq<char>> {
    seq![Seq::empty(), "EVIDENCE"@] + (if report.evidence@.len() == 0 {
        seq!["    No relevant commits found."@]
    } else {
        Seq::empty()
    }) + evidence_list_lines(report.evidence@)
}

/// The lines of `warnings`, one each.
pub open spec fn warning_lines(warnings: Seq<String>) -> Seq<Seq<char>>
    decreases warnings.len(),
{
    if warnings.len() == 0 {
        Seq::empty()
    } else {
        warning_lines(warnings.drop_last()).push("Warning: "@ + sanitized(warnings.last()@))
    }
}

/// A blank line, whether the history is complete, and the warnings.
pub open spec fn closing_lines(report: Report) -> Seq<Seq<char>> {
    seq![
        Seq::empty(),
        "History: "@ + (if report.history_complete {
            "complete"@
        } else {
            "incomplete"@
        }),
    ] + warning_lines(report.warnings@)
}

/// The lines of the text of a report.
pub open spec fn human_lines(report: Report) -> Seq<Seq<char>> {
    heading_lines(report) + reason_lines(report) + evidence_section_lines(report) + closing_lines(
        report,
    )
}

/// Sanitized text holds no line break.
pub broadcast proof fn lemma_sanitized_no_breaks(s: Seq<char>)
    ensures
        #[trigger] no_breaks(sanitized(s)),
{
}

/// The fixed text of the lines of a report holds no line break.
proof fn lemma_line_literals()
    ensures
        no_breaks(":"@),
        no_breaks(" at "@),
        no_breaks(" [uncommitted]"@),
        no_breaks(""@),
        ""@ == Seq::<char>::empty(),
        no_breaks("    "@),
        no_breaks("  "@),
        no_breaks("      "@),
        no_breaks("RECORDED REASON"@),
        no_breaks("NO RECORDED REASON"@),
        no_breaks("    The available commit history does not explain why."@),
        no_breaks("EVIDENCE"@),
        no_breaks("    No relevant commits found."@),
        no_breaks("LAST CHANGED"@),
        no_breaks("LINE HISTORY"@),
        no_breaks("FILE HISTORY"@),
        no_breaks("      Reference #"@),
        no_breaks("History: "@),
        no_breaks("complete"@),
        no_breaks("incomplete"@),
        no_breaks("Warning: "@),
        "\n"@ == seq!['\n'],
        "\nRECORDED REASON\n"@ == seq!['\n'] + "RECORDED REASON"@ + seq!['\n'],
        "\nNO RECORDED REASON\n"@ == seq!['\n'] + "NO RECORDED REASON"@ + seq!['\n'],
        "    The available commit history does not explain why.\n"@
            == "    The available commit history does not explain why."@ + seq!['\n'],
        "\nEVIDENCE\n"@ == seq!['\n'] + "EVIDENCE"@ + seq!['\n'],
        "    No relevant commits found.\n"@ == "    No relevant commits found."@ + seq!['\n'],
        "\nHistory: "@ == seq!['\n'] + "History: "@,
{
    reveal_strlit(":");
    reveal_strlit(" at ");
    reveal_strlit(" [uncommitted]");
    reveal_strlit("");
    reveal_strlit("\n");
    reveal_strlit("    ");
    reveal_strlit("  ");
    reveal_strlit("      ");
    reveal_strlit("RECORDED REASON");
    reveal_strlit("NO RECORDED REASON");
    reveal_strlit("    The available commit history does not explain why.");
    reveal_strlit("EVIDENCE");
    reveal_strlit("    No relevant commits found.");
    reveal_strlit("LAST CHANGED");
    reveal_strlit("LINE HISTORY");
    reveal_strlit("FILE HISTORY");
    reveal_strlit("      Reference #");
    reveal_strlit("History: ");
    reveal_strlit("complete");
    reveal_strlit("incomplete");
    reveal_strlit("Warning: ");
    reveal_strlit("\nRECORDED REASON\n");
    reveal_strlit("\nNO RECORDED REASON\n");
    reveal_strlit("    The available commit history does not explain why.\n");
    reveal_strlit("\nEVIDENCE\n");
    reveal_strlit("    No relevant commits found.\n");
    reveal_strlit("\nHistory: ");
    assert("\nRECORDED REASON\n"@ =~= seq!['\n'] + "RECORDED REASON"@ + seq!['\n']);
    assert("\nNO RECORDED REASON\n"@ =~= seq!['\n'] + "NO RECORDED REASON"@ + seq!['\n']);
    assert("    The available commit history does not explain why.\n"@
        =~= "    The available commit history does not explain why."@ + seq!['\n']);
    assert("\nEVIDENCE\n"@ =~= seq!['\n'] + "EVIDENCE"@ + seq!['\n']);
    assert("    No relevant commits found.\n"@ =~= "    No relevant commits found."@ + seq!['\n']);
    assert("\nHistory: "@ =~= seq!['\n'] + "History: "@);
    assert(""@ =~= Seq::<char>::empty());
}

/// All lines of `ls` hold no line break.
pub open spec fn all_without_breaks(ls: Seq<Seq<char>>) -> bool {
    forall|i: int| 0 <= i < ls.len() ==> no_breaks(#[trigger] ls[i])
}

proof fn lemma_all_without_breaks_concat(a: Seq<Seq<char>>, b: Seq<Seq<char>>)
    requires
        all_without_breaks(a),
        all_without_breaks(b),
    ensures
        all_without_breaks(a + b),
{
    assert forall|i: int| 0 <= i < (a + b).len() implies no_breaks(#[trigger] (a + b)[i]) by {
        if i < a.len() {
            assert((a + b)[i] == a[i]);
        } else {
            assert((a + b)[i] == b[i - a.len()]);
        }
    }
}

proof fn lemma_references_lines(references: Seq<Reference>)
    ensures
        references_text(references) == join_lines(reference_lines(references)),
        all_without_breaks(reference_lines(references)),
        reference_lines(references).len() == references.len(),
    decreases references.len(),
{
    broadcast use lemma_no_breaks_concat, lemma_sanitized_no_breaks, lemma_decimal_no_breaks;

    lemma_line_literals();
    if references.len() > 0 {
        let prev = references.drop_last();
        lemma_references_lines(prev);
        let r = references.last();
        assert(reference_text(r) =~= reference_line(r) + seq!['\n']);
        let ls = reference_lines(references);
        assert(ls.drop_last() =~= reference_lines(prev));
        assert(join_lines(ls) =~= references_text(references));
        assert forall|i: int| 0 <= i < ls.len() implies no_breaks(#[trigger] ls[i]) by {
            if i < ls.len() - 1 {
                assert(ls[i] == reference_lines(prev)[i]);
            }
        }
    }
}

proof fn lemma_evidence_lines(evidence: Seq<Evidence>)
    ensures
        evidence_list_text(evidence) == join_lines(evidence_list_lines(evidence)),
        all_without_breaks(evidence_list_lines(evidence)),
        evidence_list_lines(evidence).len() == evidence_line_count(evidence),
    decreases evidence.len(),
{
    broadcast use lemma_no_breaks_concat, lemma_sanitized_no_breaks, lemma_decimal_no_breaks;

    lemma_line_literals();
    if evidence.len() > 0 {
        let prev = evidence.drop_last();
        lemma_evidence_lines(prev);
        let e = evidence.last();
        lemma_references_lines(e.references@);
        let head = seq![
            "    "@ + relation_label(e.relation) + "  "@ + sanitized(short_commit(e.commit@))
                + "  "@ + sanitized(e.authored_at@) + "  "@ + sanitized(e.author_name@),
            "      "@ + sanitized(e.subject@),
        ];
        assert(join_lines(head) =~= evidence_head(e)) by {
            lemma_join_three(head[0], head[1], head[1]);
            assert(head =~= seq![head[0], head[1]]);
        }
        lemma_join_concat(head, reference_lines(e.references@));
        lemma_join_concat(evidence_list_lines(prev), evidence_lines(e));
        assert(no_breaks(relation_label(e.relation)));
        assert(all_without_breaks(head)) by {
            assert(no_breaks(head[0]));
            assert(no_breaks(head[1]));
        }
        lemma_all_without_breaks_concat(head, reference_lines(e.references@));
        lemma_all_without_breaks_concat(evidence_list_lines(prev), evidence_lines(e));
    }
}

proof fn lemma_warning_lines(warnings: Seq<String>)
    ensures
        warnings_text(warnings) == join_lines(warning_lines(warnings)),
        all_without_breaks(warning_lines(warnings)),
        warning_lines(warnings).len() == warnings.len(),
    decreases warnings.len(),
{
    broadcast use lemma_no_breaks_concat, lemma_sanitized_no_breaks;

    lemma_line_literals();
    if warnings.len() > 0 {
        let prev = warnings.drop_last();
        lemma_warning_lines(prev);
        let ls = warning_lines(warnings);
        assert(ls.drop_last() =~= warning_lines(prev));
        assert(join_lines(ls) =~= warnings_text(warnings));
        assert forall|i: int| 0 <= i < ls.len() implies no_breaks(#[trigger] ls[i]) by {
            if i < ls.len() - 1 {
                assert(ls[i] == warning_lines(prev)[i]);
            }
        }
    }
}

/// Three lines written out.
proof fn lemma_join_three(a: Seq<char>, b: Seq<char>, c: Seq<char>)
    ensures
        join_lines(seq![a, b, c]) == a + seq!['\n'] + b + seq!['\n'] + c + seq!['\n'],
        join_lines(seq![a, b]) == a + seq!['\n'] + b + seq!['\n'],
        join_lines(seq![a]) == a + seq!['\n'],
{
    assert(seq![a, b, c].drop_last() =~= seq![a, b]);
    assert(seq![a, b].drop_last() =~= seq![a]);
    assert(seq![a].drop_last() =~= Seq::<Seq<char>>::empty());
    assert(join_lines(Seq::<Seq<char>>::empty()) =~= Seq::<char>::empty());
    assert(join_lines(seq![a]) =~= a + seq!['\n']);
    assert(join_lines(seq![a, b]) =~= a + seq!['\n'] + b + seq!['\n']);
    assert(join_lines(seq![a, b, c]) =~= a + seq!['\n'] + b + seq!['\n'] + c + seq!['\n']);
}

/// The text of a report is its lines, each ended by a line feed, and no
/// repository value adds or splits a line: there are nine lines, one more
/// when there is no evidence, two for each evidence commit and one for each
/// of its references, and one for each warning. The fourth and fifth lines
/// give the recorded reason, or say that there is none; the seventh is the
/// evidence heading.
pub proof fn lemma_human_lines(report: Report)
    ensures
        lines(human_text(report)) == human_lines(report),
        human_text(report) == join_lines(human_lines(report)),
        human_lines(report).len() == 9 + (if report.evidence@.len() == 0 {
            1nat
        } else {
            0nat
        }) + evidence_line_count(report.evidence@) + report.warnings@.len(),
        human_text(report).len() > 0,
        human_text(report).last() == '\n',
        human_lines(report)[3] == (if report.reason.status == ReasonStatus::Recorded {
            "RECORDED REASON"@
        } else {
            "NO RECORDED REASON"@
        }),
        human_lines(report)[4] == reason_lines(report)[2],
        human_lines(report)[6] == "EVIDENCE"@,
        human_lines(report).subrange(
            human_lines(report).len() - report.warnings@.len(),
            human_lines(report).len() as int,
        ) == warning_lines(report.warnings@),
{
    broadcast use lemma_no_breaks_concat, lemma_sanitized_no_breaks, lemma_decimal_no_breaks;

    lemma_line_literals();
    lemma_evidence_lines(report.evidence@);
    lemma_warning_lines(report.warnings@);
    let h = heading_lines(report);
    let r = reason_lines(report);
    let e = evidence_section_lines(report);
    let c = closing_lines(report);
    lemma_join_three(h[0], h[1], h[1]);
    assert(h =~= seq![h[0], h[1]]);
    assert(join_lines(h) =~= heading_text(report));
    lemma_join_three(r[0], r[1], r[2]);
    assert(r =~= seq![r[0], r[1], r[2]]);
    assert(join_lines(r) =~= reason_section(report));
    let e_head = seq![Seq::<char>::empty(), "EVIDENCE"@];
    let e_none: Seq<Seq<char>> = if report.evidence@.len() == 0 {
        seq!["    No relevant commits found."@]
    } else {
        Seq::empty()
    };
    lemma_join_three(Seq::<char>::empty(), "EVIDENCE"@, "EVIDENCE"@);
    lemma_join_three("    No relevant commits found."@, "EVIDENCE"@, "EVIDENCE"@);
    lemma_join_concat(e_head, e_none);
    lemma_join_concat(e_head + e_none, evidence_list_lines(report.evidence@));
    assert(join_lines(Seq::<Seq<char>>::empty()) =~= Seq::<char>::empty());
    assert(join_lines(e_none) =~= (if report.evidence@.len() == 0 {
        "    No relevant commits found.\n"@
    } else {
        ""@
    }));
    assert(join_lines(e) =~= evidence_section(report));
    let c_head = seq![c[0], c[1]];
    lemma_join_three(c[0], c[1], c[1]);
    lemma_join_concat(c_head, warning_lines(report.warnings@));
    assert(c =~= c_head + warning_lines(report.warnings@));
    assert(join_lines(c) =~= closing_text(report));
    lemma_join_concat(h, r);
    lemma_join_concat(h + r, e);
    lemma_join_concat(h + r + e, c);
    assert(join_lines(human_lines(report)) =~= human_text(report));
    assert(all_without_breaks(h)) by {
        assert(no_breaks(h[0]));
        assert(no_breaks(h[1]));
    }
    assert(all_without_breaks(r)) by {
        assert(no_breaks(r[1]));
        assert(no_breaks(r[2]));
    }
    assert(all_without_breaks(e_head + e_none)) by {
        lemma_all_without_breaks_concat(e_head, e_none);
    }
    lemma_all_without_breaks_concat(e_head + e_none, evidence_list_lines(report.evidence@));
    assert(all_without_breaks(c_head)) by {
        assert(no_breaks(c[1]));
    }
    lemma_all_without_breaks_concat(c_head, warning_lines(report.warnings@));
    lemma_all_without_breaks_concat(h, r);
    lemma_all_without_breaks_concat(h + r, e);
    lemma_all_without_breaks_concat(h + r + e, c);
    lemma_lines_of_join(human_lines(report));
    let all = human_lines(report);
    assert(all.len() > 0);
    assert(human_text(report) =~= join_lines(all.drop_last()) + all.last() + seq!['\n']);
    assert(all[3] == r[1]);
    assert(all[4] == r[2]);
    assert(all[6] == e[1]);
    assert(all.subrange(all.len() - report.warnings@.len(), all.len() as int)
        =~= warning_lines(report.warnings@));
}


/// Each relation shows under its own label: the commit that last changed the
/// line as `LAST CHANGED`, one from the line's history as `LINE HISTORY`, one
/// from the file's history as `FILE HISTORY`; no two relations share a label.
pub proof fn lemma_relation_labels(x: EvidenceRelation, y: EvidenceRelation)
    ensures
        relation_label(EvidenceRelation::LastChanged) == seq![
            'L', 'A', 'S', 'T', ' ', 'C', 'H', 'A', 'N', 'G', 'E', 'D',
        ],
        relation_label(EvidenceRelation::LineHistory) == seq![
            'L', 'I', 'N', 'E', ' ', 'H', 'I', 'S', 'T', 'O', 'R', 'Y',
        ],
        relation_label(EvidenceRelation::FileHistory) == seq![
            'F', 'I', 'L', 'E', ' ', 'H', 'I', 'S', 'T', 'O', 'R', 'Y',
        ],
        relation_label(x) == relation_label(y) ==> x == y,
{
    reveal_strlit("LAST CHANGED");
    reveal_strlit("LINE HISTORY");
    reveal_strlit("FILE HISTORY");
    let last = seq!['L', 'A', 'S', 'T', ' ', 'C', 'H', 'A', 'N', 'G', 'E', 'D'];
    let line = seq!['L', 'I', 'N', 'E', ' ', 'H', 'I', 'S', 'T', 'O', 'R', 'Y'];
    let file = seq!['F', 'I', 'L', 'E', ' ', 'H', 'I', 'S', 'T', 'O', 'R', 'Y'];
    assert("LAST CHANGED"@ =~= last);
    assert("LINE HISTORY"@ =~= line);
    assert("FILE HISTORY"@ =~= file);
    assert(last[1] != line[1]);
    assert(last[0] != file[0]);
    assert(line[0] != file[0]);
}

} // verus!
