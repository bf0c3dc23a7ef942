use git_why::model::{Evidence, EvidenceRelation, Reason, ReasonStatus, Reference, Report, Target};
use git_why::output::{human, sanitize};

fn report() -> Report {
    Report {
        schema_version: 1,
        target: Target {
            path: "src/\u{1b}[31mauth.rs".into(),
            revision: "HEAD".into(),
            line: 42,
            text: "allow_skew = 30;\nforged".into(),
            dirty: false,
        },
        reason: Reason {
            status: ReasonStatus::Recorded,
            text: Some("Handle clock drift.".into()),
            source_commit: Some("0123456789abcdef".into()),
        },
        evidence: vec![Evidence {
            relation: EvidenceRelation::LastChanged,
            commit: "0123456789abcdef".into(),
            authored_at: "2026-01-02T03:04:05Z".into(),
            author_name: "Ada\rLovelace".into(),
            subject: "fix token validation".into(),
            body: String::new(),
            references: vec![Reference {
                number: 12,
                url: Some("https://example.com/pull/12".into()),
            }],
        }],
        history_complete: true,
        warnings: vec![],
    }
}

#[test]
fn human_output_is_accessible_and_sanitized() {
    let rendered = human(&report());

    assert!(rendered.contains("RECORDED REASON"));
    assert!(rendered.contains("LAST CHANGED  01234567"));
    assert!(rendered.contains("Reference #12  https://example.com/pull/12"));
    assert!(rendered.contains("allow_skew = 30; forged"));
    assert!(!rendered.contains('\u{1b}'));
    assert!(!rendered.contains('\r'));
}

#[test]
fn human_output_is_exact() {
    let rendered = human(&report());
    assert_eq!(
        rendered,
        "src/ [31mauth.rs:42 at HEAD\n    allow_skew = 30; forged\n\nRECORDED REASON\n    Handle clock drift.\n\nEVIDENCE\n    LAST CHANGED  01234567  2026-01-02T03:04:05Z  Ada Lovelace\n      fix token validation\n      Reference #12  https://example.com/pull/12\n\nHistory: complete\n"
    );
}

#[test]
fn human_output_without_reason_or_evidence() {
    let mut report = report();
    report.reason = Reason { status: ReasonStatus::Unknown, text: None, source_commit: None };
    report.evidence = vec![];
    report.target.dirty = true;
    report.history_complete = false;
    report.warnings = vec!["this is a shallow clone, so older evidence may be missing".into()];
    let rendered = human(&report);
    assert!(rendered.contains(" [uncommitted]\n"));
    assert!(rendered.contains("\nNO RECORDED REASON\n    The available commit history does not explain why.\n"));
    assert!(rendered.contains("\nEVIDENCE\n    No relevant commits found.\n"));
    assert!(rendered.ends_with("\nHistory: incomplete\nWarning: this is a shallow clone, so older evidence may be missing\n"));
}

#[test]
fn human_output_lists_relations_and_plain_references() {
    let mut report = report();
    report.reason.text = None;
    let mut second = report.evidence[0].clone();
    second.relation = EvidenceRelation::FileHistory;
    second.commit = "abc".into();
    second.references = vec![Reference { number: 7, url: None }];
    report.evidence.push(second);
    let rendered = human(&report);
    assert!(rendered.contains("    No reason text was recorded.\n"));
    assert!(rendered.contains("    FILE HISTORY  abc  "));
    assert!(rendered.contains("      Reference #7\n"));
}

#[test]
fn sanitize_replaces_control_and_direction_characters() {
    assert_eq!(sanitize("a\u{1b}b\tc\u{7f}d\u{9f}e"), "a b c d e");
    assert_eq!(sanitize("x\u{202e}y\u{2066}z\u{061c}w\u{2028}"), "x y z w ");
    assert_eq!(sanitize("café ✓"), "café ✓");
    assert_eq!(sanitize(&sanitize("a\nb")), sanitize("a\nb"));
}

#[test]
fn human_output_line_count_follows_the_report() {
    let mut report = report();
    report.warnings = vec!["first\nsecond".into(), "third".into()];
    let mut second = report.evidence[0].clone();
    second.references = vec![];
    second.commit = "ab\u{e9}".into();
    report.evidence.push(second);
    let rendered = human(&report);
    let references: usize = report.evidence.iter().map(|e| 2 + e.references.len()).sum();
    assert_eq!(rendered.matches('\n').count(), 9 + references + report.warnings.len());
    assert!(rendered.ends_with('\n'));
    let lines: Vec<&str> = rendered.lines().collect();
    assert_eq!(lines[3], "RECORDED REASON");
    assert_eq!(lines[4], "    Handle clock drift.");
    assert_eq!(lines[6], "EVIDENCE");
    assert!(lines.contains(&"    LAST CHANGED  ab\u{e9}  2026-01-02T03:04:05Z  Ada Lovelace"));
    report.evidence.clear();
    assert_eq!(human(&report).matches('\n').count(), 10 + report.warnings.len());
}
