//! The decisions of one analysis: which Git command runs next, what its
//! outcome means, and the report that the outcomes make. The caller runs the
//! commands and resolves the target path on the file system.
use vstd::prelude::*;
use vstd::utf8::{decode_utf8, valid_utf8};

use crate::command::{
    git_failure_message, git_text, git_text_result, github_remote, remote_repository, run_git,
    run_git_checked, GitOutput,
};
use crate::evidence::{
    commit_metadata, described_by, field_label, first_invalid_field, metadata_well_formed,
    reason_text, recorded_reason, text_of,
};
use crate::git::{
    blame_commit, evidence_hashes, first_at_most, hash_lines, lemma_evidence_hashes,
    parse_blame_commit, parse_hash_lines, parse_target, select_hashes, target_result,
    trimmed_text, trimmed_utf8, HISTORY_LIMIT, MAX_BLOB_BYTES, MAX_COMMIT_BYTES,
};
use crate::model::{Evidence, EvidenceRelation, ReasonStatus, Report, Target};
use crate::text::{
    is_digit, lemma_decimal_digits, lemma_parse_decimal, lemma_split_pair,
    append_str, chars_of, debug_quoted, decimal, decimal_string, decode, lines, lines_of,
    lossy_utf8, owned, parse_unsigned, parse_unsigned_range, quote, split,
    string_of_range, trim_end_cr,
};
use crate::AppError;

verus! {

// ---------------------------------------------------------------------------
// Limits and the line of the file
// ---------------------------------------------------------------------------

/// A size that Git printed: its value when it is a number no larger than
/// `limit`, else the message for a number that is no size or is too large.
pub open spec fn size_result(
    text: Seq<char>,
    limit: nat,
    invalid: Seq<char>,
    too_large: Seq<char>,
) -> Result<nat, Seq<char>> {
    match parse_unsigned(text, u64::MAX as nat) {
        None => Err(invalid),
        Some(n) => if n > limit {
            Err(too_large)
        } else {
            Ok(n)
        },
    }
}

/// The message for a file size that is no number.
pub open spec fn invalid_blob_size() -> Seq<char> {
    "Git returned an invalid file size"@
}

/// The message for a file above the size limit.
pub open spec fn blob_too_large(path: Seq<char>) -> Seq<char> {
    debug_quoted(path) + " is larger than the 5 MiB safety limit"@
}

/// The message for a commit size that is no number.
pub open spec fn invalid_commit_size(hash: Seq<char>) -> Seq<char> {
    "Git returned an invalid size for commit "@ + hash
}

/// The message for a commit above the size limit.
pub open spec fn commit_too_large(hash: Seq<char>) -> Seq<char> {
    "commit "@ + hash + " exceeds the 1 MiB metadata safety limit"@
}

/// Reads a size that Git printed and holds it to `limit`.
fn check_size(text: &str, limit: u64, invalid: String, too_large: String) -> (r: Result<
    u64,
    AppError,
>)
    ensures
        match r {
            Ok(n) => size_result(text@, limit as nat, invalid@, too_large@) == Ok::<
                nat,
                Seq<char>,
            >(n as nat),
            Err(e) => size_result(text@, limit as nat, invalid@, too_large@) == Err::<
                nat,
                Seq<char>,
            >(e.0@),
        },
{
    let chars = chars_of(text);
    assert(chars@.subrange(0, chars@.len() as int) =~= chars@);
    match parse_unsigned_range(&chars, 0, chars.len(), u64::MAX) {
        None => Err(AppError(invalid)),
        Some(n) => if n > limit {
            Err(AppError(too_large))
        } else {
            Ok(n)
        },
    }
}

/// The size of the file at `path` that `git cat-file -s` printed, held to
/// the 5 MiB limit.
pub fn check_blob_size(text: &str, path: &str) -> (r: Result<u64, AppError>)
    ensures
        match r {
            Ok(n) => size_result(text@, MAX_BLOB_BYTES as nat, invalid_blob_size(), blob_too_large(path@))
                == Ok::<nat, Seq<char>>(n as nat),
            Err(e) => size_result(text@, MAX_BLOB_BYTES as nat, invalid_blob_size(), blob_too_large(
                path@,
            )) == Err::<nat, Seq<char>>(e.0@),
        },
{
    let mut too_large = quote(path);
    append_str(&mut too_large, " is larger than the 5 MiB safety limit");
    check_size(text, MAX_BLOB_BYTES, owned("Git returned an invalid file size"), too_large)
}

/// The size of commit `hash` that `git cat-file -s` printed, held to the
/// 1 MiB limit.
pub fn check_commit_size(text: &str, hash: &str) -> (r: Result<u64, AppError>)
    ensures
        match r {
            Ok(n) => size_result(text@, MAX_COMMIT_BYTES as nat, invalid_commit_size(hash@), commit_too_large(hash@))
                == Ok::<nat, Seq<char>>(n as nat),
            Err(e) => size_result(text@, MAX_COMMIT_BYTES as nat, invalid_commit_size(hash@), commit_too_large(
                hash@,
            )) == Err::<nat, Seq<char>>(e.0@),
        },
{
    let mut invalid = owned("Git returned an invalid size for commit ");
    append_str(&mut invalid, hash);
    let mut too_large = owned("commit ");
    append_str(&mut too_large, hash);
    append_str(&mut too_large, " exceeds the 1 MiB metadata safety limit");
    check_size(text, MAX_COMMIT_BYTES, invalid, too_large)
}

/// Line `line` of the file content `blob` at `path`, without the carriage
/// returns at its end; or the message for binary content, for content that
/// is no UTF-8, or for a line the file does not have.
pub open spec fn source_line_result(blob: Seq<u8>, line: nat, path: Seq<char>) -> Result<
    Seq<char>,
    Seq<char>,
> {
    if blob.contains(0u8) {
        Err(debug_quoted(path) + " is binary; only UTF-8 text files are supported"@)
    } else if !valid_utf8(blob) {
        Err(debug_quoted(path) + " is not valid UTF-8 text"@)
    } else {
        let ls = lines(decode_utf8(blob));
        if 1 <= line <= ls.len() {
            Ok(trim_end_cr(ls[line - 1]))
        } else {
            Err("line "@ + decimal(line) + " is outside "@ + debug_quoted(path) + " (1-"@ + decimal(
                ls.len(),
            ) + ")"@)
        }
    }
}

/// Line `line` of the file content `blob`, the file being at `path`.
pub fn source_line(blob: &[u8], line: usize, path: &str) -> (r: Result<String, AppError>)
    ensures
        match r {
            Ok(s) => source_line_result(blob@, line as nat, path@) == Ok::<Seq<char>, Seq<char>>(
                s@,
            ),
            Err(e) => source_line_result(blob@, line as nat, path@) == Err::<
                Seq<char>,
                Seq<char>,
            >(e.0@),
        },
{
    let mut i: usize = 0;
    while i < blob.len()
        invariant
            0 <= i <= blob.len(),
            forall|j: int| 0 <= j < i ==> blob@[j] != 0u8,
        decreases blob.len() - i,
    {
        if blob[i] == 0u8 {
            assert(blob@.contains(0u8)) by {
                assert(blob@[i as int] == 0u8);
            }
            let mut m = quote(path);
            append_str(&mut m, " is binary; only UTF-8 text files are supported");
            return Err(AppError(m));
        }
        i += 1;
    }
    let chars = match decode(blob) {
        Some(c) => c,
        None => {
            let mut m = quote(path);
            append_str(&mut m, " is not valid UTF-8 text");
            return Err(AppError(m));
        },
    };
    let all_lines = lines_of(&chars);
    let ghost ls = lines(decode_utf8(blob@));
    assert(all_lines@.map_values(|v: Vec<char>| v@) == ls);
    if 1 <= line && line <= all_lines.len() {
        let chosen = &all_lines[line - 1];
        assert(chosen@ == ls[line - 1]);
        let mut k = chosen.len();
        assert(chosen@.take(k as int) =~= chosen@);
        while k > 0 && chosen[k - 1] == '\r'
            invariant
                0 <= k <= chosen.len(),
                trim_end_cr(chosen@) == trim_end_cr(chosen@.take(k as int)),
            decreases k,
        {
            assert(chosen@.take(k as int).drop_last() =~= chosen@.take(k - 1));
            k -= 1;
        }
        assert(chosen@.subrange(0, k as int) =~= chosen@.take(k as int));
        Ok(string_of_range(chosen, 0, k))
    } else {
        let mut m = owned("line ");
        let digits = decimal_string(line as u64);
        append_str(&mut m, digits.as_str());
        append_str(&mut m, " is outside ");
        let q = quote(path);
        append_str(&mut m, q.as_str());
        append_str(&mut m, " (1-");
        let count = decimal_string(all_lines.len() as u64);
        append_str(&mut m, count.as_str());
        append_str(&mut m, ")");
        Err(AppError(m))
    }
}

// ---------------------------------------------------------------------------
// The report
// ---------------------------------------------------------------------------

/// The relation of the evidence commit at `index`: the first changed the
/// line last, the others come from the line's history or, when that was not
/// available, from the file's.
pub open spec fn relation_for(index: int, fallback_used: bool) -> EvidenceRelation {
    if index == 0 {
        EvidenceRelation::LastChanged
    } else if fallback_used {
        EvidenceRelation::FileHistory
    } else {
        EvidenceRelation::LineHistory
    }
}

/// The warnings of a report, in order.
pub open spec fn expected_warnings(dirty: bool, shallow: bool, fallback_used: bool, truncated: bool) -> Seq<
    Seq<char>,
> {
    (if dirty {
        seq!["working-tree changes were ignored; evidence is for HEAD"@]
    } else {
        Seq::empty()
    }) + (if shallow {
        seq!["this is a shallow clone, so older evidence may be missing"@]
    } else {
        Seq::empty()
    }) + (if fallback_used {
        seq!["exact line history was unavailable; showing file history"@]
    } else {
        Seq::empty()
    }) + (if truncated {
        seq!["history output was limited to "@ + decimal(HISTORY_LIMIT as nat) + " commits"@]
    } else {
        Seq::empty()
    })
}

/// The texts of a list of strings.
pub open spec fn texts(v: Seq<String>) -> Seq<Seq<char>> {
    v.map_values(|s: String| s@)
}

/// Where an analysis stands.
pub enum Stage {
    /// Waiting for the repository root, from the current directory.
    Toplevel,
    /// Waiting for the target's path relative to the root.
    Path,
    /// Waiting for the commit at `HEAD`.
    Head,
    /// Waiting to learn whether the file is tracked at `HEAD`.
    Exists,
    /// Waiting for the file's size.
    Size,
    /// Waiting for the file's content.
    Blob,
    /// Waiting for the file's status in the working tree.
    Status,
    /// Waiting to learn whether the clone is shallow.
    Shallow,
    /// Waiting for the commit that last changed the line.
    Blame,
    /// Waiting for the line's history.
    History,
    /// Waiting for the file's history, the line's being unavailable.
    FileHistory,
    /// Waiting for the URL of the `origin` remote.
    Remote,
    /// Waiting for the size of the evidence commit at this index.
    CommitSize(usize),
    /// Waiting for the metadata of the evidence commit at this index.
    CommitShow(usize),
    /// All evidence is gathered.
    Complete,
    /// The analysis failed.
    Failed(AppError),
}

/// One analysis of one target, from the command line argument to the report.
pub struct Analysis {
    pub raw_path: String,
    pub line: usize,
    pub stage: Stage,
    pub root: String,
    pub path: String,
    pub revision: String,
    pub text: String,
    pub dirty: bool,
    pub shallow: bool,
    pub blamed: String,
    pub history: Vec<String>,
    pub fallback_used: bool,
    pub hashes: Vec<String>,
    pub github_repo: Option<String>,
    pub evidence: Vec<Evidence>,
}

/// What the caller does next for an analysis.
pub enum Request {
    /// Run Git with these arguments, in the repository root or else in the
    /// current directory, and hand its outcome to `on_git`.
    Git { in_root: bool, arguments: Vec<String> },
    /// Resolve `raw_path` against `root` on the file system and hand the
    /// path relative to the root to `on_path`.
    ResolvePath,
    /// Nothing more: `finish` gives the result.
    Done,
}

/// The stages before the evidence commits are read.
pub open spec fn gathering(stage: Stage) -> bool {
    !(stage is Remote || stage is CommitSize || stage is CommitShow || stage is Complete
        || stage is Failed)
}

/// What holds of an analysis at every stage.
pub open spec fn well_formed(a: Analysis) -> bool {
    &&& a.line >= 1
    &&& gathering(a.stage) ==> a.evidence@.len() == 0
    &&& a.stage is Remote ==> a.evidence@.len() == 0 && 1 <= a.hashes@.len() <= HISTORY_LIMIT
    &&& a.stage matches Stage::CommitSize(k) ==> k == a.evidence@.len() && k < a.hashes@.len()
        <= HISTORY_LIMIT
    &&& a.stage matches Stage::CommitShow(k) ==> k == a.evidence@.len() && k < a.hashes@.len()
        <= HISTORY_LIMIT
    &&& a.stage is Complete ==> 1 <= a.evidence@.len() == a.hashes@.len() <= HISTORY_LIMIT
    &&& forall|i: int|
        0 <= i < a.evidence@.len() ==> (#[trigger] a.evidence@[i]).relation == relation_for(
            i,
            a.fallback_used,
        )
}

/// `after` is `before` moved on to `stage`.
pub open spec fn advances(before: Analysis, after: Analysis, stage: Stage) -> bool {
    after == (Analysis { stage: stage, ..before })
}

/// `after` is `before` failed with `error`.
pub open spec fn fails_as(before: Analysis, after: Analysis, error: AppError) -> bool {
    after == (Analysis { stage: Stage::Failed(error), ..before })
}

/// `after` is `before` failed with `message`.
pub open spec fn fails_with(before: Analysis, after: Analysis, message: Seq<char>) -> bool {
    &&& after.stage matches Stage::Failed(e) && e.0@ == message
    &&& after == (Analysis { stage: after.stage, ..before })
}

/// The arguments of the Git command that `a` waits for.
pub open spec fn command_arguments(a: Analysis) -> Seq<Seq<char>> {
    let object = a.revision@ + ":"@ + a.path@;
    let line = decimal(a.line as nat);
    let max_history = decimal((HISTORY_LIMIT + 1) as nat);
    match a.stage {
        Stage::Toplevel => seq!["rev-parse"@, "--show-toplevel"@],
        Stage::Head => seq!["rev-parse"@, "--verify"@, "HEAD^{commit}"@],
        Stage::Exists => seq!["cat-file"@, "-e"@, object],
        Stage::Size => seq!["cat-file"@, "-s"@, object],
        Stage::Blob => seq!["cat-file"@, "blob"@, object],
        Stage::Status => seq!["status"@, "--porcelain=v1"@, "--"@, a.path@],
        Stage::Shallow => seq!["rev-parse"@, "--is-shallow-repository"@],
        Stage::Blame => seq![
            "blame"@,
            "-w"@,
            "-M"@,
            "-C"@,
            "--root"@,
            "-l"@,
            "-s"@,
            "-L"@,
            line + ","@ + line,
            a.revision@,
            "--"@,
            a.path@,
        ],
        Stage::History => seq![
            "log"@,
            "--no-color"@,
            "--no-ext-diff"@,
            "--no-textconv"@,
            "--no-patch"@,
            "--format=%H"@,
            "--max-count"@,
            max_history,
            "-L"@,
            line + ","@ + line + ":"@ + a.path@,
            a.revision@,
        ],
        Stage::FileHistory => seq![
            "log"@,
            "--follow"@,
            "--no-color"@,
            "--no-ext-diff"@,
            "--no-textconv"@,
            "--no-patch"@,
            "--format=%H"@,
            "--max-count"@,
            max_history,
            a.revision@,
            "--"@,
            a.path@,
        ],
        Stage::Remote => seq!["config"@, "--get"@, "remote.origin.url"@],
        Stage::CommitSize(k) => seq!["cat-file"@, "-s"@, a.hashes@[k as int]@],
        Stage::CommitShow(k) => seq![
            "show"@,
            "-s"@,
            "--no-color"@,
            "--no-notes"@,
            "--format=format:%H%x00%aI%x00%an%x00%s%x00%b%x00"@,
            a.hashes@[k as int]@,
        ],
        _ => Seq::empty(),
    }
}

/// The analysis waits for a Git command.
pub open spec fn waits_for_git(stage: Stage) -> bool {
    !(stage is Path || stage is Complete || stage is Failed)
}

/// What the outcome of the Git command that `before` waits for makes of it.
pub open spec fn git_step(before: Analysis, after: Analysis, outcome: Result<GitOutput, AppError>) -> bool {
    let quoted = debug_quoted(before.path@);
    match before.stage {
        Stage::Remote => {
            &&& text_of(after.github_repo) == remote_repository(outcome)
            &&& after == (Analysis {
                stage: Stage::CommitSize(0),
                github_repo: after.github_repo,
                ..before
            })
        },
        _ => match outcome {
            Err(e) => fails_as(before, after, e),
            Ok(out) => match before.stage {
                Stage::Toplevel => if !out.success {
                    fails_with(before, after, git_failure_message(out.stderr@))
                } else {
                    match trimmed_text(out.stdout@, "repository path"@) {
                        Err(m) => fails_with(before, after, m),
                        Ok(root) => after.root@ == root && after == (Analysis {
                            stage: Stage::Path,
                            root: after.root,
                            ..before
                        }),
                    }
                },
                Stage::Head => match git_text_result(out, "repository has no HEAD commit"@) {
                    Err(m) => fails_with(before, after, m),
                    Ok(revision) => after.revision@ == revision && after == (Analysis {
                        stage: Stage::Exists,
                        revision: after.revision,
                        ..before
                    }),
                },
                Stage::Exists => if !out.success {
                    fails_with(before, after, quoted + " is not a tracked file at HEAD"@)
                } else {
                    advances(before, after, Stage::Size)
                },
                Stage::Size => match git_text_result(out, "could not read the file size"@) {
                    Err(m) => fails_with(before, after, m),
                    Ok(t) => match size_result(
                        t,
                        MAX_BLOB_BYTES as nat,
                        invalid_blob_size(),
                        blob_too_large(before.path@),
                    ) {
                        Err(m) => fails_with(before, after, m),
                        Ok(_) => advances(before, after, Stage::Blob),
                    },
                },
                Stage::Blob => if !out.success {
                    fails_with(before, after, "could not read "@ + quoted + " at HEAD"@)
                } else {
                    match source_line_result(out.stdout@, before.line as nat, before.path@) {
                        Err(m) => fails_with(before, after, m),
                        Ok(t) => after.text@ == t && after == (Analysis {
                            stage: Stage::Status,
                            text: after.text,
                            ..before
                        }),
                    }
                },
                Stage::Status => after == (Analysis {
                    stage: Stage::Shallow,
                    dirty: out.stdout@.len() > 0,
                    ..before
                }),
                Stage::Shallow => match git_text_result(
                    out,
                    "could not determine whether repository history is shallow"@,
                ) {
                    Err(m) => fails_with(before, after, m),
                    Ok(t) => after == (Analysis {
                        stage: Stage::Blame,
                        shallow: t == "true"@,
                        ..before
                    }),
                },
                Stage::Blame => if !out.success {
                    fails_with(
                        before,
                        after,
                        "could not trace "@ + before.path@ + ":"@ + decimal(before.line as nat),
                    )
                } else {
                    match blame_commit(out.stdout@) {
                        Err(m) => fails_with(before, after, m),
                        Ok(h) => after.blamed@ == h && after == (Analysis {
                            stage: Stage::History,
                            blamed: after.blamed,
                            ..before
                        }),
                    }
                },
                Stage::History => if out.success {
                    history_read(before, after, out.stdout@, false)
                } else {
                    after == (Analysis { stage: Stage::FileHistory, fallback_used: true, ..before })
                },
                Stage::FileHistory => if !out.success {
                    fails_with(before, after, "could not read history for "@ + quoted)
                } else {
                    history_read(before, after, out.stdout@, true)
                },
                Stage::CommitSize(k) => {
                    let hash = before.hashes@[k as int]@;
                    match git_text_result(out, "could not read commit "@ + hash) {
                        Err(m) => fails_with(before, after, m),
                        Ok(t) => match size_result(
                            t,
                            MAX_COMMIT_BYTES as nat,
                            invalid_commit_size(hash),
                            commit_too_large(hash),
                        ) {
                            Err(m) => fails_with(before, after, m),
                            Ok(_) => advances(before, after, Stage::CommitShow(k)),
                        },
                    }
                },
                Stage::CommitShow(k) => commit_read(before, after, out, k),
                _ => after == before,
            },
        },
    }
}

/// `after` holds the history that `git log` printed, and the evidence
/// commits chosen from it.
pub open spec fn history_read(before: Analysis, after: Analysis, stdout: Seq<u8>, fallback_used: bool) -> bool {
    &&& texts(after.history@) == hash_lines(lines(lossy_utf8(stdout)))
    &&& texts(after.hashes@) == evidence_hashes(
        before.blamed@,
        first_at_most(texts(after.history@), HISTORY_LIMIT as nat),
    )
    &&& after == (Analysis {
        stage: Stage::Remote,
        history: after.history,
        hashes: after.hashes,
        fallback_used: fallback_used,
        ..before
    })
}

/// `after` holds one more evidence commit, the one whose metadata `git show`
/// printed, or failed.
pub open spec fn commit_read(before: Analysis, after: Analysis, out: GitOutput, k: usize) -> bool {
    let hash = before.hashes@[k as int]@;
    let fields = split(out.stdout@, 0u8);
    if !out.success {
        fails_with(before, after, "could not read commit "@ + hash)
    } else if !metadata_well_formed(fields) {
        fails_with(before, after, "Git returned invalid metadata for commit "@ + hash)
    } else if first_invalid_field(fields) < 5 {
        fails_with(
            before,
            after,
            "commit "@ + hash + " has non-UTF-8 "@ + field_label(first_invalid_field(fields)),
        )
    } else {
        &&& after.evidence@.len() == before.evidence@.len() + 1
        &&& after.evidence@.take(before.evidence@.len() as int) == before.evidence@
        &&& described_by(after.evidence@.last(), fields, text_of(before.github_repo))
        &&& after.evidence@.last().relation == relation_for(k as int, before.fallback_used)
        &&& after == (Analysis {
            stage: if k + 1 < before.hashes@.len() {
                Stage::CommitSize((k + 1) as usize)
            } else {
                Stage::Complete
            },
            evidence: after.evidence,
            ..before
        })
    }
}

/// `r` is the report of the completed analysis `a`.
pub open spec fn is_report_of(r: Report, a: Analysis) -> bool {
    let truncated = a.history@.len() > HISTORY_LIMIT;
    &&& r.schema_version == 1
    &&& r.target == (Target {
        path: a.path,
        revision: a.revision,
        line: a.line,
        text: a.text,
        dirty: a.dirty,
    })
    &&& r.evidence == a.evidence
    &&& text_of(r.reason.text) == reason_text(a.evidence@[0].subject@, a.evidence@[0].body@)
    &&& r.reason.status == (if r.reason.text is Some {
        ReasonStatus::Recorded
    } else {
        ReasonStatus::Unknown
    })
    &&& text_of(r.reason.source_commit) == Some(a.evidence@[0].commit@)
    &&& r.history_complete == (!a.shallow && !truncated && !a.fallback_used)
    &&& texts(r.warnings@) == expected_warnings(a.dirty, a.shallow, a.fallback_used, truncated)
}

/// Appends `arg` to the argument list `v`.
fn push_arg(v: &mut Vec<String>, arg: String)
    ensures
        texts(final(v)@) == texts(old(v)@).push(arg@),
{
    let ghost before = texts(v@);
    v.push(arg);
    assert(texts(v@) =~= before.push(arg@));
}

/// `a` and `b` joined.
fn join2(a: &str, b: &str) -> (s: String)
    ensures
        s@ == a@ + b@,
{
    let mut s = owned(a);
    append_str(&mut s, b);
    s
}

/// `a`, `b` and `c` joined.
fn join3(a: &str, b: &str, c: &str) -> (s: String)
    ensures
        s@ == a@ + b@ + c@,
{
    let mut s = owned(a);
    append_str(&mut s, b);
    append_str(&mut s, c);
    s
}

impl Analysis {
    /// Starts the analysis of a target `FILE:LINE`.
    pub fn start(spec: &str) -> (r: Result<Analysis, AppError>)
        ensures
            match r {
                Ok(a) => {
                    &&& well_formed(a)
                    &&& a.stage is Toplevel
                    &&& target_result(spec@) == Ok::<(Seq<char>, nat), Seq<char>>(
                        (a.raw_path@, a.line as nat),
                    )
                    &&& a.evidence@.len() == 0
                },
                Err(e) => target_result(spec@) == Err::<(Seq<char>, nat), Seq<char>>(e.0@),
            },
    {
        let (raw_path, line) = parse_target(spec)?;
        Ok(
            Analysis {
                raw_path: owned(raw_path),
                line,
                stage: Stage::Toplevel,
                root: String::new(),
                path: String::new(),
                revision: String::new(),
                text: String::new(),
                dirty: false,
                shallow: false,
                blamed: String::new(),
                history: Vec::new(),
                fallback_used: false,
                hashes: Vec::new(),
                github_repo: None,
                evidence: Vec::new(),
            },
        )
    }

    /// What the caller does next.
    pub fn request(&self) -> (r: Request)
        requires
            well_formed(*self),
        ensures
            match r {
                Request::Git { in_root, arguments } => {
                    &&& waits_for_git(self.stage)
                    &&& in_root == !(self.stage is Toplevel)
                    &&& texts(arguments@) == command_arguments(*self)
                },
                Request::ResolvePath => self.stage is Path,
                Request::Done => self.stage is Complete || self.stage is Failed,
            },
    {
        let mut v: Vec<String> = Vec::new();
        assert(texts(v@) =~= Seq::<Seq<char>>::empty());
        match &self.stage {
            Stage::Path => {
                return Request::ResolvePath;
            },
            Stage::Complete | Stage::Failed(_) => {
                return Request::Done;
            },
            Stage::Toplevel => {
                push_arg(&mut v, owned("rev-parse"));
                push_arg(&mut v, owned("--show-toplevel"));
                return Request::Git { in_root: false, arguments: v };
            },
            Stage::Head => {
                push_arg(&mut v, owned("rev-parse"));
                push_arg(&mut v, owned("--verify"));
                push_arg(&mut v, owned("HEAD^{commit}"));
            },
            Stage::Exists | Stage::Size | Stage::Blob => {
                push_arg(&mut v, owned("cat-file"));
                match &self.stage {
                    Stage::Exists => push_arg(&mut v, owned("-e")),
                    Stage::Size => push_arg(&mut v, owned("-s")),
                    _ => push_arg(&mut v, owned("blob")),
                }
                push_arg(&mut v, join3(self.revision.as_str(), ":", self.path.as_str()));
            },
            Stage::Status => {
                push_arg(&mut v, owned("status"));
                push_arg(&mut v, owned("--porcelain=v1"));
                push_arg(&mut v, owned("--"));
                push_arg(&mut v, self.path.clone());
            },
            Stage::Shallow => {
                push_arg(&mut v, owned("rev-parse"));
                push_arg(&mut v, owned("--is-shallow-repository"));
            },
            Stage::Blame => {
                let line = decimal_string(self.line as u64);
                push_arg(&mut v, owned("blame"));
                push_arg(&mut v, owned("-w"));
                push_arg(&mut v, owned("-M"));
                push_arg(&mut v, owned("-C"));
                push_arg(&mut v, owned("--root"));
                push_arg(&mut v, owned("-l"));
                push_arg(&mut v, owned("-s"));
                push_arg(&mut v, owned("-L"));
                push_arg(&mut v, join3(line.as_str(), ",", line.as_str()));
                push_arg(&mut v, self.revision.clone());
                push_arg(&mut v, owned("--"));
                push_arg(&mut v, self.path.clone());
            },
            Stage::History => {
                let line = decimal_string(self.line as u64);
                let mut range = join3(line.as_str(), ",", line.as_str());
                append_str(&mut range, ":");
                append_str(&mut range, self.path.as_str());
                push_arg(&mut v, owned("log"));
                push_arg(&mut v, owned("--no-color"));
                push_arg(&mut v, owned("--no-ext-diff"));
                push_arg(&mut v, owned("--no-textconv"));
                push_arg(&mut v, owned("--no-patch"));
                push_arg(&mut v, owned("--format=%H"));
                push_arg(&mut v, owned("--max-count"));
                push_arg(&mut v, decimal_string((HISTORY_LIMIT + 1) as u64));
                push_arg(&mut v, owned("-L"));
                push_arg(&mut v, range);
                push_arg(&mut v, self.revision.clone());
            },
            Stage::FileHistory => {
                push_arg(&mut v, owned("log"));
                push_arg(&mut v, owned("--follow"));
                push_arg(&mut v, owned("--no-color"));
                push_arg(&mut v, owned("--no-ext-diff"));
                push_arg(&mut v, owned("--no-textconv"));
                push_arg(&mut v, owned("--no-patch"));
                push_arg(&mut v, owned("--format=%H"));
                push_arg(&mut v, owned("--max-count"));
                push_arg(&mut v, decimal_string((HISTORY_LIMIT + 1) as u64));
                push_arg(&mut v, self.revision.clone());
                push_arg(&mut v, owned("--"));
                push_arg(&mut v, self.path.clone());
            },
            Stage::Remote => {
                push_arg(&mut v, owned("config"));
                push_arg(&mut v, owned("--get"));
                push_arg(&mut v, owned("remote.origin.url"));
            },
            Stage::CommitSize(k) => {
                push_arg(&mut v, owned("cat-file"));
                push_arg(&mut v, owned("-s"));
                push_arg(&mut v, self.hashes[*k].clone());
            },
            Stage::CommitShow(k) => {
                push_arg(&mut v, owned("show"));
                push_arg(&mut v, owned("-s"));
                push_arg(&mut v, owned("--no-color"));
                push_arg(&mut v, owned("--no-notes"));
                push_arg(&mut v, owned("--format=format:%H%x00%aI%x00%an%x00%s%x00%b%x00"));
                push_arg(&mut v, self.hashes[*k].clone());
            },
        }
        assert(texts(v@) =~= command_arguments(*self));
        Request::Git { in_root: true, arguments: v }
    }

    /// Takes the path of the target relative to the repository root, or the
    /// error that resolving it gave.
    pub fn on_path(&mut self, resolved: Result<String, AppError>)
        requires
            well_formed(*old(self)),
            old(self).stage is Path,
        ensures
            well_formed(*final(self)),
            match resolved {
                Ok(p) => *final(self) == (Analysis { stage: Stage::Head, path: p, ..*old(self) }),
                Err(e) => fails_as(*old(self), *final(self), e),
            },
    {
        match resolved {
            Ok(p) => {
                self.path = p;
                self.stage = Stage::Head;
            },
            Err(e) => {
                self.stage = Stage::Failed(e);
            },
        }
    }

    /// Takes the outcome of the Git command that the analysis waits for.
    pub fn on_git(&mut self, outcome: Result<GitOutput, AppError>)
        requires
            well_formed(*old(self)),
            waits_for_git(old(self).stage),
        ensures
            well_formed(*final(self)),
            git_step(*old(self), *final(self), outcome),
    {
        if matches!(self.stage, Stage::Remote) {
            self.github_repo = github_remote(outcome);
            self.stage = Stage::CommitSize(0);
            return;
        }
        let out = match outcome {
            Err(e) => {
                self.stage = Stage::Failed(e);
                return;
            },
            Ok(out) => out,
        };
        let commit: Option<(bool, usize)> = match &self.stage {
            Stage::CommitSize(k) => Some((true, *k)),
            Stage::CommitShow(k) => Some((false, *k)),
            _ => None,
        };
        match commit {
            Some((true, k)) => self.on_commit_size(out, k),
            Some((false, k)) => self.on_commit_show(out, k),
            None => {
                if matches!(self.stage, Stage::Toplevel) {
                    self.on_toplevel(out);
                } else if matches!(self.stage, Stage::Head) {
                    self.on_head(out);
                } else if matches!(self.stage, Stage::Exists) {
                    self.on_exists(out);
                } else if matches!(self.stage, Stage::Size) {
                    self.on_size(out);
                } else if matches!(self.stage, Stage::Blob) {
                    self.on_blob(out);
                } else if matches!(self.stage, Stage::Status) {
                    self.dirty = out.stdout.len() > 0;
                    self.stage = Stage::Shallow;
                } else if matches!(self.stage, Stage::Shallow) {
                    self.on_shallow(out);
                } else if matches!(self.stage, Stage::Blame) {
                    self.on_blame(out);
                } else if matches!(self.stage, Stage::History) {
                    if out.success {
                        self.read_history(out, false);
                    } else {
                        self.fallback_used = true;
                        self.stage = Stage::FileHistory;
                    }
                } else {
                    self.on_file_history(out);
                }
            },
        }
    }

    fn fail(&mut self, error: AppError)
        ensures
            fails_as(*old(self), *final(self), error),
    {
        self.stage = Stage::Failed(error);
    }

    fn on_toplevel(&mut self, out: GitOutput)
        requires
            well_formed(*old(self)),
            old(self).stage is Toplevel,
        ensures
            well_formed(*final(self)),
            git_step(*old(self), *final(self), Ok::<GitOutput, AppError>(out)),
    {
        match run_git(out) {
            Err(e) => self.fail(e),
            Ok(out) => match trimmed_utf8(out.stdout.as_slice(), "repository path") {
                Err(e) => self.fail(e),
                Ok(root) => {
                    self.root = root;
                    self.stage = Stage::Path;
                },
            },
        }
    }

    fn on_head(&mut self, out: GitOutput)
        requires
            well_formed(*old(self)),
            old(self).stage is Head,
        ensures
            well_formed(*final(self)),
            git_step(*old(self), *final(self), Ok::<GitOutput, AppError>(out)),
    {
        match git_text(out, owned("repository has no HEAD commit")) {
            Err(e) => self.fail(e),
            Ok(revision) => {
                self.revision = revision;
                self.stage = Stage::Exists;
            },
        }
    }

    fn on_exists(&mut self, out: GitOutput)
        requires
            well_formed(*old(self)),
            old(self).stage is Exists,
        ensures
            well_formed(*final(self)),
            git_step(*old(self), *final(self), Ok::<GitOutput, AppError>(out)),
    {
        let mut message = quote(self.path.as_str());
        append_str(&mut message, " is not a tracked file at HEAD");
        match run_git_checked(out, message) {
            Err(e) => self.fail(e),
            Ok(_) => {
                self.stage = Stage::Size;
            },
        }
    }

    fn on_size(&mut self, out: GitOutput)
        requires
            well_formed(*old(self)),
            old(self).stage is Size,
        ensures
            well_formed(*final(self)),
            git_step(*old(self), *final(self), Ok::<GitOutput, AppError>(out)),
    {
        match git_text(out, owned("could not read the file size")) {
            Err(e) => self.fail(e),
            Ok(text) => match check_blob_size(text.as_str(), self.path.as_str()) {
                Err(e) => self.fail(e),
                Ok(_) => {
                    self.stage = Stage::Blob;
                },
            },
        }
    }

    fn on_blob(&mut self, out: GitOutput)
        requires
            well_formed(*old(self)),
            old(self).stage is Blob,
        ensures
            well_formed(*final(self)),
            git_step(*old(self), *final(self), Ok::<GitOutput, AppError>(out)),
    {
        let message = join3("could not read ", quote(self.path.as_str()).as_str(), " at HEAD");
        match run_git_checked(out, message) {
            Err(e) => self.fail(e),
            Ok(out) => match source_line(out.stdout.as_slice(), self.line, self.path.as_str()) {
                Err(e) => self.fail(e),
                Ok(text) => {
                    self.text = text;
                    self.stage = Stage::Status;
                },
            },
        }
    }

    fn on_shallow(&mut self, out: GitOutput)
        requires
            well_formed(*old(self)),
            old(self).stage is Shallow,
        ensures
            well_formed(*final(self)),
            git_step(*old(self), *final(self), Ok::<GitOutput, AppError>(out)),
    {
        match git_text(out, owned("could not determine whether repository history is shallow")) {
            Err(e) => self.fail(e),
            Ok(text) => {
                self.shallow = text == owned("true");
                self.stage = Stage::Blame;
            },
        }
    }

    fn on_blame(&mut self, out: GitOutput)
        requires
            well_formed(*old(self)),
            old(self).stage is Blame,
        ensures
            well_formed(*final(self)),
            git_step(*old(self), *final(self), Ok::<GitOutput, AppError>(out)),
    {
        let line = decimal_string(self.line as u64);
        let message = join3("could not trace ", self.path.as_str(), ":");
        let mut message = message;
        append_str(&mut message, line.as_str());
        match run_git_checked(out, message) {
            Err(e) => self.fail(e),
            Ok(out) => match parse_blame_commit(out.stdout.as_slice()) {
                Err(e) => self.fail(e),
                Ok(hash) => {
                    self.blamed = hash;
                    self.stage = Stage::History;
                },
            },
        }
    }

    fn on_file_history(&mut self, out: GitOutput)
        requires
            well_formed(*old(self)),
            old(self).stage is FileHistory,
        ensures
            well_formed(*final(self)),
            git_step(*old(self), *final(self), Ok::<GitOutput, AppError>(out)),
    {
        let message = join2("could not read history for ", quote(self.path.as_str()).as_str());
        match run_git_checked(out, message) {
            Err(e) => self.fail(e),
            Ok(out) => self.read_history(out, true),
        }
    }

    fn read_history(&mut self, out: GitOutput, fallback_used: bool)
        requires
            well_formed(*old(self)),
            old(self).stage is History || old(self).stage is FileHistory,
        ensures
            well_formed(*final(self)),
            history_read(*old(self), *final(self), out.stdout@, fallback_used),
    {
        let history = parse_hash_lines(out.stdout.as_slice());
        let hashes = select_hashes(&self.blamed, &history);
        proof {
            assert(texts(history@) =~= history@.map_values(|s: String| s@));
            assert(texts(hashes@) =~= hashes@.map_values(|s: String| s@));
            lemma_evidence_hashes(
                self.blamed@,
                first_at_most(texts(history@), HISTORY_LIMIT as nat),
            );
        }
        self.history = history;
        self.hashes = hashes;
        self.fallback_used = fallback_used;
        self.stage = Stage::Remote;
    }

    fn on_commit_size(&mut self, out: GitOutput, k: usize)
        requires
            well_formed(*old(self)),
            old(self).stage == Stage::CommitSize(k),
        ensures
            well_formed(*final(self)),
            git_step(*old(self), *final(self), Ok::<GitOutput, AppError>(out)),
    {
        let hash = self.hashes[k].clone();
        match git_text(out, join2("could not read commit ", hash.as_str())) {
            Err(e) => self.fail(e),
            Ok(text) => match check_commit_size(text.as_str(), hash.as_str()) {
                Err(e) => self.fail(e),
                Ok(_) => {
                    self.stage = Stage::CommitShow(k);
                },
            },
        }
    }

    fn on_commit_show(&mut self, out: GitOutput, k: usize)
        requires
            well_formed(*old(self)),
            old(self).stage == Stage::CommitShow(k),
        ensures
            well_formed(*final(self)),
            git_step(*old(self), *final(self), Ok::<GitOutput, AppError>(out)),
    {
        let hash = self.hashes[k].clone();
        let message = join2("could not read commit ", hash.as_str());
        let out = match run_git_checked(out, message) {
            Err(e) => {
                self.fail(e);
                return;
            },
            Ok(out) => out,
        };
        let repository: Option<&str> = match &self.github_repo {
            Some(r) => Some(r.as_str()),
            None => None,
        };
        match commit_metadata(out.stdout.as_slice(), hash.as_str(), repository) {
            Err(e) => self.fail(e),
            Ok(item) => {
                let mut item = item;
                item.relation = if k == 0 {
                    EvidenceRelation::LastChanged
                } else if self.fallback_used {
                    EvidenceRelation::FileHistory
                } else {
                    EvidenceRelation::LineHistory
                };
                let ghost before = self.evidence@;
                self.evidence.push(item);
                assert(self.evidence@.take(before.len() as int) =~= before);
                if k + 1 < self.hashes.len() {
                    self.stage = Stage::CommitSize(k + 1);
                } else {
                    self.stage = Stage::Complete;
                }
            },
        }
    }

    /// The report of a completed analysis, or the error of a failed one.
    pub fn finish(self) -> (r: Result<Report, AppError>)
        requires
            well_formed(self),
            self.stage is Complete || self.stage is Failed,
        ensures
            match self.stage {
                Stage::Failed(e) => r == Err::<Report, AppError>(e),
                _ => r matches Ok(report) && is_report_of(report, self),
            },
    {
        let ghost a = self;
        let Analysis {
            raw_path,
            line,
            stage,
            root,
            path,
            revision,
            text,
            dirty,
            shallow,
            blamed,
            history,
            fallback_used,
            hashes,
            github_repo,
            evidence,
        } = self;
        match stage {
            Stage::Failed(e) => {
                return Err(e);
            },
            _ => {},
        }
        let reason = recorded_reason(Some(&evidence[0]));
        let truncated = history.len() > HISTORY_LIMIT;
        let mut warnings: Vec<String> = Vec::new();
        assert(texts(warnings@) =~= Seq::<Seq<char>>::empty());
        if dirty {
            push_arg(&mut warnings, owned("working-tree changes were ignored; evidence is for HEAD"));
        }
        if shallow {
            push_arg(
                &mut warnings,
                owned("this is a shallow clone, so older evidence may be missing"),
            );
        }
        if fallback_used {
            push_arg(
                &mut warnings,
                owned("exact line history was unavailable; showing file history"),
            );
        }
        if truncated {
            let limit = decimal_string(HISTORY_LIMIT as u64);
            push_arg(
                &mut warnings,
                join3("history output was limited to ", limit.as_str(), " commits"),
            );
        }
        assert(texts(warnings@) =~= expected_warnings(dirty, shallow, fallback_used, truncated));
        Ok(
            Report {
                schema_version: 1,
                target: Target { path, revision, line, text, dirty },
                reason,
                evidence,
                history_complete: !shallow && !truncated && !fallback_used,
                warnings,
            },
        )
    }
}


/// The shape of every report: one to six evidence commits, the first being
/// the one that last changed the line and the others all from the line's
/// history or, after the fallback, all from the file's; the history is
/// incomplete exactly when a warning other than the one for working-tree
/// changes says why.
pub proof fn lemma_report_shape(a: Analysis, r: Report)
    requires
        well_formed(a),
        a.stage is Complete,
        is_report_of(r, a),
    ensures
        1 <= r.evidence@.len() <= HISTORY_LIMIT,
        r.evidence@[0].relation == EvidenceRelation::LastChanged,
        forall|i: int|
            1 <= i < r.evidence@.len() ==> (#[trigger] r.evidence@[i]).relation == (if a.fallback_used {
                EvidenceRelation::FileHistory
            } else {
                EvidenceRelation::LineHistory
            }),
        !r.history_complete <==> r.warnings@.len() > (if a.dirty {
            1int
        } else {
            0int
        }),
{
    assert(r.evidence@[0] == a.evidence@[0]);
    assert forall|i: int| 1 <= i < r.evidence@.len() implies (#[trigger] r.evidence@[i]).relation
        == (if a.fallback_used {
        EvidenceRelation::FileHistory
    } else {
        EvidenceRelation::LineHistory
    }) by {
        assert(r.evidence@[i] == a.evidence@[i]);
    }
    let truncated = a.history@.len() > HISTORY_LIMIT;
    assert(texts(r.warnings@).len() == r.warnings@.len());
    assert(expected_warnings(a.dirty, a.shallow, a.fallback_used, truncated).len() == (if a.dirty {
        1int
    } else {
        0
    }) + (if a.shallow {
        1int
    } else {
        0
    }) + (if a.fallback_used {
        1int
    } else {
        0
    }) + (if truncated {
        1int
    } else {
        0
    }));
}


/// `git blame` is asked about the target line alone: its `-L` range names
/// the line at both ends.
pub proof fn lemma_blame_range(a: Analysis)
    requires
        a.stage is Blame,
    ensures
        command_arguments(a)[7] == seq!['-', 'L'],
        split(command_arguments(a)[8], ',').len() == 2,
        parse_unsigned(split(command_arguments(a)[8], ',')[0], usize::MAX as nat) == Some(
            a.line as nat,
        ),
        parse_unsigned(split(command_arguments(a)[8], ',')[1], usize::MAX as nat) == Some(
            a.line as nat,
        ),
{
    reveal_strlit("-L");
    reveal_strlit(",");
    let d = decimal(a.line as nat);
    lemma_decimal_digits(a.line as nat);
    assert forall|i: int| 0 <= i < d.len() implies d[i] != ',' by {
        assert(is_digit(d[i]));
    }
    assert(","@ =~= seq![',']);
    assert("-L"@ =~= seq!['-', 'L']);
    assert(command_arguments(a)[8] == d + seq![','] + d);
    lemma_split_pair(d, d, ',');
    lemma_parse_decimal(a.line as nat, usize::MAX as nat);
}

/// Whether the file has changes in the working tree is whether `git status`
/// printed anything for it, whether or not the command reported success.
pub proof fn lemma_status_sets_dirty(before: Analysis, after: Analysis, out: GitOutput)
    requires
        before.stage is Status,
        git_step(before, after, Ok::<GitOutput, AppError>(out)),
    ensures
        after.dirty <==> out.stdout@.len() > 0,
        out.stdout@.len() == 0 ==> !after.dirty,
        after.stage is Shallow,
{
}

} // verus!
