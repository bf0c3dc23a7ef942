//! Commit metadata, the reason it records, and the issue references in it.
use vstd::prelude::*;
use vstd::utf8::{decode_utf8, encode_utf8, valid_utf8};

use crate::model::{Evidence, EvidenceRelation, Reason, ReasonStatus, Reference};
use crate::text::{
    append_str, ascii_lower, char_ascii_lower, char_is_alphanumeric, char_is_digit, chars_of,
    decimal, decimal_string, decode, digits_value, is_digit, lines, lines_of, owned,
    all_digits, parse_unsigned_range, push_char, split, split_bytes,
    string_of_range, trim, unsigned_digits,
    trim_chars, unicode_alphanumeric,
};
use crate::AppError;

verus! {

/// The text of an optional string.
pub open spec fn text_of(o: Option<String>) -> Option<Seq<char>> {
    match o {
        Some(s) => Some(s@),
        None => None,
    }
}

/// The text of an optional string slice.
pub open spec fn str_text_of(o: Option<&str>) -> Option<Seq<char>> {
    match o {
        Some(s) => Some(s@),
        None => None,
    }
}

// ---------------------------------------------------------------------------
// Subjects
// ---------------------------------------------------------------------------

/// `s` without the characters at its start that are not alphanumeric.
pub open spec fn strip_non_alnum_start(s: Seq<char>) -> Seq<char>
    decreases s.len(),
{
    if s.len() > 0 && !unicode_alphanumeric(s[0]) {
        strip_non_alnum_start(s.drop_first())
    } else {
        s
    }
}

/// `s` without the characters at its end that are not alphanumeric.
pub open spec fn strip_non_alnum_end(s: Seq<char>) -> Seq<char>
    decreases s.len(),
{
    if s.len() > 0 && !unicode_alphanumeric(s.last()) {
        strip_non_alnum_end(s.drop_last())
    } else {
        s
    }
}

/// A subject trimmed, stripped of punctuation at both ends and in ASCII
/// lower case.
pub open spec fn normalized_subject(s: Seq<char>) -> Seq<char> {
    strip_non_alnum_end(strip_non_alnum_start(trim(s))).map_values(|c: char| ascii_lower(c))
}

/// A normalized subject that says nothing about why.
pub open spec fn is_filler_subject(s: Seq<char>) -> bool {
    ||| s == "initial commit"@
    ||| s == "cleanup"@
    ||| s == "update"@
    ||| s == "changes"@
    ||| s == "refactor"@
    ||| s == "miscellaneous"@
}

/// A subject that can stand as the reason: eight or more bytes once
/// normalized, and no filler word.
pub open spec fn is_substantive(s: Seq<char>) -> bool {
    let n = normalized_subject(s);
    encode_utf8(n).len() >= 8 && !is_filler_subject(n)
}

proof fn lemma_strip_start_skip(s: Seq<char>, i: int)
    requires
        0 <= i <= s.len(),
        forall|j: int| 0 <= j < i ==> !unicode_alphanumeric(#[trigger] s[j]),
    ensures
        strip_non_alnum_start(s) == strip_non_alnum_start(s.skip(i)),
    decreases i,
{
    if i > 0 {
        lemma_strip_start_skip(s.drop_first(), i - 1);
        assert(s.drop_first().skip(i - 1) =~= s.skip(i));
    } else {
        assert(s.skip(0) =~= s);
    }
}

proof fn lemma_strip_end_take(s: Seq<char>, i: int)
    requires
        0 <= i <= s.len(),
        forall|j: int| i <= j < s.len() ==> !unicode_alphanumeric(#[trigger] s[j]),
    ensures
        strip_non_alnum_end(s) == strip_non_alnum_end(s.take(i)),
    decreases s.len() - i,
{
    if i < s.len() {
        lemma_strip_end_take(s.drop_last(), i);
        assert(s.drop_last().take(i) =~= s.take(i));
    } else {
        assert(s.take(i) =~= s);
    }
}

/// The number of bytes that encode `c` in UTF-8.
fn utf8_width(c: char) -> (w: u64)
    ensures
        w == encode_utf8(seq![c]).len(),
{
    proof {
        vstd::utf8::char_is_scalar(c);
        assert(seq![c].drop_first() =~= Seq::<char>::empty());
        assert(encode_utf8(Seq::<char>::empty()) =~= Seq::<u8>::empty());
        assert(encode_utf8(seq![c]) =~= vstd::utf8::encode_scalar(c as u32));
    }
    let v = c as u32;
    if v <= 0x7f {
        1
    } else if v <= 0x7ff {
        2
    } else if v <= 0xffff {
        3
    } else {
        4
    }
}

/// Whether the UTF-8 encoding of `s` has at least `n` bytes.
fn utf8_len_at_least(s: &String, n: u64) -> (b: bool)
    requires
        n <= 1024,
    ensures
        b == (encode_utf8(s@).len() >= n),
{
    let chars = chars_of(s.as_str());
    let mut count: u64 = 0;
    let mut i: usize = chars.len();
    assert(chars@.skip(i as int) =~= Seq::<char>::empty());
    while i > 0
        invariant
            0 <= i <= chars.len(),
            n <= 1024,
            chars@ == s@,
            count as nat == if encode_utf8(chars@.skip(i as int)).len() < n {
                encode_utf8(chars@.skip(i as int)).len()
            } else {
                n as nat
            },
        decreases i,
    {
        let w = utf8_width(chars[i - 1]);
        proof {
            let t = chars@.skip(i - 1);
            assert(t.drop_first() =~= chars@.skip(i as int));
            assert(t[0] == chars@[i - 1]);
            assert(seq![t[0]].drop_first() =~= Seq::<char>::empty());
            assert(encode_utf8(Seq::<char>::empty()) =~= Seq::<u8>::empty());
            assert(encode_utf8(seq![t[0]]) =~= vstd::utf8::encode_scalar(t[0] as u32));
            assert(encode_utf8(t).len() == w + encode_utf8(chars@.skip(i as int)).len());
        }
        if count + w >= n {
            count = n;
        } else {
            count = count + w;
        }
        i -= 1;
    }
    assert(chars@.skip(0) =~= chars@);
    count >= n
}

/// Whether a commit subject says enough to stand as the reason for a line.
pub fn substantive_subject(subject: &str) -> (b: bool)
    ensures
        b == is_substantive(subject@),
{
    let chars = chars_of(subject);
    let t = trim_chars(&chars);
    let mut i: usize = 0;
    while i < t.len() && !char_is_alphanumeric(t[i])
        invariant
            0 <= i <= t.len(),
            forall|j: int| 0 <= j < i ==> !unicode_alphanumeric(#[trigger] t@[j]),
        decreases t.len() - i,
    {
        i += 1;
    }
    proof {
        lemma_strip_start_skip(t@, i as int);
    }
    let mut k: usize = t.len();
    while k > i && !char_is_alphanumeric(t[k - 1])
        invariant
            i <= k <= t.len(),
            forall|j: int| k <= j < t.len() ==> !unicode_alphanumeric(#[trigger] t@[j]),
        decreases k,
    {
        k -= 1;
    }
    let ghost stripped = t@.subrange(i as int, k as int);
    proof {
        let u = t@.skip(i as int);
        assert(strip_non_alnum_start(u) == u);
        lemma_strip_end_take(u, k - i);
        assert(u.take(k - i) =~= stripped);
        if stripped.len() > 0 {
            assert(stripped.last() == t@[k - 1]);
        }
        assert(strip_non_alnum_end(stripped) == stripped);
    }
    let mut normalized = String::new();
    let mut j = i;
    while j < k
        invariant
            i <= j <= k <= t.len(),
            stripped == t@.subrange(i as int, k as int),
            normalized@ == stripped.take(j - i).map_values(|c: char| ascii_lower(c)),
        decreases k - j,
    {
        push_char(&mut normalized, char_ascii_lower(t[j]));
        assert(stripped.take(j - i + 1) =~= stripped.take(j - i).push(t@[j as int]));
        assert(normalized@ =~= stripped.take(j - i + 1).map_values(|c: char| ascii_lower(c)));
        j += 1;
    }
    assert(stripped.take(k - i) =~= stripped);
    assert(normalized@ == normalized_subject(subject@));
    let long_enough = utf8_len_at_least(&normalized, 8);
    let filler = normalized == owned("initial commit") || normalized == owned("cleanup")
        || normalized == owned("update") || normalized == owned("changes") || normalized
        == owned("refactor") || normalized == owned("miscellaneous");
    long_enough && !filler
}

// ---------------------------------------------------------------------------
// Reasons
// ---------------------------------------------------------------------------

/// The first of `ls[i..]` that is not empty once trimmed, trimmed.
pub open spec fn first_nonempty_trimmed(ls: Seq<Seq<char>>, i: int) -> Option<Seq<char>>
    decreases ls.len() - i,
{
    if i < 0 || i >= ls.len() {
        None
    } else if trim(ls[i]).len() > 0 {
        Some(trim(ls[i]))
    } else {
        first_nonempty_trimmed(ls, i + 1)
    }
}

/// The reason a commit records: the first non-blank line of its body, else
/// its subject when that is substantive.
pub open spec fn reason_text(subject: Seq<char>, body: Seq<char>) -> Option<Seq<char>> {
    match first_nonempty_trimmed(lines(body), 0) {
        Some(t) => Some(t),
        None => if is_substantive(subject) {
            Some(subject)
        } else {
            None
        },
    }
}

/// The reason that the newest evidence records, if any.
pub fn recorded_reason(evidence: Option<&Evidence>) -> (r: Reason)
    ensures
        match evidence {
            None => r.status == ReasonStatus::Unknown && r.text is None && r.source_commit is None,
            Some(e) => {
                &&& text_of(r.text) == reason_text(e.subject@, e.body@)
                &&& r.status == (if r.text is Some {
                    ReasonStatus::Recorded
                } else {
                    ReasonStatus::Unknown
                })
                &&& text_of(r.source_commit) == Some(e.commit@)
            },
        },
{
    match evidence {
        None => Reason { status: ReasonStatus::Unknown, text: None, source_commit: None },
        Some(evidence) => {
            let body = chars_of(evidence.body.as_str());
            let body_lines = lines_of(&body);
            let ghost ls = lines(evidence.body@);
            let mut text: Option<String> = None;
            let mut i: usize = 0;
            while i < body_lines.len() && text.is_none()
                invariant
                    0 <= i <= body_lines.len(),
                    body_lines@.map_values(|v: Vec<char>| v@) == ls,
                    text is None ==> first_nonempty_trimmed(ls, 0) == first_nonempty_trimmed(
                        ls,
                        i as int,
                    ),
                    text is Some ==> first_nonempty_trimmed(ls, 0) == text_of(text),
                decreases body_lines.len() - i,
            {
                assert(body_lines@[i as int]@ == ls[i as int]);
                let line = trim_chars(&body_lines[i]);
                if line.len() > 0 {
                    text = Some(string_of_range(&line, 0, line.len()));
                    assert(line@.subrange(0, line@.len() as int) =~= line@);
                }
                i += 1;
            }
            if text.is_none() && substantive_subject(evidence.subject.as_str()) {
                text = Some(evidence.subject.clone());
            }
            let status = if text.is_some() {
                ReasonStatus::Recorded
            } else {
                ReasonStatus::Unknown
            };
            Reason { status, text, source_commit: Some(evidence.commit.clone()) }
        },
    }
}

// ---------------------------------------------------------------------------
// References
// ---------------------------------------------------------------------------

/// The number of decimal digits in `s` from `i` on.
pub open spec fn digit_run(s: Seq<char>, i: int) -> nat
    decreases s.len() - i,
{
    if 0 <= i < s.len() && is_digit(s[i]) {
        1 + digit_run(s, i + 1)
    } else {
        0
    }
}

/// A run of digits ends within `s`.
pub proof fn lemma_digit_run_bound(s: Seq<char>, i: int)
    requires
        0 <= i <= s.len(),
    ensures
        i + digit_run(s, i) <= s.len(),
    decreases s.len() - i,
{
    if i < s.len() {
        lemma_digit_run_bound(s, i + 1);
    }
}

/// The numbers written `#N` in `s` from `i` on, in order, that are positive
/// and fit in 64 bits.
pub open spec fn reference_candidates(s: Seq<char>, i: int) -> Seq<nat>
    decreases s.len() - i,
{
    if i < 0 || i >= s.len() {
        Seq::empty()
    } else if s[i] != '#' {
        reference_candidates(s, i + 1)
    } else {
        let n = digit_run(s, i + 1);
        proof {
            lemma_digit_run_bound(s, i + 1);
        }
        let v = digits_value(s.subrange(i + 1, i + 1 + n));
        let rest = reference_candidates(s, i + 1 + n);
        if n > 0 && 0 < v <= u64::MAX {
            seq![v] + rest
        } else {
            rest
        }
    }
}

/// `s` with each element kept only where it occurs first.
pub open spec fn first_occurrences(s: Seq<nat>) -> Seq<nat>
    decreases s.len(),
{
    if s.len() == 0 {
        Seq::empty()
    } else {
        let d = first_occurrences(s.drop_last());
        if d.contains(s.last()) {
            d
        } else {
            d.push(s.last())
        }
    }
}

/// The GitHub page of issue or pull request `number` in `repository`.
pub open spec fn issue_url(repository: Seq<char>, number: nat) -> Seq<char> {
    "https://github.com/"@ + repository + "/issues/"@ + decimal(number)
}

/// `refs` are the references that `text` makes: the numbers `#N` in `text`,
/// each once, in the order they first occur, with links into `repository`
/// when there is one.
pub open spec fn references_of(
    refs: Seq<Reference>,
    text: Seq<char>,
    repository: Option<Seq<char>>,
) -> bool {
    &&& refs.map_values(|r: Reference| r.number as nat) == first_occurrences(
        reference_candidates(text, 0),
    )
    &&& forall|i: int|
        0 <= i < refs.len() ==> text_of(#[trigger] refs[i].url) == match repository {
            Some(r) => Some(issue_url(r, refs[i].number as nat)),
            None => None,
        }
}

/// `first_occurrences` keeps no element twice and nothing that `s` lacks.
pub proof fn lemma_first_occurrences(s: Seq<nat>)
    ensures
        forall|i: int, j: int|
            0 <= i < j < first_occurrences(s).len() ==> first_occurrences(s)[i]
                != first_occurrences(s)[j],
        forall|i: int|
            0 <= i < first_occurrences(s).len() ==> s.contains(#[trigger] first_occurrences(s)[i]),
        forall|x: nat| s.contains(x) ==> #[trigger] first_occurrences(s).contains(x),
    decreases s.len(),
{
    if s.len() > 0 {
        lemma_first_occurrences(s.drop_last());
        let d = first_occurrences(s.drop_last());
        assert forall|i: int| 0 <= i < first_occurrences(s).len() implies s.contains(
            #[trigger] first_occurrences(s)[i],
        ) by {
            if i < d.len() {
                let k = choose|k: int| 0 <= k < s.drop_last().len() && s.drop_last()[k] == d[i];
                assert(s[k] == d[i]);
            } else {
                assert(s[s.len() - 1] == s.last());
            }
        }
        assert forall|x: nat| s.contains(x) implies #[trigger] first_occurrences(s).contains(x) by {
            let k = choose|k: int| 0 <= k < s.len() && s[k] == x;
            if k < s.len() - 1 {
                assert(s.drop_last()[k] == x);
                assert(d.contains(x));
                let m = choose|m: int| 0 <= m < d.len() && d[m] == x;
                assert(first_occurrences(s)[m] == x);
            } else {
                if !d.contains(x) {
                    assert(first_occurrences(s)[d.len() as int] == x);
                }
            }
        }
    }
}

/// Every candidate reference is a positive number.
pub proof fn lemma_reference_candidates_positive(s: Seq<char>, i: int)
    ensures
        forall|k: int|
            0 <= k < reference_candidates(s, i).len() ==> 0 < #[trigger] reference_candidates(
                s,
                i,
            )[k] <= u64::MAX,
    decreases s.len() - i,
{
    if 0 <= i < s.len() {
        if s[i] != '#' {
            lemma_reference_candidates_positive(s, i + 1);
            assert(reference_candidates(s, i) == reference_candidates(s, i + 1));
        } else {
            let n = digit_run(s, i + 1);
            lemma_digit_run_bound(s, i + 1);
            lemma_reference_candidates_positive(s, i + 1 + n);
            let rest = reference_candidates(s, i + 1 + n);
            let v = digits_value(s.subrange(i + 1, i + 1 + n));
            if n > 0 && 0 < v <= u64::MAX {
                assert forall|k: int| 0 <= k < reference_candidates(s, i).len() implies 0
                    < #[trigger] reference_candidates(s, i)[k] <= u64::MAX by {
                    if k > 0 {
                        assert(reference_candidates(s, i)[k] == rest[k - 1]);
                    }
                }
            } else {
                assert(reference_candidates(s, i) == rest);
            }
        }
    }
}

/// The issue URL for `number` in `repository`.
fn issue_link(repository: &str, number: u64) -> (url: String)
    ensures
        url@ == issue_url(repository@, number as nat),
{
    let mut url = owned("https://github.com/");
    append_str(&mut url, repository);
    append_str(&mut url, "/issues/");
    let digits = decimal_string(number);
    append_str(&mut url, digits.as_str());
    url
}

/// Whether some reference in `refs` has `number`.
fn has_number(refs: &Vec<Reference>, number: u64) -> (b: bool)
    ensures
        b == refs@.map_values(|r: Reference| r.number as nat).contains(number as nat),
{
    let ghost ns = refs@.map_values(|r: Reference| r.number as nat);
    let mut i: usize = 0;
    while i < refs.len()
        invariant
            0 <= i <= refs.len(),
            ns == refs@.map_values(|r: Reference| r.number as nat),
            forall|j: int| 0 <= j < i ==> ns[j] != number as nat,
        decreases refs.len() - i,
    {
        if refs[i].number == number {
            assert(ns[i as int] == number as nat);
            return true;
        }
        i += 1;
    }
    false
}

/// The issue and pull request references `#N` in `text`, each once, in the
/// order they first occur, linked to `github_repo` when it is given.
pub fn extract_references(text: &str, github_repo: Option<&str>) -> (refs: Vec<Reference>)
    ensures
        references_of(refs@, text@, str_text_of(github_repo)),
        forall|i: int, j: int|
            0 <= i < j < refs.len() ==> refs@[i].number != refs@[j].number,
        forall|i: int| 0 <= i < refs.len() ==> #[trigger] refs@[i].number > 0,
{
    let chars = chars_of(text);
    let ghost s = text@;
    let ghost repository = str_text_of(github_repo);
    let mut refs: Vec<Reference> = Vec::new();
    let ghost mut acc: Seq<nat> = Seq::empty();
    let mut index: usize = 0;
    assert(acc + reference_candidates(s, 0) =~= reference_candidates(s, 0));
    while index < chars.len()
        invariant
            0 <= index <= chars.len(),
            chars@ == s,
            repository == str_text_of(github_repo),
            reference_candidates(s, 0) == acc + reference_candidates(s, index as int),
            refs@.map_values(|r: Reference| r.number as nat) == first_occurrences(acc),
            forall|i: int|
                0 <= i < refs.len() ==> text_of(#[trigger] refs@[i].url) == match repository {
                    Some(r) => Some(issue_url(r, refs@[i].number as nat)),
                    None => None,
                },
        decreases chars.len() - index,
    {
        if chars[index] != '#' {
            index += 1;
            continue;
        }
        let start = index + 1;
        let mut end = start;
        while end < chars.len() && char_is_digit(chars[end])
            invariant
                start <= end <= chars.len(),
                chars@ == s,
                digit_run(s, start as int) == (end - start) + digit_run(s, end as int),
                forall|m: int| start <= m < end ==> is_digit(#[trigger] s[m]),
            decreases chars.len() - end,
        {
            end += 1;
        }
        let ghost n = digit_run(s, start as int);
        assert(n == end - start);
        let ghost rest = reference_candidates(s, end as int);
        let ghost before = acc;
        if end > start {
            let ghost digits = s.subrange(start as int, end as int);
            assert(digits[0] == s[start as int]);
            assert(unsigned_digits(digits) == digits);
            assert(all_digits(digits)) by {
                assert forall|m: int| 0 <= m < digits.len() implies is_digit(#[trigger] digits[m]) by {
                    assert(digits[m] == s[start + m]);
                }
            }
            match parse_unsigned_range(&chars, start, end, u64::MAX) {
                Some(number) => if number > 0 {
                    if !has_number(&refs, number) {
                        let url = match github_repo {
                            Some(repository) => Some(issue_link(repository, number)),
                            None => None,
                        };
                        let ghost old_refs = refs@;
                        refs.push(Reference { number, url });
                        assert(refs@.map_values(|r: Reference| r.number as nat) =~= old_refs.map_values(
                            |r: Reference| r.number as nat,
                        ).push(number as nat));
                    }
                    proof {
                        assert(acc.push(number as nat).drop_last() =~= acc);
                        acc = acc.push(number as nat);
                    }
                },
                None => {},
            }
        }
        proof {
            assert(reference_candidates(s, index as int) == if n > 0 && 0 < digits_value(
                s.subrange(start as int, end as int),
            ) <= u64::MAX {
                seq![digits_value(s.subrange(start as int, end as int))] + rest
            } else {
                rest
            });
            assert(before.push(digits_value(s.subrange(start as int, end as int))) + rest
                =~= before + (seq![digits_value(s.subrange(start as int, end as int))] + rest));
        }
        index = end;
    }
    proof {
        assert(acc + reference_candidates(s, chars.len() as int) =~= acc);
        lemma_first_occurrences(acc);
        lemma_reference_candidates_positive(s, 0);
        assert forall|i: int| 0 <= i < refs.len() implies #[trigger] refs@[i].number > 0 by {
            assert(refs@.map_values(|r: Reference| r.number as nat)[i] == refs@[i].number as nat);
            assert(acc.contains(first_occurrences(acc)[i]));
            let k = choose|k: int| 0 <= k < acc.len() && acc[k] == first_occurrences(acc)[i];
            assert(reference_candidates(s, 0)[k] == acc[k]);
        }
        assert forall|i: int, j: int| 0 <= i < j < refs.len() implies refs@[i].number
            != refs@[j].number by {
            assert(refs@.map_values(|r: Reference| r.number as nat)[i] == refs@[i].number as nat);
            assert(refs@.map_values(|r: Reference| r.number as nat)[j] == refs@[j].number as nat);
        }
    }
    refs
}


// ---------------------------------------------------------------------------
// Commit metadata
// ---------------------------------------------------------------------------

/// The name of metadata field `k`.
pub open spec fn field_label(k: int) -> Seq<char> {
    if k == 0 {
        "hash"@
    } else if k == 1 {
        "date"@
    } else if k == 2 {
        "author"@
    } else if k == 3 {
        "subject"@
    } else {
        "body"@
    }
}

/// The first of the five metadata fields that is not valid UTF-8, or 5.
pub open spec fn first_invalid_field(fields: Seq<Seq<u8>>) -> int {
    if !valid_utf8(fields[0]) {
        0
    } else if !valid_utf8(fields[1]) {
        1
    } else if !valid_utf8(fields[2]) {
        2
    } else if !valid_utf8(fields[3]) {
        3
    } else if !valid_utf8(fields[4]) {
        4
    } else {
        5
    }
}

/// The output of `git show --format=%H%x00%aI%x00%an%x00%s%x00%b%x00` holds
/// five fields, each ended by a NUL byte.
pub open spec fn metadata_well_formed(fields: Seq<Seq<u8>>) -> bool {
    fields.len() == 6 && fields[5].len() == 0
}

/// The text of a metadata field.
pub open spec fn field_text(field: Seq<u8>) -> Seq<char> {
    trim(decode_utf8(field))
}

/// The text in which the references of a commit are looked for.
pub open spec fn message_text(subject: Seq<char>, body: Seq<char>) -> Seq<char> {
    subject + seq!['\n'] + body
}

/// `e` is the evidence that the metadata `fields` of a commit describe, with
/// references linked into `repository`.
pub open spec fn evidence_from_fields(
    e: Evidence,
    fields: Seq<Seq<u8>>,
    repository: Option<Seq<char>>,
) -> bool {
    e.relation == EvidenceRelation::LineHistory && described_by(e, fields, repository)
}

/// The commit, date, author, message and references of `e` are those that
/// the metadata `fields` hold, whatever its relation.
pub open spec fn described_by(e: Evidence, fields: Seq<Seq<u8>>, repository: Option<Seq<char>>) -> bool {
    &&& e.commit@ == field_text(fields[0])
    &&& e.authored_at@ == field_text(fields[1])
    &&& e.author_name@ == field_text(fields[2])
    &&& e.subject@ == field_text(fields[3])
    &&& e.body@ == field_text(fields[4])
    &&& references_of(e.references@, message_text(e.subject@, e.body@), repository)
}

/// The trimmed text of field `k`, or the message that names it.
fn metadata_field(field: &Vec<u8>, hash: &str, label: &str) -> (r: Result<String, AppError>)
    ensures
        match r {
            Ok(s) => valid_utf8(field@) && s@ == field_text(field@),
            Err(e) => !valid_utf8(field@) && e.0@ == "commit "@ + hash@ + " has non-UTF-8 "@
                + label@,
        },
{
    match decode(field.as_slice()) {
        Some(chars) => {
            let t = trim_chars(&chars);
            Ok(string_of_range(&t, 0, t.len()))
        },
        None => {
            let mut message = owned("commit ");
            append_str(&mut message, hash);
            append_str(&mut message, " has non-UTF-8 ");
            append_str(&mut message, label);
            Err(AppError(message))
        },
    }
}

/// Reads the metadata that `git show` printed for commit `hash`: hash,
/// author date, author, subject and body, and the references in the
/// message.
pub fn commit_metadata(stdout: &[u8], hash: &str, github_repo: Option<&str>) -> (r: Result<
    Evidence,
    AppError,
>)
    ensures
        ({
            let fields = split(stdout@, 0u8);
            match r {
                Ok(e) => {
                    &&& metadata_well_formed(fields)
                    &&& first_invalid_field(fields) == 5
                    &&& evidence_from_fields(e, fields, str_text_of(github_repo))
                },
                Err(e) => if !metadata_well_formed(fields) {
                    e.0@ == "Git returned invalid metadata for commit "@ + hash@
                } else {
                    &&& first_invalid_field(fields) < 5
                    &&& e.0@ == "commit "@ + hash@ + " has non-UTF-8 "@ + field_label(
                        first_invalid_field(fields),
                    )
                },
            }
        }),
{
    let fields = split_bytes(stdout, 0u8);
    let ghost fs = split(stdout@, 0u8);
    assert(fields@.map_values(|v: Vec<u8>| v@) == fs);
    if fields.len() != 6 || fields[5].len() != 0 {
        let mut message = owned("Git returned invalid metadata for commit ");
        append_str(&mut message, hash);
        return Err(AppError(message));
    }
    assert(fields@[0]@ == fs[0] && fields@[1]@ == fs[1] && fields@[2]@ == fs[2]);
    assert(fields@[3]@ == fs[3] && fields@[4]@ == fs[4]);
    let commit = metadata_field(&fields[0], hash, "hash")?;
    let authored_at = metadata_field(&fields[1], hash, "date")?;
    let author_name = metadata_field(&fields[2], hash, "author")?;
    let subject = metadata_field(&fields[3], hash, "subject")?;
    let body = metadata_field(&fields[4], hash, "body")?;
    let mut message = subject.clone();
    push_char(&mut message, '\n');
    append_str(&mut message, body.as_str());
    assert(message@ =~= message_text(subject@, body@));
    let references = extract_references(message.as_str(), github_repo);
    Ok(
        Evidence {
            relation: EvidenceRelation::LineHistory,
            commit,
            authored_at,
            author_name,
            subject,
            body,
            references,
        },
    )
}


/// A subject that normalizes to one of the filler words says nothing about
/// why, whatever case, spacing or punctuation it is written with: `initial
/// commit`, `cleanup`, `update`, `changes`, `refactor`, `miscellaneous`.
pub proof fn lemma_filler_subjects(s: Seq<char>)
    ensures
        normalized_subject(s) == seq!['i', 'n', 'i', 't', 'i', 'a', 'l', ' ', 'c', 'o', 'm', 'm', 'i', 't']
            ==> !is_substantive(s),
        normalized_subject(s) == seq!['c', 'l', 'e', 'a', 'n', 'u', 'p'] ==> !is_substantive(s),
        normalized_subject(s) == seq!['u', 'p', 'd', 'a', 't', 'e'] ==> !is_substantive(s),
        normalized_subject(s) == seq!['c', 'h', 'a', 'n', 'g', 'e', 's'] ==> !is_substantive(s),
        normalized_subject(s) == seq!['r', 'e', 'f', 'a', 'c', 't', 'o', 'r'] ==> !is_substantive(s),
        normalized_subject(s) == seq!['m', 'i', 's', 'c', 'e', 'l', 'l', 'a', 'n', 'e', 'o', 'u', 's']
            ==> !is_substantive(s),
{
    reveal_strlit("initial commit");
    reveal_strlit("cleanup");
    reveal_strlit("update");
    reveal_strlit("changes");
    reveal_strlit("refactor");
    reveal_strlit("miscellaneous");
    assert("initial commit"@ =~= seq!['i', 'n', 'i', 't', 'i', 'a', 'l', ' ', 'c', 'o', 'm', 'm', 'i', 't']);
    assert("cleanup"@ =~= seq!['c', 'l', 'e', 'a', 'n', 'u', 'p']);
    assert("update"@ =~= seq!['u', 'p', 'd', 'a', 't', 'e']);
    assert("changes"@ =~= seq!['c', 'h', 'a', 'n', 'g', 'e', 's']);
    assert("refactor"@ =~= seq!['r', 'e', 'f', 'a', 'c', 't', 'o', 'r']);
    assert("miscellaneous"@ =~= seq!['m', 'i', 's', 'c', 'e', 'l', 'l', 'a', 'n', 'e', 'o', 'u', 's']);
}

} // verus!
