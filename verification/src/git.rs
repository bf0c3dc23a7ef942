//! Reading what Git prints: targets, blame and log output, commit metadata,
//! issue references and GitHub remotes.
use vstd::prelude::*;
use vstd::string::StrSliceExecFns;
use vstd::utf8::{decode_utf8, valid_utf8};

use crate::text::{
    append_str, char_is_hex_digit, char_is_white_space, chars_of, debug_quoted, decimal, decode,
    is_digit, is_hex_digit, is_white_space, lemma_decimal_digits, lemma_trim_start_skip, lines,
    lines_of, lossy_utf8, owned, parse_unsigned, parse_unsigned_range, quote, string_of,
    string_of_range, trim, trim_chars, trim_end_line_breaks, trim_start, unsigned_digits,
    utf8_lossy,
};
use crate::AppError;

verus! {

/// The most commits that the evidence of a report holds.
pub const HISTORY_LIMIT: usize = 6;

/// The largest file, in bytes, whose lines are explained.
pub const MAX_BLOB_BYTES: u64 = 5242880;

/// The largest commit object, in bytes, whose metadata is read.
pub const MAX_COMMIT_BYTES: u64 = 1048576;

/// The most bytes read from one stream of one Git command.
pub const MAX_GIT_OUTPUT_BYTES: u64 = 5242880;

// ---------------------------------------------------------------------------
// Targets
// ---------------------------------------------------------------------------

/// The index of the last `c` in `s`, or -1.
pub open spec fn last_index_of(s: Seq<char>, c: char) -> int
    decreases s.len(),
{
    if s.len() == 0 {
        -1
    } else if s.last() == c {
        s.len() - 1
    } else {
        last_index_of(s.drop_last(), c)
    }
}

/// What a target `FILE:LINE` means: the path before the last colon and the
/// line number after it, or the message that rejects it.
pub open spec fn target_result(s: Seq<char>) -> Result<(Seq<char>, nat), Seq<char>> {
    let k = last_index_of(s, ':');
    if k < 0 {
        Err("target must end with a line number, for example src/auth.rs:42"@)
    } else if k == 0 {
        Err("target path cannot be empty"@)
    } else {
        let raw = s.skip(k + 1);
        match parse_unsigned(raw, usize::MAX as nat) {
            None => Err("invalid line number "@ + debug_quoted(raw)),
            Some(n) => if n == 0 {
                Err("line numbers start at 1"@)
            } else {
                Ok((s.take(k), n))
            },
        }
    }
}

/// Splits a target `FILE:LINE` at its last colon into the path and the line
/// number, which starts at 1.
pub fn parse_target(spec: &str) -> (r: Result<(&str, usize), AppError>)
    ensures
        match r {
            Ok((path, line)) => target_result(spec@) == Ok::<(Seq<char>, nat), Seq<char>>(
                (path@, line as nat),
            ),
            Err(e) => target_result(spec@) == Err::<(Seq<char>, nat), Seq<char>>(e.0@),
        },
{
    let chars = chars_of(spec);
    let mut k: usize = chars.len();
    assert(spec@.take(k as int) =~= spec@);
    while k > 0 && chars[k - 1] != ':'
        invariant
            0 <= k <= chars.len(),
            chars@ == spec@,
            last_index_of(spec@, ':') == last_index_of(spec@.take(k as int), ':'),
        decreases k,
    {
        assert(spec@.take(k as int).drop_last() =~= spec@.take(k - 1));
        k -= 1;
    }
    if k == 0 {
        assert(spec@.take(0) =~= Seq::<char>::empty());
        return Err(AppError(owned("target must end with a line number, for example src/auth.rs:42")));
    }
    let colon = k - 1;
    assert(spec@.take(k as int).last() == ':');
    assert(last_index_of(spec@, ':') == colon);
    if colon == 0 {
        return Err(AppError(owned("target path cannot be empty")));
    }
    let len = chars.len();
    let raw = spec.substring_char(k, len);
    assert(chars@.subrange(k as int, len as int) =~= spec@.skip(k as int));
    match parse_unsigned_range(&chars, k, len, usize::MAX as u64) {
        None => {
            let mut message = owned("invalid line number ");
            let quoted = quote(raw);
            append_str(&mut message, quoted.as_str());
            Err(AppError(message))
        },
        Some(line) => {
            if line == 0 {
                Err(AppError(owned("line numbers start at 1")))
            } else {
                let path = spec.substring_char(0, colon);
                assert(spec@.subrange(0, colon as int) =~= spec@.take(colon as int));
                Ok((path, line as usize))
            }
        },
    }
}

/// Accepts a target for the command line: the target itself, or the message
/// that rejects it.
pub fn validate_target(spec: &str) -> (r: Result<String, String>)
    ensures
        match r {
            Ok(s) => s@ == spec@ && target_result(spec@) is Ok,
            Err(m) => target_result(spec@) == Err::<(Seq<char>, nat), Seq<char>>(m@),
        },
{
    match parse_target(spec) {
        Ok(_) => Ok(owned(spec)),
        Err(e) => Err(e.0),
    }
}

// ---------------------------------------------------------------------------
// Decoding Git's output
// ---------------------------------------------------------------------------

/// Decoded UTF-8 text without trailing line breaks, or the message that
/// names `label`.
pub open spec fn trimmed_text(bytes: Seq<u8>, label: Seq<char>) -> Result<Seq<char>, Seq<char>> {
    if valid_utf8(bytes) {
        Ok(trim_end_line_breaks(decode_utf8(bytes)))
    } else {
        Err(label + " is not valid UTF-8"@)
    }
}

/// Decodes Git's output as UTF-8 and drops the line breaks at its end.
pub fn trimmed_utf8(bytes: &[u8], label: &str) -> (r: Result<String, AppError>)
    ensures
        match r {
            Ok(s) => trimmed_text(bytes@, label@) == Ok::<Seq<char>, Seq<char>>(s@),
            Err(e) => trimmed_text(bytes@, label@) == Err::<Seq<char>, Seq<char>>(e.0@),
        },
{
    match decode(bytes) {
        None => {
            let mut message = owned(label);
            append_str(&mut message, " is not valid UTF-8");
            Err(AppError(message))
        },
        Some(chars) => {
            let mut k = chars.len();
            assert(chars@.take(k as int) =~= chars@);
            while k > 0 && (chars[k - 1] == '\r' || chars[k - 1] == '\n')
                invariant
                    0 <= k <= chars.len(),
                    trim_end_line_breaks(chars@) == trim_end_line_breaks(chars@.take(k as int)),
                decreases k,
            {
                assert(chars@.take(k as int).drop_last() =~= chars@.take(k - 1));
                k -= 1;
            }
            assert(chars@.subrange(0, k as int) =~= chars@.take(k as int));
            Ok(string_of_range(&chars, 0, k))
        },
    }
}

// ---------------------------------------------------------------------------
// Commit hashes
// ---------------------------------------------------------------------------

/// A commit hash as Git prints it: seven or more hexadecimal digits.
pub open spec fn is_commit_hash(s: Seq<char>) -> bool {
    &&& s.len() >= 7
    &&& forall|i: int| 0 <= i < s.len() ==> is_hex_digit(#[trigger] s[i])
}

/// The characters of `s` before its first white space.
pub open spec fn leading_word(s: Seq<char>) -> Seq<char>
    decreases s.len(),
{
    if s.len() == 0 || is_white_space(s[0]) {
        Seq::empty()
    } else {
        seq![s[0]] + leading_word(s.drop_first())
    }
}

/// The first white-space separated word of `s`, or nothing.
pub open spec fn first_word(s: Seq<char>) -> Seq<char> {
    leading_word(trim_start(s))
}

/// The first line of `s`, or nothing.
pub open spec fn first_line(s: Seq<char>) -> Seq<char> {
    if lines(s).len() > 0 {
        lines(s)[0]
    } else {
        Seq::empty()
    }
}

/// The commit that `git blame -l -s` names first, or the message that rejects
/// its output.
pub open spec fn blame_commit(bytes: Seq<u8>) -> Result<Seq<char>, Seq<char>> {
    match trimmed_text(bytes, "Git blame output"@) {
        Err(m) => Err(m),
        Ok(text) => {
            let hash = first_word(first_line(text));
            if is_commit_hash(hash) {
                Ok(hash)
            } else {
                Err("Git returned invalid blame output"@)
            }
        },
    }
}

proof fn lemma_leading_word_from(s: Seq<char>, i: int)
    requires
        0 <= i <= s.len(),
        forall|j: int| 0 <= j < i ==> !is_white_space(#[trigger] s[j]),
    ensures
        leading_word(s) == s.take(i) + leading_word(s.skip(i)),
    decreases i,
{
    if i == 0 {
        assert(s.skip(0) =~= s);
        assert(s.take(0) + leading_word(s) =~= leading_word(s));
    } else {
        lemma_leading_word_from(s.drop_first(), i - 1);
        assert(s.drop_first().skip(i - 1) =~= s.skip(i));
        assert(seq![s[0]] + s.drop_first().take(i - 1) =~= s.take(i));
        assert(seq![s[0]] + (s.drop_first().take(i - 1) + leading_word(s.skip(i))) =~= s.take(i)
            + leading_word(s.skip(i)));
    }
}

/// Reads the commit that `git blame` names for the line.
pub fn parse_blame_commit(bytes: &[u8]) -> (r: Result<String, AppError>)
    ensures
        match r {
            Ok(s) => blame_commit(bytes@) == Ok::<Seq<char>, Seq<char>>(s@),
            Err(e) => blame_commit(bytes@) == Err::<Seq<char>, Seq<char>>(e.0@),
        },
{
    let text = trimmed_utf8(bytes, "Git blame output")?;
    let chars = chars_of(text.as_str());
    let all_lines = lines_of(&chars);
    let line: Vec<char> = if all_lines.len() > 0 {
        all_lines[0].clone()
    } else {
        Vec::new()
    };
    assert(line@ == first_line(text@)) by {
        if all_lines.len() > 0 {
            assert(all_lines@.map_values(|v: Vec<char>| v@)[0] == all_lines@[0]@);
        }
    }
    let mut i: usize = 0;
    while i < line.len() && char_is_white_space(line[i])
        invariant
            0 <= i <= line.len(),
            forall|j: int| 0 <= j < i ==> is_white_space(#[trigger] line@[j]),
        decreases line.len() - i,
    {
        i += 1;
    }
    let mut k: usize = i;
    while k < line.len() && !char_is_white_space(line[k])
        invariant
            i <= k <= line.len(),
            forall|j: int| i <= j < k ==> !is_white_space(#[trigger] line@[j]),
        decreases line.len() - k,
    {
        k += 1;
    }
    proof {
        lemma_trim_start_skip(line@, i as int);
        let t = line@.skip(i as int);
        assert(trim_start(t) == t);
        lemma_leading_word_from(t, k - i);
        assert(leading_word(t.skip(k - i)) =~= Seq::<char>::empty());
        assert(t.take(k - i) =~= line@.subrange(i as int, k as int));
    }
    let mut all_hex = true;
    let mut j = i;
    while j < k
        invariant
            i <= j <= k <= line.len(),
            all_hex == forall|m: int| i <= m < j ==> is_hex_digit(#[trigger] line@[m]),
        decreases k - j,
    {
        if !char_is_hex_digit(line[j]) {
            all_hex = false;
        }
        j += 1;
    }
    let ghost hash = line@.subrange(i as int, k as int);
    assert(all_hex == forall|m: int| 0 <= m < hash.len() ==> is_hex_digit(#[trigger] hash[m])) by {
        if all_hex {
            assert forall|m: int| 0 <= m < hash.len() implies is_hex_digit(#[trigger] hash[m]) by {
                assert(hash[m] == line@[i + m]);
            }
        } else {
            let m = choose|m: int| i <= m < k && !is_hex_digit(#[trigger] line@[m]);
            assert(hash[m - i] == line@[m]);
        }
    }
    if k - i < 7 || !all_hex {
        return Err(AppError(owned("Git returned invalid blame output")));
    }
    Ok(string_of_range(&line, i, k))
}

/// The trimmed lines of `ls` that are commit hashes, in order.
pub open spec fn hash_lines(ls: Seq<Seq<char>>) -> Seq<Seq<char>>
    decreases ls.len(),
{
    if ls.len() == 0 {
        Seq::empty()
    } else if is_commit_hash(trim(ls.last())) {
        hash_lines(ls.drop_last()).push(trim(ls.last()))
    } else {
        hash_lines(ls.drop_last())
    }
}

/// A commit hash: seven or more hexadecimal digits.
pub fn commit_hash_chars(s: &Vec<char>) -> (b: bool)
    ensures
        b == is_commit_hash(s@),
{
    if s.len() < 7 {
        return false;
    }
    let mut i: usize = 0;
    while i < s.len()
        invariant
            0 <= i <= s.len(),
            forall|m: int| 0 <= m < i ==> is_hex_digit(#[trigger] s@[m]),
        decreases s.len() - i,
    {
        if !char_is_hex_digit(s[i]) {
            return false;
        }
        i += 1;
    }
    true
}

/// The commit hashes that `git log --format=%H` prints, one per line; other
/// lines are skipped.
pub fn parse_hash_lines(bytes: &[u8]) -> (r: Vec<String>)
    ensures
        r@.map_values(|s: String| s@) == hash_lines(lines(lossy_utf8(bytes@))),
{
    let text = utf8_lossy(bytes);
    let chars = chars_of(text.as_str());
    let all_lines = lines_of(&chars);
    let ghost ls = lines(chars@);
    let mut r: Vec<String> = Vec::new();
    let mut i: usize = 0;
    while i < all_lines.len()
        invariant
            0 <= i <= all_lines.len(),
            all_lines@.map_values(|v: Vec<char>| v@) == ls,
            r@.map_values(|s: String| s@) == hash_lines(ls.take(i as int)),
        decreases all_lines.len() - i,
    {
        let trimmed = trim_chars(&all_lines[i]);
        assert(all_lines@[i as int]@ == ls[i as int]);
        assert(ls.take(i + 1).drop_last() =~= ls.take(i as int));
        assert(ls.take(i + 1).last() == ls[i as int]);
        if commit_hash_chars(&trimmed) {
            let ghost before = r@.map_values(|s: String| s@);
            r.push(string_of(&trimmed));
            assert(r@.map_values(|s: String| s@) =~= before.push(trimmed@));
        }
        i += 1;
    }
    assert(ls.take(all_lines.len() as int) =~= ls);
    r
}

// ---------------------------------------------------------------------------
// Choosing the evidence commits
// ---------------------------------------------------------------------------

/// The first `n` elements of `s`, or all of them when there are fewer.
pub open spec fn first_at_most<T>(s: Seq<T>, n: nat) -> Seq<T> {
    if s.len() <= n {
        s
    } else {
        s.take(n as int)
    }
}

/// The commits shown as evidence: the commit that last changed the line, then
/// the commits of `history` that are not there yet, in order, until there are
/// `HISTORY_LIMIT` of them.
pub open spec fn evidence_hashes(blamed: Seq<char>, history: Seq<Seq<char>>) -> Seq<Seq<char>>
    decreases history.len(),
{
    if history.len() == 0 {
        seq![blamed]
    } else {
        let chosen = evidence_hashes(blamed, history.drop_last());
        let h = history.last();
        if chosen.len() >= HISTORY_LIMIT || chosen.contains(h) {
            chosen
        } else {
            chosen.push(h)
        }
    }
}

/// No element occurs twice in `s`.
pub open spec fn no_duplicates<T>(s: Seq<T>) -> bool {
    forall|i: int, j: int| 0 <= i < s.len() && 0 <= j < s.len() && i != j ==> s[i] != s[j]
}

/// The evidence commits hold the blamed commit first, at most
/// `HISTORY_LIMIT` commits, none twice, and nothing but the blamed commit
/// and commits of the history.
pub proof fn lemma_evidence_hashes(blamed: Seq<char>, history: Seq<Seq<char>>)
    ensures
        1 <= evidence_hashes(blamed, history).len() <= HISTORY_LIMIT,
        evidence_hashes(blamed, history)[0] == blamed,
        no_duplicates(evidence_hashes(blamed, history)),
        forall|i: int|
            0 <= i < evidence_hashes(blamed, history).len() ==> (#[trigger] evidence_hashes(
                blamed,
                history,
            )[i] == blamed || history.contains(evidence_hashes(blamed, history)[i])),
    decreases history.len(),
{
    if history.len() > 0 {
        lemma_evidence_hashes(blamed, history.drop_last());
        let chosen = evidence_hashes(blamed, history.drop_last());
        assert forall|i: int| 0 <= i < chosen.len() && history.drop_last().contains(
            #[trigger] chosen[i],
        ) implies history.contains(chosen[i]) by {
            let k = choose|k: int| 0 <= k < history.drop_last().len() && history.drop_last()[k]
                == chosen[i];
            assert(history[k] == chosen[i]);
        }
        assert(history.contains(history.last())) by {
            assert(history[history.len() - 1] == history.last());
        }
    }
}

/// Whether `v` holds a string equal to `s`.
fn contains_string(v: &Vec<String>, s: &String) -> (b: bool)
    ensures
        b == v@.map_values(|x: String| x@).contains(s@),
{
    let ghost views = v@.map_values(|x: String| x@);
    let mut i: usize = 0;
    while i < v.len()
        invariant
            0 <= i <= v.len(),
            views == v@.map_values(|x: String| x@),
            forall|j: int| 0 <= j < i ==> views[j] != s@,
        decreases v.len() - i,
    {
        if v[i] == *s {
            assert(views[i as int] == s@);
            return true;
        }
        i += 1;
    }
    false
}

/// Chooses the evidence commits from the blamed commit and the history that
/// `git log` printed, newest first.
pub fn select_hashes(blamed: &String, history: &Vec<String>) -> (r: Vec<String>)
    ensures
        r@.map_values(|s: String| s@) == evidence_hashes(
            blamed@,
            first_at_most(history@.map_values(|s: String| s@), HISTORY_LIMIT as nat),
        ),
{
    let ghost hs = first_at_most(history@.map_values(|s: String| s@), HISTORY_LIMIT as nat);
    let n = if history.len() < HISTORY_LIMIT {
        history.len()
    } else {
        HISTORY_LIMIT
    };
    let mut r: Vec<String> = Vec::new();
    r.push(blamed.clone());
    assert(r@.map_values(|s: String| s@) =~= seq![blamed@]);
    assert(hs.take(0) =~= Seq::<Seq<char>>::empty());
    let mut i: usize = 0;
    while i < n
        invariant
            0 <= i <= n <= history.len(),
            n == hs.len(),
            hs == first_at_most(history@.map_values(|s: String| s@), HISTORY_LIMIT as nat),
            r@.map_values(|s: String| s@) == evidence_hashes(blamed@, hs.take(i as int)),
        decreases n - i,
    {
        let h = &history[i];
        assert(hs.take(i + 1).drop_last() =~= hs.take(i as int));
        assert(hs.take(i + 1).last() == h@);
        if r.len() < HISTORY_LIMIT && !contains_string(&r, h) {
            let ghost before = r@.map_values(|s: String| s@);
            r.push(h.clone());
            assert(r@.map_values(|s: String| s@) =~= before.push(h@));
        }
        i += 1;
    }
    assert(hs.take(n as int) =~= hs);
    r
}


proof fn lemma_last_index_at(s: Seq<char>, c: char, k: int)
    requires
        0 < k <= s.len(),
        s[k - 1] == c,
        forall|j: int| k <= j < s.len() ==> s[j] != c,
    ensures
        last_index_of(s, c) == k - 1,
    decreases s.len() - k,
{
    if k < s.len() {
        lemma_last_index_at(s.drop_last(), c, k);
    }
}

/// A target written as a path, a colon and a line number reads back as that
/// path and line: the line number follows the last colon, so the path may
/// hold colons of its own.
pub proof fn lemma_target_roundtrip(path: Seq<char>, line: nat)
    requires
        path.len() > 0,
        1 <= line <= usize::MAX,
    ensures
        target_result(path + seq![':'] + decimal(line)) == Ok::<(Seq<char>, nat), Seq<char>>(
            (path, line),
        ),
{
    let d = decimal(line);
    let s = path + seq![':'] + d;
    lemma_decimal_digits(line);
    let k: int = path.len() as int + 1;
    assert forall|j: int| k <= j < s.len() implies s[j] != ':' by {
        assert(s[j] == d[j - k]);
        assert(is_digit(d[j - k]));
    }
    lemma_last_index_at(s, ':', k);
    assert(s.skip(k) =~= d);
    assert(s.take(path.len() as int) =~= path);
    assert(is_digit(d[0]));
    assert(unsigned_digits(d) == d);
}


/// Every line that the history yields is a commit hash.
pub proof fn lemma_hash_lines_are_hashes(ls: Seq<Seq<char>>)
    ensures
        forall|i: int| 0 <= i < hash_lines(ls).len() ==> is_commit_hash(#[trigger] hash_lines(ls)[i]),
    decreases ls.len(),
{
    if ls.len() > 0 {
        lemma_hash_lines_are_hashes(ls.drop_last());
        let prev = hash_lines(ls.drop_last());
        assert forall|i: int| 0 <= i < hash_lines(ls).len() implies is_commit_hash(
            #[trigger] hash_lines(ls)[i],
        ) by {
            if i < prev.len() {
                assert(hash_lines(ls)[i] == prev[i]);
            }
        }
    }
}

} // verus!
