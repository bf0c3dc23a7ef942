//! Recognising a GitHub repository in the URL of the `origin` remote.
use vstd::prelude::*;

use crate::text::{lemma_split_pair, char_is_ascii_alnum, chars_of, is_ascii_alnum, push_char, split, split_chars, string_of_range};

verus! {

/// A character that may stand in a GitHub owner or repository name.
pub open spec fn is_safe_github_char(c: char) -> bool {
    is_ascii_alnum(c) || c == '-' || c == '_' || c == '.'
}

/// All characters of `s` may stand in a GitHub name.
pub open spec fn is_safe_github_name(s: Seq<char>) -> bool {
    forall|i: int| 0 <= i < s.len() ==> is_safe_github_char(#[trigger] s[i])
}

/// A character that may stand in a GitHub owner or repository name.
pub fn safe_github_name(character: char) -> (b: bool)
    ensures
        b == is_safe_github_char(character),
{
    char_is_ascii_alnum(character) || character == '-' || character == '_' || character == '.'
}

/// `s` without `prefix`, when it starts with it.
pub open spec fn strip_prefix(s: Seq<char>, prefix: Seq<char>) -> Option<Seq<char>> {
    if prefix.len() <= s.len() && s.take(prefix.len() as int) == prefix {
        Some(s.skip(prefix.len() as int))
    } else {
        None
    }
}

/// `s` without `suffix`, when it ends with it, else `s`.
pub open spec fn without_suffix(s: Seq<char>, suffix: Seq<char>) -> Seq<char> {
    if suffix.len() <= s.len() && s.skip(s.len() - suffix.len()) == suffix {
        s.take(s.len() - suffix.len())
    } else {
        s
    }
}

/// `s` without the slashes at its end.
pub open spec fn trim_end_slashes(s: Seq<char>) -> Seq<char>
    decreases s.len(),
{
    if s.len() > 0 && s.last() == '/' {
        trim_end_slashes(s.drop_last())
    } else {
        s
    }
}

/// The path after one of the GitHub URL prefixes that are recognised.
pub open spec fn github_path(remote: Seq<char>) -> Option<Seq<char>> {
    match strip_prefix(remote, "https://github.com/"@) {
        Some(p) => Some(p),
        None => match strip_prefix(remote, "http://github.com/"@) {
            Some(p) => Some(p),
            None => match strip_prefix(remote, "git@github.com:"@) {
                Some(p) => Some(p),
                None => strip_prefix(remote, "ssh://git@github.com/"@),
            },
        },
    }
}

/// The `owner/repository` that a GitHub remote URL names, or nothing.
pub open spec fn github_repository(remote: Seq<char>) -> Option<Seq<char>> {
    match github_path(remote) {
        None => None,
        Some(p) => {
            let q = without_suffix(trim_end_slashes(p), ".git"@);
            let parts = split(q, '/');
            if parts.len() == 2 && parts[0].len() > 0 && parts[1].len() > 0 && is_safe_github_name(
                parts[0],
            ) && is_safe_github_name(parts[1]) {
                Some(parts[0] + seq!['/'] + parts[1])
            } else {
                None
            }
        },
    }
}

/// The rest of `s` after `prefix`, when `s` starts with it.
fn strip_prefix_chars(s: &Vec<char>, prefix: &str) -> (r: Option<Vec<char>>)
    ensures
        match r {
            Some(v) => strip_prefix(s@, prefix@) == Some(v@),
            None => strip_prefix(s@, prefix@) is None,
        },
{
    let p = chars_of(prefix);
    if p.len() > s.len() {
        return None;
    }
    let mut i: usize = 0;
    while i < p.len()
        invariant
            0 <= i <= p.len() <= s.len(),
            p@ == prefix@,
            forall|j: int| 0 <= j < i ==> s@[j] == p@[j],
        decreases p.len() - i,
    {
        if s[i] != p[i] {
            assert(s@.take(p.len() as int)[i as int] != p@[i as int]);
            return None;
        }
        i += 1;
    }
    assert(s@.take(p.len() as int) =~= p@);
    let mut rest: Vec<char> = Vec::new();
    let mut k = p.len();
    while k < s.len()
        invariant
            p.len() <= k <= s.len(),
            rest@ == s@.subrange(p.len() as int, k as int),
        decreases s.len() - k,
    {
        rest.push(s[k]);
        k += 1;
    }
    assert(rest@ =~= s@.skip(p.len() as int));
    Some(rest)
}

/// Whether all characters of `s` may stand in a GitHub name.
fn safe_name(s: &Vec<char>) -> (b: bool)
    ensures
        b == is_safe_github_name(s@),
{
    let mut i: usize = 0;
    while i < s.len()
        invariant
            0 <= i <= s.len(),
            forall|j: int| 0 <= j < i ==> is_safe_github_char(#[trigger] s@[j]),
        decreases s.len() - i,
    {
        if !safe_github_name(s[i]) {
            return false;
        }
        i += 1;
    }
    true
}

/// The `owner/repository` that a GitHub remote URL names: HTTPS, HTTP, SCP
/// style and SSH URLs of `github.com` are recognised, with or without a
/// trailing `.git` or slash.
pub fn parse_github_remote(remote: &str) -> (r: Option<String>)
    ensures
        match r {
            Some(s) => github_repository(remote@) == Some(s@),
            None => github_repository(remote@) is None,
        },
{
    let chars = chars_of(remote);
    let path = match strip_prefix_chars(&chars, "https://github.com/") {
        Some(p) => p,
        None => match strip_prefix_chars(&chars, "http://github.com/") {
            Some(p) => p,
            None => match strip_prefix_chars(&chars, "git@github.com:") {
                Some(p) => p,
                None => match strip_prefix_chars(&chars, "ssh://git@github.com/") {
                    Some(p) => p,
                    None => {
                        return None;
                    },
                },
            },
        },
    };
    assert(github_path(remote@) == Some(path@));
    let mut end = path.len();
    assert(path@.take(end as int) =~= path@);
    while end > 0 && path[end - 1] == '/'
        invariant
            0 <= end <= path.len(),
            trim_end_slashes(path@) == trim_end_slashes(path@.take(end as int)),
        decreases end,
    {
        assert(path@.take(end as int).drop_last() =~= path@.take(end - 1));
        end -= 1;
    }
    let ghost trimmed = path@.take(end as int);
    assert(trim_end_slashes(trimmed) == trimmed);
    let suffix = chars_of(".git");
    let mut has_suffix = suffix.len() <= end;
    if has_suffix {
        let base = end - suffix.len();
        let mut j: usize = 0;
        while j < suffix.len()
            invariant
                0 <= j <= suffix.len(),
                suffix.len() <= end <= path.len(),
                base == end - suffix.len(),
                trimmed == path@.take(end as int),
                has_suffix == forall|m: int| 0 <= m < j ==> trimmed[base + m] == suffix@[m],
            decreases suffix.len() - j,
        {
            if path[base + j] != suffix[j] {
                has_suffix = false;
            }
            j += 1;
        }
        proof {
            if has_suffix {
                assert(trimmed.skip(base as int) =~= suffix@);
            } else {
                let m = choose|m: int| 0 <= m < suffix.len() && trimmed[base + m] != suffix@[m];
                assert(trimmed.skip(base as int)[m] != suffix@[m]);
            }
        }
    }
    let stop = if has_suffix {
        end - suffix.len()
    } else {
        end
    };
    let mut q: Vec<char> = Vec::new();
    let mut k: usize = 0;
    while k < stop
        invariant
            0 <= k <= stop <= end <= path.len(),
            q@ == path@.take(k as int),
        decreases stop - k,
    {
        q.push(path[k]);
        k += 1;
    }
    assert(q@ =~= without_suffix(trimmed, ".git"@));
    let parts = split_chars(&q, '/');
    let ghost ps = split(q@, '/');
    assert(parts@.map_values(|v: Vec<char>| v@) == ps);
    if parts.len() != 2 {
        return None;
    }
    assert(parts@[0]@ == ps[0] && parts@[1]@ == ps[1]);
    if parts[0].len() == 0 || parts[1].len() == 0 || !safe_name(&parts[0]) || !safe_name(
        &parts[1],
    ) {
        return None;
    }
    let mut result = string_of_range(&parts[0], 0, parts[0].len());
    push_char(&mut result, '/');
    let mut m: usize = 0;
    let ghost first = result@;
    while m < parts[1].len()
        invariant
            parts.len() == 2,
            0 <= m <= parts[1].len(),
            result@ == first + parts[1]@.take(m as int),
        decreases parts[1].len() - m,
    {
        push_char(&mut result, parts[1][m]);
        assert(parts[1]@.take(m + 1) =~= parts[1]@.take(m as int).push(parts[1]@[m as int]));
        m += 1;
    }
    assert(parts[1]@.take(parts[1].len() as int) =~= parts[1]@);
    assert(parts[0]@.subrange(0, parts[0]@.len() as int) =~= parts[0]@);
    Some(result)
}


/// The repository that a remote names is `owner/name`: one slash, and
/// nothing else but characters that may stand in a GitHub name.
pub proof fn lemma_github_repository_shape(remote: Seq<char>)
    ensures
        github_repository(remote) matches Some(r) ==> {
            &&& exists|k: int| 0 < k < r.len() - 1 && r[k] == '/'
            &&& forall|i: int, j: int| 0 <= i < r.len() && 0 <= j < r.len() && r[i] == '/' && r[j] == '/' ==> i == j
            &&& forall|i: int| 0 <= i < r.len() ==> r[i] == '/' || is_safe_github_char(#[trigger] r[i])
        },
{
    if let Some(r) = github_repository(remote) {
        let p = github_path(remote).unwrap();
        let q = without_suffix(trim_end_slashes(p), ".git"@);
        let parts = split(q, '/');
        let a = parts[0];
        let b = parts[1];
        let k = a.len() as int;
        assert(r == a + seq!['/'] + b);
        assert(r[k] == '/');
        assert forall|i: int| 0 <= i < r.len() implies r[i] == '/' || is_safe_github_char(#[trigger] r[i]) by {
            if i < k {
                assert(r[i] == a[i]);
            } else if i > k {
                assert(r[i] == b[i - k - 1]);
            }
        }
        assert forall|i: int, j: int| 0 <= i < r.len() && 0 <= j < r.len() && r[i] == '/' && r[j] == '/' implies i == j by {
            assert(is_safe_github_char(r[i]) || i == k) by {
                if i < k {
                    assert(r[i] == a[i]);
                } else if i > k {
                    assert(r[i] == b[i - k - 1]);
                }
            }
            assert(is_safe_github_char(r[j]) || j == k) by {
                if j < k {
                    assert(r[j] == a[j]);
                } else if j > k {
                    assert(r[j] == b[j - k - 1]);
                }
            }
        }
    }
}


/// The characters that may stand in a GitHub name are the ASCII letters of
/// either case, the digits, `-`, `_` and `.`.
pub proof fn lemma_safe_github_chars(c: char)
    ensures
        is_safe_github_char(c) <==> ('a' <= c <= 'z' || 'A' <= c <= 'Z' || '0' <= c <= '9' || c
            == '-' || c == '_' || c == '.'),
{
}

/// An HTTPS URL of `github.com` names the repository `owner/name` that it
/// spells, for any owner and name made of ASCII letters of either case,
/// digits, `-`, `_` and `.`, when the name does not end in `.git`.
pub proof fn lemma_https_remote(owner: Seq<char>, name: Seq<char>)
    requires
        owner.len() > 0,
        name.len() > 0,
        forall|i: int|
            0 <= i < owner.len() ==> ('a' <= #[trigger] owner[i] <= 'z' || 'A' <= owner[i] <= 'Z'
                || '0' <= owner[i] <= '9' || owner[i] == '-' || owner[i] == '_' || owner[i]
                == '.'),
        forall|i: int|
            0 <= i < name.len() ==> ('a' <= #[trigger] name[i] <= 'z' || 'A' <= name[i] <= 'Z'
                || '0' <= name[i] <= '9' || name[i] == '-' || name[i] == '_' || name[i] == '.'),
        !(name.len() >= 4 && name.skip(name.len() - 4) == seq!['.', 'g', 'i', 't']),
    ensures
        github_repository("https://github.com/"@ + owner + seq!['/'] + name) == Some(
            owner + seq!['/'] + name,
        ),
{
    let prefix = "https://github.com/"@;
    let path = owner + seq!['/'] + name;
    let remote = prefix + path;
    assert(remote.take(prefix.len() as int) =~= prefix);
    assert(remote.skip(prefix.len() as int) =~= path);
    assert(github_path(remote) == Some(path));
    assert(path.last() == name.last());
    assert(name.last() == name[name.len() - 1]);
    assert(trim_end_slashes(path) == path);
    reveal_strlit(".git");
    assert(".git"@ =~= seq!['.', 'g', 'i', 't']);
    let git = seq!['.', 'g', 'i', 't'];
    if 4 <= path.len() && path.skip(path.len() - 4) == git {
        if name.len() >= 4 {
            assert(name.skip(name.len() - 4) =~= path.skip(path.len() - 4));
        } else {
            let k = 3 - name.len();
            assert(path[owner.len() as int] == '/');
            assert(path.skip(path.len() - 4)[k] == path[owner.len() as int]);
            assert(git[k] != '/');
        }
    }
    assert(without_suffix(path, ".git"@) == path);
    assert forall|i: int| 0 <= i < owner.len() implies owner[i] != '/' by {
        assert('a' <= owner[i] <= 'z' || 'A' <= owner[i] <= 'Z' || '0' <= owner[i] <= '9'
            || owner[i] == '-' || owner[i] == '_' || owner[i] == '.');
    }
    assert forall|i: int| 0 <= i < name.len() implies name[i] != '/' by {
        assert('a' <= name[i] <= 'z' || 'A' <= name[i] <= 'Z' || '0' <= name[i] <= '9'
            || name[i] == '-' || name[i] == '_' || name[i] == '.');
    }
    lemma_split_pair(owner, name, '/');
    assert(is_safe_github_name(owner));
    assert(is_safe_github_name(name));
    let q = without_suffix(trim_end_slashes(path), ".git"@);
    assert(q == path);
    let parts = split(q, '/');
    assert(parts == seq![owner, name]);
    assert(parts[0] == owner && parts[1] == name);
    assert(github_repository(remote) == Some(owner + seq!['/'] + name));
    assert(remote =~= "https://github.com/"@ + owner + seq!['/'] + name);
}

} // verus!
