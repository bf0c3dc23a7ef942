//! Character classes, decimal numbers and the string primitives the rest of
//! the library is built from. Text is modelled as `Seq<char>`, the view of
//! `str` and `String`.
use vstd::prelude::*;
use vstd::utf8::{decode_utf8, valid_utf8};
use vstd::string::StringSliceAdditionalSpecFns;

verus! {

// ---------------------------------------------------------------------------
// Character classes
// ---------------------------------------------------------------------------

/// ASCII decimal digit `0`..`9`.
pub open spec fn is_digit(c: char) -> bool {
    '0' <= c <= '9'
}

/// ASCII hexadecimal digit, either case.
pub open spec fn is_hex_digit(c: char) -> bool {
    ||| is_digit(c)
    ||| 'a' <= c <= 'f'
    ||| 'A' <= c <= 'F'
}

/// ASCII letter or digit.
pub open spec fn is_ascii_alnum(c: char) -> bool {
    ||| is_digit(c)
    ||| 'a' <= c <= 'z'
    ||| 'A' <= c <= 'Z'
}

/// The Unicode `White_Space` property, the class that `str::trim` removes.
pub open spec fn is_white_space(c: char) -> bool {
    ||| '\u{9}' <= c <= '\u{d}'
    ||| c == ' '
    ||| c == '\u{85}'
    ||| c == '\u{a0}'
    ||| c == '\u{1680}'
    ||| '\u{2000}' <= c <= '\u{200a}'
    ||| c == '\u{2028}'
    ||| c == '\u{2029}'
    ||| c == '\u{202f}'
    ||| c == '\u{205f}'
    ||| c == '\u{3000}'
}

/// The Unicode general category `Cc` (control codes).
pub open spec fn is_control(c: char) -> bool {
    ||| c <= '\u{1f}'
    ||| '\u{7f}' <= c <= '\u{9f}'
}

/// ASCII upper-case letters mapped to lower case, every other character kept.
pub open spec fn ascii_lower(c: char) -> char {
    if 'A' <= c <= 'Z' {
        ((c as u32) + 32) as char
    } else {
        c
    }
}

/// The numeric value of an ASCII decimal digit.
pub open spec fn digit_value(c: char) -> nat {
    ((c as u32) - ('0' as u32)) as nat
}

/// The ASCII digit that stands for `d < 10`.
pub open spec fn digit_char(d: nat) -> char {
    (d + 48) as char
}

pub fn char_is_digit(c: char) -> (b: bool)
    ensures
        b == is_digit(c),
{
    '0' <= c && c <= '9'
}

pub fn char_is_hex_digit(c: char) -> (b: bool)
    ensures
        b == is_hex_digit(c),
{
    ('0' <= c && c <= '9') || ('a' <= c && c <= 'f') || ('A' <= c && c <= 'F')
}

pub fn char_is_ascii_alnum(c: char) -> (b: bool)
    ensures
        b == is_ascii_alnum(c),
{
    ('0' <= c && c <= '9') || ('a' <= c && c <= 'z') || ('A' <= c && c <= 'Z')
}

pub fn char_is_white_space(c: char) -> (b: bool)
    ensures
        b == is_white_space(c),
{
    ('\u{9}' <= c && c <= '\u{d}') || c == ' ' || c == '\u{85}' || c == '\u{a0}' || c
        == '\u{1680}' || ('\u{2000}' <= c && c <= '\u{200a}') || c == '\u{2028}' || c
        == '\u{2029}' || c == '\u{202f}' || c == '\u{205f}' || c == '\u{3000}'
}

pub fn char_is_control(c: char) -> (b: bool)
    ensures
        b == is_control(c),
{
    c <= '\u{1f}' || ('\u{7f}' <= c && c <= '\u{9f}')
}

pub fn char_ascii_lower(c: char) -> (r: char)
    ensures
        r == ascii_lower(c),
{
    if 'A' <= c && c <= 'Z' {
        let b: u8 = c as u8;
        (b + 32) as char
    } else {
        c
    }
}

/// What `char::is_alphanumeric` answers: the Unicode `Alphabetic` property or a
/// numeric general category.
pub uninterp spec fn unicode_alphanumeric(c: char) -> bool;

/// Calls `char::is_alphanumeric`, whose answer is named `unicode_alphanumeric`;
/// nothing else is claimed of it.
#[verifier::external_body]
pub(crate) fn char_is_alphanumeric(c: char) -> (b: bool)
    ensures
        b == unicode_alphanumeric(c),
{
    c.is_alphanumeric()
}

// ---------------------------------------------------------------------------
// Conversions between `str`, `String`, `Vec<char>` and bytes
// ---------------------------------------------------------------------------

/// Calls `String::push`: the string grows by the one character.
#[verifier::external_body]
pub(crate) fn push_char(s: &mut String, c: char)
    ensures
        final(s)@ == old(s)@.push(c),
{
    s.push(c);
}

/// An owned copy of `s`.
pub fn owned(s: &str) -> (r: String)
    ensures
        r@ == s@,
{
    s.to_owned()
}

/// The characters of `s`, in order.
pub fn chars_of(s: &str) -> (v: Vec<char>)
    ensures
        v@ == s@,
{
    let mut v: Vec<char> = Vec::new();
    for c in it: s.chars()
        invariant
            it.seq() == s@,
            v@ == it.seq().take(it.index() as int),
    {
        v.push(c);
    }
    v
}

/// A string made of the characters `chars[from..to]`.
pub fn string_of_range(chars: &Vec<char>, from: usize, to: usize) -> (s: String)
    requires
        from <= to <= chars.len(),
    ensures
        s@ == chars@.subrange(from as int, to as int),
{
    let mut s = String::new();
    let mut i = from;
    while i < to
        invariant
            from <= i <= to <= chars.len(),
            s@ == chars@.subrange(from as int, i as int),
        decreases to - i,
    {
        push_char(&mut s, chars[i]);
        i += 1;
    }
    s
}

/// A string made of all of `chars`.
pub fn string_of(chars: &Vec<char>) -> (s: String)
    ensures
        s@ == chars@,
{
    let s = string_of_range(chars, 0, chars.len());
    assert(chars@.subrange(0, chars@.len() as int) =~= chars@);
    s
}

/// Appends the characters of `t` to `s`.
pub fn append_str(s: &mut String, t: &str)
    ensures
        final(s)@ == old(s)@ + t@,
{
    let cs = chars_of(t);
    let mut i: usize = 0;
    while i < cs.len()
        invariant
            0 <= i <= cs.len(),
            cs@ == t@,
            s@ == old(s)@ + cs@.take(i as int),
        decreases cs.len() - i,
    {
        push_char(s, cs[i]);
        assert(cs@.take(i + 1) =~= cs@.take(i as int).push(cs@[i as int]));
        i += 1;
    }
    assert(cs@.take(cs.len() as int) =~= cs@);
}

/// Calls `std::str::from_utf8`: it succeeds exactly on valid UTF-8, and the
/// string it gives borrows those very bytes.
#[verifier::external_body]
pub(crate) fn utf8_str(bytes: &[u8]) -> (r: Option<&str>)
    ensures
        r is Some <==> valid_utf8(bytes@),
        r matches Some(s) ==> s.spec_bytes() == bytes@,
{
    std::str::from_utf8(bytes).ok()
}

/// The text that `String::from_utf8_lossy` decodes from `bytes`: invalid
/// sequences become U+FFFD.
pub uninterp spec fn lossy_utf8(bytes: Seq<u8>) -> Seq<char>;

/// Calls `String::from_utf8_lossy`, whose result is named `lossy_utf8`. Its
/// documentation also says that valid UTF-8 is decoded unchanged.
#[verifier::external_body]
pub(crate) fn utf8_lossy(bytes: &[u8]) -> (s: String)
    ensures
        s@ == lossy_utf8(bytes@),
        valid_utf8(bytes@) ==> s@ == decode_utf8(bytes@),
{
    String::from_utf8_lossy(bytes).into_owned()
}

/// The characters of the valid UTF-8 `bytes`, or `None`.
pub fn decode(bytes: &[u8]) -> (r: Option<Vec<char>>)
    ensures
        r is Some <==> valid_utf8(bytes@),
        r matches Some(v) ==> v@ == decode_utf8(bytes@),
{
    match utf8_str(bytes) {
        Some(s) => {
            let v = chars_of(s);
            proof {
                vstd::utf8::encode_utf8_decode_utf8(s@);
            }
            Some(v)
        },
        None => None,
    }
}

/// What `{:?}` prints for a `str`: the text in double quotes with quotes,
/// backslashes, control and non-printable characters escaped.
pub uninterp spec fn debug_quoted(s: Seq<char>) -> Seq<char>;

/// Formats `s` with `{:?}`, whose result is named `debug_quoted`.
#[verifier::external_body]
pub(crate) fn quote(s: &str) -> (r: String)
    ensures
        r@ == debug_quoted(s@),
{
    format!("{s:?}")
}

// ---------------------------------------------------------------------------
// Trimming
// ---------------------------------------------------------------------------

/// `s` without its leading white space.
pub open spec fn trim_start(s: Seq<char>) -> Seq<char>
    decreases s.len(),
{
    if s.len() > 0 && is_white_space(s[0]) {
        trim_start(s.drop_first())
    } else {
        s
    }
}

/// `s` without its trailing white space.
pub open spec fn trim_end(s: Seq<char>) -> Seq<char>
    decreases s.len(),
{
    if s.len() > 0 && is_white_space(s.last()) {
        trim_end(s.drop_last())
    } else {
        s
    }
}

/// `s` without leading and trailing white space, as `str::trim` gives it.
pub open spec fn trim(s: Seq<char>) -> Seq<char> {
    trim_end(trim_start(s))
}

/// `s` without the line-break characters `\r` and `\n` at its end.
pub open spec fn trim_end_line_breaks(s: Seq<char>) -> Seq<char>
    decreases s.len(),
{
    if s.len() > 0 && (s.last() == '\r' || s.last() == '\n') {
        trim_end_line_breaks(s.drop_last())
    } else {
        s
    }
}

/// `s` without the carriage returns at its end.
pub open spec fn trim_end_cr(s: Seq<char>) -> Seq<char>
    decreases s.len(),
{
    if s.len() > 0 && s.last() == '\r' {
        trim_end_cr(s.drop_last())
    } else {
        s
    }
}

pub proof fn lemma_trim_start_skip(s: Seq<char>, i: int)
    requires
        0 <= i <= s.len(),
        forall|j: int| 0 <= j < i ==> is_white_space(#[trigger] s[j]),
    ensures
        trim_start(s) == trim_start(s.skip(i)),
    decreases i,
{
    if i > 0 {
        lemma_trim_start_skip(s.drop_first(), i - 1);
        assert(s.drop_first().skip(i - 1) =~= s.skip(i));
    } else {
        assert(s.skip(0) =~= s);
    }
}

pub proof fn lemma_trim_end_take(s: Seq<char>, i: int)
    requires
        0 <= i <= s.len(),
        forall|j: int| i <= j < s.len() ==> is_white_space(#[trigger] s[j]),
    ensures
        trim_end(s) == trim_end(s.take(i)),
    decreases s.len() - i,
{
    if i < s.len() {
        lemma_trim_end_take(s.drop_last(), i);
        assert(s.drop_last().take(i) =~= s.take(i));
    } else {
        assert(s.take(i) =~= s);
    }
}

/// Bounds `[from, to)` of `trim(chars)` within `chars`.
pub fn trim_bounds(chars: &Vec<char>) -> (r: (usize, usize))
    ensures
        r.0 <= r.1 <= chars.len(),
        chars@.subrange(r.0 as int, r.1 as int) == trim(chars@),
{
    let mut i: usize = 0;
    while i < chars.len() && char_is_white_space(chars[i])
        invariant
            0 <= i <= chars.len(),
            forall|j: int| 0 <= j < i ==> is_white_space(#[trigger] chars@[j]),
        decreases chars.len() - i,
    {
        i += 1;
    }
    proof {
        lemma_trim_start_skip(chars@, i as int);
    }
    let mut k: usize = chars.len();
    while k > i && char_is_white_space(chars[k - 1])
        invariant
            i <= k <= chars.len(),
            forall|j: int| k <= j < chars.len() ==> is_white_space(#[trigger] chars@[j]),
        decreases k,
    {
        k -= 1;
    }
    proof {
        let t = chars@.skip(i as int);
        assert(trim_start(t) == t);
        lemma_trim_end_take(t, k - i);
        assert(t.take(k - i) =~= chars@.subrange(i as int, k as int));
        let u = chars@.subrange(i as int, k as int);
        if u.len() > 0 {
            assert(u.last() == chars@[k - 1]);
        }
    }
    (i, k)
}

/// `str::trim` on a sequence of characters.
pub fn trim_chars(chars: &Vec<char>) -> (r: Vec<char>)
    ensures
        r@ == trim(chars@),
{
    let (from, to) = trim_bounds(chars);
    let mut r: Vec<char> = Vec::new();
    let mut i = from;
    while i < to
        invariant
            from <= i <= to <= chars.len(),
            r@ == chars@.subrange(from as int, i as int),
        decreases to - i,
    {
        r.push(chars[i]);
        i += 1;
    }
    r
}

/// `str::trim` on a string.
pub fn trim_str(s: &str) -> (r: String)
    ensures
        r@ == trim(s@),
{
    let chars = chars_of(s);
    let (from, to) = trim_bounds(&chars);
    string_of_range(&chars, from, to)
}

// ---------------------------------------------------------------------------
// Splitting
// ---------------------------------------------------------------------------

/// The pieces of `s` between occurrences of `sep`, as `str::split` and
/// `slice::split` give them: one more piece than there are separators.
pub open spec fn split<T>(s: Seq<T>, sep: T) -> Seq<Seq<T>>
    decreases s.len(),
{
    if s.len() == 0 {
        seq![Seq::empty()]
    } else {
        let p = split(s.drop_last(), sep);
        if s.last() == sep {
            p.push(Seq::empty())
        } else {
            p.update(p.len() - 1, p.last().push(s.last()))
        }
    }
}

pub proof fn lemma_split_len<T>(s: Seq<T>, sep: T)
    ensures
        split(s, sep).len() >= 1,
    decreases s.len(),
{
    if s.len() > 0 {
        lemma_split_len(s.drop_last(), sep);
    }
}

/// The lines of `s` as `str::lines` gives them: the pieces between `\n`; a
/// piece that a `\n` ends loses one `\r` before it, and an empty last piece
/// is no line.
pub open spec fn lines(s: Seq<char>) -> Seq<Seq<char>> {
    let p = split(s, '\n');
    let n = if p.last().len() == 0 {
        (p.len() - 1) as nat
    } else {
        p.len()
    };
    Seq::new(n, |i: int| if i < p.len() - 1 { strip_one_cr(p[i]) } else { p[i] })
}

/// `s` without one carriage return at its end.
pub open spec fn strip_one_cr(s: Seq<char>) -> Seq<char> {
    if s.len() > 0 && s.last() == '\r' {
        s.drop_last()
    } else {
        s
    }
}

/// `str::split` on a sequence of characters.
pub fn split_chars(chars: &Vec<char>, sep: char) -> (parts: Vec<Vec<char>>)
    ensures
        parts@.map_values(|v: Vec<char>| v@) == split(chars@, sep),
{
    let mut parts: Vec<Vec<char>> = Vec::new();
    let mut current: Vec<char> = Vec::new();
    let mut i: usize = 0;
    while i < chars.len()
        invariant
            0 <= i <= chars.len(),
            parts@.map_values(|v: Vec<char>| v@).push(current@) == split(chars@.take(i as int), sep),
        decreases chars.len() - i,
    {
        let c = chars[i];
        let ghost before = parts@.map_values(|v: Vec<char>| v@).push(current@);
        proof {
            assert(chars@.take(i + 1).drop_last() =~= chars@.take(i as int));
            lemma_split_len(chars@.take(i as int), sep);
        }
        if c == sep {
            let done = current;
            parts.push(done);
            current = Vec::new();
            assert(parts@.map_values(|v: Vec<char>| v@).push(current@) =~= before.push(Seq::empty()));
        } else {
            current.push(c);
            assert(parts@.map_values(|v: Vec<char>| v@).push(current@) =~= before.update(
                before.len() - 1,
                before.last().push(c),
            ));
        }
        i += 1;
    }
    assert(chars@.take(chars.len() as int) =~= chars@);
    let ghost before = parts@.map_values(|v: Vec<char>| v@).push(current@);
    parts.push(current);
    assert(parts@.map_values(|v: Vec<char>| v@) =~= before);
    parts
}

/// `slice::split` on bytes.
pub fn split_bytes(bytes: &[u8], sep: u8) -> (parts: Vec<Vec<u8>>)
    ensures
        parts@.map_values(|v: Vec<u8>| v@) == split(bytes@, sep),
{
    let mut parts: Vec<Vec<u8>> = Vec::new();
    let mut current: Vec<u8> = Vec::new();
    let mut i: usize = 0;
    while i < bytes.len()
        invariant
            0 <= i <= bytes.len(),
            parts@.map_values(|v: Vec<u8>| v@).push(current@) == split(bytes@.take(i as int), sep),
        decreases bytes.len() - i,
    {
        let c = bytes[i];
        let ghost before = parts@.map_values(|v: Vec<u8>| v@).push(current@);
        proof {
            assert(bytes@.take(i + 1).drop_last() =~= bytes@.take(i as int));
            lemma_split_len(bytes@.take(i as int), sep);
        }
        if c == sep {
            let done = current;
            parts.push(done);
            current = Vec::new();
            assert(parts@.map_values(|v: Vec<u8>| v@).push(current@) =~= before.push(Seq::empty()));
        } else {
            current.push(c);
            assert(parts@.map_values(|v: Vec<u8>| v@).push(current@) =~= before.update(
                before.len() - 1,
                before.last().push(c),
            ));
        }
        i += 1;
    }
    assert(bytes@.take(bytes.len() as int) =~= bytes@);
    let ghost before = parts@.map_values(|v: Vec<u8>| v@).push(current@);
    parts.push(current);
    assert(parts@.map_values(|v: Vec<u8>| v@) =~= before);
    parts
}

/// `str::lines` on a sequence of characters.
pub fn lines_of(chars: &Vec<char>) -> (r: Vec<Vec<char>>)
    ensures
        r@.map_values(|v: Vec<char>| v@) == lines(chars@),
{
    let parts = split_chars(chars, '\n');
    proof {
        lemma_split_len(chars@, '\n');
    }
    let n = parts.len();
    let count = if parts[n - 1].len() == 0 {
        n - 1
    } else {
        n
    };
    let ghost p = split(chars@, '\n');
    let mut r: Vec<Vec<char>> = Vec::new();
    let mut i: usize = 0;
    while i < count
        invariant
            0 <= i <= count <= n,
            n == parts.len(),
            parts@.map_values(|v: Vec<char>| v@) == p,
            p == split(chars@, '\n'),
            p.len() >= 1,
            count == lines(chars@).len(),
            r@.map_values(|v: Vec<char>| v@) == lines(chars@).take(i as int),
        decreases count - i,
    {
        let mut piece = parts[i].clone();
        assert(piece@ == p[i as int]);
        if i < n - 1 {
            let len = piece.len();
            if len > 0 && piece[len - 1] == '\r' {
                piece.pop();
            }
        }
        let ghost before = r@.map_values(|v: Vec<char>| v@);
        r.push(piece);
        assert(r@.map_values(|v: Vec<char>| v@) =~= before.push(piece@));
        assert(lines(chars@).take(i + 1) =~= lines(chars@).take(i as int).push(lines(chars@)[i as int]));
        i += 1;
    }
    assert(lines(chars@).take(count as int) =~= lines(chars@));
    r
}

// ---------------------------------------------------------------------------
// Decimal numbers
// ---------------------------------------------------------------------------

/// The decimal digits of `n`, without leading zeros, as `{}` prints them.
pub open spec fn decimal(n: nat) -> Seq<char>
    decreases n,
{
    if n < 10 {
        seq![digit_char(n)]
    } else {
        decimal(n / 10).push(digit_char(n % 10))
    }
}

/// `n` formatted in decimal.
pub fn decimal_string(n: u64) -> (s: String)
    ensures
        s@ == decimal(n as nat),
    decreases n,
{
    if n < 10 {
        let mut s = String::new();
        push_char(&mut s, ((n as u8) + 48) as char);
        s
    } else {
        let mut s = decimal_string(n / 10);
        push_char(&mut s, (((n % 10) as u8) + 48) as char);
        s
    }
}

/// The value of a sequence of decimal digits.
pub open spec fn digits_value(d: Seq<char>) -> nat
    decreases d.len(),
{
    if d.len() == 0 {
        0
    } else {
        digits_value(d.drop_last()) * 10 + digit_value(d.last())
    }
}

/// All characters of `s` are decimal digits.
pub open spec fn all_digits(s: Seq<char>) -> bool {
    forall|i: int| 0 <= i < s.len() ==> is_digit(#[trigger] s[i])
}

/// The digits that `str::parse` reads for an unsigned integer: one leading
/// `+` is allowed.
pub open spec fn unsigned_digits(s: Seq<char>) -> Seq<char> {
    if s.len() > 0 && s[0] == '+' {
        s.drop_first()
    } else {
        s
    }
}

/// What `str::parse` gives for an unsigned integer type whose largest value is
/// `max`: the value of the digits, or `None` when there are none, when a
/// character is no digit, or when the value is larger than `max`.
pub open spec fn parse_unsigned(s: Seq<char>, max: nat) -> Option<nat> {
    let d = unsigned_digits(s);
    if d.len() > 0 && all_digits(d) && digits_value(d) <= max {
        Some(digits_value(d))
    } else {
        None
    }
}

proof fn lemma_digits_value_prefix(d: Seq<char>, i: int)
    requires
        0 <= i <= d.len(),
        all_digits(d),
    ensures
        digits_value(d.take(i)) <= digits_value(d),
    decreases d.len() - i,
{
    if i < d.len() {
        lemma_digits_value_prefix(d.drop_last(), i);
        assert(d.drop_last().take(i) =~= d.take(i));
    } else {
        assert(d.take(i) =~= d);
    }
}

/// Parses `chars[from..to]` as `str::parse` does for an unsigned integer no
/// larger than `max`.
pub fn parse_unsigned_range(chars: &Vec<char>, from: usize, to: usize, max: u64) -> (r: Option<u64>)
    requires
        from <= to <= chars.len(),
    ensures
        match parse_unsigned(chars@.subrange(from as int, to as int), max as nat) {
            Some(v) => r == Some(v as u64),
            None => r is None,
        },
{
    let ghost s = chars@.subrange(from as int, to as int);
    let mut start = from;
    if from < to && chars[from] == '+' {
        start = from + 1;
    }
    let ghost d = chars@.subrange(start as int, to as int);
    assert(d =~= unsigned_digits(s));
    if start == to {
        assert(d.len() == 0);
        return None;
    }
    let mut value: u64 = 0;
    let mut i = start;
    while i < to
        invariant
            start <= i <= to <= chars.len(),
            d == chars@.subrange(start as int, to as int),
            d == unsigned_digits(chars@.subrange(from as int, to as int)),
            value as nat == digits_value(d.take(i - start)),
            value <= max,
            forall|j: int| 0 <= j < i - start ==> is_digit(#[trigger] d[j]),
        decreases to - i,
    {
        let c = chars[i];
        if !char_is_digit(c) {
            assert(d[i - start] == c);
            assert(!all_digits(d));
            return None;
        }
        let digit = (c as u8 - 48) as u64;
        assert(d.take(i - start + 1).drop_last() =~= d.take(i - start));
        assert(d.take(i - start + 1).last() == c);
        match value.checked_mul(10) {
            Some(m) => match m.checked_add(digit) {
                Some(next) if next <= max => {
                    value = next;
                },
                _ => {
                    proof {
                        if all_digits(d) {
                            lemma_digits_value_prefix(d, i - start + 1);
                        }
                    }
                    return None;
                },
            },
            None => {
                proof {
                    if all_digits(d) {
                        lemma_digits_value_prefix(d, i - start + 1);
                    }
                }
                return None;
            },
        }
        i += 1;
    }
    assert(d.take(to - start) =~= d);
    Some(value)
}


/// The decimal digits of `n` are digits, at least one, and read back as `n`.
pub proof fn lemma_decimal_digits(n: nat)
    ensures
        decimal(n).len() > 0,
        all_digits(decimal(n)),
        digits_value(decimal(n)) == n,
    decreases n,
{
    if n < 10 {
        let s = decimal(n);
        assert(s.drop_last() =~= Seq::<char>::empty());
        assert(digit_value(digit_char(n)) == n);
        assert(digits_value(Seq::<char>::empty()) == 0);
        assert(digits_value(s) == digits_value(s.drop_last()) * 10 + digit_value(s.last()));
    } else {
        lemma_decimal_digits(n / 10);
        let s = decimal(n);
        assert(s.drop_last() =~= decimal(n / 10));
        assert(digit_value(digit_char(n % 10)) == n % 10);
        assert(s.last() == digit_char(n % 10));
        assert((n / 10) * 10 + n % 10 == n) by (nonlinear_arith);
        assert(digits_value(s) == digits_value(s.drop_last()) * 10 + digit_value(s.last()));
        assert(all_digits(s)) by {
            assert forall|i: int| 0 <= i < s.len() implies is_digit(#[trigger] s[i]) by {
                if i < s.len() - 1 {
                    assert(s[i] == decimal(n / 10)[i]);
                }
            }
        }
    }
}


/// `ls` written out, each line ended by a line feed.
pub open spec fn join_lines(ls: Seq<Seq<char>>) -> Seq<char>
    decreases ls.len(),
{
    if ls.len() == 0 {
        Seq::empty()
    } else {
        join_lines(ls.drop_last()) + ls.last() + seq!['\n']
    }
}

/// Text without line feeds and carriage returns.
pub open spec fn no_breaks(s: Seq<char>) -> bool {
    forall|i: int| 0 <= i < s.len() ==> s[i] != '\n' && s[i] != '\r'
}

/// Text without line feeds and carriage returns, joined, has none either.
pub broadcast proof fn lemma_no_breaks_concat(a: Seq<char>, b: Seq<char>)
    requires
        no_breaks(a),
        no_breaks(b),
    ensures
        #[trigger] no_breaks(a + b),
{
    assert forall|i: int| 0 <= i < (a + b).len() implies (a + b)[i] != '\n' && (a + b)[i]
        != '\r' by {
        if i < a.len() {
            assert((a + b)[i] == a[i]);
        } else {
            assert((a + b)[i] == b[i - a.len()]);
        }
    }
}

/// Decimal digits hold no line break.
pub broadcast proof fn lemma_decimal_no_breaks(n: nat)
    ensures
        #[trigger] no_breaks(decimal(n)),
{
    lemma_decimal_digits(n);
    assert forall|i: int| 0 <= i < decimal(n).len() implies decimal(n)[i] != '\n' && decimal(
        n,
    )[i] != '\r' by {
        assert(is_digit(decimal(n)[i]));
    }
}

/// Lines written out one after another are split there.
pub proof fn lemma_join_concat(a: Seq<Seq<char>>, b: Seq<Seq<char>>)
    ensures
        join_lines(a + b) == join_lines(a) + join_lines(b),
    decreases b.len(),
{
    if b.len() == 0 {
        assert(a + b =~= a);
        assert(join_lines(a) + join_lines(b) =~= join_lines(a));
    } else {
        lemma_join_concat(a, b.drop_last());
        assert((a + b).drop_last() =~= a + b.drop_last());
        assert((a + b).last() == b.last());
        assert(join_lines(a + b) =~= join_lines(a) + join_lines(b));
    }
}

proof fn lemma_split_extend(a: Seq<char>, l: Seq<char>, prev: Seq<Seq<char>>)
    requires
        split(a, '\n') == prev.push(Seq::empty()),
        no_breaks(l),
    ensures
        split(a + l, '\n') == prev.push(l),
    decreases l.len(),
{
    if l.len() == 0 {
        assert(a + l =~= a);
        assert(l =~= Seq::<char>::empty());
    } else {
        let k = l.drop_last();
        assert(no_breaks(k)) by {
            assert forall|i: int| 0 <= i < k.len() implies k[i] != '\n' && k[i] != '\r' by {
                assert(k[i] == l[i]);
            }
        }
        lemma_split_extend(a, k, prev);
        let s = a + l;
        assert(s.drop_last() =~= a + k);
        assert(s.last() == l[l.len() - 1]);
        assert(k.push(l.last()) =~= l);
        assert(prev.push(k).update(prev.len() as int, l) =~= prev.push(l));
    }
}

/// Written out and split at line feeds, lines are what they were, with one
/// empty piece after the last line feed.
pub proof fn lemma_split_join(ls: Seq<Seq<char>>)
    requires
        forall|i: int| 0 <= i < ls.len() ==> no_breaks(#[trigger] ls[i]),
    ensures
        split(join_lines(ls), '\n') == ls.push(Seq::empty()),
    decreases ls.len(),
{
    if ls.len() == 0 {
        assert(join_lines(ls) =~= Seq::<char>::empty());
        assert(ls.push(Seq::empty()) =~= seq![Seq::<char>::empty()]);
    } else {
        let prev = ls.drop_last();
        assert forall|i: int| 0 <= i < prev.len() implies no_breaks(#[trigger] prev[i]) by {
            assert(prev[i] == ls[i]);
        }
        lemma_split_join(prev);
        let l = ls.last();
        assert(no_breaks(l)) by {
            assert(ls[ls.len() - 1] == l);
        }
        lemma_split_extend(join_lines(prev), l, prev);
        let s = join_lines(ls);
        assert(s.drop_last() =~= join_lines(prev) + l);
        assert(s.last() == '\n');
        assert(prev.push(l) =~= ls);
    }
}

/// Lines without breaks of their own, written out, read back as themselves.
pub proof fn lemma_lines_of_join(ls: Seq<Seq<char>>)
    requires
        forall|i: int| 0 <= i < ls.len() ==> no_breaks(#[trigger] ls[i]),
    ensures
        lines(join_lines(ls)) == ls,
{
    lemma_split_join(ls);
    let p = split(join_lines(ls), '\n');
    assert(p.last() == Seq::<char>::empty());
    assert forall|i: int| 0 <= i < ls.len() implies lines(join_lines(ls))[i] == ls[i] by {
        assert(p[i] == ls[i]);
        assert(no_breaks(ls[i]));
        if ls[i].len() > 0 {
            assert(ls[i].last() != '\r');
        }
    }
    assert(lines(join_lines(ls)) =~= ls);
}


/// Text without the separator, put after text that ends at a separator,
/// becomes the last piece.
pub proof fn lemma_split_append<T>(a: Seq<T>, l: Seq<T>, sep: T, prev: Seq<Seq<T>>)
    requires
        split(a, sep) == prev.push(Seq::empty()),
        forall|i: int| 0 <= i < l.len() ==> l[i] != sep,
    ensures
        split(a + l, sep) == prev.push(l),
    decreases l.len(),
{
    if l.len() == 0 {
        assert(a + l =~= a);
        assert(l =~= Seq::<T>::empty());
    } else {
        let k = l.drop_last();
        lemma_split_append(a, k, sep, prev);
        let s = a + l;
        assert(s.drop_last() =~= a + k);
        assert(s.last() == l[l.len() - 1]);
        assert(k.push(l.last()) =~= l);
        assert(prev.push(k).update(prev.len() as int, l) =~= prev.push(l));
    }
}

/// Two pieces without the separator, joined by it, split back into the two.
pub proof fn lemma_split_pair<T>(x: Seq<T>, y: Seq<T>, sep: T)
    requires
        forall|i: int| 0 <= i < x.len() ==> x[i] != sep,
        forall|i: int| 0 <= i < y.len() ==> y[i] != sep,
    ensures
        split(x + seq![sep] + y, sep) == seq![x, y],
{
    let empty = Seq::<T>::empty();
    assert(split(empty, sep) == Seq::<Seq<T>>::empty().push(empty)) by {
        assert(Seq::<Seq<T>>::empty().push(empty) =~= seq![empty]);
    }
    lemma_split_append(empty, x, sep, Seq::<Seq<T>>::empty());
    assert(empty + x =~= x);
    let xs = x + seq![sep];
    assert(xs.drop_last() =~= x);
    assert(split(xs, sep) == seq![x].push(empty)) by {
        assert(Seq::<Seq<T>>::empty().push(x) =~= seq![x]);
    }
    lemma_split_append(xs, y, sep, seq![x]);
    assert(seq![x].push(y) =~= seq![x, y]);
}

/// The decimal digits of `n` read back as `n`, for any bound at least `n`.
pub proof fn lemma_parse_decimal(n: nat, max: nat)
    requires
        n <= max,
    ensures
        parse_unsigned(decimal(n), max) == Some(n),
{
    lemma_decimal_digits(n);
    assert(is_digit(decimal(n)[0]));
    assert(unsigned_digits(decimal(n)) == decimal(n));
}

} // verus!
