use vstd::prelude::*;
use vstd::string::*;
use vstd::utf8::*;

verus! {

/// The text that `String::from_utf8_lossy` makes of `bytes`: each invalid
/// UTF-8 sequence is replaced by U+FFFD.
pub uninterp spec fn lossy_utf8(bytes: Seq<u8>) -> Seq<char>;

/// Decodes `bytes` as UTF-8 with `std::str::from_utf8`. The contract claims
/// that it succeeds exactly on the byte strings that vstd's `valid_utf8`
/// accepts, and that the text is vstd's `decode_utf8` of them.
#[verifier::external_body]
pub fn decode_utf8_string(bytes: &[u8]) -> (r: Option<String>)
    ensures
        r is Some <==> valid_utf8(bytes@),
        r matches Some(s) ==> s@ == decode_utf8(bytes@),
{
    match std::str::from_utf8(bytes) {
        Ok(s) => Some(s.to_owned()),
        Err(_) => None,
    }
}

/// Decodes `bytes` with `String::from_utf8_lossy`. The contract claims that the
/// result is the named lossy decoding, and that on valid UTF-8 it is the
/// ordinary decoding; what replaces invalid sequences is left unstated.
#[verifier::external_body]
pub fn lossy_string(bytes: &[u8]) -> (r: String)
    ensures
        r@ == lossy_utf8(bytes@),
        valid_utf8(bytes@) ==> r@ == decode_utf8(bytes@),
{
    String::from_utf8_lossy(bytes).into_owned()
}

/// Appends one character to a string with `String::push`.
#[verifier::external_body]
pub fn push_char(s: &mut String, c: char)
    ensures
        final(s)@ == old(s)@.push(c),
{
    s.push(c)
}

/// The decimal digit character of `d`, for `d` below ten.
pub open spec fn digit_char(d: nat) -> char {
    if d == 0 {
        '0'
    } else if d == 1 {
        '1'
    } else if d == 2 {
        '2'
    } else if d == 3 {
        '3'
    } else if d == 4 {
        '4'
    } else if d == 5 {
        '5'
    } else if d == 6 {
        '6'
    } else if d == 7 {
        '7'
    } else if d == 8 {
        '8'
    } else {
        '9'
    }
}

/// The decimal notation of `n`, without leading zeros.
pub open spec fn decimal_text(n: nat) -> Seq<char>
    decreases n,
{
    if n < 10 {
        seq![digit_char(n)]
    } else {
        decimal_text(n / 10).push(digit_char(n % 10))
    }
}

/// The decimal notation of `n`, with a `-` before a negative number.
pub open spec fn signed_decimal_text(n: int) -> Seq<char> {
    if n < 0 {
        seq!['-'] + decimal_text((-n) as nat)
    } else {
        decimal_text(n as nat)
    }
}

fn digit_to_char(d: u128) -> (r: char)
    requires
        d < 10,
    ensures
        r == digit_char(d as nat),
{
    if d == 0 {
        '0'
    } else if d == 1 {
        '1'
    } else if d == 2 {
        '2'
    } else if d == 3 {
        '3'
    } else if d == 4 {
        '4'
    } else if d == 5 {
        '5'
    } else if d == 6 {
        '6'
    } else if d == 7 {
        '7'
    } else if d == 8 {
        '8'
    } else {
        '9'
    }
}

/// Appends the decimal notation of `n` to `out`.
pub fn push_decimal(out: &mut String, n: u128)
    ensures
        final(out)@ == old(out)@ + decimal_text(n as nat),
    decreases n,
{
    if n >= 10 {
        push_decimal(out, n / 10);
    }
    push_char(out, digit_to_char(n % 10));
    proof {
        assert(out@ =~= old(out)@ + decimal_text(n as nat));
    }
}

/// Appends the decimal notation of `n` to `out`, with a `-` before a
/// negative number.
pub fn push_signed_decimal(out: &mut String, n: i64)
    ensures
        final(out)@ == old(out)@ + signed_decimal_text(n as int),
{
    if n < 0 {
        push_char(out, '-');
        let magnitude: u128 = (0i128 - (n as i128)) as u128;
        push_decimal(out, magnitude);
        proof {
            assert(out@ =~= old(out)@ + signed_decimal_text(n as int));
        }
    } else {
        push_decimal(out, n as u128);
    }
}

/// Whether `bytes` equals the UTF-8 encoding of `text`.
pub fn bytes_equal_text(bytes: &[u8], text: &str) -> (r: bool)
    ensures
        r == (bytes@ == text.spec_bytes()),
{
    let t = text.as_bytes();
    if bytes.len() != t.len() {
        return false;
    }
    let n = bytes.len();
    let mut i: usize = 0;
    while i < n
        invariant
            i <= n,
            n == bytes@.len(),
            n == t@.len(),
            t@ == text.spec_bytes(),
            forall|j: int| 0 <= j < i ==> bytes@[j] == t@[j],
        decreases n - i,
    {
        if bytes[i] != t[i] {
            proof {
                assert(bytes@[i as int] != t@[i as int]);
            }
            return false;
        }
        i = i + 1;
    }
    proof {
        assert(bytes@ =~= t@);
    }
    true
}

/// A copy of `bytes` in a new vector.
pub fn copy_bytes(bytes: &[u8]) -> (r: Vec<u8>)
    ensures
        r@ == bytes@,
{
    let n = bytes.len();
    let mut out: Vec<u8> = Vec::with_capacity(n);
    let mut i: usize = 0;
    while i < n
        invariant
            i <= n,
            n == bytes@.len(),
            out@ == bytes@.subrange(0, i as int),
        decreases n - i,
    {
        out.push(bytes[i]);
        i = i + 1;
        proof {
            assert(out@ =~= bytes@.subrange(0, i as int));
        }
    }
    proof {
        assert(out@ =~= bytes@);
    }
    out
}

/// Unicode `White_Space` characters, as `char::is_whitespace` defines them.
pub open spec fn is_unicode_whitespace(c: char) -> bool {
    ||| ('\u{9}' <= c && c <= '\u{d}')
    ||| c == ' '
    ||| c == '\u{85}'
    ||| c == '\u{a0}'
    ||| c == '\u{1680}'
    ||| ('\u{2000}' <= c && c <= '\u{200a}')
    ||| c == '\u{2028}'
    ||| c == '\u{2029}'
    ||| c == '\u{202f}'
    ||| c == '\u{205f}'
    ||| c == '\u{3000}'
}

pub fn is_whitespace_char(c: char) -> (r: bool)
    ensures
        r == is_unicode_whitespace(c),
{
    ('\u{9}' <= c && c <= '\u{d}') || c == ' ' || c == '\u{85}' || c == '\u{a0}' || c == '\u{1680}'
        || ('\u{2000}' <= c && c <= '\u{200a}') || c == '\u{2028}' || c == '\u{2029}' || c
        == '\u{202f}' || c == '\u{205f}' || c == '\u{3000}'
}

/// The characters of `s`, in order.
pub fn chars_of(s: &str) -> (r: Vec<char>)
    ensures
        r@ == s@,
{
    let mut out: Vec<char> = Vec::new();
    for c in it: s.chars()
        invariant
            it.seq() == s@,
            out@ == s@.subrange(0, it.index() as int),
    {
        assert(c == s@[it.index() as int]);
        out.push(c);
        proof {
            assert(out@ =~= s@.subrange(0, it.index() + 1));
        }
    }
    proof {
        assert(out@ =~= s@);
    }
    out
}

/// A string holding the characters `cs[from..to]`.
pub fn string_from_chars(cs: &Vec<char>, from: usize, to: usize) -> (r: String)
    requires
        from <= to <= cs@.len(),
    ensures
        r@ == cs@.subrange(from as int, to as int),
{
    let mut out = String::new();
    let mut i: usize = from;
    while i < to
        invariant
            from <= i <= to,
            to <= cs@.len(),
            out@ == cs@.subrange(from as int, i as int),
        decreases to - i,
    {
        push_char(&mut out, cs[i]);
        i = i + 1;
        proof {
            assert(out@ =~= cs@.subrange(from as int, i as int));
        }
    }
    out
}

/// Whether `s` has no character outside Unicode white space.
pub open spec fn all_whitespace(s: Seq<char>) -> bool {
    forall|i: int| 0 <= i < s.len() ==> is_unicode_whitespace(#[trigger] s[i])
}

/// `s` without its leading and trailing white space, as `str::trim` gives it:
/// the part from the first to the last character that is not white space.
#[verifier::opaque]
pub open spec fn trim_spec(s: Seq<char>) -> Seq<char> {
    if all_whitespace(s) {
        Seq::empty()
    } else {
        let start = choose|a: int|
            0 <= a < s.len() && !is_unicode_whitespace(s[a]) && all_whitespace(s.subrange(0, a));
        let end = choose|b: int|
            0 <= b < s.len() && !is_unicode_whitespace(s[b]) && all_whitespace(
                s.subrange(b + 1, s.len() as int),
            );
        s.subrange(start, end + 1)
    }
}

/// The bounds `[start, end)` of `trim_spec(cs)` within `cs`.
pub fn trim_bounds(cs: &Vec<char>) -> (r: (usize, usize))
    ensures
        r.0 <= r.1 <= cs@.len(),
        cs@.subrange(r.0 as int, r.1 as int) == trim_spec(cs@),
{
    let n = cs.len();
    let mut start: usize = 0;
    while start < n && is_whitespace_char(cs[start])
        invariant
            start <= n,
            n == cs@.len(),
            all_whitespace(cs@.subrange(0, start as int)),
        decreases n - start,
    {
        start = start + 1;
        proof {
            assert forall|i: int| 0 <= i < start implies is_unicode_whitespace(
                #[trigger] cs@.subrange(0, start as int)[i],
            ) by {
                if i < start - 1 {
                    assert(cs@.subrange(0, start as int)[i] == cs@.subrange(0, start - 1)[i]);
                }
            }
        }
    }
    if start == n {
        proof {
            reveal(trim_spec);
            assert(cs@.subrange(0, n as int) =~= cs@);
            assert(cs@.subrange(n as int, n as int) =~= Seq::<char>::empty());
        }
        return (n, n);
    }
    let mut end: usize = n;
    while end > start && is_whitespace_char(cs[end - 1])
        invariant
            start < n,
            start < end <= n,
            n == cs@.len(),
            !is_unicode_whitespace(cs@[start as int]),
            all_whitespace(cs@.subrange(end as int, n as int)),
        decreases end,
    {
        end = end - 1;
        proof {
            assert forall|i: int| 0 <= i < n - end implies is_unicode_whitespace(
                #[trigger] cs@.subrange(end as int, n as int)[i],
            ) by {
                if i > 0 {
                    assert(cs@.subrange(end as int, n as int)[i] == cs@.subrange(
                        end + 1,
                        n as int,
                    )[i - 1]);
                }
            }
        }
    }
    proof {
        reveal(trim_spec);
        let s = cs@;
        assert(!all_whitespace(s)) by {
            assert(!is_unicode_whitespace(s[start as int]));
        }
        let a = choose|a: int|
            0 <= a < s.len() && !is_unicode_whitespace(s[a]) && all_whitespace(s.subrange(0, a));
        assert(0 <= start < s.len() && !is_unicode_whitespace(s[start as int]) && all_whitespace(
            s.subrange(0, start as int),
        ));
        if a < start {
            assert(s.subrange(0, start as int)[a] == s[a]);
        }
        if a > start {
            assert(s.subrange(0, a)[start as int] == s[start as int]);
        }
        let e = (end - 1) as int;
        assert(!is_unicode_whitespace(s[e]));
        assert(s.subrange(e + 1, s.len() as int) =~= s.subrange(end as int, n as int));
        let b = choose|b: int|
            0 <= b < s.len() && !is_unicode_whitespace(s[b]) && all_whitespace(
                s.subrange(b + 1, s.len() as int),
            );
        if b < e {
            assert(s.subrange(b + 1, s.len() as int)[e - b - 1] == s[e]);
        }
        if b > e {
            assert(s.subrange(e + 1, s.len() as int)[b - e - 1] == s[b]);
        }
        assert(a == start);
        assert(b == e);
    }
    (start, end)
}

/// `s` without leading and trailing white space.
pub fn trim_text(s: &str) -> (r: String)
    ensures
        r@ == trim_spec(s@),
{
    let cs = chars_of(s);
    let (a, b) = trim_bounds(&cs);
    string_from_chars(&cs, a, b)
}

/// The value of a decimal digit character.
pub open spec fn digit_value(c: char) -> nat {
    (c as nat - '0' as nat) as nat
}

pub open spec fn is_digit(c: char) -> bool {
    '0' <= c && c <= '9'
}

/// The value of a string of decimal digits.
pub open spec fn decimal_value(s: Seq<char>) -> nat
    decreases s.len(),
{
    if s.len() == 0 {
        0
    } else {
        decimal_value(s.drop_last()) * 10 + digit_value(s.last())
    }
}

/// The digits part of a number: without a leading `+`.
pub open spec fn unsigned_part(s: Seq<char>) -> Seq<char> {
    if s.len() > 0 && s[0] == '+' {
        s.skip(1)
    } else {
        s
    }
}

pub open spec fn all_digits(s: Seq<char>) -> bool {
    forall|i: int| 0 <= i < s.len() ==> is_digit(#[trigger] s[i])
}

/// What `str::parse::<usize>` gives: a value for an optional `+` followed by
/// one or more decimal digits whose value fits in `usize`, nothing otherwise.
pub open spec fn parse_usize_spec(s: Seq<char>) -> Option<nat> {
    let digits = unsigned_part(s);
    if digits.len() > 0 && all_digits(digits) && decimal_value(digits) <= usize::MAX {
        Some(decimal_value(digits))
    } else {
        None
    }
}

pub proof fn lemma_decimal_value_monotone(s: Seq<char>, i: int)
    requires
        0 <= i <= s.len(),
        forall|k: int| 0 <= k < s.len() ==> is_digit(#[trigger] s[k]),
    ensures
        decimal_value(s.subrange(0, i)) <= decimal_value(s),
    decreases s.len() - i,
{
    if i < s.len() {
        lemma_decimal_value_monotone(s, i + 1);
        assert(s.subrange(0, i + 1).drop_last() =~= s.subrange(0, i));
    } else {
        assert(s.subrange(0, i) =~= s);
    }
}

/// Parses `cs` as `str::parse::<usize>` does.
pub fn parse_usize_chars(cs: &Vec<char>) -> (r: Option<usize>)
    ensures
        match parse_usize_spec(cs@) {
            Some(v) => r == Some(v as usize),
            None => r is None,
        },
{
    let n = cs.len();
    let start: usize = if n > 0 && cs[0] == '+' {
        1
    } else {
        0
    };
    let ghost digits = unsigned_part(cs@);
    proof {
        assert(digits =~= cs@.subrange(start as int, n as int));
    }
    if start == n {
        return None;
    }
    let mut value: usize = 0;
    let mut i: usize = start;
    while i < n
        invariant
            start <= i <= n,
            start < n,
            n == cs@.len(),
            digits == cs@.subrange(start as int, n as int),
            digits == unsigned_part(cs@),
            forall|k: int| start <= k < i ==> is_digit(#[trigger] cs@[k]),
            value == decimal_value(cs@.subrange(start as int, i as int)),
        decreases n - i,
    {
        let c = cs[i];
        if !('0' <= c && c <= '9') {
            proof {
                assert(digits[i - start] == cs@[i as int]);
                assert(!is_digit(digits[i - start]));
                assert(!all_digits(digits));
                assert(parse_usize_spec(cs@) is None);
            }
            return None;
        }
        let d = (c as u32 - '0' as u32) as usize;
        proof {
            assert(cs@.subrange(start as int, i + 1).drop_last() =~= cs@.subrange(
                start as int,
                i as int,
            ));
        }
        if value > (usize::MAX - d) / 10 {
            proof {
                let prefix = cs@.subrange(start as int, i + 1);
                assert(decimal_value(prefix) == value * 10 + d);
                assert(value * 10 + d > usize::MAX) by (nonlinear_arith)
                    requires
                        value > (usize::MAX - d) / 10,
                        d <= 9,
                ;
                if all_digits(digits) {
                    lemma_decimal_value_monotone(digits, i + 1 - start);
                    assert(digits.subrange(0, i + 1 - start) =~= prefix);
                    assert(decimal_value(digits) > usize::MAX);
                }
                assert(parse_usize_spec(cs@) is None);
            }
            return None;
        }
        value = value * 10 + d;
        i = i + 1;
    }
    proof {
        assert(cs@.subrange(start as int, n as int) == digits);
    }
    Some(value)
}

/// A copy of `bytes[from..to]` in a new vector.
pub fn copy_range(bytes: &[u8], from: usize, to: usize) -> (r: Vec<u8>)
    requires
        from <= to <= bytes@.len(),
    ensures
        r@ == bytes@.subrange(from as int, to as int),
{
    let mut out: Vec<u8> = Vec::new();
    let mut i: usize = from;
    while i < to
        invariant
            from <= i <= to,
            to <= bytes@.len(),
            out@ == bytes@.subrange(from as int, i as int),
        decreases to - i,
    {
        out.push(bytes[i]);
        i = i + 1;
        proof {
            assert(out@ =~= bytes@.subrange(from as int, i as int));
        }
    }
    out
}

} // verus!
