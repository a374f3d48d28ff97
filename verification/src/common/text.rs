use vstd::prelude::*;

verus! {

/// The ASCII decimal digits of `n`, most significant first, without leading zeros.
pub open spec fn decimal_digits(n: nat) -> Seq<u8>
    decreases n,
{
    if n < 10 {
        seq![(48 + n) as u8]
    } else {
        decimal_digits(n / 10).push((48 + n % 10) as u8)
    }
}

/// The ASCII decimal text of `n`, with a leading `-` when `n` is negative
/// (how `to_string` writes an integer).
pub open spec fn decimal_text(n: int) -> Seq<u8> {
    if n < 0 {
        seq![45u8] + decimal_digits((-n) as nat)
    } else {
        decimal_digits(n as nat)
    }
}

/// The characters of a byte string read as ASCII.
pub open spec fn ascii_chars(bytes: Seq<u8>) -> Seq<char> {
    bytes.map_values(|b: u8| b as char)
}

pub open spec fn is_digit(b: u8) -> bool {
    48 <= b <= 57
}

/// The number that a string of ASCII digits spells.
pub open spec fn digits_value(s: Seq<u8>) -> nat
    decreases s.len(),
{
    if s.len() == 0 {
        0
    } else {
        digits_value(s.drop_last()) * 10 + (s.last() - 48) as nat
    }
}

/// Whether every byte of `s` is an ASCII digit.
pub open spec fn all_digits(s: Seq<u8>) -> bool {
    forall|i: int| 0 <= i < s.len() ==> is_digit(#[trigger] s[i])
}

/// How many bytes of `s` make its sign: one for a leading `+` or `-`, else none.
pub open spec fn sign_len(s: Seq<u8>) -> int {
    if s.len() > 0 && (s[0] == 45u8 || s[0] == 43u8) {
        1
    } else {
        0
    }
}

/// What `str::parse::<i64>` makes of the text `s`: an optional `+` or `-`,
/// then at least one ASCII digit, and nothing else, within the range of `i64`.
pub open spec fn parse_i64(s: Seq<u8>) -> Option<i64> {
    let digits = s.skip(sign_len(s));
    if digits.len() == 0 || !all_digits(digits) {
        None
    } else {
        let v: int = if s[0] == 45u8 {
            -(digits_value(digits) as int)
        } else {
            digits_value(digits) as int
        };
        if i64::MIN <= v <= i64::MAX {
            Some(v as i64)
        } else {
            None
        }
    }
}

/// The decimal digits of `n` are digits, at least one, and spell `n`.
pub proof fn lemma_decimal_digits(n: nat)
    ensures
        all_digits(decimal_digits(n)),
        decimal_digits(n).len() >= 1,
        digits_value(decimal_digits(n)) == n,
    decreases n,
{
    let d = decimal_digits(n);
    if n < 10 {
        assert(d.drop_last() =~= Seq::<u8>::empty());
        assert(digits_value(d.drop_last()) == 0);
    } else {
        lemma_decimal_digits(n / 10);
        assert(d.drop_last() =~= decimal_digits(n / 10));
        assert(all_digits(d)) by {
            assert forall|i: int| 0 <= i < d.len() implies is_digit(#[trigger] d[i]) by {
                if i < d.len() - 1 {
                    assert(d[i] == decimal_digits(n / 10)[i]);
                }
            }
        }
    }
}

/// `str::parse::<i64>` reads back what `to_string` writes.
pub proof fn lemma_parse_decimal_text(n: i64)
    ensures
        parse_i64(decimal_text(n as int)) == Some(n),
        forall|i: int| 0 <= i < decimal_text(n as int).len() ==> #[trigger] decimal_text(n as int)[i] != 10u8,
{
    let t = decimal_text(n as int);
    if n < 0 {
        let m = (-n) as nat;
        lemma_decimal_digits(m);
        assert(t.skip(1) =~= decimal_digits(m));
        assert(sign_len(t) == 1);
        assert forall|i: int| 0 <= i < t.len() implies #[trigger] t[i] != 10u8 by {
            if i > 0 {
                assert(t[i] == decimal_digits(m)[i - 1]);
                assert(is_digit(decimal_digits(m)[i - 1]));
            }
        }
    } else {
        lemma_decimal_digits(n as nat);
        assert(is_digit(t[0]));
        assert(sign_len(t) == 0);
        assert(t.skip(0) =~= t);
        assert forall|i: int| 0 <= i < t.len() implies #[trigger] t[i] != 10u8 by {
            assert(is_digit(t[i]));
        }
    }
}

/// Appends the decimal digits of `n`.
pub fn push_decimal(buf: &mut Vec<u8>, n: u64)
    ensures
        final(buf)@ == old(buf)@ + decimal_digits(n as nat),
    decreases n,
{
    if n >= 10 {
        push_decimal(buf, n / 10);
    }
    let d: u8 = (48 + n % 10) as u8;
    buf.push(d);
    proof {
        if n >= 10 {
            assert(decimal_digits(n as nat) == decimal_digits((n / 10) as nat).push(d));
        } else {
            assert(decimal_digits(n as nat) == seq![d]);
        }
    }
}

/// Appends the decimal text of `n`.
pub fn push_signed_decimal(buf: &mut Vec<u8>, n: i64)
    ensures
        final(buf)@ == old(buf)@ + decimal_text(n as int),
{
    if n < 0 {
        buf.push(45u8);
        let magnitude: u64 = (0i128 - (n as i128)) as u64;
        push_decimal(buf, magnitude);
    } else {
        push_decimal(buf, n as u64);
    }
}

/// Appends the bytes of `s`.
pub fn push_bytes(buf: &mut Vec<u8>, s: &[u8])
    ensures
        final(buf)@ == old(buf)@ + s@,
{
    let ghost start = buf@;
    let mut i: usize = 0;
    while i < s.len()
        invariant
            i <= s.len(),
            buf@ == start + s@.take(i as int),
        decreases s.len() - i,
    {
        buf.push(s[i]);
        i = i + 1;
        assert(buf@ =~= start + s@.take(i as int));
    }
    assert(s@.take(s.len() as int) =~= s@);
}

/// Appends the UTF-8 bytes of `s`.
pub fn push_str_bytes(buf: &mut Vec<u8>, s: &str)
    ensures
        final(buf)@ == old(buf)@ + vstd::utf8::encode_utf8(s@),
{
    push_bytes(buf, s.as_bytes());
}

/// `String::push`: appends one character.
#[verifier::external_body]
pub(crate) fn push_char(s: &mut String, c: char)
    ensures
        final(s)@ == old(s)@.push(c),
{
    s.push(c);
}

/// Appends the decimal digits of `n`.
pub fn push_decimal_chars(s: &mut String, n: u64)
    ensures
        final(s)@ == old(s)@ + ascii_chars(decimal_digits(n as nat)),
    decreases n,
{
    if n >= 10 {
        push_decimal_chars(s, n / 10);
    }
    let d: u8 = (48 + n % 10) as u8;
    push_char(s, d as char);
    proof {
        if n >= 10 {
            assert(decimal_digits(n as nat) == decimal_digits((n / 10) as nat).push(d));
        } else {
            assert(decimal_digits(n as nat) == seq![d]);
        }
        assert(ascii_chars(decimal_digits(n as nat)) =~= ascii_chars(
            decimal_digits(n as nat).drop_last(),
        ).push(d as char));
    }
}

/// Appends the decimal text of `n`.
pub fn push_signed_decimal_chars(s: &mut String, n: i64)
    ensures
        final(s)@ == old(s)@ + ascii_chars(decimal_text(n as int)),
{
    let ghost start = s@;
    if n < 0 {
        push_char(s, '-');
        let magnitude: u64 = (0i128 - (n as i128)) as u64;
        push_decimal_chars(s, magnitude);
        assert(ascii_chars(decimal_text(n as int)) =~= seq!['-'] + ascii_chars(
            decimal_digits(magnitude as nat),
        ));
    } else {
        push_decimal_chars(s, n as u64);
    }
}

/// Appends the characters of `t`.
pub fn push_text(s: &mut String, t: &str)
    ensures
        final(s)@ == old(s)@ + t@,
{
    s.append(t);
}

/// The parts one after the other with `sep` between each two (what `join` writes).
pub open spec fn joined(parts: Seq<Seq<char>>, sep: Seq<char>) -> Seq<char>
    decreases parts.len(),
{
    if parts.len() == 0 {
        Seq::empty()
    } else if parts.len() == 1 {
        parts[0]
    } else {
        joined(parts.drop_last(), sep) + sep + parts.last()
    }
}

/// The characters of each string.
pub open spec fn string_views(v: Seq<String>) -> Seq<Seq<char>> {
    Seq::new(v.len(), |i: int| v[i]@)
}

/// Appends the strings with `sep` between each two.
pub fn push_joined(s: &mut String, parts: &Vec<String>, sep: &str)
    ensures
        final(s)@ == old(s)@ + joined(string_views(parts@), sep@),
{
    let ghost start = s@;
    let ghost views = string_views(parts@);
    let mut i: usize = 0;
    while i < parts.len()
        invariant
            i <= parts@.len(),
            views == string_views(parts@),
            s@ == start + joined(views.take(i as int), sep@),
        decreases parts.len() - i,
    {
        if i > 0 {
            push_text(s, sep);
        }
        push_text(s, parts[i].as_str());
        proof {
            let t = views.take(i + 1);
            assert(t.drop_last() =~= views.take(i as int));
            if i == 0 {
                assert(joined(views.take(0), sep@) =~= Seq::<char>::empty());
                assert(s@ =~= start + joined(t, sep@));
            } else {
                assert(s@ =~= start + joined(t, sep@));
            }
        }
        i = i + 1;
    }
    assert(views.take(parts@.len() as int) =~= views);
}

/// A string holding the characters of `t`.
pub fn text(t: &str) -> (r: String)
    ensures
        r@ == t@,
{
    t.to_owned()
}

/// Whether a string is the given text.
pub fn is_text(s: &String, t: &str) -> (r: bool)
    ensures
        r == (s@ == t@),
{
    let other = text(t);
    *s == other
}

/// What `String::from_utf8_lossy` makes of a byte string: its UTF-8 decoding,
/// each invalid sequence replaced by U+FFFD.
pub uninterp spec fn utf8_lossy(bytes: Seq<u8>) -> Seq<char>;

/// `String::from_utf8_lossy`, made an owned string. Of valid UTF-8 the result is
/// its decoding, as the function's documentation says; how invalid sequences are
/// replaced is named by `utf8_lossy` and not stated.
#[verifier::external_body]
pub(crate) fn lossy_string(bytes: &[u8]) -> (r: String)
    ensures
        r@ == utf8_lossy(bytes@),
        vstd::utf8::valid_utf8(bytes@) ==> r@ == vstd::utf8::decode_utf8(bytes@),
{
    String::from_utf8_lossy(bytes).into_owned()
}

/// The text of a byte string: its UTF-8 decoding where it is valid UTF-8, else what
/// `String::from_utf8_lossy` makes of it.
pub open spec fn lossy_text(bytes: Seq<u8>) -> Seq<char> {
    if vstd::utf8::valid_utf8(bytes) {
        vstd::utf8::decode_utf8(bytes)
    } else {
        utf8_lossy(bytes)
    }
}

/// What `str::to_uppercase` makes of a string: Unicode upper-casing.
pub uninterp spec fn uppercase(s: Seq<char>) -> Seq<char>;

/// The upper case of an ASCII character: `a` to `z` become `A` to `Z`, every
/// other character stays.
pub open spec fn ascii_upper(c: char) -> char {
    if 'a' <= c && c <= 'z' {
        ((c as u32) - 32) as char
    } else {
        c
    }
}

/// `str::to_uppercase`. Of ASCII text the result is each letter upper-cased
/// and everything else kept, as the Unicode mapping gives; beyond ASCII the
/// mapping is named by `uppercase` and not stated.
#[verifier::external_body]
pub(crate) fn to_uppercase(s: &str) -> (r: String)
    ensures
        r@ == uppercase(s@),
        (forall|i: int| 0 <= i < s@.len() ==> (#[trigger] s@[i] as u32) < 128) ==> r@ == s@.map_values(
            |c: char| ascii_upper(c),
        ),
{
    s.to_uppercase()
}

/// What `{:?}` writes for a string: the string in double quotes, with quotes,
/// backslashes and unprintable characters escaped.
pub uninterp spec fn debug_quoted(s: Seq<char>) -> Seq<char>;

/// `<str as Debug>::fmt`, as `format!("{:?}", s)` calls it. The escaping is
/// named by `debug_quoted` and not stated.
#[verifier::external_body]
pub(crate) fn debug_text(s: &str) -> (r: String)
    ensures
        r@ == debug_quoted(s@),
{
    format!("{:?}", s)
}

} // verus!
