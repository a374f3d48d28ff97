use vstd::prelude::*;

use crate::common::constants::MAX_VALUE_SIZE;
use crate::common::text::{all_digits, digits_value, is_digit, lossy_string, lossy_text, parse_i64, sign_len};
use crate::protocol::resp::{RespModel, RespValue, models, lemma_array_model};
use crate::protocol::incremental::{parse_answer, parser_model, parser_step, ParserOp};

verus! {

/// Why bytes do not make a RESP2 value.
#[derive(Debug, PartialEq, Eq, Structural)]
pub enum ParseError {
    /// More bytes are needed.
    Incomplete,
    /// The value starts with a byte that names no type.
    InvalidType(u8),
    /// A length or an integer is not a decimal `i64`.
    InvalidInteger,
    /// A length is below -1, or a bulk string is longer than `MAX_VALUE_SIZE`.
    InvalidLength,
    /// A line does not end in CRLF, or a bulk string's data is not followed by CRLF.
    InvalidFormat,
}

/// The index of the first `\n` in `s` at or after `i`, or `s.len()` if none.
pub open spec fn newline_at(s: Seq<u8>, i: int) -> int
    decreases s.len() - i,
{
    if i < 0 || i >= s.len() {
        s.len() as int
    } else if s[i] == 10u8 {
        i
    } else {
        newline_at(s, i + 1)
    }
}

/// Reads a line that must end in CRLF: the line without its CRLF and how many
/// bytes it takes. Bytes that hold no `\n` but are not empty are no line.
pub open spec fn spec_read_line(s: Seq<u8>) -> Result<(Seq<u8>, int), ParseError> {
    if s.len() == 0 {
        Err(ParseError::Incomplete)
    } else {
        let p = newline_at(s, 0);
        if p >= s.len() || p < 1 || s[p - 1] != 13u8 {
            Err(ParseError::InvalidFormat)
        } else {
            Ok((s.take(p - 1), p + 1))
        }
    }
}

/// Parses one RESP2 value from the start of `s`: the value and how many bytes
/// it takes, or why there is none.
pub open spec fn spec_parse_value(s: Seq<u8>) -> Result<(RespModel, int), ParseError>
    decreases s.len(), 0int, 0int,
{
    if s.len() == 0 {
        Err(ParseError::Incomplete)
    } else {
        let t = s[0];
        let rest = s.skip(1);
        if t != 43u8 && t != 45u8 && t != 58u8 && t != 36u8 && t != 42u8 {
            Err(ParseError::InvalidType(t))
        } else {
            match spec_read_line(rest) {
                Err(e) => Err(e),
                Ok((line, k)) => {
                    let header = 1 + k;
                    if t == 43u8 {
                        Ok((RespModel::SimpleString(lossy_text(line)), header))
                    } else if t == 45u8 {
                        Ok((RespModel::Error(lossy_text(line)), header))
                    } else {
                        match parse_i64(line) {
                            None => Err(ParseError::InvalidInteger),
                            Some(n) => {
                                if t == 58u8 {
                                    Ok((RespModel::Integer(n), header))
                                } else if t == 36u8 {
                                    if n == -1 {
                                        Ok((RespModel::BulkString(None), header))
                                    } else if n < -1 || n > MAX_VALUE_SIZE {
                                        Err(ParseError::InvalidLength)
                                    } else {
                                        let body = s.skip(header);
                                        if body.len() < n + 2 {
                                            Err(ParseError::Incomplete)
                                        } else if body[n as int] != 13u8 || body[n + 1] != 10u8 {
                                            Err(ParseError::InvalidFormat)
                                        } else {
                                            Ok(
                                                (
                                                    RespModel::BulkString(Some(body.take(n as int))),
                                                    header + n + 2,
                                                ),
                                            )
                                        }
                                    }
                                } else {
                                    if n == -1 {
                                        Ok((RespModel::Array(None), header))
                                    } else if n < -1 {
                                        Err(ParseError::InvalidLength)
                                    } else if header > s.len() {
                                        Err(ParseError::InvalidFormat)
                                    } else {
                                        match spec_parse_elements(s.skip(header), n as nat) {
                                            Err(e) => Err(e),
                                            Ok((es, c)) => Ok((RespModel::Array(Some(es)), header + c)),
                                        }
                                    }
                                }
                            },
                        }
                    }
                },
            }
        }
    }
}

/// Parses `n` values one after the other from the start of `s`.
pub open spec fn spec_parse_elements(s: Seq<u8>, n: nat) -> Result<(Seq<RespModel>, int), ParseError>
    decreases s.len(), 1int, n,
{
    if n == 0 {
        Ok((Seq::empty(), 0))
    } else {
        match spec_parse_value(s) {
            Err(e) => Err(e),
            Ok((m, k)) => {
                if 0 <= k <= s.len() {
                    match spec_parse_elements(s.skip(k), (n - 1) as nat) {
                        Err(e) => Err(e),
                        Ok((ms, c)) => Ok((seq![m] + ms, k + c)),
                    }
                } else {
                    Err(ParseError::InvalidFormat)
                }
            },
        }
    }
}


/// `min(v, 2^63 + 1)`: a decimal magnitude, capped just above what an `i64` holds.
pub open spec fn capped(v: nat) -> nat {
    if v > 9223372036854775809 { 9223372036854775809 } else { v }
}

proof fn lemma_capped_step(v: nat, d: nat)
    requires
        d < 10,
    ensures
        capped(capped(v) * 10 + d) == capped(v * 10 + d),
{
    if v > 9223372036854775809 {
        assert(v * 10 + d > 9223372036854775809) by (nonlinear_arith)
            requires v > 9223372036854775809;
    }
}

/// `str::parse::<i64>` of `buf[start..end]`.
pub fn parse_i64_at(buf: &[u8], start: usize, end: usize) -> (r: Option<i64>)
    requires
        start <= end <= buf.len(),
    ensures
        r == parse_i64(buf@.subrange(start as int, end as int)),
{
    let ghost s = buf@.subrange(start as int, end as int);
    if start == end {
        return None;
    }
    let negative = buf[start] == 45u8;
    let signed = buf[start] == 45u8 || buf[start] == 43u8;
    let first: usize = if signed { start + 1 } else { start };
    let ghost digits = buf@.subrange(first as int, end as int);
    assert(digits =~= s.skip(sign_len(s)));
    if first == end {
        return None;
    }
    let mut acc: u128 = 0;
    let mut i: usize = first;
    while i < end
        invariant
            first <= i <= end <= buf.len(),
            start < end,
            s == buf@.subrange(start as int, end as int),
            digits == buf@.subrange(first as int, end as int),
            digits == s.skip(sign_len(s)),
            negative == (s[0] == 45u8),
            forall|j: int| 0 <= j < i - first ==> is_digit(#[trigger] digits[j]),
            acc == capped(digits_value(digits.take(i - first))),
        decreases end - i,
    {
        let b = buf[i];
        if b < 48u8 || b > 57u8 {
            proof {
                assert(digits[i - first] == b);
                assert(!all_digits(digits));
            }
            return None;
        }
        let ghost before = digits.take(i - first);
        proof {
            assert(digits.take(i - first + 1).drop_last() =~= before);
            lemma_capped_step(digits_value(before), (b - 48) as nat);
        }
        acc = acc * 10 + (b - 48) as u128;
        if acc > 9223372036854775809u128 {
            acc = 9223372036854775809u128;
        }
        i = i + 1;
    }
    assert(digits.take(end - first) =~= digits);
    if negative {
        if acc > 9223372036854775808u128 {
            None
        } else {
            Some((0i128 - acc as i128) as i64)
        }
    } else {
        if acc > 9223372036854775807u128 {
            None
        } else {
            Some(acc as i64)
        }
    }
}

/// Reads the line that starts at `start`: where it ends (before its CRLF) and
/// where the next byte after its CRLF is.
fn read_line(buf: &[u8], start: usize) -> (r: Result<(usize, usize), ParseError>)
    requires
        start <= buf.len(),
    ensures
        match (r, spec_read_line(buf@.skip(start as int))) {
            (Ok((line_end, next)), Ok((line, k))) => {
                &&& start <= line_end <= next <= buf.len()
                &&& line == buf@.subrange(start as int, line_end as int)
                &&& next == start + k
            },
            (Err(e), Err(e2)) => e == e2,
            _ => false,
        },
{
    let ghost s = buf@.skip(start as int);
    if start >= buf.len() {
        return Err(ParseError::Incomplete);
    }
    let mut i: usize = start;
    while i < buf.len() && buf[i] != 10u8
        invariant
            start <= i <= buf.len(),
            s == buf@.skip(start as int),
            newline_at(s, 0) == newline_at(s, i - start),
        decreases buf.len() - i,
    {
        i = i + 1;
    }
    if i >= buf.len() || i == start || buf[i - 1] != 13u8 {
        return Err(ParseError::InvalidFormat);
    }
    assert(s.take(i - start - 1) =~= buf@.subrange(start as int, i - 1));
    Ok((i - 1, i + 1))
}

/// What one parse of a value at `pos` gave, against its specification.
pub open spec fn parsed_as(
    r: Result<(RespValue, usize), ParseError>,
    pos: int,
    spec: Result<(RespModel, int), ParseError>,
) -> bool {
    match (r, spec) {
        (Ok((v, end)), Ok((m, k))) => v.model() == m && end == pos + k,
        (Err(e), Err(e2)) => e == e2,
        _ => false,
    }
}

/// The result of parsing elements after some were parsed already.
pub open spec fn after(ms: Seq<RespModel>, offset: int, r: Result<(Seq<RespModel>, int), ParseError>) -> Result<
    (Seq<RespModel>, int),
    ParseError,
> {
    match r {
        Ok((rest, c)) => Ok((ms + rest, offset + c)),
        Err(e) => Err(e),
    }
}

/// Parses the value that starts at `pos`.
fn parse_value(buf: &[u8], pos: usize) -> (r: Result<(RespValue, usize), ParseError>)
    requires
        pos <= buf.len(),
    ensures
        parsed_as(r, pos as int, spec_parse_value(buf@.skip(pos as int))),
        r matches Ok((_, end)) ==> pos < end <= buf.len(),
    decreases buf.len() - pos,
{
    let ghost s = buf@.skip(pos as int);
    if pos >= buf.len() {
        return Err(ParseError::Incomplete);
    }
    let t = buf[pos];
    if t != 43u8 && t != 45u8 && t != 58u8 && t != 36u8 && t != 42u8 {
        return Err(ParseError::InvalidType(t));
    }
    let start = pos + 1;
    assert(s.skip(1) =~= buf@.skip(start as int));
    let (line_end, next) = match read_line(buf, start) {
        Err(e) => return Err(e),
        Ok(p) => p,
    };
    if t == 43u8 || t == 45u8 {
        let line = vstd::slice::slice_subrange(buf, start, line_end);
        let text = lossy_string(line);
        if t == 43u8 {
            return Ok((RespValue::SimpleString(text), next));
        } else {
            return Ok((RespValue::Error(text), next));
        }
    }
    let n = match parse_i64_at(buf, start, line_end) {
        None => return Err(ParseError::InvalidInteger),
        Some(n) => n,
    };
    if t == 58u8 {
        return Ok((RespValue::Integer(n), next));
    }
    assert(s.skip(next - pos) =~= buf@.skip(next as int));
    if t == 36u8 {
        if n == -1 {
            return Ok((RespValue::BulkString(None), next));
        }
        if n < -1 || n as i128 > MAX_VALUE_SIZE as i128 {
            return Err(ParseError::InvalidLength);
        }
        let len = n as usize;
        if buf.len() - next < len || buf.len() - next - len < 2 {
            return Err(ParseError::Incomplete);
        }
        if buf[next + len] != 13u8 || buf[next + len + 1] != 10u8 {
            return Err(ParseError::InvalidFormat);
        }
        let data = vstd::slice::slice_to_vec(vstd::slice::slice_subrange(buf, next, next + len));
        assert(data@ =~= buf@.skip(next as int).take(len as int));
        return Ok((RespValue::BulkString(Some(data)), next + len + 2));
    }
    if n == -1 {
        return Ok((RespValue::Array(None), next));
    }
    if n < -1 {
        return Err(ParseError::InvalidLength);
    }
    let count = n as u64;
    let ghost total = spec_parse_elements(buf@.skip(next as int), count as nat);
    let ghost whole: Result<(RespModel, int), ParseError> = match total {
        Err(e) => Err(e),
        Ok((es, c)) => Ok((RespModel::Array(Some(es)), (next - pos) + c)),
    };
    assert(spec_parse_value(s) == whole);
    let mut elements: Vec<RespValue> = Vec::new();
    let mut p: usize = next;
    let mut i: u64 = 0;
    while i < count
        invariant
            pos < next <= p <= buf.len(),
            i <= count,
            total == spec_parse_elements(buf@.skip(next as int), count as nat),
            spec_parse_value(buf@.skip(pos as int)) == whole,
            whole == (match total {
                Err(e) => Err(e),
                Ok((es, c)) => Ok((RespModel::Array(Some(es)), (next - pos) + c)),
            }),
            total == after(models(elements@), p - next, spec_parse_elements(buf@.skip(p as int), (count - i) as nat)),
        decreases count - i,
    {
        let ghost rest = buf@.skip(p as int);
        match parse_value(buf, p) {
            Err(e) => {
                assert(spec_parse_elements(rest, (count - i) as nat) == Err::<(Seq<RespModel>, int), ParseError>(e));
                return Err(e);
            },
            Ok((v, q)) => {
                proof {
                    assert(rest.skip(q - p) =~= buf@.skip(q as int));
                    let inner = spec_parse_elements(buf@.skip(q as int), (count - i - 1) as nat);
                    assert(spec_parse_elements(rest, (count - i) as nat) == after(seq![v.model()], q - p, inner));
                    assert(models(elements@.push(v)) =~= models(elements@) + seq![v.model()]);
                    match inner {
                        Ok((rs, c)) => {
                            assert(models(elements@) + (seq![v.model()] + rs) =~= models(elements@.push(v)) + rs);
                        },
                        Err(e) => {},
                    }
                }
                elements.push(v);
                p = q;
                i = i + 1;
            },
        }
    }
    proof {
        lemma_array_model(elements);
        assert(models(elements@) + Seq::<RespModel>::empty() =~= models(elements@));
    }
    Ok((RespValue::Array(Some(elements)), p))
}


/// An incremental RESP2 parser: bytes are fed in as they arrive, and values
/// taken out from the front as they become complete.
pub struct RespParser {
    buffer: Vec<u8>,
    cursor: usize,
}

impl RespParser {
    /// The consumed bytes are held bytes.
    pub closed spec fn wf(self) -> bool {
        self.cursor <= self.buffer.len()
    }

    /// All bytes held, consumed ones included.
    pub closed spec fn buffered(self) -> Seq<u8> {
        self.buffer@
    }

    /// How many of the held bytes values were parsed from.
    pub closed spec fn consumed(self) -> nat {
        self.cursor as nat
    }

    /// The held bytes not yet parsed.
    pub open spec fn pending(self) -> Seq<u8> {
        self.buffered().skip(self.consumed() as int)
    }

    pub fn new() -> (r: Self)
        ensures
            r.wf(),
            r.buffered() == Seq::<u8>::empty(),
            r.consumed() == 0,
    {
        RespParser { buffer: Vec::new(), cursor: 0 }
    }

    /// Appends bytes received.
    pub fn feed(&mut self, data: &[u8])
        requires
            old(self).wf(),
        ensures
            final(self).wf(),
            final(self).buffered() == old(self).buffered() + data@,
            final(self).consumed() == old(self).consumed(),
            parser_model(*final(self)) == parser_step(parser_model(*old(self)), ParserOp::Feed(data@)).0,
    {
        let mut i: usize = 0;
        while i < data.len()
            invariant
                i <= data.len(),
                self.buffer@ == old(self).buffer@ + data@.take(i as int),
                self.cursor == old(self).cursor,
            decreases data.len() - i,
        {
            self.buffer.push(data[i]);
            i = i + 1;
            assert(self.buffer@ =~= old(self).buffer@ + data@.take(i as int));
        }
        assert(data@.take(data.len() as int) =~= data@);
    }

    /// Takes the next value from the pending bytes: `Ok(None)` while it is
    /// incomplete (or no bytes are pending); the bytes it took are consumed.
    /// Nothing is consumed on an error.
    pub fn parse(&mut self) -> (r: Result<Option<RespValue>, ParseError>)
        requires
            old(self).wf(),
        ensures
            final(self).wf(),
            final(self).buffered() == old(self).buffered(),
            (parser_model(*final(self)), parse_answer(r)) == parser_step(parser_model(*old(self)), ParserOp::Parse),
            match spec_parse_value(old(self).pending()) {
                Ok((m, k)) => {
                    &&& r matches Ok(Some(v)) && v.model() == m
                    &&& final(self).consumed() == old(self).consumed() + k
                },
                Err(ParseError::Incomplete) => {
                    &&& r matches Ok(None)
                    &&& final(self).consumed() == old(self).consumed()
                },
                Err(e) => {
                    &&& r == Err::<Option<RespValue>, ParseError>(e)
                    &&& final(self).consumed() == old(self).consumed()
                },
            },
    {
        if self.cursor >= self.buffer.len() {
            assert(old(self).pending() =~= Seq::<u8>::empty());
            return Ok(None);
        }
        let start = self.cursor;
        match parse_value(self.buffer.as_slice(), start) {
            Ok((value, end)) => {
                self.cursor = end;
                Ok(Some(value))
            },
            Err(ParseError::Incomplete) => Ok(None),
            Err(e) => Err(e),
        }
    }

    /// Drops the consumed bytes.
    pub fn compact(&mut self)
        requires
            old(self).wf(),
        ensures
            final(self).wf(),
            final(self).buffered() == old(self).pending(),
            final(self).consumed() == 0,
            final(self).pending() == old(self).pending(),
            parser_model(*final(self)) == parser_step(parser_model(*old(self)), ParserOp::Compact).0,
    {
        if self.cursor > 0 {
            let cut = self.cursor;
            let rest = self.buffer.split_off(cut);
            self.cursor = 0;
            self.buffer = rest;
            assert(self.buffer@.skip(0) =~= self.buffer@);
        } else {
            assert(self.buffer@.skip(0) =~= self.buffer@);
        }
    }
}

} // verus!
