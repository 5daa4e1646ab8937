//! Replies of the stdio protocol: `<length> LF` followed by that many bytes.
use vstd::prelude::*;
use vstd::slice::{slice_subrange, slice_to_vec};
use crate::wire::{
    all_digits, decimal, digits_value, find, find_byte, is_digit, lemma_decimal, lemma_digits_lack,
    lemma_find, NEWLINE,
};

verus! {

/// Why a reply could not be read.
#[derive(Debug, Clone, Copy, PartialEq, Eq, Structural)]
pub enum ResponseError {
    /// The input ends before the length line does.
    Unterminated,
    /// The length line is not a decimal number that fits a `usize`.
    BadLength,
    /// The input ends before the body does.
    Truncated,
}

/// A length line, without its line feed, that reads as a number.
pub open spec fn valid_length(line: Seq<u8>) -> bool {
    line.len() > 0 && all_digits(line) && digits_value(line) <= usize::MAX
}

/// The reply at the start of `s`: its body and how many bytes it takes up.
pub open spec fn response_of(s: Seq<u8>) -> Result<(Seq<u8>, nat), ResponseError> {
    let i = find(s, NEWLINE);
    if i < 0 {
        Err(ResponseError::Unterminated)
    } else if !valid_length(s.take(i)) {
        Err(ResponseError::BadLength)
    } else {
        let n = digits_value(s.take(i));
        let rest = s.skip(i + 1);
        if rest.len() < n {
            Err(ResponseError::Truncated)
        } else {
            Ok((rest.take(n as int), (i + 1 + n) as nat))
        }
    }
}

/// A reply as the server frames it.
pub open spec fn frame(body: Seq<u8>) -> Seq<u8> {
    decimal(body.len()) + seq![NEWLINE] + body
}

/// A framed reply reads back as its body, and what follows it is left.
pub proof fn lemma_frame_round_trip(body: Seq<u8>, rest: Seq<u8>)
    requires
        body.len() <= usize::MAX,
    ensures
        response_of(frame(body) + rest) == Ok::<(Seq<u8>, nat), ResponseError>(
            (body, frame(body).len()),
        ),
{
    let d = decimal(body.len());
    let s = frame(body) + rest;
    lemma_decimal(body.len());
    lemma_digits_lack(d);
    lemma_find(d, NEWLINE, body + rest);
    assert(s =~= d + seq![NEWLINE] + (body + rest));
    assert(s.take(d.len() as int) =~= d);
    assert(s.skip(d.len() as int + 1) =~= body + rest);
    assert((body + rest).take(body.len() as int) =~= body);
}

proof fn lemma_digits_prefix(s: Seq<u8>, k: int)
    requires
        all_digits(s),
        0 <= k <= s.len(),
    ensures
        digits_value(s.take(k)) <= digits_value(s),
    decreases s.len(),
{
    if k < s.len() {
        let d = s.drop_last();
        assert(all_digits(d)) by {
            assert forall|i: int| 0 <= i < d.len() implies is_digit(#[trigger] d[i]) by {
                assert(d[i] == s[i]);
            }
        }
        lemma_digits_prefix(d, k);
        assert(d.take(k) =~= s.take(k));
        assert(is_digit(s[s.len() - 1]));
    } else {
        assert(s.take(k) =~= s);
    }
}

/// Reads a length line (its line feed taken off) as a number.
pub fn parse_length(line: &[u8]) -> (r: Option<usize>)
    ensures
        match r {
            Some(n) => valid_length(line@) && n == digits_value(line@),
            None => !valid_length(line@),
        },
{
    if line.len() == 0 {
        return None;
    }
    let mut v: usize = 0;
    let mut i: usize = 0;
    while i < line.len()
        invariant
            i <= line.len(),
            all_digits(line@.take(i as int)),
            v == digits_value(line@.take(i as int)),
        decreases line.len() - i,
    {
        let b = line[i];
        assert(line@.take(i as int + 1).drop_last() =~= line@.take(i as int));
        if b < 48 || b > 57 {
            assert(!is_digit(line@[i as int]));
            return None;
        }
        let d = (b - 48) as usize;
        assert(all_digits(line@.take(i as int + 1))) by {
            assert forall|k: int| 0 <= k < i + 1 implies is_digit(
                #[trigger] line@.take(i as int + 1)[k],
            ) by {
                if k < i {
                    assert(line@.take(i as int + 1)[k] == line@.take(i as int)[k]);
                }
            }
        }
        if v > (usize::MAX - d) / 10 {
            proof {
                if all_digits(line@) {
                    lemma_digits_prefix(line@, i as int + 1);
                    assert(digits_value(line@.take(i as int + 1)) == v * 10 + d);
                    assert(v * 10 + d > usize::MAX) by (nonlinear_arith)
                        requires
                            v > (usize::MAX - d) / 10,
                            d <= 9,
                    ;
                }
            }
            return None;
        }
        v = v * 10 + d;
        i = i + 1;
    }
    assert(line@.take(i as int) =~= line@);
    Some(v)
}

/// Reads the reply at the start of `input`: its body, and how many bytes of
/// `input` it took up.
pub fn read_response(input: &[u8]) -> (r: Result<(Vec<u8>, usize), ResponseError>)
    ensures
        match r {
            Ok((body, used)) => used <= input@.len() && response_of(input@) == Ok::<(Seq<u8>, nat), ResponseError>(
                (body@, used as nat),
            ),
            Err(e) => response_of(input@) == Err::<(Seq<u8>, nat), ResponseError>(e),
        },
{
    let i = match find_byte(input, NEWLINE) {
        Some(i) => i,
        None => return Err(ResponseError::Unterminated),
    };
    let n = match parse_length(slice_subrange(input, 0, i)) {
        Some(n) => n,
        None => {
            assert(input@.subrange(0, i as int) =~= input@.take(i as int));
            return Err(ResponseError::BadLength);
        },
    };
    assert(input@.subrange(0, i as int) =~= input@.take(i as int));
    assert(i < input.len());
    let start = i + 1;
    if input.len() - start < n {
        return Err(ResponseError::Truncated);
    }
    let body = slice_to_vec(slice_subrange(input, start, start + n));
    assert(body@ =~= input@.skip(start as int).take(n as int));
    Ok((body, start + n))
}

} // verus!
