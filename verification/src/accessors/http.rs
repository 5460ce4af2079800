//! The rules by which a response to an http request is accepted as the
//! complete object.

use crate::accessors::AccessorError;
use vstd::prelude::*;

verus! {

/// Whether `text` is a decimal number: one or more ASCII digits.
pub open spec fn is_decimal(text: Seq<u8>) -> bool {
    text.len() > 0 && forall|i: int| 0 <= i < text.len() ==> 0x30 <= #[trigger] text[i] <= 0x39
}

/// The number that the digits of `text` stand for.
pub open spec fn decimal_value(text: Seq<u8>) -> int
    decreases text.len(),
{
    if text.len() == 0 {
        0
    } else {
        decimal_value(text.drop_last()) * 10 + (text.last() - 0x30)
    }
}

/// The length that a Content-Length header of the value `text` declares, if
/// it declares one that fits.
pub open spec fn declared_length(text: Seq<u8>) -> Option<usize> {
    if is_decimal(text) && decimal_value(text) <= usize::MAX {
        Some(decimal_value(text) as usize)
    } else {
        None
    }
}

proof fn lemma_decimal_value_grows(text: Seq<u8>, k: int)
    requires
        0 <= k <= text.len(),
        forall|i: int| 0 <= i < text.len() ==> 0x30 <= #[trigger] text[i] <= 0x39,
    ensures
        0 <= decimal_value(text.take(k)) <= decimal_value(text),
    decreases text.len() - k,
{
    if k < text.len() {
        lemma_decimal_value_grows(text, k + 1);
        assert(text.take(k + 1).drop_last() =~= text.take(k));
        lemma_decimal_value_not_negative(text.take(k));
    } else {
        assert(text.take(k) =~= text);
        lemma_decimal_value_not_negative(text);
    }
}

proof fn lemma_decimal_value_not_negative(text: Seq<u8>)
    requires
        forall|i: int| 0 <= i < text.len() ==> 0x30 <= #[trigger] text[i] <= 0x39,
    ensures
        0 <= decimal_value(text),
    decreases text.len(),
{
    if text.len() > 0 {
        lemma_decimal_value_not_negative(text.drop_last());
    }
}

/// Reads the value of a Content-Length header: decimal digits and nothing
/// else.
pub fn parse_content_length(text: &[u8]) -> (length: Option<usize>)
    ensures
        length == declared_length(text@),
{
    let len = text.len();
    if len == 0 {
        return None;
    }
    let mut value: usize = 0;
    let mut i: usize = 0;
    while i < len
        invariant
            i <= len,
            len == text@.len(),
            forall|j: int| 0 <= j < i ==> 0x30 <= #[trigger] text@[j] <= 0x39,
            value == decimal_value(text@.take(i as int)),
        decreases len - i,
    {
        let byte = text[i];
        if byte < 0x30 || byte > 0x39 {
            return None;
        }
        let digit = (byte - 0x30) as usize;
        proof {
            assert(text@.take(i + 1).drop_last() =~= text@.take(i as int));
        }
        if value > (usize::MAX - digit) / 10 {
            proof {
                if is_decimal(text@) {
                    lemma_decimal_value_grows(text@, i + 1);
                }
            }
            return None;
        }
        value = value * 10 + digit;
        i += 1;
    }
    proof {
        assert(text@.take(len as int) =~= text@);
    }
    Some(value)
}

/// What becomes of a response with the status `status`, the Content-Length
/// header `content_length`, if it has one, and a body of `received` bytes.
/// Only a 200 response that declares its length and whose body has that
/// length is accepted.
pub open spec fn verdict(status: u16, content_length: Option<Seq<u8>>, received: int) -> Option<
    AccessorError,
> {
    if status != 200 {
        Some(AccessorError::Non200Response { status })
    } else {
        match content_length {
            None => Some(AccessorError::NoContentLength),
            Some(text) => match declared_length(text) {
                None => Some(AccessorError::InvalidContentLength),
                Some(expected) => if expected != received {
                    Some(
                        AccessorError::LengthMismatch { expected, received: received as usize },
                    )
                } else {
                    None
                },
            },
        }
    }
}

/// What the status and the Content-Length header of a response come to,
/// before any of the body is read: the length that the body must have, or the
/// error for a response that is not 200 - OK or that declares no length.
pub open spec fn expected_length(status: u16, content_length: Option<Seq<u8>>) -> Result<
    usize,
    AccessorError,
> {
    if status != 200 {
        Err(AccessorError::Non200Response { status })
    } else {
        match content_length {
            None => Err(AccessorError::NoContentLength),
            Some(text) => match declared_length(text) {
                None => Err(AccessorError::InvalidContentLength),
                Some(expected) => Ok(expected),
            },
        }
    }
}

/// The header value as the bytes that it reads.
pub open spec fn read_as(content_length: Option<&[u8]>) -> Option<Seq<u8>> {
    match content_length {
        Some(text) => Some(text@),
        None => None,
    }
}

/// Judges a response by its status and its Content-Length header, before its
/// body is read: gives the length that the body must have, or the error.
pub fn judge_head(status: u16, content_length: Option<&[u8]>) -> (length: Result<
    usize,
    AccessorError,
>)
    ensures
        length == expected_length(status, read_as(content_length)),
{
    if status != 200 {
        return Err(AccessorError::Non200Response { status });
    }
    let text = match content_length {
        Some(text) => text,
        None => {
            return Err(AccessorError::NoContentLength);
        },
    };
    match parse_content_length(text) {
        Some(expected) => Ok(expected),
        None => Err(AccessorError::InvalidContentLength),
    }
}

/// Accepts a body that has the length that the response declared, and
/// refuses any other.
pub fn accept_body(expected: usize, body: Vec<u8>) -> (object: Result<Vec<u8>, AccessorError>)
    ensures
        object == if expected == body@.len() {
            Ok::<Vec<u8>, AccessorError>(body)
        } else {
            Err::<Vec<u8>, AccessorError>(
                AccessorError::LengthMismatch { expected, received: body@.len() as usize },
            )
        },
{
    if expected != body.len() {
        return Err(AccessorError::LengthMismatch { expected, received: body.len() });
    }
    Ok(body)
}

/// Decides whether a response is the complete object, and hands the body on
/// if it is. If the response does not specifically return 200 - OK, declares
/// no length, or has a body of another length, an error is returned.
pub fn accept_response(status: u16, content_length: Option<&[u8]>, body: Vec<u8>) -> (object: Result<
    Vec<u8>,
    AccessorError,
>)
    ensures
        match verdict(status, read_as(content_length), body@.len() as int) {
            None => object == Ok::<Vec<u8>, AccessorError>(body),
            Some(error) => object == Err::<Vec<u8>, AccessorError>(error),
        },
        object == match expected_length(status, read_as(content_length)) {
            Err(error) => Err::<Vec<u8>, AccessorError>(error),
            Ok(expected) => if expected == body@.len() {
                Ok::<Vec<u8>, AccessorError>(body)
            } else {
                Err::<Vec<u8>, AccessorError>(
                    AccessorError::LengthMismatch { expected, received: body@.len() as usize },
                )
            },
        },
{
    match judge_head(status, content_length) {
        Ok(expected) => accept_body(expected, body),
        Err(error) => Err(error),
    }
}

} // verus!
