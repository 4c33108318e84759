//! Messages on the wire: a four-byte length header, then the text's UTF-8
//! bytes. Reading and writing are the caller's; these functions judge what a
//! read or a write gave.

use vstd::prelude::*;
use crate::size::{ByteOrder, Size, SIZE_LEN, holds_value, order_bytes, order_value, lemma_usize_round_trip};
use vstd::utf8::{decode_utf8, encode_utf8, valid_utf8};
use std::io::Error as IoError;
use std::string::FromUtf8Error;

verus! {

#[verifier::external_type_specification]
#[verifier::external_body]
pub struct ExIoError(IoError);

#[verifier::external_type_specification]
#[verifier::external_body]
pub struct ExFromUtf8Error(FromUtf8Error);

/// A transfer that moved another number of bytes than it should have.
#[derive(Debug, Clone, Copy, PartialEq, Eq, Structural)]
pub struct SizeErr {
    pub was_transferred: usize,
    pub should_be_transferred: usize,
}

/// Why a message could not be sent or received.
#[derive(Debug)]
pub enum Error {
    /// The stream failed.
    Io(IoError),
    /// A read or write moved too few bytes.
    Size(SizeErr),
    /// The bytes received are not UTF-8.
    Utf8(FromUtf8Error),
}

/// The text of some bytes, with `String::from_utf8`: it succeeds exactly on
/// valid UTF-8, and gives the characters those bytes encode.
#[verifier::external_body]
fn string_from_utf8(bytes: Vec<u8>) -> (r: Result<String, FromUtf8Error>)
    ensures
        r is Ok <==> valid_utf8(bytes@),
        r matches Ok(s) ==> s@ == decode_utf8(bytes@),
{
    String::from_utf8(bytes)
}

/// Judges a transfer of `transferred` bytes that should have moved `expected`.
pub fn transfer_check(transferred: usize, expected: usize) -> (r: Result<(), SizeErr>)
    ensures
        transferred == expected ==> r is Ok,
        transferred != expected ==> r == Err::<(), SizeErr>((SizeErr { was_transferred: transferred, should_be_transferred: expected })),
{
    if transferred == expected {
        Ok(())
    } else {
        Err(SizeErr { was_transferred: transferred, should_be_transferred: expected })
    }
}

/// Judges the read of a length header into `size`: the length it holds, in
/// the machine's byte order, when all four bytes came; the error otherwise.
pub fn size_received(read: Result<usize, IoError>, size: Size) -> (r: Result<usize, Error>)
    ensures
        match read {
            Ok(n) => if n == SIZE_LEN {
                r matches Ok(len) && holds_value(size@, len as int)
            } else {
                r matches Err(Error::Size(e)) && e == (SizeErr { was_transferred: n, should_be_transferred: SIZE_LEN })
            },
            Err(e) => (r matches Err(Error::Io(x)) && x == e),
        },
{
    match read {
        Ok(received) => match transfer_check(received, Size::bytes_no()) {
            Ok(()) => Ok(usize::from(size)),
            Err(e) => Err(Error::Size(e)),
        },
        Err(err) => Err(Error::Io(err)),
    }
}

/// Judges the write of a length header.
pub fn size_sent(written: Result<usize, IoError>) -> (r: Result<(), Error>)
    ensures
        match written {
            Ok(n) => if n == SIZE_LEN {
                r is Ok
            } else {
                r matches Err(Error::Size(e)) && e == (SizeErr { was_transferred: n, should_be_transferred: SIZE_LEN })
            },
            Err(e) => (r matches Err(Error::Io(x)) && x == e),
        },
{
    match written {
        Ok(sent) => match transfer_check(sent, Size::bytes_no()) {
            Ok(()) => Ok(()),
            Err(e) => Err(Error::Size(e)),
        },
        Err(err) => Err(Error::Io(err)),
    }
}

/// Judges the read of a message's `expected` bytes into `body`: its text when
/// all came and they are UTF-8, the error otherwise.
pub fn body_received(read: Result<usize, IoError>, expected: usize, body: Vec<u8>) -> (r: Result<String, Error>)
    ensures
        match read {
            Ok(n) => if n != expected {
                r matches Err(Error::Size(e)) && e == (SizeErr { was_transferred: n, should_be_transferred: expected })
            } else if valid_utf8(body@) {
                r matches Ok(s) && s@ == decode_utf8(body@)
            } else {
                r matches Err(Error::Utf8(_))
            },
            Err(e) => (r matches Err(Error::Io(x)) && x == e),
        },
{
    match read {
        Ok(received) => match transfer_check(received, expected) {
            Ok(()) => match string_from_utf8(body) {
                Ok(s) => Ok(s),
                Err(err) => Err(Error::Utf8(err)),
            },
            Err(e) => Err(Error::Size(e)),
        },
        Err(err) => Err(Error::Io(err)),
    }
}

/// Judges the write of a message's `expected` bytes.
pub fn body_sent(written: Result<usize, IoError>, expected: usize) -> (r: Result<(), Error>)
    ensures
        match written {
            Ok(n) => if n == expected {
                r is Ok
            } else {
                r matches Err(Error::Size(e)) && e == (SizeErr { was_transferred: n, should_be_transferred: expected })
            },
            Err(e) => (r matches Err(Error::Io(x)) && x == e),
        },
{
    match written {
        Ok(sent) => match transfer_check(sent, expected) {
            Ok(()) => Ok(()),
            Err(e) => Err(Error::Size(e)),
        },
        Err(err) => Err(Error::Io(err)),
    }
}

/// The bytes sent for a text: its UTF-8 encoding.
pub fn message_body(s: &String) -> (b: Vec<u8>)
    ensures
        b@ == encode_utf8(s@),
{
    vstd::slice::slice_to_vec(s.as_str().as_bytes())
}

/// What is received of a sent text is that text: the header written for the
/// length of its bytes, read back in the byte order it was written in, is
/// that length, when it fits in 32 bits; and the bytes are UTF-8 that decodes
/// to the text.
pub proof fn lemma_message_round_trip(text: Seq<char>, o: ByteOrder)
    requires
        encode_utf8(text).len() <= u32::MAX,
    ensures
        order_value(order_bytes(encode_utf8(text).len() as u32, o), o) == encode_utf8(text).len(),
        valid_utf8(encode_utf8(text)),
        decode_utf8(encode_utf8(text)) == text,
{
    lemma_usize_round_trip(encode_utf8(text).len() as usize, o);
    vstd::utf8::encode_utf8_valid_utf8(text);
    vstd::utf8::encode_utf8_decode_utf8(text);
}

} // verus!
