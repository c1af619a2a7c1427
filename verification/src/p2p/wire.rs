//! The protocol between peers. The downloader sends the length of a content key
//! and the key; the seeder answers with a status byte and, where it has the file,
//! the length of the file and the file.

use std::string::FromUtf8Error;
use vstd::bytes::{
    spec_u32_from_le_bytes, spec_u32_to_le_bytes, spec_u64_from_le_bytes, spec_u64_to_le_bytes,
    u32_from_le_bytes, u32_to_le_bytes, u64_from_le_bytes, u64_to_le_bytes,
};
use vstd::prelude::*;
use vstd::utf8::{decode_utf8, encode_utf8, is_ascii_chars, valid_utf8};

use crate::text::{decimal, is_hex_digit, push_decimal};
use crate::tracker::routes::is_content_key;

verus! {

/// The name under which the protocol is negotiated.
pub const ALPN: &'static str = "/dragonfly-gguf/1";

/// The most bytes that a seeder reads of a content key.
pub const MAX_KEY_LEN: u32 = 256;

/// The status byte of a file that the seeder has.
pub const STATUS_FOUND: u8 = 1;

/// The status byte of a file that the seeder does not have.
pub const STATUS_MISSING: u8 = 0;

/// Where bytes are no UTF-8.
#[verifier::external_type_specification]
#[verifier::external_body]
pub struct ExFromUtf8Error(FromUtf8Error);

/// `String::from_utf8` of std gives the text that the bytes encode, and an error
/// where they are not valid UTF-8.
pub assume_specification[ String::from_utf8 ](bytes: Vec<u8>) -> (text: Result<
    String,
    FromUtf8Error,
>)
    ensures
        match text {
            Ok(s) => valid_utf8(bytes@) && s@ == decode_utf8(bytes@),
            Err(_) => !valid_utf8(bytes@),
        },
;

/// Why a seeder gives up on a connection.
pub enum ServeError {
    /// The key is announced with more bytes than are read.
    KeyTooLong,
    /// The key is no text.
    KeyNotText(FromUtf8Error),
    /// The file got longer or shorter while it was sent.
    FileChanged { expected: u64, sent: u64 },
}

/// Why a downloader gives up on a peer.
pub enum FetchError {
    /// The peer does not have the file.
    Missing,
    /// The stream held more or fewer bytes than the peer announced.
    SizeMismatch { expected: u64, got: u64 },
}

/// What a downloader sends: the number of bytes of the key in four bytes, the
/// lowest first, and the key.
pub open spec fn request_bytes(key: Seq<char>) -> Seq<u8> {
    spec_u32_to_le_bytes(encode_utf8(key).len() as u32) + encode_utf8(key)
}

/// What a seeder sends in front of the file: found and the length of the file in
/// eight bytes, the lowest first; or missing.
pub open spec fn reply_bytes(file_len: Option<u64>) -> Seq<u8> {
    match file_len {
        Some(n) => seq![STATUS_FOUND] + spec_u64_to_le_bytes(n),
        None => seq![STATUS_MISSING],
    }
}

/// Appends bytes.
fn push_bytes(out: &mut Vec<u8>, bytes: &[u8])
    ensures
        final(out)@ == old(out)@ + bytes@,
{
    for i in 0..bytes.len()
        invariant
            out@ == old(out)@ + bytes@.take(i as int),
    {
        out.push(bytes[i]);
    }
    assert(bytes@.take(bytes@.len() as int) =~= bytes@);
}

/// The request for the file of a key.
pub fn request(content_key: &str) -> (out: Vec<u8>)
    ensures
        out@ == request_bytes(content_key@),
{
    let key = content_key.as_bytes();
    let mut out = u32_to_le_bytes(key.len() as u32);
    push_bytes(&mut out, key);
    out
}

/// How many bytes of key follow the first four bytes of a request. More than
/// `MAX_KEY_LEN` are not read.
pub fn key_len(head: [u8; 4]) -> (len: Result<usize, ServeError>)
    ensures
        match len {
            Ok(n) => n == spec_u32_from_le_bytes(head@) && n <= MAX_KEY_LEN,
            Err(e) => spec_u32_from_le_bytes(head@) > MAX_KEY_LEN && e is KeyTooLong,
        },
{
    let n = u32_from_le_bytes(head.as_slice());
    if n > MAX_KEY_LEN {
        Err(ServeError::KeyTooLong)
    } else {
        Ok(n as usize)
    }
}

/// The key that the bytes of a request encode.
pub fn requested_key(bytes: Vec<u8>) -> (key: Result<String, ServeError>)
    ensures
        match key {
            Ok(s) => valid_utf8(bytes@) && s@ == decode_utf8(bytes@),
            Err(e) => !valid_utf8(bytes@) && e is KeyNotText,
        },
{
    match String::from_utf8(bytes) {
        Ok(s) => Ok(s),
        Err(e) => Err(ServeError::KeyNotText(e)),
    }
}

/// What the seeder sends in front of the file, given the length of the file that
/// it has under the key.
pub fn reply_head(file_len: Option<u64>) -> (out: Vec<u8>)
    ensures
        out@ == reply_bytes(file_len),
{
    let mut out: Vec<u8> = Vec::new();
    match file_len {
        Some(n) => {
            out.push(STATUS_FOUND);
            let len = u64_to_le_bytes(n);
            push_bytes(&mut out, len.as_slice());
        },
        None => {
            out.push(STATUS_MISSING);
        },
    }
    assert(out@ =~= reply_bytes(file_len));
    out
}

/// Whether the seeder sent the whole file, as long as it said that it is.
pub fn check_sent(expected: u64, sent: u64) -> (result: Result<(), ServeError>)
    ensures
        result is Ok <==> sent == expected,
        result matches Err(e) ==> e == (ServeError::FileChanged { expected, sent }),
{
    if sent != expected {
        Err(ServeError::FileChanged { expected, sent })
    } else {
        Ok(())
    }
}

/// Whether the status byte of a reply says that the peer has the file.
pub fn check_status(status: u8) -> (result: Result<(), FetchError>)
    ensures
        result is Ok <==> status != STATUS_MISSING,
        result matches Err(e) ==> e is Missing,
{
    if status == STATUS_MISSING {
        Err(FetchError::Missing)
    } else {
        Ok(())
    }
}

/// The length of the file, from the eight bytes behind the status.
pub fn file_len(bytes: [u8; 8]) -> (len: u64)
    ensures
        len == spec_u64_from_le_bytes(bytes@),
{
    u64_from_le_bytes(bytes.as_slice())
}

/// Whether as many bytes came as the peer announced.
pub fn check_received(expected: u64, got: u64) -> (result: Result<(), FetchError>)
    ensures
        result is Ok <==> got == expected,
        result matches Err(e) ==> e == (FetchError::SizeMismatch { expected, got }),
{
    if got != expected {
        Err(FetchError::SizeMismatch { expected, got })
    } else {
        Ok(())
    }
}

/// What is to be done with the file that a copy wrote.
pub enum CopyEnd {
    /// It is whole, and stays.
    Keep,
    /// It is to be removed, and the download fails: for this reason where the
    /// stream ended, and for the stream's own where it broke off.
    RemoveAndFail(Option<FetchError>),
}

/// What is to be done with the file after the copy of the stream, of which `copied`
/// bytes came before it ended, or which broke off.
pub open spec fn copy_end(expected: u64, copied: Option<u64>) -> CopyEnd {
    match copied {
        Some(got) => if got == expected {
            CopyEnd::Keep
        } else {
            CopyEnd::RemoveAndFail(Some(FetchError::SizeMismatch { expected, got }))
        },
        None => CopyEnd::RemoveAndFail(None),
    }
}

/// What is to be done with the file after the copy of the stream, of which `copied`
/// bytes came before it ended, or which broke off. A truncated file never stays on
/// disk.
pub fn after_copy(expected: u64, copied: Option<u64>) -> (end: CopyEnd)
    ensures
        end == copy_end(expected, copied),
        end is Keep <==> copied == Some(expected),
        end !is Keep ==> end is RemoveAndFail,
{
    match copied {
        Some(got) => match check_received(expected, got) {
            Ok(_) => CopyEnd::Keep,
            Err(e) => CopyEnd::RemoveAndFail(Some(e)),
        },
        None => CopyEnd::RemoveAndFail(None),
    }
}

/// What stands on disk after a download that wrote these bytes.
pub open spec fn left_on_disk(end: CopyEnd, written: Seq<u8>) -> Option<Seq<u8>> {
    match end {
        CopyEnd::Keep => Some(written),
        CopyEnd::RemoveAndFail(_) => None,
    }
}

impl ServeError {
    /// The message of the error; none for bytes that are no text, where std's own
    /// error says where.
    pub open spec fn text(self) -> Option<Seq<char>> {
        match self {
            ServeError::KeyTooLong => Some("key too long"@),
            ServeError::KeyNotText(_) => None,
            ServeError::FileChanged { expected, sent } => Some(
                "file changed during transfer: expected "@ + decimal(expected as nat)
                    + " bytes, sent "@ + decimal(sent as nat),
            ),
        }
    }

    /// The message of the error; none for bytes that are no text, where std's own
    /// error says where.
    pub fn message(&self) -> (message: Option<String>)
        ensures
            match message {
                Some(m) => self.text() == Some(m@),
                None => self.text() is None,
            },
    {
        match self {
            ServeError::KeyTooLong => Some("key too long".to_owned()),
            ServeError::KeyNotText(_) => None,
            ServeError::FileChanged { expected, sent } => {
                let mut out = String::new();
                out.append("file changed during transfer: expected ");
                push_decimal(&mut out, *expected);
                out.append(" bytes, sent ");
                push_decimal(&mut out, *sent);
                assert(out@ =~= self.text()->0);
                Some(out)
            },
        }
    }
}

impl FetchError {
    /// The message of the error.
    pub open spec fn text(self) -> Seq<char> {
        match self {
            FetchError::Missing => "peer does not have this content"@,
            FetchError::SizeMismatch { expected, got } => "P2P transfer size mismatch: expected "@
                + decimal(expected as nat) + " bytes, got "@ + decimal(got as nat),
        }
    }

    /// The message of the error.
    pub fn message(&self) -> (message: String)
        ensures
            message@ == self.text(),
    {
        match self {
            FetchError::Missing => "peer does not have this content".to_owned(),
            FetchError::SizeMismatch { expected, got } => {
                let mut out = String::new();
                out.append("P2P transfer size mismatch: expected ");
                push_decimal(&mut out, *expected);
                out.append(" bytes, got ");
                push_decimal(&mut out, *got);
                assert(out@ =~= self.text());
                out
            },
        }
    }
}

/// The seeder reads the key that the downloader asked for: the first four bytes of
/// a request announce the rest of it, and the rest encodes the key.
pub proof fn law_request_is_understood(key: Seq<char>)
    requires
        encode_utf8(key).len() <= u32::MAX,
    ensures
        request_bytes(key).len() == 4 + encode_utf8(key).len(),
        spec_u32_from_le_bytes(request_bytes(key).take(4)) == request_bytes(key).skip(4).len(),
        valid_utf8(request_bytes(key).skip(4)),
        decode_utf8(request_bytes(key).skip(4)) == key,
{
    let n = encode_utf8(key).len() as u32;
    vstd::bytes::lemma_auto_spec_u32_to_from_le_bytes();
    assert(spec_u32_to_le_bytes(n).len() == 4);
    assert(request_bytes(key).take(4) =~= spec_u32_to_le_bytes(n));
    assert(request_bytes(key).skip(4) =~= encode_utf8(key));
    vstd::utf8::encode_utf8_decode_utf8(key);
    vstd::utf8::encode_utf8_valid_utf8(key);
}

/// What stands on disk after a download is the whole file, as long as the peer
/// announced it: a stream that ended early, ran long or broke off leaves nothing.
pub proof fn law_no_truncated_file_stays(expected: u64, written: Seq<u8>, ended: bool)
    requires
        written.len() <= u64::MAX,
    ensures
        ({
            let copied = if ended {
                Some(written.len() as u64)
            } else {
                None
            };
            left_on_disk(copy_end(expected, copied), written) == if ended && written.len()
                == expected {
                Some(written)
            } else {
                None
            }
        }),
{
}

/// The request for a content key is short enough to be read.
pub proof fn law_content_keys_are_read(key: Seq<char>)
    requires
        is_content_key(key),
    ensures
        encode_utf8(key).len() == 64,
        spec_u32_from_le_bytes(request_bytes(key).take(4)) <= MAX_KEY_LEN,
{
    assert(is_ascii_chars(key)) by {
        assert forall|i: int| 0 <= i < key.len() implies '\0' <= #[trigger] key[i] <= '\u{7f}' by {
            assert(is_hex_digit(key[i]));
        }
    }
    vstd::utf8::is_ascii_chars_encode_utf8(key);
    law_request_is_understood(key);
}

/// The bytes of a request and of a reply: the length of the key in four bytes, then
/// the key; a one and the length of the file in eight bytes, or a nought. The lowest
/// byte of a length goes first.
pub proof fn law_bytes_on_the_wire(key: Seq<char>, file_len: u64)
    requires
        encode_utf8(key).len() <= u32::MAX,
    ensures
        request_bytes(key) == spec_u32_to_le_bytes(encode_utf8(key).len() as u32) + encode_utf8(key),
        reply_bytes(Some(file_len)) == seq![1u8] + spec_u64_to_le_bytes(file_len),
        reply_bytes(None) == seq![0u8],
{
}

/// A copy is kept exactly if the stream ended with the announced number of bytes. One
/// that ended with another is told as a mismatch of the two numbers, one that broke
/// off by the stream's own error.
pub proof fn law_end_of_a_copy(expected: u64, got: u64)
    ensures
        copy_end(expected, Some(expected)) is Keep,
        got != expected ==> copy_end(expected, Some(got)) == CopyEnd::RemoveAndFail(
            Some((FetchError::SizeMismatch { expected, got })),
        ),
        copy_end(expected, None) == CopyEnd::RemoveAndFail(None),
{
}

/// What is said of a transfer that went wrong: of a mismatch both numbers, the one
/// that was announced first.
pub proof fn law_mismatch_tells_both_numbers(expected: u64, got: u64)
    ensures
        (FetchError::SizeMismatch { expected, got }).text() == "P2P transfer size mismatch: expected "@
            + decimal(expected as nat) + " bytes, got "@ + decimal(got as nat),
        (ServeError::FileChanged { expected, sent: got }).text() == Some(
            "file changed during transfer: expected "@ + decimal(expected as nat)
                + " bytes, sent "@ + decimal(got as nat),
        ),
        FetchError::Missing.text() == "peer does not have this content"@,
        ServeError::KeyTooLong.text() == Some("key too long"@),
{
}

/// The downloader reads of a reply what the seeder meant: whether it has the file,
/// and the length of the file.
pub proof fn law_reply_is_understood(file_len: Option<u64>)
    ensures
        reply_bytes(file_len)[0] != STATUS_MISSING <==> file_len is Some,
        file_len matches Some(n) ==> reply_bytes(file_len).len() == 9 && spec_u64_from_le_bytes(
            reply_bytes(file_len).skip(1),
        ) == n,
        file_len is None ==> reply_bytes(file_len).len() == 1,
{
    if let Some(n) = file_len {
        vstd::bytes::lemma_auto_spec_u64_to_from_le_bytes();
        assert(spec_u64_to_le_bytes(n).len() == 8);
        assert(reply_bytes(file_len).skip(1) =~= spec_u64_to_le_bytes(n));
    }
}

} // verus!
