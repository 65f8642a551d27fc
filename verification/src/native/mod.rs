//! Values on their way to and from the operating system.
//!
//! The system speaks in bytes: buffers that end with a NUL byte come back
//! from it, and strings that end with one go into it. This module checks and
//! converts them; the calls themselves are made by the program around the
//! library.

pub mod error;
pub mod file_stat;
pub mod users;

use vstd::prelude::*;
use vstd::string::StrSliceExecFns;
use vstd::utf8::{decode_utf8, encode_utf8, valid_utf8};

use crate::text::{first_index, lemma_first_index_is};
use error::Error;

verus! {

/// The status with which a command ended.
pub type ExitCode = i32;

/// `String::from_utf8` of the standard library, with its error dropped: the
/// string whose UTF-8 encoding is `bytes`, or `None` where `bytes` is no
/// UTF-8 encoding of anything.
#[verifier::external_body]
fn string_from_utf8(bytes: Vec<u8>) -> (text: Option<String>)
    ensures
        text.is_some() == valid_utf8(bytes@),
        text matches Some(s) ==> encode_utf8(s@) == bytes@,
{
    String::from_utf8(bytes).ok()
}

/// Turns bytes that came from the system into a string.
pub fn read_buf(buf: Vec<u8>) -> (text: Result<String, Error>)
    ensures
        match text {
            Ok(s) => valid_utf8(buf@) && s@ == decode_utf8(buf@),
            Err(e) => !valid_utf8(buf@) && e == Error::InvalidUnicode,
        },
{
    match string_from_utf8(buf) {
        Some(s) => {
            proof {
                vstd::utf8::encode_utf8_decode_utf8(s@);
            }
            Ok(s)
        },
        None => Err(Error::InvalidUnicode),
    }
}

/// The bytes of `buffer` before its first NUL byte: what a buffer filled by
/// the system holds as a C string.
pub open spec fn before_nul(buffer: Seq<u8>) -> Seq<u8> {
    buffer.take(first_index(buffer, 0u8))
}

/// Copies the C string at the start of `buffer` into a string of its own.
pub fn copy_string(buffer: &Vec<u8>) -> (text: Result<String, Error>)
    ensures
        match text {
            Ok(s) => valid_utf8(before_nul(buffer@)) && s@ == decode_utf8(before_nul(buffer@)),
            Err(e) => !valid_utf8(before_nul(buffer@)) && e == Error::InvalidUnicode,
        },
{
    let mut bytes: Vec<u8> = Vec::new();
    let mut i: usize = 0;
    while i < buffer.len() && buffer[i] != 0
        invariant
            i <= buffer.len(),
            bytes@ == buffer@.take(i as int),
            forall|j: int| 0 <= j < i ==> buffer[j] != 0u8,
        decreases buffer.len() - i,
    {
        bytes.push(buffer[i]);
        i += 1;
    }
    proof {
        lemma_first_index_is(buffer@, 0u8, i as int);
    }
    read_buf(bytes)
}

/// `text` as the system wants it: its UTF-8 bytes and a NUL byte after them.
pub open spec fn c_string(text: Seq<char>) -> Seq<u8> {
    encode_utf8(text).push(0u8)
}

/// Whether `text` can be handed to the system: it holds no NUL character,
/// which would end the string early.
pub open spec fn is_native(text: Seq<char>) -> bool {
    !text.contains('\0')
}

/// In the encoding of a character, only the NUL character has a NUL byte.
pub proof fn lemma_nul_byte_of_scalar(c: char)
    ensures
        vstd::utf8::encode_scalar(c as u32).contains(0u8) <==> c == '\0',
{
    let v = c as u32;
    let bytes = vstd::utf8::encode_scalar(v);
    assert(v <= 0x7F ==> ((v & 0x7F) as u8 == 0 <==> v == 0)) by (bit_vector);
    assert(0xC0u8 | ((v >> 6) & 0x1F) as u8 != 0) by (bit_vector);
    assert(0xE0u8 | ((v >> 12) & 0x0F) as u8 != 0) by (bit_vector);
    assert(0xF0u8 | ((v >> 18) & 0x7) as u8 != 0) by (bit_vector);
    assert(0x80u8 | (v & 0x3F) as u8 != 0) by (bit_vector);
    assert(0x80u8 | ((v >> 6) & 0x3F) as u8 != 0) by (bit_vector);
    assert(0x80u8 | ((v >> 12) & 0x3F) as u8 != 0) by (bit_vector);
    if c == '\0' {
        assert(v == 0);
        assert(bytes == seq![vstd::utf8::leading_byte_width_1(v)]);
        assert(bytes[0] == 0u8);
    }
}

/// The bytes of a text hold a NUL byte exactly where the text holds a NUL
/// character: the terminator of a native string is its only NUL byte.
pub proof fn lemma_native_text(text: Seq<char>)
    ensures
        is_native(text) <==> !encode_utf8(text).contains(0u8),
    decreases text.len(),
{
    if text.len() == 0 {
    } else {
        let first = vstd::utf8::encode_scalar(text[0] as u32);
        let rest = encode_utf8(text.drop_first());
        lemma_nul_byte_of_scalar(text[0]);
        lemma_native_text(text.drop_first());
        assert(encode_utf8(text) == first + rest);
        if text.contains('\0') {
            let i = choose|i: int| 0 <= i < text.len() && text[i] == '\0';
            if i == 0 {
                let j = choose|j: int| 0 <= j < first.len() && first[j] == 0u8;
                assert((first + rest)[j] == 0u8);
            } else {
                assert(text.drop_first()[i - 1] == '\0');
                let j = choose|j: int| 0 <= j < rest.len() && rest[j] == 0u8;
                assert((first + rest)[first.len() + j] == 0u8);
            }
        }
        if encode_utf8(text).contains(0u8) {
            let j = choose|j: int| 0 <= j < (first + rest).len() && (first + rest)[j] == 0u8;
            if j < first.len() {
                assert(first[j] == 0u8);
                assert(text[0] == '\0');
            } else {
                assert(rest[j - first.len()] == 0u8);
                let i = choose|i: int|
                    0 <= i < text.drop_first().len() && text.drop_first()[i] == '\0';
                assert(text[i + 1] == '\0');
            }
        }
    }
}

/// Makes a NUL-terminated string out of `string`.
pub fn native_string(string: &str) -> (bytes: Result<Vec<u8>, Error>)
    ensures
        match bytes {
            Ok(b) => is_native(string@) && b@ == c_string(string@),
            Err(e) => !is_native(string@) && e == Error::InvalidCString,
        },
{
    let mut bytes = string.as_bytes_vec();
    proof {
        lemma_native_text(string@);
    }
    let mut i: usize = 0;
    while i < bytes.len()
        invariant
            i <= bytes.len(),
            bytes@ == encode_utf8(string@),
            is_native(string@) <==> !bytes@.contains(0u8),
            forall|j: int| 0 <= j < i ==> bytes[j] != 0u8,
        decreases bytes.len() - i,
    {
        if bytes[i] == 0 {
            return Err(Error::InvalidCString);
        }
        i += 1;
    }
    bytes.push(0);
    Ok(bytes)
}

/// Makes a NUL-terminated string out of a path.
pub fn native_path(path: &str) -> (bytes: Result<Vec<u8>, Error>)
    ensures
        match bytes {
            Ok(b) => is_native(path@) && b@ == c_string(path@),
            Err(e) => !is_native(path@) && e == Error::InvalidCString,
        },
{
    native_string(path)
}

/// Every text of `texts` can be handed to the system.
pub open spec fn all_native(texts: Seq<Seq<char>>) -> bool {
    forall|i: int| 0 <= i < texts.len() ==> is_native(#[trigger] texts[i])
}

/// Each text of `texts` as the system wants it.
pub open spec fn c_strings(texts: Seq<Seq<char>>) -> Seq<Seq<u8>> {
    texts.map_values(|text: Seq<char>| c_string(text))
}

/// Makes a NUL-terminated string out of each of `strings`.
pub fn native_strings(strings: &Vec<String>) -> (bytes: Result<Vec<Vec<u8>>, Error>)
    ensures
        match bytes {
            Ok(b) => all_native(strings.deep_view()) && b.deep_view() == c_strings(
                strings.deep_view(),
            ),
            Err(e) => !all_native(strings.deep_view()) && e == Error::InvalidCString,
        },
{
    let ghost texts = strings.deep_view();
    let mut out: Vec<Vec<u8>> = Vec::new();
    let mut i: usize = 0;
    while i < strings.len()
        invariant
            i <= strings.len(),
            texts == strings.deep_view(),
            out.len() == i,
            forall|j: int| 0 <= j < i ==> is_native(#[trigger] texts[j]),
            forall|j: int| 0 <= j < i ==> (#[trigger] out[j])@ == c_string(texts[j]),
        decreases strings.len() - i,
    {
        match native_string(strings[i].as_str()) {
            Ok(b) => out.push(b),
            Err(e) => {
                assert(!is_native(texts[i as int]));
                return Err(e);
            },
        }
        i += 1;
    }
    assert forall|j: int| 0 <= j < out.len() implies out.deep_view()[j] == c_strings(texts)[j] by {
        assert(out[j].deep_view() =~= out[j]@);
    }
    Ok(out)
}

/// A program ready for `execve`: its path, its arguments and its
/// environment, each a NUL-terminated string.
#[derive(Debug, Clone, PartialEq, Eq)]
pub struct Image {
    pub path: Vec<u8>,
    pub arguments: Vec<Vec<u8>>,
    pub environment: Vec<Vec<u8>>,
}

/// Makes a program ready to run: `path`, then each of `args`, then each of
/// `envp` becomes a NUL-terminated string. Fails where one of them holds a
/// NUL byte of its own.
pub fn execute(path: &str, args: &Vec<String>, envp: &Vec<String>) -> (image: Result<Image, Error>)
    ensures
        match image {
            Ok(i) => {
                &&& is_native(path@) && all_native(args.deep_view()) && all_native(
                    envp.deep_view(),
                )
                &&& i.path@ == c_string(path@)
                &&& i.arguments.deep_view() == c_strings(args.deep_view())
                &&& i.environment.deep_view() == c_strings(envp.deep_view())
            },
            Err(e) => {
                &&& !(is_native(path@) && all_native(args.deep_view()) && all_native(
                    envp.deep_view(),
                ))
                &&& e == Error::InvalidCString
            },
        },
{
    let path = match native_path(path) {
        Ok(b) => b,
        Err(e) => {
            return Err(e);
        },
    };
    let arguments = match native_strings(args) {
        Ok(b) => b,
        Err(e) => {
            return Err(e);
        },
    };
    let environment = match native_strings(envp) {
        Ok(b) => b,
        Err(e) => {
            return Err(e);
        },
    };
    Ok(Image { path, arguments, environment })
}

/// The bits of a status word that tell how a child ended: zero where it
/// exited by itself, and else the number of the signal that ended it.
pub open spec fn signal_of(word: i32) -> i32 {
    word & 0x7f
}

/// The exit status in the word that `waitpid` fills in. A child that exited
/// by itself has the status it exited with, which the second byte of the
/// word holds. A child that a signal ended has 128 and the number of the
/// signal, as shells report it.
pub open spec fn exit_status_of(word: i32) -> ExitCode {
    if signal_of(word) == 0 {
        (word >> 8) & 0xff
    } else {
        (128 + signal_of(word)) as i32
    }
}

/// The word of a child that exited by itself with `code` gives back `code`.
pub proof fn lemma_status_of_exit(code: i32)
    requires
        0 <= code <= 255,
    ensures
        exit_status_of((code * 256) as i32) == code,
{
    let word = (code * 256) as i32;
    assert(word & 0x7f == 0 && (word >> 8) & 0xff == code) by (bit_vector)
        requires
            0 <= code <= 255,
            word == code * 256,
    ;
}

/// The word of a child that the signal `signal` ended gives 128 and the
/// number of the signal.
pub proof fn lemma_status_of_signal(signal: i32)
    requires
        1 <= signal <= 127,
    ensures
        exit_status_of(signal) == 128 + signal,
{
    assert(signal & 0x7f == signal) by (bit_vector)
        requires
            1 <= signal <= 127,
    ;
}

/// Reads the exit status of a child from the word that `waitpid` filled in.
pub fn exit_status(word: i32) -> (status: ExitCode)
    ensures
        status == exit_status_of(word),
        0 <= status <= 255,
{
    let signal = word & 0x7f;
    assert(0 <= word & 0x7f <= 127) by (bit_vector);
    assert(0 <= (word >> 8) & 0xff <= 255) by (bit_vector);
    if signal == 0 {
        (word >> 8) & 0xff
    } else {
        128 + signal
    }
}

/// The side of a `fork` on which a process finds itself.
#[derive(Debug, Clone, Copy, PartialEq, Eq, Structural)]
pub enum Fork {
    /// The new process, which goes on to run the program.
    Child,
    /// The shell, which waits for the child with this process id.
    Parent(i32),
    /// No process was made; `errno` says why.
    Failed,
}

/// Reads what `fork` returned.
pub fn fork_process(pid: i32) -> (side: Fork)
    ensures
        side == (if pid == 0 {
            Fork::Child
        } else if pid == -1 {
            Fork::Failed
        } else {
            Fork::Parent(pid)
        }),
{
    if pid == 0 {
        Fork::Child
    } else if pid == -1 {
        Fork::Failed
    } else {
        Fork::Parent(pid)
    }
}

} // verus!
