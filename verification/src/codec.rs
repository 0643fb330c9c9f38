//! The byte form of a log command, as it travels inside an append-entries
//! request. A command is written the way bincode's standard configuration
//! writes an enum: the variant number as a `u32`, then each field in order.
//! The `u32` and the strings themselves are written and read by bincode.
use vstd::prelude::*;

use bincode::error::DecodeError;

use crate::state::{Command, CommandView};

verus! {

#[verifier::external_type_specification]
#[verifier::external_body]
pub struct ExDecodeError(DecodeError);

/// The bytes that `bincode::encode_to_vec` writes for a `u32` under
/// `bincode::config::standard()`: a variable-length integer, that is the
/// value itself up to 250, else the marker 251 and two little-endian bytes,
/// else the marker 252 and four little-endian bytes.
pub open spec fn bincode_u32_bytes(v: u32) -> Seq<u8> {
    if v <= 250 {
        seq![v as u8]
    } else if v <= 0xffff {
        seq![251u8, (v % 256) as u8, (v / 256) as u8]
    } else {
        seq![
            252u8,
            (v % 256) as u8,
            ((v / 256) % 256) as u8,
            ((v / 65536) % 256) as u8,
            (v / 16777216) as u8,
        ]
    }
}

/// The bytes that `bincode::encode_to_vec` writes for a string with these
/// characters under `bincode::config::standard()`.
pub uninterp spec fn bincode_string_bytes(s: Seq<char>) -> Seq<u8>;

/// What `bincode::decode_from_slice::<u32, _>` reads from the front of these
/// bytes under `bincode::config::standard()`, with the number of bytes it
/// takes: a first byte up to 250 is the value; the marker 251 is followed by
/// two little-endian bytes, the marker 252 by four; anything else, or too
/// few bytes, is an error (`None`).
pub open spec fn bincode_u32_prefix(b: Seq<u8>) -> Option<(u32, nat)> {
    if b.len() == 0 {
        None
    } else if b[0] <= 250 {
        Some((b[0] as u32, 1))
    } else if b[0] == 251 {
        if b.len() >= 3 {
            Some(((b[1] + 256 * b[2]) as u32, 3))
        } else {
            None
        }
    } else if b[0] == 252 {
        if b.len() >= 5 {
            Some(((b[1] + 256 * b[2] + 65536 * b[3] + 16777216 * b[4]) as u32, 5))
        } else {
            None
        }
    } else {
        None
    }
}

/// What `bincode::decode_from_slice::<u64, _>` reads from the front of these
/// bytes under `bincode::config::standard()`: the value and the number of
/// bytes it took, or `None` where it reports an error.
pub uninterp spec fn bincode_u64_prefix(bytes: Seq<u8>) -> Option<(u64, nat)>;

/// What `bincode::decode_from_slice::<String, _>` reads from the front of
/// these bytes under `bincode::config::standard()`: the string's characters and
/// the number of bytes it took, or `None` where it reports an error.
pub uninterp spec fn bincode_string_prefix(bytes: Seq<u8>) -> Option<(Seq<char>, nat)>;

/// Calls `bincode::encode_to_vec` on a `u32` with the standard configuration.
/// Claimed: the result is the named encoding of `v`. Writing into a `Vec`
/// cannot fail in bincode's source (its writer and the integer encoder
/// only append), so the error arm is never taken.
#[verifier::external_body]
fn encode_u32(v: u32) -> (bytes: Vec<u8>)
    ensures
        bytes@ == bincode_u32_bytes(v),
{
    match bincode::encode_to_vec(v, bincode::config::standard()) {
        Ok(b) => b,
        Err(_) => Vec::new(),
    }
}

/// Calls `bincode::encode_to_vec` on a string with the standard
/// configuration. Claimed: the result is the named encoding of the string's
/// characters. As for `encode_u32`, the error arm is never taken.
#[verifier::external_body]
fn encode_string(s: &String) -> (bytes: Vec<u8>)
    ensures
        bytes@ == bincode_string_bytes(s@),
{
    match bincode::encode_to_vec(s, bincode::config::standard()) {
        Ok(b) => b,
        Err(_) => Vec::new(),
    }
}

/// Reading a `u32` from its encoding followed by anything gives the value
/// back and takes exactly its encoding.
proof fn lemma_u32_reads_back(v: u32, rest: Seq<u8>)
    ensures
        bincode_u32_prefix(bincode_u32_bytes(v) + rest) == Some((v, bincode_u32_bytes(v).len())),
{
    let b = bincode_u32_bytes(v) + rest;
    if v <= 250 {
        assert(b[0] == v as u8);
    } else if v <= 0xffff {
        assert(b[0] == 251u8 && b[1] == (v % 256) as u8 && b[2] == (v / 256) as u8);
        assert(((v % 256) as u8) + 256 * ((v / 256) as u8) == v) by (bit_vector)
            requires
                v <= 0xffff,
        ;
    } else {
        assert(b[0] == 252u8 && b[1] == (v % 256) as u8 && b[2] == ((v / 256) % 256) as u8 && b[3]
            == ((v / 65536) % 256) as u8 && b[4] == (v / 16777216) as u8);
        assert(((v % 256) as u8) + 256 * (((v / 256) % 256) as u8) + 65536 * (((v / 65536)
            % 256) as u8) + 16777216 * ((v / 16777216) as u8) == v) by (bit_vector);
    }
}

/// Where `bytes` is the encoding of `s` followed by `rest`, the decoding `r`
/// gives `s` back and takes exactly its encoding.
pub open spec fn reads_back_string(
    r: Result<(String, usize), DecodeError>,
    bytes: Seq<u8>,
    s: Seq<char>,
    rest: Seq<u8>,
) -> bool {
    bytes == bincode_string_bytes(s) + rest ==> (r matches Ok((x, n)) && x@ == s && n
        == bincode_string_bytes(s).len())
}

/// Calls `bincode::decode_from_slice::<u32, _>` with the standard
/// configuration. Claimed: it reads what `bincode_u32_prefix` says, as
/// bincode's variable-length integer decoder shows.
#[verifier::external_body]
fn decode_u32_prefix(bytes: &[u8]) -> (r: Result<(u32, usize), DecodeError>)
    ensures
        r is Err <==> bincode_u32_prefix(bytes@) is None,
        r matches Ok((v, n)) ==> bincode_u32_prefix(bytes@) == Some((v, n as nat)),
{
    bincode::decode_from_slice(bytes, bincode::config::standard())
}

/// Where `bytes` is the encoding of the string `s` followed by `rest`, the
/// decoding `r` of a `u64` from its front reads the string's length prefix:
/// the prefix and the length it gives make up the whole encoding of `s`.
pub open spec fn reads_string_length(
    r: Result<(u64, usize), DecodeError>,
    bytes: Seq<u8>,
    s: Seq<char>,
    rest: Seq<u8>,
) -> bool {
    bytes == bincode_string_bytes(s) + rest ==> (r matches Ok((len, n)) && n + len
        == bincode_string_bytes(s).len())
}

/// Calls `bincode::decode_from_slice::<u64, _>` with the standard
/// configuration. Claimed: it succeeds exactly where the name says, with the
/// named value and length, and the length is at most the input's; and, as
/// bincode's source shows (a string is written as its byte length, a `u64`
/// in the same variable-length form, then its bytes), on the encoding of a
/// string it reads that string's length prefix.
#[verifier::external_body]
fn decode_u64_prefix(bytes: &[u8]) -> (r: Result<(u64, usize), DecodeError>)
    ensures
        r is Err <==> bincode_u64_prefix(bytes@) is None,
        r matches Ok((v, n)) ==> (bincode_u64_prefix(bytes@) == Some((v, n as nat)) && n
            <= bytes@.len()),
        forall|s: Seq<char>, rest: Seq<u8>|
            #![trigger bincode_string_bytes(s) + rest]
            reads_string_length(r, bytes@, s, rest),
{
    bincode::decode_from_slice(bytes, bincode::config::standard())
}

/// Whether the length prefix at the front of `bytes` decodes and asks for no
/// more bytes than follow it.
pub open spec fn string_length_fits(bytes: Seq<u8>) -> bool {
    match bincode_u64_prefix(bytes) {
        Some((len, n)) => n + len <= bytes.len(),
        None => true,
    }
}

/// Calls `bincode::decode_from_slice::<String, _>` with the standard
/// configuration. Claimed: it succeeds exactly where the name says, with the
/// named characters and length, and the length is at most the input's; and,
/// as bincode's source shows (a length prefix, the UTF-8 bytes, a UTF-8
/// check), bytes that begin with the encoding of some string decode to it,
/// taking exactly that encoding. Bincode allocates the whole length that
/// the prefix asks for before it reads, so `requires` leaves out a prefix
/// longer than the bytes that follow.
#[verifier::external_body]
fn decode_string_prefix(bytes: &[u8]) -> (r: Result<(String, usize), DecodeError>)
    requires
        string_length_fits(bytes@),
    ensures
        r is Err <==> bincode_string_prefix(bytes@) is None,
        r matches Ok((s, n)) ==> (bincode_string_prefix(bytes@) == Some((s@, n as nat)) && n
            <= bytes@.len()),
        forall|s: Seq<char>, rest: Seq<u8>|
            #![trigger bincode_string_bytes(s) + rest]
            reads_back_string(r, bytes@, s, rest),
{
    bincode::decode_from_slice(bytes, bincode::config::standard())
}

/// Why a command could not be read back from bytes.
#[derive(Debug, Clone, Copy, PartialEq, Eq, Structural)]
pub enum DecodeFailure {
    /// The bytes end too early or do not hold a valid integer or string.
    Malformed,
    /// The variant number names no command.
    UnknownVariant { found: u32 },
}

/// The variant number of a command.
pub open spec fn command_tag(c: CommandView) -> u32 {
    match c {
        CommandView::Put { .. } => 0,
        CommandView::Delete { .. } => 1,
    }
}

/// The fields of a command, written one after the other.
pub open spec fn command_payload(c: CommandView) -> Seq<u8> {
    match c {
        CommandView::Put { key, value } => bincode_string_bytes(key) + bincode_string_bytes(value),
        CommandView::Delete { key } => bincode_string_bytes(key),
    }
}

/// The bytes of a command: its variant number, then its fields.
pub open spec fn command_bytes(c: CommandView) -> Seq<u8> {
    bincode_u32_bytes(command_tag(c)) + command_payload(c)
}

/// The string at the front of `b`, and the number of bytes it takes: what
/// bincode reads there, where the length prefix fits in the bytes.
pub open spec fn string_at_front(b: Seq<u8>) -> Option<(Seq<char>, nat)> {
    if string_length_fits(b) {
        bincode_string_prefix(b)
    } else {
        None
    }
}

/// What reading a command from the front of `b` gives.
pub open spec fn decoded_command(b: Seq<u8>) -> Result<CommandView, DecodeFailure> {
    match bincode_u32_prefix(b) {
        None => Err(DecodeFailure::Malformed),
        Some((tag, n)) => {
            let body = b.subrange(n as int, b.len() as int);
            if tag == 0 {
                match string_at_front(body) {
                    None => Err(DecodeFailure::Malformed),
                    Some((key, m)) => {
                        let tail = body.subrange(m as int, body.len() as int);
                        match string_at_front(tail) {
                            None => Err(DecodeFailure::Malformed),
                            Some((value, _)) => Ok(CommandView::Put { key, value }),
                        }
                    },
                }
            } else if tag == 1 {
                match string_at_front(body) {
                    None => Err(DecodeFailure::Malformed),
                    Some((key, _)) => Ok(CommandView::Delete { key }),
                }
            } else {
                Err(DecodeFailure::UnknownVariant { found: tag })
            }
        },
    }
}

/// Whether a decoding result agrees with its specification.
pub open spec fn decode_matches(
    r: Result<Command, DecodeFailure>,
    expected: Result<CommandView, DecodeFailure>,
) -> bool {
    match expected {
        Ok(cv) => r matches Ok(c) && c@ == cv,
        Err(f) => r == Err::<Command, DecodeFailure>(f),
    }
}

/// The encoding of a command followed by `rest` is its variant number
/// followed by its fields and `rest`; for a `Put`, the key's encoding is
/// followed by the value's and `rest`.
proof fn lemma_split_command(c: CommandView, rest: Seq<u8>)
    ensures
        command_bytes(c) + rest == bincode_u32_bytes(command_tag(c)) + (command_payload(c) + rest),
        c matches CommandView::Put { key, value } ==> command_payload(c) + rest
            == bincode_string_bytes(key) + (bincode_string_bytes(value) + rest),
{
    assert(command_bytes(c) + rest =~= bincode_u32_bytes(command_tag(c)) + (command_payload(c)
        + rest));
    if let CommandView::Put { key, value } = c {
        assert(command_payload(c) + rest =~= bincode_string_bytes(key) + (bincode_string_bytes(
            value,
        ) + rest));
    }
}

/// Dropping the encoding of `s` from the front of its encoding followed by
/// `rest` leaves `rest`.
proof fn lemma_skip_string(b: Seq<u8>, s: Seq<char>, rest: Seq<u8>)
    requires
        b == bincode_string_bytes(s) + rest,
    ensures
        b.subrange(bincode_string_bytes(s).len() as int, b.len() as int) == rest,
{
    assert(b.subrange(bincode_string_bytes(s).len() as int, b.len() as int) =~= rest);
}

/// Reads the string at the front of `bytes`, checking first that its
/// length prefix asks for no more bytes than follow.
fn read_string(bytes: &[u8]) -> (r: Option<(String, usize)>)
    ensures
        match string_at_front(bytes@) {
            Some((cs, n)) => r matches Some((x, m)) && x@ == cs && m == n,
            None => r is None,
        },
        r matches Some((_, m)) ==> m <= bytes@.len(),
        forall|s: Seq<char>, rest: Seq<u8>|
            bytes@ == #[trigger] (bincode_string_bytes(s) + rest) ==> (r matches Some((x, m)) && x@
                == s && m == bincode_string_bytes(s).len()),
{
    match decode_u64_prefix(bytes) {
        Ok((len, used)) => {
            if len > (bytes.len() - used) as u64 {
                proof {
                    assert forall|s: Seq<char>, rest: Seq<u8>|
                        bytes@ == #[trigger] (bincode_string_bytes(s) + rest) implies false by {
                        assert(reads_string_length(
                            Ok::<(u64, usize), DecodeError>((len, used)),
                            bytes@,
                            s,
                            rest,
                        ));
                    }
                }
                return None;
            }
        },
        Err(_) => {},
    }
    match decode_string_prefix(bytes) {
        Ok(p) => Some(p),
        Err(_) => None,
    }
}

/// Writes a command as bytes.
pub fn encode_command(c: &Command) -> (bytes: Vec<u8>)
    ensures
        bytes@ == command_bytes(c@),
{
    match c {
        Command::Put { key, value } => {
            let mut out = encode_u32(0);
            let mut k = encode_string(key);
            let mut v = encode_string(value);
            out.append(&mut k);
            out.append(&mut v);
            assert(out@ =~= command_bytes(c@));
            out
        },
        Command::Delete { key } => {
            let mut out = encode_u32(1);
            let mut k = encode_string(key);
            out.append(&mut k);
            out
        },
    }
}

/// Reads a command from the front of `bytes`; bytes after it are ignored.
/// Whatever `encode_command` wrote reads back as the same command.
pub fn decode_command(bytes: &[u8]) -> (r: Result<Command, DecodeFailure>)
    ensures
        decode_matches(r, decoded_command(bytes@)),
        forall|c: CommandView, rest: Seq<u8>|
            bytes@ == #[trigger] (command_bytes(c) + rest) ==> (r matches Ok(d) && d@ == c),
{
    proof {
        assert forall|c: CommandView, rest: Seq<u8>| bytes@ == #[trigger] (command_bytes(c) + rest)
            implies bytes@ == bincode_u32_bytes(command_tag(c)) + (command_payload(c) + rest) by {
            lemma_split_command(c, rest);
        }
    }
    proof {
        assert forall|c: CommandView, rest: Seq<u8>| bytes@ == #[trigger] (command_bytes(c) + rest)
            implies bincode_u32_prefix(bytes@) == Some(
            (command_tag(c), bincode_u32_bytes(command_tag(c)).len()),
        ) by {
            lemma_split_command(c, rest);
            lemma_u32_reads_back(command_tag(c), command_payload(c) + rest);
        }
    }
    let (tag, used) = match decode_u32_prefix(bytes) {
        Ok(p) => p,
        Err(_) => {
            return Err(DecodeFailure::Malformed);
        },
    };
    let body = &bytes[used..bytes.len()];
    proof {
        assert forall|c: CommandView, rest: Seq<u8>| bytes@ == #[trigger] (command_bytes(c) + rest)
            implies tag == command_tag(c) && body@ == command_payload(c) + rest by {
            lemma_split_command(c, rest);
            assert(bytes@ == bincode_u32_bytes(command_tag(c)) + (command_payload(c) + rest));
            assert(body@ =~= command_payload(c) + rest);
        }
    }
    if tag == 0 {
        let (key, n) = match read_string(body) {
            Some(p) => p,
            None => {
                proof {
                    assert forall|c: CommandView, rest: Seq<u8>| bytes@ == #[trigger] (
                    command_bytes(c) + rest) implies false by {
                        lemma_split_command(c, rest);
                    }
                }
                return Err(DecodeFailure::Malformed);
            },
        };
        let tail = &body[n..body.len()];
        proof {
            assert forall|c: CommandView, rest: Seq<u8>| bytes@ == #[trigger] (command_bytes(c)
                + rest) implies key@ == c->Put_key && tail@ == bincode_string_bytes(c->Put_value)
                + rest by {
                lemma_split_command(c, rest);
                let t = bincode_string_bytes(c->Put_value) + rest;
                lemma_skip_string(body@, c->Put_key, t);
            }
        }
        let (value, _) = match read_string(tail) {
            Some(p) => p,
            None => {
                return Err(DecodeFailure::Malformed);
            },
        };
        Ok(Command::Put { key, value })
    } else if tag == 1 {
        let (key, _) = match read_string(body) {
            Some(p) => p,
            None => {
                return Err(DecodeFailure::Malformed);
            },
        };
        Ok(Command::Delete { key })
    } else {
        Err(DecodeFailure::UnknownVariant { found: tag })
    }
}

} // verus!
