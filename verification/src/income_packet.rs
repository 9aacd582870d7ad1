//! Incoming packets: the frame header, the opcode table and the payloads.

use crate::endian::{
    lemma_u16_be_bytes_of_read, lemma_u16_be_round_trip, put_u16_be, spec_u16_be,
    spec_u16_be_bytes, spec_u32_le, u16_from_be, u32_from_le,
};
use crate::outcome_packet::EncodeError;
use vstd::prelude::*;
use vstd::slice::{slice_subrange, slice_to_vec};
use vstd::string::StringSliceAdditionalSpecFns;
use vstd::utf8::{decode_utf8, encode_utf8, valid_utf8};

verus! {

/// Bytes of a frame header.
pub const HEADER_LEN: usize = 8;

/// Opcodes a client may send.
#[derive(Clone, Copy, Debug, PartialEq, Eq, Structural)]
pub enum Opcode {
    Auth,
    Exit,
    CreatePincode,
    CreateCharacter,
    RemoveCharacter,
    UpdatePincode,
}

impl Opcode {
    /// The number that stands for this opcode on the wire.
    pub open spec fn spec_code(self) -> u16 {
        match self {
            Opcode::Auth => 431,
            Opcode::Exit => 432,
            Opcode::CreatePincode => 346,
            Opcode::CreateCharacter => 435,
            Opcode::RemoveCharacter => 436,
            Opcode::UpdatePincode => 347,
        }
    }

    /// The opcode that `code` stands for, if it stands for one.
    pub open spec fn spec_from_code(code: u16) -> Option<Opcode> {
        if code == 431 {
            Some(Opcode::Auth)
        } else if code == 432 {
            Some(Opcode::Exit)
        } else if code == 346 {
            Some(Opcode::CreatePincode)
        } else if code == 435 {
            Some(Opcode::CreateCharacter)
        } else if code == 436 {
            Some(Opcode::RemoveCharacter)
        } else if code == 347 {
            Some(Opcode::UpdatePincode)
        } else {
            None
        }
    }

    /// Whether the server decodes and handles packets of this opcode.
    pub open spec fn spec_is_implemented(self) -> bool {
        self == Opcode::Auth || self == Opcode::Exit
    }

    #[verifier::when_used_as_spec(spec_code)]
    pub fn code(self) -> (c: u16)
        ensures
            c == self.spec_code(),
    {
        match self {
            Opcode::Auth => 431,
            Opcode::Exit => 432,
            Opcode::CreatePincode => 346,
            Opcode::CreateCharacter => 435,
            Opcode::RemoveCharacter => 436,
            Opcode::UpdatePincode => 347,
        }
    }

    /// Looks `code` up in the opcode table.
    pub fn from_code(code: u16) -> (r: Option<Opcode>)
        ensures
            r == Self::spec_from_code(code),
    {
        match code {
            431 => Some(Opcode::Auth),
            432 => Some(Opcode::Exit),
            346 => Some(Opcode::CreatePincode),
            435 => Some(Opcode::CreateCharacter),
            436 => Some(Opcode::RemoveCharacter),
            347 => Some(Opcode::UpdatePincode),
            _ => None,
        }
    }
}

/// The opcode table is a bijection between the declared opcodes and their
/// numbers: looking up an opcode's number gives the opcode, and a number
/// that is found is the number of what was found.
pub proof fn lemma_opcode_table(op: Opcode, code: u16)
    ensures
        Opcode::spec_from_code(op.spec_code()) == Some(op),
        Opcode::spec_from_code(code) == Some(op) ==> op.spec_code() == code,
{
}

/// A frame too short to hold a header.
#[derive(Clone, Copy, Debug, PartialEq, Eq, Structural)]
pub struct FramingError {
    /// How many bytes the frame had.
    pub available: usize,
}

/// Why a payload could not be decoded.
#[derive(Clone, Copy, Debug, PartialEq, Eq, Structural)]
pub enum DecodeError {
    /// A read ran past the end of the buffer.
    Truncated,
    /// A text field does not hold UTF-8.
    InvalidUtf8,
    /// The number is not in the opcode table.
    UnknownOpcode(u16),
    /// The opcode is in the table, but the server has no handler for it.
    UnsupportedOpcode(Opcode),
}

/// The fixed part at the start of every frame.
#[derive(Clone, Copy, Debug, PartialEq, Eq, Structural)]
pub struct Header {
    /// Size of the whole frame as the sender states it, header included.
    pub length: u16,
    /// Correlation id.
    pub id: u32,
    /// Number of the opcode.
    pub opcode: u16,
}

/// What the first eight bytes of `s` say: length (big-endian), correlation
/// id (little-endian), opcode (big-endian). The stated length is not held
/// against the number of bytes present.
pub open spec fn spec_decode_header(s: Seq<u8>) -> Result<Header, FramingError> {
    if s.len() < 8 {
        Err(FramingError { available: s.len() as usize })
    } else {
        Ok(
            Header {
                length: spec_u16_be(s.subrange(0, 2)),
                id: spec_u32_le(s.subrange(2, 6)),
                opcode: spec_u16_be(s.subrange(6, 8)),
            },
        )
    }
}

/// A read position in a borrowed buffer.
pub struct ByteCursor<'a> {
    data: &'a [u8],
    pos: usize,
}

impl<'a> ByteCursor<'a> {
    /// The whole buffer.
    pub closed spec fn bytes(&self) -> Seq<u8> {
        self.data@
    }

    /// How many bytes have been consumed.
    pub closed spec fn position(&self) -> int {
        self.pos as int
    }

    /// The position lies inside the buffer.
    pub open spec fn wf(&self) -> bool {
        0 <= self.position() <= self.bytes().len()
    }

    /// The bytes not yet consumed.
    pub open spec fn remaining(&self) -> Seq<u8> {
        self.bytes().skip(self.position())
    }

    /// A cursor at the start of `data`.
    pub fn new(data: &'a [u8]) -> (c: Self)
        ensures
            c.wf(),
            c.bytes() == data@,
            c.position() == 0,
            c.remaining() == data@,
    {
        let c = ByteCursor { data, pos: 0 };
        assert(c.remaining() =~= data@);
        c
    }

    /// Number of bytes not yet consumed.
    pub fn remaining_len(&self) -> (n: usize)
        requires
            self.wf(),
        ensures
            n == self.remaining().len(),
    {
        self.data.len() - self.pos
    }
}

/// Splits a big-endian `u16` off the front of `s`.
pub open spec fn spec_take_u16(s: Seq<u8>) -> Option<(u16, Seq<u8>)> {
    if s.len() < 2 {
        None
    } else {
        Some((spec_u16_be(s), s.skip(2)))
    }
}

/// Splits `len` bytes off the front of `s`.
pub open spec fn spec_take_bytes(s: Seq<u8>, len: nat) -> Option<(Seq<u8>, Seq<u8>)> {
    if s.len() < len {
        None
    } else {
        Some((s.take(len as int), s.skip(len as int)))
    }
}

/// Splits a field off the front of `s`: a big-endian `u16` length, then that
/// many bytes.
pub open spec fn spec_take_field(s: Seq<u8>) -> Option<(Seq<u8>, Seq<u8>)> {
    match spec_take_u16(s) {
        None => None,
        Some((len, rest)) => spec_take_bytes(rest, len as nat),
    }
}

/// Reads a big-endian `u16` at the cursor and moves past it. A cursor with
/// fewer than two bytes left stays where it is.
pub fn read_u16_be(cursor: &mut ByteCursor) -> (r: Result<u16, DecodeError>)
    requires
        old(cursor).wf(),
    ensures
        final(cursor).wf(),
        final(cursor).bytes() == old(cursor).bytes(),
        match r {
            Ok(v) => spec_take_u16(old(cursor).remaining()) == Some(
                (v, final(cursor).remaining()),
            ),
            Err(e) => e == DecodeError::Truncated && spec_take_u16(old(cursor).remaining())
                is None && final(cursor).remaining() == old(cursor).remaining(),
        },
{
    let pos: usize = cursor.pos;
    if cursor.data.len() - pos < 2 {
        return Err(DecodeError::Truncated);
    }
    let v: u16 = u16_from_be(slice_subrange(cursor.data, pos, pos + 2));
    cursor.pos = pos + 2;
    proof {
        let rem = old(cursor).remaining();
        assert(rem[0] == cursor.data@.subrange(pos as int, pos + 2)[0]);
        assert(rem[1] == cursor.data@.subrange(pos as int, pos + 2)[1]);
        assert(cursor.remaining() =~= rem.skip(2));
    }
    Ok(v)
}

/// Reads `len` bytes at the cursor and moves past them. A cursor with fewer
/// bytes left stays where it is.
pub fn read_bytes(cursor: &mut ByteCursor, len: usize) -> (r: Result<Vec<u8>, DecodeError>)
    requires
        old(cursor).wf(),
    ensures
        final(cursor).wf(),
        final(cursor).bytes() == old(cursor).bytes(),
        match r {
            Ok(v) => spec_take_bytes(old(cursor).remaining(), len as nat) == Some(
                (v@, final(cursor).remaining()),
            ),
            Err(e) => e == DecodeError::Truncated && spec_take_bytes(
                old(cursor).remaining(),
                len as nat,
            ) is None && final(cursor).remaining() == old(cursor).remaining(),
        },
{
    let pos: usize = cursor.pos;
    if cursor.data.len() - pos < len {
        return Err(DecodeError::Truncated);
    }
    let buf: Vec<u8> = slice_to_vec(slice_subrange(cursor.data, pos, pos + len));
    cursor.pos = pos + len;
    proof {
        let rem = old(cursor).remaining();
        assert(buf@ =~= rem.take(len as int));
        assert(cursor.remaining() =~= rem.skip(len as int));
    }
    Ok(buf)
}

/// Reads one length-prefixed field at the cursor.
pub fn read_field(cursor: &mut ByteCursor) -> (r: Result<Vec<u8>, DecodeError>)
    requires
        old(cursor).wf(),
    ensures
        final(cursor).wf(),
        final(cursor).bytes() == old(cursor).bytes(),
        match r {
            Ok(v) => spec_take_field(old(cursor).remaining()) == Some(
                (v@, final(cursor).remaining()),
            ),
            Err(e) => e == DecodeError::Truncated && spec_take_field(old(cursor).remaining())
                is None && final(cursor).remaining() == (if old(cursor).remaining().len() < 2 {
                old(cursor).remaining()
            } else {
                old(cursor).remaining().skip(2)
            }),
        },
{
    let len: u16 = read_u16_be(cursor)?;
    read_bytes(cursor, len as usize)
}

/// The error of `String::from_utf8`; nothing is read from it.
#[verifier::external_type_specification]
#[verifier::external_body]
pub struct ExFromUtf8Error(std::string::FromUtf8Error);

/// `String::from_utf8` succeeds exactly on UTF-8, and the string it hands
/// back is made of the very bytes it was given.
pub assume_specification[ String::from_utf8 ](vec: Vec<u8>) -> (r: Result<
    String,
    std::string::FromUtf8Error,
>)
    ensures
        r is Ok <==> valid_utf8(vec@),
        r is Ok ==> encode_utf8(r->Ok_0@) == vec@,
;

/// Turns the bytes of a text field into a string.
pub fn read_utf8_string(buf: Vec<u8>) -> (r: Result<String, DecodeError>)
    ensures
        match r {
            Ok(s) => valid_utf8(buf@) && s@ == decode_utf8(buf@),
            Err(e) => !valid_utf8(buf@) && e == DecodeError::InvalidUtf8,
        },
{
    match String::from_utf8(buf) {
        Ok(s) => {
            proof {
                vstd::utf8::encode_utf8_decode_utf8(s@);
            }
            Ok(s)
        },
        Err(_) => Err(DecodeError::InvalidUtf8),
    }
}

impl Header {
    /// Decodes the header at the start of `data`.
    ///
    /// Fails exactly when `data` has fewer than eight bytes; no byte beyond
    /// the eighth is looked at.
    pub fn unpack(data: &[u8]) -> (r: Result<Header, FramingError>)
        ensures
            r == spec_decode_header(data@),
            r is Err <==> data@.len() < 8,
    {
        if data.len() < HEADER_LEN {
            return Err(FramingError { available: data.len() });
        }
        let length: u16 = u16_from_be(slice_subrange(data, 0, 2));
        let id: u32 = u32_from_le(slice_subrange(data, 2, 6));
        let opcode: u16 = u16_from_be(slice_subrange(data, 6, 8));
        Ok(Header { length, id, opcode })
    }
}

/// Credentials a client presents.
#[derive(Debug)]
pub struct Auth {
    pub key: Vec<u8>,
    pub login: String,
    pub password: Vec<u8>,
    pub mac: String,
    pub is_cheat: u16,
    pub client_version: u16,
}

/// What an [`Auth`] holds, as mathematical values.
pub struct AuthView {
    pub key: Seq<u8>,
    pub login: Seq<char>,
    pub password: Seq<u8>,
    pub mac: Seq<char>,
    pub is_cheat: u16,
    pub client_version: u16,
}

impl View for Auth {
    type V = AuthView;

    open spec fn view(&self) -> AuthView {
        AuthView {
            key: self.key@,
            login: self.login@,
            password: self.password@,
            mac: self.mac@,
            is_cheat: self.is_cheat,
            client_version: self.client_version,
        }
    }
}

/// The six fields of an Auth payload as they lie on the wire, text fields
/// still as bytes.
pub struct AuthFields {
    pub key: Seq<u8>,
    pub login: Seq<u8>,
    pub password: Seq<u8>,
    pub mac: Seq<u8>,
    pub is_cheat: u16,
    pub client_version: u16,
}

impl AuthFields {
    /// Every variable-length field is short enough for its 16-bit length
    /// prefix.
    pub open spec fn fits(self) -> bool {
        &&& self.key.len() <= 0xFFFF
        &&& self.login.len() <= 0xFFFF
        &&& self.password.len() <= 0xFFFF
        &&& self.mac.len() <= 0xFFFF
    }
}

impl AuthView {
    /// The fields as they go on the wire: text as UTF-8.
    pub open spec fn fields(self) -> AuthFields {
        AuthFields {
            key: self.key,
            login: encode_utf8(self.login),
            password: self.password,
            mac: encode_utf8(self.mac),
            is_cheat: self.is_cheat,
            client_version: self.client_version,
        }
    }

    /// Every variable-length field is short enough for its 16-bit length
    /// prefix.
    pub open spec fn fits(self) -> bool {
        self.fields().fits()
    }
}

/// A field on the wire: its length as a big-endian `u16`, then its bytes.
pub open spec fn spec_field(bytes: Seq<u8>) -> Seq<u8>
    recommends
        bytes.len() <= 0xFFFF,
{
    spec_u16_be_bytes(bytes.len() as u16) + bytes
}

/// The payload made of `f`: key, login, password and mac as fields, then the
/// two flags as big-endian `u16`s.
pub open spec fn spec_join_auth(f: AuthFields) -> Seq<u8>
    recommends
        f.fits(),
{
    spec_field(f.key) + (spec_field(f.login) + (spec_field(f.password) + (spec_field(f.mac) + (
    spec_u16_be_bytes(f.is_cheat) + spec_u16_be_bytes(f.client_version)))))
}

/// The payload that carries `a`.
pub open spec fn spec_encode_auth(a: AuthView) -> Seq<u8>
    recommends
        a.fits(),
{
    spec_join_auth(a.fields())
}

/// Splits an Auth payload into its fields, read strictly in order: four
/// length-prefixed fields, then two big-endian `u16`s. Bytes after the last
/// field are ignored.
pub open spec fn spec_split_auth(s: Seq<u8>) -> Option<AuthFields> {
    match spec_take_field(s) {
        None => None,
        Some((key, s1)) => match spec_take_field(s1) {
            None => None,
            Some((login, s2)) => match spec_take_field(s2) {
                None => None,
                Some((password, s3)) => match spec_take_field(s3) {
                    None => None,
                    Some((mac, s4)) => match spec_take_u16(s4) {
                        None => None,
                        Some((is_cheat, s5)) => match spec_take_u16(s5) {
                            None => None,
                            Some((client_version, _)) => Some(
                                AuthFields {
                                    key,
                                    login,
                                    password,
                                    mac,
                                    is_cheat,
                                    client_version,
                                },
                            ),
                        },
                    },
                },
            },
        },
    }
}

/// What an Auth payload says. The six reads come first, and any of them that
/// runs past the end makes the payload truncated; only then are login and
/// mac held to be UTF-8.
pub open spec fn spec_decode_auth(s: Seq<u8>) -> Result<AuthView, DecodeError> {
    match spec_split_auth(s) {
        None => Err(DecodeError::Truncated),
        Some(f) => if valid_utf8(f.login) && valid_utf8(f.mac) {
            Ok(
                AuthView {
                    key: f.key,
                    login: decode_utf8(f.login),
                    password: f.password,
                    mac: decode_utf8(f.mac),
                    is_cheat: f.is_cheat,
                    client_version: f.client_version,
                },
            )
        } else {
            Err(DecodeError::InvalidUtf8)
        },
    }
}

/// Appends `bytes` to `out` as a length-prefixed field; leaves `out` as it
/// was when the length does not fit.
pub fn put_field(out: &mut Vec<u8>, bytes: &[u8]) -> (r: Result<(), EncodeError>)
    ensures
        r is Ok <==> bytes@.len() <= 0xFFFF,
        r is Ok ==> final(out)@ == old(out)@ + spec_field(bytes@),
        r is Err ==> final(out)@ == old(out)@,
{
    if bytes.len() > 0xFFFF {
        return Err(EncodeError::PayloadTooLarge);
    }
    put_u16_be(out, bytes.len() as u16);
    out.extend_from_slice(bytes);
    assert(out@ =~= old(out)@ + spec_field(bytes@));
    Ok(())
}

impl Auth {
    /// Decodes an Auth payload.
    pub fn unpack(data: &[u8]) -> (r: Result<Auth, DecodeError>)
        ensures
            match r {
                Ok(a) => spec_decode_auth(data@) == Ok::<AuthView, DecodeError>(a@),
                Err(e) => spec_decode_auth(data@) == Err::<AuthView, DecodeError>(e),
            },
    {
        let mut cursor = ByteCursor::new(data);
        let key: Vec<u8> = read_field(&mut cursor)?;
        let login_buf: Vec<u8> = read_field(&mut cursor)?;
        let password: Vec<u8> = read_field(&mut cursor)?;
        let mac_buf: Vec<u8> = read_field(&mut cursor)?;
        let is_cheat: u16 = read_u16_be(&mut cursor)?;
        let client_version: u16 = read_u16_be(&mut cursor)?;
        let login: String = read_utf8_string(login_buf)?;
        let mac: String = read_utf8_string(mac_buf)?;
        Ok(Auth { key, login, password, mac, is_cheat, client_version })
    }

    /// Encodes these credentials as an Auth payload.
    ///
    /// Fails exactly when one of the four variable-length fields is longer
    /// than its length prefix can state.
    pub fn pack(&self) -> (r: Result<Vec<u8>, EncodeError>)
        ensures
            r is Ok <==> self@.fits(),
            r is Ok ==> r->Ok_0@ == spec_encode_auth(self@),
            r is Err ==> r->Err_0 == EncodeError::PayloadTooLarge,
    {
        let mut out: Vec<u8> = Vec::new();
        put_field(&mut out, self.key.as_slice())?;
        put_field(&mut out, self.login.as_str().as_bytes())?;
        put_field(&mut out, self.password.as_slice())?;
        put_field(&mut out, self.mac.as_str().as_bytes())?;
        put_u16_be(&mut out, self.is_cheat);
        put_u16_be(&mut out, self.client_version);
        assert(out@ =~= spec_encode_auth(self@));
        Ok(out)
    }
}

/// A field followed by anything splits back into its bytes and what
/// followed.
pub proof fn lemma_take_field_of_field(bytes: Seq<u8>, rest: Seq<u8>)
    requires
        bytes.len() <= 0xFFFF,
    ensures
        spec_take_field(spec_field(bytes) + rest) == Some((bytes, rest)),
{
    let len = bytes.len() as u16;
    let s = spec_field(bytes) + rest;
    lemma_u16_be_round_trip(len, bytes + rest);
    assert(s =~= spec_u16_be_bytes(len) + (bytes + rest));
    assert(s.skip(2) =~= bytes + rest);
    assert((bytes + rest).take(len as int) =~= bytes);
    assert((bytes + rest).skip(len as int) =~= rest);
}

/// The bytes of a `u16` followed by anything split back into the number and
/// what followed.
pub proof fn lemma_take_u16_of_bytes(n: u16, rest: Seq<u8>)
    ensures
        spec_take_u16(spec_u16_be_bytes(n) + rest) == Some((n, rest)),
{
    lemma_u16_be_round_trip(n, rest);
    assert((spec_u16_be_bytes(n) + rest).skip(2) =~= rest);
}

/// Splitting what was joined gives the fields back.
pub proof fn lemma_split_of_join(f: AuthFields)
    requires
        f.fits(),
    ensures
        spec_split_auth(spec_join_auth(f)) == Some(f),
{
    let s5 = spec_u16_be_bytes(f.client_version);
    let s4 = spec_u16_be_bytes(f.is_cheat) + s5;
    let s3 = spec_field(f.mac) + s4;
    let s2 = spec_field(f.password) + s3;
    let s1 = spec_field(f.login) + s2;
    let s0 = spec_field(f.key) + s1;
    assert(spec_join_auth(f) == s0);
    lemma_take_field_of_field(f.key, s1);
    lemma_take_field_of_field(f.login, s2);
    lemma_take_field_of_field(f.password, s3);
    lemma_take_field_of_field(f.mac, s4);
    lemma_take_u16_of_bytes(f.is_cheat, s5);
    lemma_take_u16_of_bytes(f.client_version, Seq::<u8>::empty());
    assert(s5 + Seq::<u8>::empty() =~= s5);
    assert(spec_take_u16(s5) == Some((f.client_version, Seq::<u8>::empty())));
}

/// What splits into a field and a rest is that field followed by that rest.
pub proof fn lemma_field_of_take_field(s: Seq<u8>)
    requires
        spec_take_field(s) is Some,
    ensures
        spec_take_field(s)->Some_0.0.len() <= 0xFFFF,
        s == spec_field(spec_take_field(s)->Some_0.0) + spec_take_field(s)->Some_0.1,
{
    let bytes = spec_take_field(s)->Some_0.0;
    let rest = spec_take_field(s)->Some_0.1;
    lemma_u16_be_bytes_of_read(s);
    assert(s =~= s.subrange(0, 2) + bytes + rest);
}

/// What splits into a `u16` and a rest is the bytes of that number followed
/// by that rest.
pub proof fn lemma_bytes_of_take_u16(s: Seq<u8>)
    requires
        spec_take_u16(s) is Some,
    ensures
        s == spec_u16_be_bytes(spec_take_u16(s)->Some_0.0) + spec_take_u16(s)->Some_0.1,
{
    lemma_u16_be_bytes_of_read(s);
    assert(s =~= s.subrange(0, 2) + s.skip(2));
}

/// A piece followed by something that starts with `tail` starts with the
/// piece followed by `tail`.
proof fn lemma_prefix_step(whole: Seq<u8>, piece: Seq<u8>, rest: Seq<u8>, tail: Seq<u8>)
    requires
        whole == piece + rest,
        tail.is_prefix_of(rest),
    ensures
        (piece + tail).is_prefix_of(whole),
{
    assert((piece + tail) =~= whole.subrange(0, (piece + tail).len() as int));
}

/// A payload that splits is the join of its fields followed by the bytes
/// that the split ignored.
pub proof fn lemma_join_of_split(s: Seq<u8>)
    requires
        spec_split_auth(s) is Some,
    ensures
        (spec_split_auth(s)->Some_0).fits(),
        spec_join_auth(spec_split_auth(s)->Some_0).is_prefix_of(s),
{
    let f = spec_split_auth(s)->Some_0;
    let s1 = spec_take_field(s)->Some_0.1;
    let s2 = spec_take_field(s1)->Some_0.1;
    let s3 = spec_take_field(s2)->Some_0.1;
    let s4 = spec_take_field(s3)->Some_0.1;
    let s5 = spec_take_u16(s4)->Some_0.1;
    let s6 = spec_take_u16(s5)->Some_0.1;
    lemma_field_of_take_field(s);
    lemma_field_of_take_field(s1);
    lemma_field_of_take_field(s2);
    lemma_field_of_take_field(s3);
    lemma_bytes_of_take_u16(s4);
    lemma_bytes_of_take_u16(s5);
    let t5 = spec_u16_be_bytes(f.client_version);
    let t4 = spec_u16_be_bytes(f.is_cheat) + t5;
    let t3 = spec_field(f.mac) + t4;
    let t2 = spec_field(f.password) + t3;
    let t1 = spec_field(f.login) + t2;
    lemma_prefix_step(s5, t5, s6, Seq::<u8>::empty());
    assert(t5 + Seq::<u8>::empty() =~= t5);
    lemma_prefix_step(s4, spec_u16_be_bytes(f.is_cheat), s5, t5);
    lemma_prefix_step(s3, spec_field(f.mac), s4, t4);
    lemma_prefix_step(s2, spec_field(f.password), s3, t3);
    lemma_prefix_step(s1, spec_field(f.login), s2, t2);
    lemma_prefix_step(s, spec_field(f.key), s1, t1);
}

/// Credentials whose fields fit their length prefixes survive the wire:
/// decoding what was encoded gives them back, so encoding the decoded value
/// gives the same bytes again.
pub proof fn lemma_auth_round_trip(a: AuthView)
    requires
        a.fits(),
    ensures
        spec_decode_auth(spec_encode_auth(a)) == Ok::<AuthView, DecodeError>(a),
        spec_decode_auth(spec_encode_auth(a)) matches Ok(b) && spec_encode_auth(b)
            == spec_encode_auth(a),
{
    lemma_split_of_join(a.fields());
    vstd::utf8::encode_utf8_valid_utf8(a.login);
    vstd::utf8::encode_utf8_valid_utf8(a.mac);
    vstd::utf8::encode_utf8_decode_utf8(a.login);
    vstd::utf8::encode_utf8_decode_utf8(a.mac);
}

/// A payload that decodes starts with the encoding of what it decodes to:
/// nothing between the fields is skipped or rewritten, and only bytes after
/// the last field are dropped.
pub proof fn lemma_auth_encode_of_decode(s: Seq<u8>)
    requires
        spec_decode_auth(s) is Ok,
    ensures
        (spec_decode_auth(s)->Ok_0).fits(),
        spec_encode_auth(spec_decode_auth(s)->Ok_0).is_prefix_of(s),
{
    let f = spec_split_auth(s)->Some_0;
    lemma_join_of_split(s);
    vstd::utf8::decode_utf8_encode_utf8(f.login);
    vstd::utf8::decode_utf8_encode_utf8(f.mac);
    assert(spec_decode_auth(s)->Ok_0.fields() == f);
}

/// What is left of `s` after `k` length-prefixed fields, if it holds that
/// many.
pub open spec fn spec_skip_fields(s: Seq<u8>, k: nat) -> Option<Seq<u8>>
    decreases k,
{
    if k == 0 {
        Some(s)
    } else {
        match spec_take_field(s) {
            None => None,
            Some((_, rest)) => spec_skip_fields(rest, (k - 1) as nat),
        }
    }
}

/// An Auth payload in which one of the four length prefixes is cut short, or
/// states more bytes than follow it, is truncated.
pub proof fn lemma_overlong_prefix_truncates(s: Seq<u8>, k: nat)
    requires
        k < 4,
        spec_skip_fields(s, k) matches Some(rest) && (rest.len() < 2 || spec_u16_be(rest)
            > rest.len() - 2),
    ensures
        spec_decode_auth(s) == Err::<AuthView, DecodeError>(DecodeError::Truncated),
{
    reveal_with_fuel(spec_skip_fields, 5);
}

/// A sample payload: a text, a byte string and a number.
#[derive(Debug)]
pub struct Test {
    pub test: String,
    pub test2: Vec<u8>,
    pub test3: u16,
}

/// What a [`Test`] holds, as mathematical values.
pub struct TestView {
    pub test: Seq<char>,
    pub test2: Seq<u8>,
    pub test3: u16,
}

impl View for Test {
    type V = TestView;

    open spec fn view(&self) -> TestView {
        TestView { test: self.test@, test2: self.test2@, test3: self.test3 }
    }
}

/// What a sample payload says. Each field is read and converted before the
/// next one is touched: a text field, a byte field, a big-endian `u16`.
pub open spec fn spec_decode_test(s: Seq<u8>) -> Result<TestView, DecodeError> {
    match spec_take_field(s) {
        None => Err(DecodeError::Truncated),
        Some((test, s1)) => if !valid_utf8(test) {
            Err(DecodeError::InvalidUtf8)
        } else {
            match spec_take_field(s1) {
                None => Err(DecodeError::Truncated),
                Some((test2, s2)) => match spec_take_u16(s2) {
                    None => Err(DecodeError::Truncated),
                    Some((test3, _)) => Ok(TestView { test: decode_utf8(test), test2, test3 }),
                },
            }
        },
    }
}

impl Test {
    /// Decodes a sample payload.
    pub fn unpack(data: &[u8]) -> (r: Result<Test, DecodeError>)
        ensures
            match r {
                Ok(t) => spec_decode_test(data@) == Ok::<TestView, DecodeError>(t@),
                Err(e) => spec_decode_test(data@) == Err::<TestView, DecodeError>(e),
            },
    {
        let mut cursor = ByteCursor::new(data);
        let test_buf: Vec<u8> = read_field(&mut cursor)?;
        let test: String = read_utf8_string(test_buf)?;
        let test2: Vec<u8> = read_field(&mut cursor)?;
        let test3: u16 = read_u16_be(&mut cursor)?;
        Ok(Test { test, test2, test3 })
    }
}

/// A decoded packet.
#[derive(Debug)]
pub enum Packet {
    Auth(Auth),
    Exit,
}

/// What a [`Packet`] holds, as mathematical values.
pub enum PacketView {
    Auth(AuthView),
    Exit,
}

impl View for Packet {
    type V = PacketView;

    open spec fn view(&self) -> PacketView {
        match self {
            Packet::Auth(a) => PacketView::Auth(a@),
            Packet::Exit => PacketView::Exit,
        }
    }
}

/// What a payload says under the opcode numbered `code`. A number outside
/// the table is unknown; an opcode of the table without a handler is
/// unsupported; the payload of an Exit is not looked at.
pub open spec fn spec_decode_opcode_payload(code: u16, s: Seq<u8>) -> Result<
    PacketView,
    DecodeError,
> {
    match Opcode::spec_from_code(code) {
        None => Err(DecodeError::UnknownOpcode(code)),
        Some(Opcode::Auth) => match spec_decode_auth(s) {
            Ok(a) => Ok(PacketView::Auth(a)),
            Err(e) => Err(e),
        },
        Some(Opcode::Exit) => Ok(PacketView::Exit),
        Some(op) => Err(DecodeError::UnsupportedOpcode(op)),
    }
}

impl Header {
    /// Decodes the payload `data` as the packet that this header's opcode
    /// announces.
    pub fn handle(self, data: &[u8]) -> (r: Result<Packet, DecodeError>)
        ensures
            match r {
                Ok(p) => spec_decode_opcode_payload(self.opcode, data@) == Ok::<
                    PacketView,
                    DecodeError,
                >(p@),
                Err(e) => spec_decode_opcode_payload(self.opcode, data@) == Err::<
                    PacketView,
                    DecodeError,
                >(e),
            },
    {
        match Opcode::from_code(self.opcode) {
            None => Err(DecodeError::UnknownOpcode(self.opcode)),
            Some(Opcode::Auth) => {
                let auth: Auth = Auth::unpack(data)?;
                Ok(Packet::Auth(auth))
            },
            Some(Opcode::Exit) => Ok(Packet::Exit),
            Some(op) => Err(DecodeError::UnsupportedOpcode(op)),
        }
    }
}

/// Only Auth and Exit ever decode: any other opcode of the table is
/// unsupported, and any number outside the table is unknown, whatever the
/// payload.
pub proof fn lemma_unhandled_opcodes_rejected(code: u16, s: Seq<u8>)
    ensures
        match Opcode::spec_from_code(code) {
            None => spec_decode_opcode_payload(code, s) == Err::<PacketView, DecodeError>(
                DecodeError::UnknownOpcode(code),
            ),
            Some(op) => !op.spec_is_implemented() ==> spec_decode_opcode_payload(code, s)
                == Err::<PacketView, DecodeError>(DecodeError::UnsupportedOpcode(op)),
        },
        code != 431 && code != 432 ==> spec_decode_opcode_payload(code, s) is Err,
        code == 432 ==> spec_decode_opcode_payload(code, s) == Ok::<PacketView, DecodeError>(
            PacketView::Exit,
        ),
{
}

} // verus!
