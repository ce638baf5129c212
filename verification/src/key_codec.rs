//! Ordered physical-key grammar for rrflowKV.
//!
//! Every key begins with one typed address:
//!
//! ```text
//! application format / optional tenant / optional scope / family / tuple...
//! ```
//!
//! Variable-width tuple fields use a memcomparable, self-delimiting encoding:
//! eight data bytes followed by a padding marker. This preserves bytewise
//! lexical order, admits every byte value without delimiter escaping, and
//! rejects truncated or non-canonical encodings. Fixed-width numeric fields use
//! big-endian order; descending `u64` fields invert every bit so newer versions
//! sort first.
//!
//! Decoding is the exact inverse of encoding: `decode` accepts a byte string
//! if and only if it is the encoding of some key, and then returns that key.

use crate::bytes::{lex_lt, lex_le, be64, from_be64, read_be64, push_be64, push_all, push_zeros, lemma_from_be64_of_be64, lemma_be64_of_from_be64};
use vstd::prelude::*;
use vstd::utf8::*;

verus! {

broadcast use {encode_utf8_decode_utf8, encode_utf8_valid_utf8, decode_utf8_encode_utf8};

/// Manifest identity for the first typed rrflowKV key format: the big-endian
/// value of the ASCII bytes `RRKV0001`.
pub const APPLICATION_FORMAT: u64 = 0x5252_4b56_3030_3031u64;

pub const TAG_ABSENT: u8 = 0x00;
pub const TAG_BYTES: u8 = 0x20;
pub const TAG_TEXT: u8 = 0x21;
pub const TAG_BOOL: u8 = 0x30;
pub const TAG_U8: u8 = 0x31;
pub const TAG_U64: u8 = 0x32;
pub const TAG_I64: u8 = 0x33;
pub const TAG_DESC_U64: u8 = 0x34;
pub const TAG_FORMAT: u8 = 0xf0;
pub const TAG_FAMILY: u8 = 0xf1;
pub const MEMCOMPARABLE_GROUP_BYTES: usize = 8;
pub const MEMCOMPARABLE_FULL_GROUP: u8 = 0xff;

/// Stable top-level physical families. `tag` gives the wire byte.
#[derive(Debug, Clone, Copy, PartialEq, Eq, Structural, PartialOrd, Ord, Hash)]
pub enum KeyFamily {
    Current,
    Temporal,
    OutgoingEdge,
    IncomingEdge,
    Scalar,
    Unique,
    TermDictionary,
    TermStatistic,
    TermPosting,
    Vector,
    ProjectionDelta,
    Catalogue,
    RuntimeCommit,
    Outbox,
    Audit,
    EngineEvent,
    System,
}

impl KeyFamily {
    /// The frozen wire byte of a family.
    pub open spec fn spec_tag(self) -> u8 {
        match self {
            KeyFamily::Current => 0x10,
            KeyFamily::Temporal => 0x11,
            KeyFamily::OutgoingEdge => 0x12,
            KeyFamily::IncomingEdge => 0x13,
            KeyFamily::Scalar => 0x14,
            KeyFamily::Unique => 0x15,
            KeyFamily::TermDictionary => 0x16,
            KeyFamily::TermStatistic => 0x17,
            KeyFamily::TermPosting => 0x18,
            KeyFamily::Vector => 0x19,
            KeyFamily::ProjectionDelta => 0x1a,
            KeyFamily::Catalogue => 0x1b,
            KeyFamily::RuntimeCommit => 0x1c,
            KeyFamily::Outbox => 0x1d,
            KeyFamily::Audit => 0x1e,
            KeyFamily::EngineEvent => 0x1f,
            KeyFamily::System => 0x20,
        }
    }

    /// The family whose wire byte is `value`, if any.
    pub open spec fn spec_from_tag(value: u8) -> Option<KeyFamily> {
        if value == 0x10 {
            Some(KeyFamily::Current)
        } else if value == 0x11 {
            Some(KeyFamily::Temporal)
        } else if value == 0x12 {
            Some(KeyFamily::OutgoingEdge)
        } else if value == 0x13 {
            Some(KeyFamily::IncomingEdge)
        } else if value == 0x14 {
            Some(KeyFamily::Scalar)
        } else if value == 0x15 {
            Some(KeyFamily::Unique)
        } else if value == 0x16 {
            Some(KeyFamily::TermDictionary)
        } else if value == 0x17 {
            Some(KeyFamily::TermStatistic)
        } else if value == 0x18 {
            Some(KeyFamily::TermPosting)
        } else if value == 0x19 {
            Some(KeyFamily::Vector)
        } else if value == 0x1a {
            Some(KeyFamily::ProjectionDelta)
        } else if value == 0x1b {
            Some(KeyFamily::Catalogue)
        } else if value == 0x1c {
            Some(KeyFamily::RuntimeCommit)
        } else if value == 0x1d {
            Some(KeyFamily::Outbox)
        } else if value == 0x1e {
            Some(KeyFamily::Audit)
        } else if value == 0x1f {
            Some(KeyFamily::EngineEvent)
        } else if value == 0x20 {
            Some(KeyFamily::System)
        } else {
            None
        }
    }

    /// The wire byte of this family.
    pub fn tag(self) -> (b: u8)
        ensures
            b == self.spec_tag(),
    {
        match self {
            KeyFamily::Current => 0x10,
            KeyFamily::Temporal => 0x11,
            KeyFamily::OutgoingEdge => 0x12,
            KeyFamily::IncomingEdge => 0x13,
            KeyFamily::Scalar => 0x14,
            KeyFamily::Unique => 0x15,
            KeyFamily::TermDictionary => 0x16,
            KeyFamily::TermStatistic => 0x17,
            KeyFamily::TermPosting => 0x18,
            KeyFamily::Vector => 0x19,
            KeyFamily::ProjectionDelta => 0x1a,
            KeyFamily::Catalogue => 0x1b,
            KeyFamily::RuntimeCommit => 0x1c,
            KeyFamily::Outbox => 0x1d,
            KeyFamily::Audit => 0x1e,
            KeyFamily::EngineEvent => 0x1f,
            KeyFamily::System => 0x20,
        }
    }

    /// The family carried by a wire byte; the bytes `0x10..=0x20` are exactly
    /// the known families.
    pub fn try_from(value: u8) -> (r: Result<KeyFamily, KeyCodecError>)
        ensures
            match r {
                Ok(family) => family.spec_tag() == value && KeyFamily::spec_from_tag(value)
                    == Some(family),
                Err(_) => KeyFamily::spec_from_tag(value) is None,
            },
            r is Ok <==> 0x10 <= value <= 0x20,
    {
        if value == 0x10 {
            Ok(KeyFamily::Current)
        } else if value == 0x11 {
            Ok(KeyFamily::Temporal)
        } else if value == 0x12 {
            Ok(KeyFamily::OutgoingEdge)
        } else if value == 0x13 {
            Ok(KeyFamily::IncomingEdge)
        } else if value == 0x14 {
            Ok(KeyFamily::Scalar)
        } else if value == 0x15 {
            Ok(KeyFamily::Unique)
        } else if value == 0x16 {
            Ok(KeyFamily::TermDictionary)
        } else if value == 0x17 {
            Ok(KeyFamily::TermStatistic)
        } else if value == 0x18 {
            Ok(KeyFamily::TermPosting)
        } else if value == 0x19 {
            Ok(KeyFamily::Vector)
        } else if value == 0x1a {
            Ok(KeyFamily::ProjectionDelta)
        } else if value == 0x1b {
            Ok(KeyFamily::Catalogue)
        } else if value == 0x1c {
            Ok(KeyFamily::RuntimeCommit)
        } else if value == 0x1d {
            Ok(KeyFamily::Outbox)
        } else if value == 0x1e {
            Ok(KeyFamily::Audit)
        } else if value == 0x1f {
            Ok(KeyFamily::EngineEvent)
        } else if value == 0x20 {
            Ok(KeyFamily::System)
        } else {
            Err(KeyCodecError::new("unknown rrflowKV key family"))
        }
    }
}

/// Every family is recovered from its own wire byte, so distinct families have
/// distinct bytes.
pub proof fn lemma_family_tag_round_trip(family: KeyFamily)
    ensures
        KeyFamily::spec_from_tag(family.spec_tag()) == Some(family),
{
}

/// Stable catalogue subdivisions. Executable bytes are values addressed by a
/// content digest; a membership head never repeats those bytes.
#[derive(Debug, Clone, Copy, PartialEq, Eq, Structural)]
pub enum CatalogueSubfamily {
    FunctionArtifact,
    FunctionDefinition,
    TransactionFunctionBinding,
    Membership,
    Head,
    InvocationReceipt,
}

impl CatalogueSubfamily {
    pub open spec fn spec_tag(self) -> u8 {
        match self {
            CatalogueSubfamily::FunctionArtifact => 0x01,
            CatalogueSubfamily::FunctionDefinition => 0x02,
            CatalogueSubfamily::TransactionFunctionBinding => 0x03,
            CatalogueSubfamily::Membership => 0x04,
            CatalogueSubfamily::Head => 0x05,
            CatalogueSubfamily::InvocationReceipt => 0x06,
        }
    }

    /// The wire byte of this subfamily.
    pub fn tag(self) -> (b: u8)
        ensures
            b == self.spec_tag(),
    {
        match self {
            CatalogueSubfamily::FunctionArtifact => 0x01,
            CatalogueSubfamily::FunctionDefinition => 0x02,
            CatalogueSubfamily::TransactionFunctionBinding => 0x03,
            CatalogueSubfamily::Membership => 0x04,
            CatalogueSubfamily::Head => 0x05,
            CatalogueSubfamily::InvocationReceipt => 0x06,
        }
    }

    /// The subfamily carried by a wire byte; `1..=6` are exactly the known ones.
    pub fn try_from(value: u8) -> (r: Result<CatalogueSubfamily, KeyCodecError>)
        ensures
            match r {
                Ok(sub) => sub.spec_tag() == value,
                Err(_) => !(1 <= value <= 6),
            },
    {
        if value == 1 {
            Ok(CatalogueSubfamily::FunctionArtifact)
        } else if value == 2 {
            Ok(CatalogueSubfamily::FunctionDefinition)
        } else if value == 3 {
            Ok(CatalogueSubfamily::TransactionFunctionBinding)
        } else if value == 4 {
            Ok(CatalogueSubfamily::Membership)
        } else if value == 5 {
            Ok(CatalogueSubfamily::Head)
        } else if value == 6 {
            Ok(CatalogueSubfamily::InvocationReceipt)
        } else {
            Err(KeyCodecError::new("unknown rrflowKV catalogue subfamily"))
        }
    }
}

/// Why a byte string is not a canonical key.
#[derive(Debug, Clone, PartialEq, Eq)]
pub struct KeyCodecError {
    pub reason: &'static str,
}

impl KeyCodecError {
    pub fn new(reason: &'static str) -> (e: KeyCodecError)
        ensures
            e.reason == reason,
    {
        KeyCodecError { reason }
    }

    /// The reason, as text.
    pub fn message(&self) -> (s: &'static str)
        ensures
            s == self.reason,
    {
        self.reason
    }
}

/// Tenant and scope coordinates preceding every family.
#[derive(Debug, Clone, Copy, PartialEq, Eq)]
pub struct KeyAddress<'a> {
    pub tenant: Option<&'a str>,
    pub scope: Option<&'a str>,
}

/// The characters of an optional text coordinate.
pub open spec fn opt_text(value: Option<&str>) -> Option<Seq<char>> {
    match value {
        Some(text) => Some(text@),
        None => None,
    }
}

impl KeyAddress<'static> {
    /// The address with neither tenant nor scope.
    pub fn global() -> (a: KeyAddress<'static>)
        ensures
            a.tenant is None,
            a.scope is None,
    {
        KeyAddress { tenant: None, scope: None }
    }
}

/// The mathematical value of one tuple field.
pub enum KeyPartValue {
    Bytes(Seq<u8>),
    Text(Seq<char>),
    Bool(bool),
    U8(u8),
    U64(u64),
    I64(i64),
    DescU64(u64),
}

/// One typed tuple field.
#[derive(Debug, Clone, Copy, PartialEq, Eq)]
pub enum KeyPart<'a> {
    Bytes(&'a [u8]),
    Text(&'a str),
    Bool(bool),
    U8(u8),
    U64(u64),
    I64(i64),
    DescU64(u64),
}

impl<'a> View for KeyPart<'a> {
    type V = KeyPartValue;

    open spec fn view(&self) -> KeyPartValue {
        match *self {
            KeyPart::Bytes(b) => KeyPartValue::Bytes(b@),
            KeyPart::Text(t) => KeyPartValue::Text(t@),
            KeyPart::Bool(b) => KeyPartValue::Bool(b),
            KeyPart::U8(v) => KeyPartValue::U8(v),
            KeyPart::U64(v) => KeyPartValue::U64(v),
            KeyPart::I64(v) => KeyPartValue::I64(v),
            KeyPart::DescU64(v) => KeyPartValue::DescU64(v),
        }
    }
}

/// The values of a slice of tuple fields.
pub open spec fn part_values(parts: Seq<KeyPart<'_>>) -> Seq<KeyPartValue> {
    parts.map_values(|p: KeyPart<'_>| p@)
}

/// Owned form returned by strict decoding.
#[derive(Debug, Clone, PartialEq, Eq)]
pub enum DecodedKeyPart {
    Bytes(Vec<u8>),
    Text(String),
    Bool(bool),
    U8(u8),
    U64(u64),
    I64(i64),
    DescU64(u64),
}

impl View for DecodedKeyPart {
    type V = KeyPartValue;

    open spec fn view(&self) -> KeyPartValue {
        match self {
            DecodedKeyPart::Bytes(b) => KeyPartValue::Bytes(b@),
            DecodedKeyPart::Text(t) => KeyPartValue::Text(t@),
            DecodedKeyPart::Bool(b) => KeyPartValue::Bool(*b),
            DecodedKeyPart::U8(v) => KeyPartValue::U8(*v),
            DecodedKeyPart::U64(v) => KeyPartValue::U64(*v),
            DecodedKeyPart::I64(v) => KeyPartValue::I64(*v),
            DecodedKeyPart::DescU64(v) => KeyPartValue::DescU64(*v),
        }
    }
}

/// The mathematical value of a whole key.
#[verifier::ext_equal]
pub struct KeyValue {
    pub tenant: Option<Seq<char>>,
    pub scope: Option<Seq<char>>,
    pub family: KeyFamily,
    pub parts: Seq<KeyPartValue>,
}

/// Strictly decoded physical key.
#[derive(Debug, Clone, PartialEq, Eq)]
pub struct DecodedKey {
    pub tenant: Option<String>,
    pub scope: Option<String>,
    pub family: KeyFamily,
    pub parts: Vec<DecodedKeyPart>,
}

pub open spec fn opt_string(value: Option<String>) -> Option<Seq<char>> {
    match value {
        Some(text) => Some(text@),
        None => None,
    }
}

impl View for DecodedKey {
    type V = KeyValue;

    open spec fn view(&self) -> KeyValue {
        KeyValue {
            tenant: opt_string(self.tenant),
            scope: opt_string(self.scope),
            family: self.family,
            parts: self.parts@.map_values(|p: DecodedKeyPart| p@),
        }
    }
}

/// `n` zero bytes.
pub open spec fn zeros(n: nat) -> Seq<u8> {
    Seq::new(n, |i: int| 0u8)
}

/// Self-delimiting, order-preserving encoding of a byte string: full groups
/// of eight bytes followed by `0xff`, and a final group padded with zero
/// bytes and closed by `0xff` minus the padding length.
pub open spec fn spec_memcomparable(v: Seq<u8>) -> Seq<u8>
    decreases v.len(),
{
    if v.len() >= 8 {
        v.take(8).push(0xffu8) + spec_memcomparable(v.skip(8))
    } else {
        v + zeros((8 - v.len()) as nat) + seq![(0xff - (8 - v.len())) as u8]
    }
}

/// Encoding of an optional address coordinate.
pub open spec fn spec_encode_optional_text(value: Option<Seq<char>>) -> Seq<u8> {
    match value {
        None => seq![TAG_ABSENT],
        Some(chars) => seq![TAG_TEXT] + spec_memcomparable(encode_utf8(chars)),
    }
}

/// Signed integers ordered as unsigned bit patterns: flip the sign bit.
pub open spec fn i64_order_bits(value: i64) -> u64 {
    (value as u64) ^ 0x8000_0000_0000_0000u64
}

/// Encoding of one tuple field: its type tag and payload.
pub open spec fn spec_encode_part(part: KeyPartValue) -> Seq<u8> {
    match part {
        KeyPartValue::Bytes(b) => seq![TAG_BYTES] + spec_memcomparable(b),
        KeyPartValue::Text(t) => seq![TAG_TEXT] + spec_memcomparable(encode_utf8(t)),
        KeyPartValue::Bool(b) => seq![TAG_BOOL, if b { 1u8 } else { 0u8 }],
        KeyPartValue::U8(v) => seq![TAG_U8, v],
        KeyPartValue::U64(v) => seq![TAG_U64] + be64(v),
        KeyPartValue::I64(v) => seq![TAG_I64] + be64(i64_order_bits(v)),
        KeyPartValue::DescU64(v) => seq![TAG_DESC_U64] + be64(!v),
    }
}

/// Concatenated encodings of a tuple.
pub open spec fn spec_encode_parts(parts: Seq<KeyPartValue>) -> Seq<u8>
    decreases parts.len(),
{
    if parts.len() == 0 {
        seq![]
    } else {
        spec_encode_part(parts[0]) + spec_encode_parts(parts.drop_first())
    }
}

/// The complete encoding of a key or component-aligned prefix.
pub open spec fn spec_encode_key(
    tenant: Option<Seq<char>>,
    scope: Option<Seq<char>>,
    family: KeyFamily,
    parts: Seq<KeyPartValue>,
) -> Seq<u8> {
    seq![TAG_FORMAT] + be64(APPLICATION_FORMAT) + spec_encode_optional_text(tenant)
        + spec_encode_optional_text(scope) + seq![TAG_FAMILY, family.spec_tag()]
        + spec_encode_parts(parts)
}

/// The encoding of a key value.
pub open spec fn spec_encode_key_value(key: KeyValue) -> Seq<u8> {
    spec_encode_key(key.tenant, key.scope, key.family, key.parts)
}

proof fn lemma_encode_parts_push(parts: Seq<KeyPartValue>, part: KeyPartValue)
    ensures
        spec_encode_parts(parts.push(part)) == spec_encode_parts(parts) + spec_encode_part(part),
    decreases parts.len(),
{
    if parts.len() == 0 {
        assert(parts.push(part).drop_first() =~= Seq::<KeyPartValue>::empty());
        assert(spec_encode_parts(Seq::<KeyPartValue>::empty()) =~= Seq::<u8>::empty());
        assert(spec_encode_parts(parts.push(part)) =~= spec_encode_part(part));
        assert(spec_encode_parts(parts) =~= Seq::<u8>::empty());
    } else {
        assert(parts.push(part).drop_first() =~= parts.drop_first().push(part));
        lemma_encode_parts_push(parts.drop_first(), part);
        assert(spec_encode_parts(parts.push(part)) =~= spec_encode_parts(parts) + spec_encode_part(
            part,
        ));
    }
}

#[derive(Debug, Clone, Copy, PartialEq, Eq)]
pub struct KeyCodec;

impl KeyCodec {
    /// The codec for a manifest's application format, which must be the one
    /// frozen format.
    pub fn from_application_format(format: Option<u64>) -> (r: Option<KeyCodec>)
        ensures
            r is Some <==> format == Some(APPLICATION_FORMAT),
    {
        match format {
            Some(value) => if value == APPLICATION_FORMAT {
                Some(KeyCodec)
            } else {
                None
            },
            None => None,
        }
    }

    /// Encodes a complete key or a component-aligned range prefix.
    pub fn encode(self, address: KeyAddress<'_>, family: KeyFamily, parts: &[KeyPart<'_>]) -> (r:
        Vec<u8>)
        ensures
            r@ == spec_encode_key(
                opt_text(address.tenant),
                opt_text(address.scope),
                family,
                part_values(parts@),
            ),
    {
        let mut encoded: Vec<u8> = Vec::new();
        encoded.push(TAG_FORMAT);
        push_be64(&mut encoded, APPLICATION_FORMAT);
        encode_optional_text(&mut encoded, address.tenant);
        encode_optional_text(&mut encoded, address.scope);
        encoded.push(TAG_FAMILY);
        encoded.push(family.tag());
        let ghost head = encoded@;
        assert(head =~= seq![TAG_FORMAT] + be64(APPLICATION_FORMAT) + spec_encode_optional_text(
            opt_text(address.tenant),
        ) + spec_encode_optional_text(opt_text(address.scope)) + seq![TAG_FAMILY, family.spec_tag()]);
        let mut i: usize = 0;
        while i < parts.len()
            invariant
                i <= parts@.len(),
                encoded@ == head + spec_encode_parts(part_values(parts@.take(i as int))),
            decreases parts@.len() - i,
        {
            encode_part(&mut encoded, parts[i]);
            proof {
                let before = part_values(parts@.take(i as int));
                lemma_encode_parts_push(before, parts@[i as int]@);
                assert(part_values(parts@.take(i + 1)) =~= before.push(parts@[i as int]@));
            }
            i = i + 1;
        }
        assert(parts@.take(i as int) =~= parts@);
        assert(encoded@ =~= spec_encode_key(
            opt_text(address.tenant),
            opt_text(address.scope),
            family,
            part_values(parts@),
        ));
        encoded
    }
}

/// Appends the memcomparable encoding of `value`.
pub fn encode_memcomparable(out: &mut Vec<u8>, value: &[u8])
    ensures
        final(out)@ == old(out)@ + spec_memcomparable(value@),
{
    let mut offset: usize = 0;
    let mut done = false;
    assert(value@.skip(0) =~= value@);
    while !done
        invariant
            offset <= value@.len(),
            !done ==> out@ + spec_memcomparable(value@.skip(offset as int)) == old(out)@
                + spec_memcomparable(value@),
            done ==> out@ == old(out)@ + spec_memcomparable(value@),
        decreases value@.len() - offset + (if done {
            0int
        } else {
            1int
        }),
    {
        let ghost before = out@;
        let ghost rest = value@.skip(offset as int);
        let remaining = value.len() - offset;
        let take = if remaining < MEMCOMPARABLE_GROUP_BYTES {
            remaining
        } else {
            MEMCOMPARABLE_GROUP_BYTES
        };
        push_all(out, &value[offset..offset + take]);
        let padding = MEMCOMPARABLE_GROUP_BYTES - take;
        push_zeros(out, padding);
        out.push(MEMCOMPARABLE_FULL_GROUP - padding as u8);
        offset = offset + take;
        if padding != 0 {
            done = true;
            assert(value@.subrange((offset - take) as int, offset as int) =~= rest);
            assert(out@ =~= before + spec_memcomparable(rest));
        } else {
            assert(value@.subrange((offset - take) as int, offset as int) =~= rest.take(8));
            assert(rest.skip(8) =~= value@.skip(offset as int));
            assert(out@ =~= before + rest.take(8).push(0xffu8));
            assert(spec_memcomparable(rest) =~= rest.take(8).push(0xffu8) + spec_memcomparable(
                value@.skip(offset as int),
            ));
        }
    }
}

/// Appends the encoding of an optional address coordinate.
pub fn encode_optional_text(out: &mut Vec<u8>, value: Option<&str>)
    ensures
        final(out)@ == old(out)@ + spec_encode_optional_text(opt_text(value)),
{
    match value {
        None => {
            out.push(TAG_ABSENT);
            assert(out@ =~= old(out)@ + spec_encode_optional_text(opt_text(value)));
        },
        Some(text) => {
            out.push(TAG_TEXT);
            encode_memcomparable(out, text.as_bytes());
            assert(out@ =~= old(out)@ + spec_encode_optional_text(opt_text(value)));
        },
    }
}

/// Appends the encoding of one tuple field.
pub fn encode_part(out: &mut Vec<u8>, part: KeyPart<'_>)
    ensures
        final(out)@ == old(out)@ + spec_encode_part(part@),
{
    match part {
        KeyPart::Bytes(value) => {
            out.push(TAG_BYTES);
            encode_memcomparable(out, value);
        },
        KeyPart::Text(value) => {
            out.push(TAG_TEXT);
            encode_memcomparable(out, value.as_bytes());
        },
        KeyPart::Bool(value) => {
            out.push(TAG_BOOL);
            out.push(if value {
                1u8
            } else {
                0u8
            });
        },
        KeyPart::U8(value) => {
            out.push(TAG_U8);
            out.push(value);
        },
        KeyPart::U64(value) => {
            out.push(TAG_U64);
            push_be64(out, value);
        },
        KeyPart::I64(value) => {
            out.push(TAG_I64);
            push_be64(out, (value as u64) ^ 0x8000_0000_0000_0000u64);
        },
        KeyPart::DescU64(value) => {
            out.push(TAG_DESC_U64);
            push_be64(out, !value);
        },
    }
    assert(out@ =~= old(out)@ + spec_encode_part(part@));
}


/* ---------------------------------------------------------------------- */
/* Decoding: reading functions over the remaining bytes and their laws.   */
/* ---------------------------------------------------------------------- */

/// Reads one memcomparable field from the front of `b`: the decoded bytes and
/// the number of bytes consumed.
pub open spec fn spec_read_memcomparable(b: Seq<u8>) -> Option<(Seq<u8>, int)>
    decreases b.len(),
{
    if b.len() < 9 {
        None
    } else if b[8] < 0xf7 {
        None
    } else if b[8] != 0xff {
        let padding = 0xff - b[8];
        if b.subrange(8 - padding, 8) == zeros(padding as nat) {
            Some((b.take(8 - padding), 9))
        } else {
            None
        }
    } else {
        match spec_read_memcomparable(b.skip(9)) {
            Some((v, n)) => Some((b.take(8) + v, n + 9)),
            None => None,
        }
    }
}

/// Signed value of an order-preserving bit pattern.
pub open spec fn i64_from_order_bits(bits: u64) -> i64 {
    (bits ^ 0x8000_0000_0000_0000u64) as i64
}

/// Reads one tuple field from the front of `b`.
pub open spec fn spec_read_part(b: Seq<u8>) -> Option<(KeyPartValue, int)> {
    if b.len() == 0 {
        None
    } else {
        let tag = b[0];
        let rest = b.skip(1);
        if tag == TAG_BYTES {
            match spec_read_memcomparable(rest) {
                Some((v, n)) => Some((KeyPartValue::Bytes(v), n + 1)),
                None => None,
            }
        } else if tag == TAG_TEXT {
            match spec_read_memcomparable(rest) {
                Some((v, n)) => if valid_utf8(v) {
                    Some((KeyPartValue::Text(decode_utf8(v)), n + 1))
                } else {
                    None
                },
                None => None,
            }
        } else if tag == TAG_BOOL {
            if rest.len() >= 1 && rest[0] == 0 {
                Some((KeyPartValue::Bool(false), 2))
            } else if rest.len() >= 1 && rest[0] == 1 {
                Some((KeyPartValue::Bool(true), 2))
            } else {
                None
            }
        } else if tag == TAG_U8 {
            if rest.len() >= 1 {
                Some((KeyPartValue::U8(rest[0]), 2))
            } else {
                None
            }
        } else if tag == TAG_U64 {
            if rest.len() >= 8 {
                Some((KeyPartValue::U64(from_be64(rest)), 9))
            } else {
                None
            }
        } else if tag == TAG_I64 {
            if rest.len() >= 8 {
                Some((KeyPartValue::I64(i64_from_order_bits(from_be64(rest))), 9))
            } else {
                None
            }
        } else if tag == TAG_DESC_U64 {
            if rest.len() >= 8 {
                Some((KeyPartValue::DescU64(!from_be64(rest)), 9))
            } else {
                None
            }
        } else {
            None
        }
    }
}

/// Reads tuple fields until `b` is exhausted.
pub open spec fn spec_read_parts(b: Seq<u8>) -> Option<Seq<KeyPartValue>>
    decreases b.len(),
{
    if b.len() == 0 {
        Some(seq![])
    } else {
        match spec_read_part(b) {
            Some((p, n)) => if 0 < n <= b.len() {
                match spec_read_parts(b.skip(n)) {
                    Some(ps) => Some(seq![p] + ps),
                    None => None,
                }
            } else {
                None
            },
            None => None,
        }
    }
}

/// Reads an optional address coordinate from the front of `b`.
pub open spec fn spec_read_optional_text(b: Seq<u8>) -> Option<(Option<Seq<char>>, int)> {
    if b.len() == 0 {
        None
    } else if b[0] == TAG_ABSENT {
        Some((None, 1))
    } else if b[0] == TAG_TEXT {
        match spec_read_memcomparable(b.skip(1)) {
            Some((v, n)) => if valid_utf8(v) {
                Some((Some(decode_utf8(v)), n + 1))
            } else {
                None
            },
            None => None,
        }
    } else {
        None
    }
}

/// Reads a complete key.
pub open spec fn spec_decode_key(b: Seq<u8>) -> Option<KeyValue> {
    if b.len() < 9 || b[0] != TAG_FORMAT || from_be64(b.skip(1)) != APPLICATION_FORMAT {
        None
    } else {
        match spec_read_optional_text(b.skip(9)) {
            Some((tenant, n1)) => match spec_read_optional_text(b.skip(9 + n1)) {
                Some((scope, n2)) => {
                    let p = 9 + n1 + n2;
                    if b.len() >= p + 2 && b[p] == TAG_FAMILY {
                        match KeyFamily::spec_from_tag(b[p + 1]) {
                            Some(family) => match spec_read_parts(b.skip(p + 2)) {
                                Some(parts) => Some(
                                    KeyValue { tenant, scope, family, parts },
                                ),
                                None => None,
                            },
                            None => None,
                        }
                    } else {
                        None
                    }
                },
                None => None,
            },
            None => None,
        }
    }
}

proof fn lemma_from_be64_prefix(a: Seq<u8>, rest: Seq<u8>)
    requires
        a.len() >= 8,
    ensures
        from_be64(a + rest) == from_be64(a),
        from_be64(a) == from_be64(a.take(8)),
{
    assert((a + rest)[0] == a[0]);
    assert((a + rest)[1] == a[1]);
    assert((a + rest)[2] == a[2]);
    assert((a + rest)[3] == a[3]);
    assert((a + rest)[4] == a[4]);
    assert((a + rest)[5] == a[5]);
    assert((a + rest)[6] == a[6]);
    assert((a + rest)[7] == a[7]);
}

proof fn lemma_order_bits(v: i64, x: u64)
    by (bit_vector)
    ensures
        ((((v as u64) ^ 0x8000_0000_0000_0000u64) ^ 0x8000_0000_0000_0000u64) as i64) == v,
        (((x ^ 0x8000_0000_0000_0000u64) as i64) as u64) ^ 0x8000_0000_0000_0000u64 == x,
        !(!x) == x,
{
}

proof fn lemma_memcomparable_len(v: Seq<u8>)
    ensures
        spec_memcomparable(v).len() >= 9,
    decreases v.len(),
{
    if v.len() >= 8 {
        lemma_memcomparable_len(v.skip(8));
    }
}

/// Reading the memcomparable encoding of `v` gives back `v` and consumes
/// exactly the encoding, whatever follows it.
pub proof fn lemma_read_memcomparable_of_encoding(v: Seq<u8>, rest: Seq<u8>)
    ensures
        spec_read_memcomparable(spec_memcomparable(v) + rest) == Some(
            (v, spec_memcomparable(v).len() as int),
        ),
    decreases v.len(),
{
    let b = spec_memcomparable(v) + rest;
    lemma_memcomparable_len(v);
    if v.len() >= 8 {
        let tail = spec_memcomparable(v.skip(8));
        assert(b[8] == 0xffu8);
        assert(b.skip(9) =~= tail + rest);
        lemma_read_memcomparable_of_encoding(v.skip(8), rest);
        assert(b.take(8) + v.skip(8) =~= v);
    } else {
        let padding = 8 - v.len();
        assert(b[8] == (0xff - padding) as u8);
        assert(b.subrange(8 - padding, 8) =~= zeros(padding as nat));
        assert(b.take(8 - padding) =~= v);
    }
}

/// Whatever the reader accepts is the exact encoding of what it returns.
pub proof fn lemma_read_memcomparable_sound(b: Seq<u8>)
    ensures
        spec_read_memcomparable(b) matches Some((v, n)) ==> 9 <= n <= b.len() && b.take(n)
            == spec_memcomparable(v),
    decreases b.len(),
{
    if let Some((v, n)) = spec_read_memcomparable(b) {
        if b[8] != 0xff {
            let padding = 0xff - b[8];
            assert(v.len() == 8 - padding);
            assert(b.take(9) =~= v + zeros(padding as nat) + seq![b[8]]);
        } else {
            lemma_read_memcomparable_sound(b.skip(9));
            let (w, m) = spec_read_memcomparable(b.skip(9)).unwrap();
            assert(v =~= b.take(8) + w);
            assert(v.take(8) =~= b.take(8));
            assert(v.skip(8) =~= w);
            assert(b.take(n) =~= b.take(8).push(0xffu8) + b.skip(9).take(m));
        }
    }
}

/// Reading the encoding of one field gives back the field.
pub proof fn lemma_read_part_of_encoding(p: KeyPartValue, rest: Seq<u8>)
    ensures
        spec_read_part(spec_encode_part(p) + rest) == Some((p, spec_encode_part(p).len() as int)),
{
    let b = spec_encode_part(p) + rest;
    match p {
        KeyPartValue::Bytes(v) => {
            assert(b.skip(1) =~= spec_memcomparable(v) + rest);
            lemma_read_memcomparable_of_encoding(v, rest);
        },
        KeyPartValue::Text(t) => {
            assert(b.skip(1) =~= spec_memcomparable(encode_utf8(t)) + rest);
            lemma_read_memcomparable_of_encoding(encode_utf8(t), rest);
        },
        KeyPartValue::Bool(v) => {
        },
        KeyPartValue::U8(v) => {
        },
        KeyPartValue::U64(v) => {
            assert(b.skip(1) =~= be64(v) + rest);
            lemma_from_be64_of_be64(v);
            lemma_from_be64_prefix(be64(v), rest);
        },
        KeyPartValue::I64(v) => {
            assert(b.skip(1) =~= be64(i64_order_bits(v)) + rest);
            lemma_from_be64_of_be64(i64_order_bits(v));
            lemma_from_be64_prefix(be64(i64_order_bits(v)), rest);
            lemma_order_bits(v, 0);
        },
        KeyPartValue::DescU64(v) => {
            assert(b.skip(1) =~= be64(!v) + rest);
            lemma_from_be64_of_be64(!v);
            lemma_from_be64_prefix(be64(!v), rest);
            lemma_order_bits(0, v);
        },
    }
}

/// Whatever the field reader accepts is the exact encoding of the field.
pub proof fn lemma_read_part_sound(b: Seq<u8>)
    ensures
        spec_read_part(b) matches Some((p, n)) ==> 2 <= n <= b.len() && b.take(n)
            == spec_encode_part(p),
{
    if let Some((p, n)) = spec_read_part(b) {
        let rest = b.skip(1);
        let tag = b[0];
        if tag == TAG_BYTES || tag == TAG_TEXT {
            lemma_read_memcomparable_sound(rest);
            let (v, m) = spec_read_memcomparable(rest).unwrap();
            assert(b.take(n) =~= seq![tag] + rest.take(m));
        } else if tag == TAG_BOOL || tag == TAG_U8 {
            assert(b.take(n) =~= seq![tag, rest[0]]);
        } else {
            let x = from_be64(rest);
            lemma_from_be64_prefix(rest, seq![]);
            assert(rest + seq![] =~= rest);
            lemma_be64_of_from_be64(rest.take(8));
            lemma_order_bits(0, x);
            assert(b.take(n) =~= seq![tag] + rest.take(8));
        }
    }
}

/// Reading the encoding of a tuple gives back the tuple.
pub proof fn lemma_read_parts_of_encoding(parts: Seq<KeyPartValue>)
    ensures
        spec_read_parts(spec_encode_parts(parts)) == Some(parts),
    decreases parts.len(),
{
    if parts.len() > 0 {
        let head = spec_encode_part(parts[0]);
        let tail = spec_encode_parts(parts.drop_first());
        lemma_read_part_of_encoding(parts[0], tail);
        lemma_read_part_sound(head + tail);
        assert((head + tail).skip(head.len() as int) =~= tail);
        lemma_read_parts_of_encoding(parts.drop_first());
        assert(seq![parts[0]] + parts.drop_first() =~= parts);
    } else {
        assert(spec_encode_parts(parts) =~= Seq::<u8>::empty());
    }
}

/// Whatever the tuple reader accepts is the exact encoding of the tuple.
pub proof fn lemma_read_parts_sound(b: Seq<u8>)
    ensures
        spec_read_parts(b) matches Some(ps) ==> spec_encode_parts(ps) == b,
    decreases b.len(),
{
    if b.len() == 0 {
        assert(spec_encode_parts(seq![]) =~= b);
    } else if let Some(ps) = spec_read_parts(b) {
        let (p, n) = spec_read_part(b).unwrap();
        lemma_read_part_sound(b);
        lemma_read_parts_sound(b.skip(n));
        let tail = spec_read_parts(b.skip(n)).unwrap();
        assert(ps[0] == p);
        assert(ps.drop_first() =~= tail);
        assert(b =~= b.take(n) + b.skip(n));
    }
}

proof fn lemma_read_optional_text_of_encoding(t: Option<Seq<char>>, rest: Seq<u8>)
    ensures
        spec_read_optional_text(spec_encode_optional_text(t) + rest) == Some(
            (t, spec_encode_optional_text(t).len() as int),
        ),
{
    let b = spec_encode_optional_text(t) + rest;
    if let Some(chars) = t {
        assert(b.skip(1) =~= spec_memcomparable(encode_utf8(chars)) + rest);
        lemma_read_memcomparable_of_encoding(encode_utf8(chars), rest);
    }
}

proof fn lemma_read_optional_text_sound(b: Seq<u8>)
    ensures
        spec_read_optional_text(b) matches Some((t, n)) ==> 1 <= n <= b.len() && b.take(n)
            == spec_encode_optional_text(t),
{
    if let Some((t, n)) = spec_read_optional_text(b) {
        if b[0] == TAG_TEXT {
            lemma_read_memcomparable_sound(b.skip(1));
            let (v, m) = spec_read_memcomparable(b.skip(1)).unwrap();
            assert(b.take(n) =~= seq![b[0]] + b.skip(1).take(m));
        } else {
            assert(b.take(n) =~= seq![b[0]]);
        }
    }
}

/// Decoding the encoding of any key gives back that key.
pub proof fn lemma_decode_of_encode(key: KeyValue)
    ensures
        spec_decode_key(spec_encode_key_value(key)) == Some(key),
{
    let b = spec_encode_key_value(key);
    let t = spec_encode_optional_text(key.tenant);
    let s = spec_encode_optional_text(key.scope);
    let ps = spec_encode_parts(key.parts);
    let fam = seq![TAG_FAMILY, key.family.spec_tag()];
    let head = seq![TAG_FORMAT] + be64(APPLICATION_FORMAT);
    assert(b =~= head + t + s + fam + ps);
    lemma_from_be64_of_be64(APPLICATION_FORMAT);
    assert(b.skip(1) =~= be64(APPLICATION_FORMAT) + (t + s + fam + ps));
    lemma_from_be64_prefix(be64(APPLICATION_FORMAT), t + s + fam + ps);
    assert(b.skip(9) =~= t + (s + fam + ps));
    lemma_read_optional_text_of_encoding(key.tenant, s + fam + ps);
    assert(b.skip(9 + t.len() as int) =~= s + (fam + ps));
    lemma_read_optional_text_of_encoding(key.scope, fam + ps);
    let p: int = (9 + t.len() + s.len()) as int;
    assert(b[p] == TAG_FAMILY);
    assert(b[p + 1] == key.family.spec_tag());
    lemma_family_tag_round_trip(key.family);
    assert(b.skip(p + 2) =~= ps);
    lemma_read_parts_of_encoding(key.parts);
}

/// Whatever the key decoder accepts is the exact encoding of the key it returns.
pub proof fn lemma_decode_sound(b: Seq<u8>)
    ensures
        spec_decode_key(b) matches Some(key) ==> spec_encode_key_value(key) == b,
{
    if let Some(key) = spec_decode_key(b) {
        let (tenant, n1) = spec_read_optional_text(b.skip(9)).unwrap();
        lemma_read_optional_text_sound(b.skip(9));
        let (scope, n2) = spec_read_optional_text(b.skip(9 + n1)).unwrap();
        lemma_read_optional_text_sound(b.skip(9 + n1));
        let p = 9 + n1 + n2;
        lemma_read_parts_sound(b.skip(p + 2));
        lemma_be64_of_from_be64(b.skip(1).take(8));
        lemma_from_be64_prefix(b.skip(1), seq![]);
        assert(b.skip(1) + seq![] =~= b.skip(1));
        assert(b.skip(1).take(8) =~= b.subrange(1, 9));
        assert(KeyFamily::spec_from_tag(b[p + 1]) == Some(key.family));
        assert(b =~= seq![b[0]] + b.subrange(1, 9) + b.skip(9).take(n1) + b.skip(9 + n1).take(n2)
            + seq![b[p], b[p + 1]] + b.skip(p + 2));
    }
}

/// Two keys with the same encoding are the same key.
pub proof fn lemma_encode_injective(a: KeyValue, b: KeyValue)
    requires
        spec_encode_key_value(a) == spec_encode_key_value(b),
    ensures
        a == b,
{
    lemma_decode_of_encode(a);
    lemma_decode_of_encode(b);
}

/* ---------------------------------------------------------------------- */
/* Executable decoding.                                                     */
/* ---------------------------------------------------------------------- */

/// Converts bytes that are UTF-8 to a `String`.
#[verifier::external_body]
pub(crate) fn utf8_text(bytes: Vec<u8>) -> (r: Option<String>)
    ensures
        match r {
            Some(text) => valid_utf8(bytes@) && text@ == decode_utf8(bytes@),
            None => !valid_utf8(bytes@),
        },
{
    String::from_utf8(bytes).ok()
}

fn all_zero(bytes: &[u8], start: usize, end: usize) -> (b: bool)
    requires
        start <= end <= bytes@.len(),
    ensures
        b <==> bytes@.subrange(start as int, end as int) == zeros((end - start) as nat),
{
    let mut i = start;
    while i < end
        invariant
            start <= i <= end,
            end <= bytes@.len(),
            forall|j: int| start <= j < i ==> bytes@[j] == 0,
        decreases end - i,
    {
        if bytes[i] != 0 {
            assert(bytes@.subrange(start as int, end as int)[i - start] != zeros(
                (end - start) as nat,
            )[i - start]);
            return false;
        }
        i = i + 1;
    }
    assert(bytes@.subrange(start as int, end as int) =~= zeros((end - start) as nat));
    true
}

fn push_range(out: &mut Vec<u8>, bytes: &[u8], start: usize, end: usize)
    requires
        start <= end <= bytes@.len(),
    ensures
        final(out)@ == old(out)@ + bytes@.subrange(start as int, end as int),
{
    push_all(out, &bytes[start..end]);
}

/// Reads one memcomparable field starting at `pos`; returns the bytes and
/// the position after the field.
pub fn read_memcomparable(bytes: &[u8], pos: usize) -> (r: Result<(Vec<u8>, usize), KeyCodecError>)
    requires
        pos <= bytes@.len(),
    ensures
        match r {
            Ok((v, next)) => next <= bytes@.len() && spec_read_memcomparable(
                bytes@.skip(pos as int),
            ) == Some((v@, next - pos)),
            Err(_) => spec_read_memcomparable(bytes@.skip(pos as int)) is None,
        },
{
    let mut decoded: Vec<u8> = Vec::new();
    let mut cur = pos;
    assert(decoded@ + Seq::<u8>::empty() =~= Seq::<u8>::empty());
    loop
        invariant
            pos <= cur <= bytes@.len(),
            spec_read_memcomparable(bytes@.skip(pos as int)) == match spec_read_memcomparable(
                bytes@.skip(cur as int),
            ) {
                Some((v, n)) => Some((decoded@ + v, n + (cur - pos))),
                None => None::<(Seq<u8>, int)>,
            },
        decreases bytes@.len() - cur,
    {
        let ghost b = bytes@.skip(cur as int);
        if bytes.len() - cur < MEMCOMPARABLE_GROUP_BYTES + 1 {
            return Err(KeyCodecError::new("rrflowKV variable-width field is truncated"));
        }
        let marker = bytes[cur + 8];
        assert(b[8] == marker);
        if marker < MEMCOMPARABLE_FULL_GROUP - 8 {
            return Err(
                KeyCodecError::new("rrflowKV variable-width field has an invalid length marker"),
            );
        }
        let padding = (MEMCOMPARABLE_FULL_GROUP - marker) as usize;
        if padding != 0 {
            if !all_zero(bytes, cur + 8 - padding, cur + 8) {
                assert(b.subrange(8 - padding, 8) =~= bytes@.subrange(
                    (cur + 8 - padding) as int,
                    (cur + 8) as int,
                ));
                return Err(
                    KeyCodecError::new("rrflowKV variable-width field has non-canonical padding"),
                );
            }
            assert(b.subrange(8 - padding, 8) =~= bytes@.subrange(
                (cur + 8 - padding) as int,
                (cur + 8) as int,
            ));
            let ghost before = decoded@;
            push_range(&mut decoded, bytes, cur, cur + 8 - padding);
            assert(b.take(8 - padding) =~= bytes@.subrange(cur as int, (cur + 8 - padding) as int));
            assert(decoded@ =~= before + b.take(8 - padding));
            return Ok((decoded, cur + 9));
        }
        let ghost before = decoded@;
        push_range(&mut decoded, bytes, cur, cur + 8);
        assert(b.take(8) =~= bytes@.subrange(cur as int, (cur + 8) as int));
        assert(b.skip(9) =~= bytes@.skip((cur + 9) as int));
        proof {
            match spec_read_memcomparable(bytes@.skip((cur + 9) as int)) {
                Some((v, n)) => {
                    assert(before + (b.take(8) + v) =~= decoded@ + v);
                },
                None => {
                },
            }
        }
        cur = cur + 9;
    }
}

/// Reads one tuple field starting at `pos`.
pub fn read_part(bytes: &[u8], pos: usize) -> (r: Result<(DecodedKeyPart, usize), KeyCodecError>)
    requires
        pos <= bytes@.len(),
    ensures
        match r {
            Ok((part, next)) => next <= bytes@.len() && spec_read_part(bytes@.skip(pos as int))
                == Some((part@, next - pos)),
            Err(_) => spec_read_part(bytes@.skip(pos as int)) is None,
        },
{
    let ghost b = bytes@.skip(pos as int);
    if pos >= bytes.len() {
        return Err(KeyCodecError::new("rrflowKV tuple has a partial field"));
    }
    let tag = bytes[pos];
    let start = pos + 1;
    assert(b.skip(1) =~= bytes@.skip(start as int));
    if tag == TAG_BYTES {
        let (value, next) = read_memcomparable(bytes, start)?;
        Ok((DecodedKeyPart::Bytes(value), next))
    } else if tag == TAG_TEXT {
        let (value, next) = read_memcomparable(bytes, start)?;
        match utf8_text(value) {
            Some(text) => Ok((DecodedKeyPart::Text(text), next)),
            None => Err(KeyCodecError::new("rrflowKV text field is not UTF-8")),
        }
    } else if tag == TAG_BOOL {
        if start >= bytes.len() {
            return Err(KeyCodecError::new("rrflowKV bool field is truncated"));
        }
        let value = bytes[start];
        if value == 0 {
            Ok((DecodedKeyPart::Bool(false), start + 1))
        } else if value == 1 {
            Ok((DecodedKeyPart::Bool(true), start + 1))
        } else {
            Err(KeyCodecError::new("rrflowKV bool field is non-canonical"))
        }
    } else if tag == TAG_U8 {
        if start >= bytes.len() {
            return Err(KeyCodecError::new("rrflowKV u8 field is truncated"));
        }
        Ok((DecodedKeyPart::U8(bytes[start]), start + 1))
    } else if tag == TAG_U64 || tag == TAG_I64 || tag == TAG_DESC_U64 {
        if bytes.len() - start < 8 {
            return Err(KeyCodecError::new("rrflowKV fixed-width field is truncated"));
        }
        let raw = read_be64(bytes, start);
        proof {
            lemma_from_be64_prefix(b.skip(1), seq![]);
            assert(b.skip(1) + seq![] =~= b.skip(1));
            assert(b.skip(1).take(8) =~= bytes@.subrange(start as int, start + 8));
            lemma_from_be64_prefix(bytes@.subrange(start as int, start + 8), seq![]);
        }
        if tag == TAG_U64 {
            Ok((DecodedKeyPart::U64(raw), start + 8))
        } else if tag == TAG_I64 {
            Ok((DecodedKeyPart::I64((raw ^ 0x8000_0000_0000_0000u64) as i64), start + 8))
        } else {
            Ok((DecodedKeyPart::DescU64(!raw), start + 8))
        }
    } else {
        Err(KeyCodecError::new("unknown rrflowKV tuple field type"))
    }
}

/// Reads an optional address coordinate starting at `pos`.
pub fn read_optional_text(bytes: &[u8], pos: usize) -> (r: Result<(Option<String>, usize), KeyCodecError>)
    requires
        pos <= bytes@.len(),
    ensures
        match r {
            Ok((text, next)) => next <= bytes@.len() && spec_read_optional_text(
                bytes@.skip(pos as int),
            ) == Some((opt_string(text), next - pos)),
            Err(_) => spec_read_optional_text(bytes@.skip(pos as int)) is None,
        },
{
    let ghost b = bytes@.skip(pos as int);
    if pos >= bytes.len() {
        return Err(KeyCodecError::new("rrflowKV key lacks an address component"));
    }
    let tag = bytes[pos];
    assert(b.skip(1) =~= bytes@.skip(pos + 1));
    if tag == TAG_ABSENT {
        Ok((None, pos + 1))
    } else if tag == TAG_TEXT {
        let (value, next) = read_memcomparable(bytes, pos + 1)?;
        match utf8_text(value) {
            Some(text) => Ok((Some(text), next)),
            None => Err(KeyCodecError::new("rrflowKV address component is not UTF-8")),
        }
    } else {
        Err(KeyCodecError::new("rrflowKV address component has the wrong type"))
    }
}

/// Reads tuple fields from `pos` to the end.
fn read_parts(bytes: &[u8], pos: usize) -> (r: Result<Vec<DecodedKeyPart>, KeyCodecError>)
    requires
        pos <= bytes@.len(),
    ensures
        match r {
            Ok(parts) => spec_read_parts(bytes@.skip(pos as int)) == Some(
                parts@.map_values(|p: DecodedKeyPart| p@),
            ),
            Err(_) => spec_read_parts(bytes@.skip(pos as int)) is None,
        },
{
    let mut parts: Vec<DecodedKeyPart> = Vec::new();
    let mut cur = pos;
    while cur < bytes.len()
        invariant
            pos <= cur <= bytes@.len(),
            spec_read_parts(bytes@.skip(pos as int)) == match spec_read_parts(
                bytes@.skip(cur as int),
            ) {
                Some(ps) => Some(parts@.map_values(|p: DecodedKeyPart| p@) + ps),
                None => None::<Seq<KeyPartValue>>,
            },
        decreases bytes@.len() - cur,
    {
        let ghost b = bytes@.skip(cur as int);
        let (part, next) = read_part(bytes, cur)?;
        proof {
            lemma_read_part_sound(b);
            assert(b.skip(next - cur) =~= bytes@.skip(next as int));
            let ghost before = parts@.map_values(|p: DecodedKeyPart| p@);
            match spec_read_parts(bytes@.skip(next as int)) {
                Some(ps) => {
                    assert(before.push(part@) + ps =~= before + (seq![part@] + ps));
                },
                None => {
                },
            }
        }
        let ghost before_parts = parts@;
        parts.push(part);
        assert(parts@.map_values(|p: DecodedKeyPart| p@) =~= before_parts.map_values(
            |p: DecodedKeyPart| p@,
        ).push(parts@[parts@.len() - 1]@));
        cur = next;
    }
    proof {
        assert(bytes@.skip(cur as int) =~= Seq::<u8>::empty());
        assert(parts@.map_values(|p: DecodedKeyPart| p@) + seq![] =~= parts@.map_values(
            |p: DecodedKeyPart| p@,
        ));
    }
    Ok(parts)
}

impl KeyCodec {
    /// Decodes an entire key and rejects unknown tags, malformed lengths,
    /// non-canonical padding, invalid UTF-8, and trailing partial fields.
    /// A byte string is accepted exactly when it is the encoding of a key,
    /// and the key returned is the one it encodes.
    pub fn decode(self, encoded: &[u8]) -> (r: Result<DecodedKey, KeyCodecError>)
        ensures
            match r {
                Ok(key) => spec_encode_key_value(key@) == encoded@ && spec_decode_key(encoded@)
                    == Some(key@),
                Err(_) => forall|key: KeyValue| spec_encode_key_value(key) != encoded@,
            },
    {
        let r = self.decode_inner(encoded);
        proof {
            lemma_decode_sound(encoded@);
            if r is Err {
                assert forall|key: KeyValue| spec_encode_key_value(key) != encoded@ by {
                    lemma_decode_of_encode(key);
                }
            }
        }
        r
    }

    fn decode_inner(self, encoded: &[u8]) -> (r: Result<DecodedKey, KeyCodecError>)
        ensures
            match r {
                Ok(key) => spec_decode_key(encoded@) == Some(key@),
                Err(_) => spec_decode_key(encoded@) is None,
            },
    {
        if encoded.len() < 1 || encoded[0] != TAG_FORMAT {
            return Err(KeyCodecError::new("rrflowKV key lacks its format field"));
        }
        if encoded.len() < 9 {
            return Err(KeyCodecError::new("rrflowKV key has a truncated format field"));
        }
        let format = read_be64(encoded, 1);
        proof {
            lemma_from_be64_prefix(encoded@.skip(1), seq![]);
            assert(encoded@.skip(1) + seq![] =~= encoded@.skip(1));
            assert(encoded@.skip(1).take(8) =~= encoded@.subrange(1, 9));
            lemma_from_be64_prefix(encoded@.subrange(1, 9), seq![]);
            assert(encoded@.subrange(1, 9) + seq![] =~= encoded@.subrange(1, 9));
        }
        if format != APPLICATION_FORMAT {
            return Err(KeyCodecError::new("unsupported rrflowKV key format"));
        }
        let (tenant, after_tenant) = read_optional_text(encoded, 9)?;
        let (scope, after_scope) = read_optional_text(encoded, after_tenant)?;
        proof {
            lemma_read_optional_text_sound(encoded@.skip(9));
        }
        assert(encoded@.skip(9).skip(after_tenant - 9) =~= encoded@.skip(after_tenant as int));
        if after_scope >= encoded.len() || encoded[after_scope] != TAG_FAMILY {
            return Err(KeyCodecError::new("rrflowKV key lacks its family field"));
        }
        if after_scope + 1 >= encoded.len() {
            return Err(KeyCodecError::new("rrflowKV key lacks its family byte"));
        }
        let family = KeyFamily::try_from(encoded[after_scope + 1])?;
        let parts = read_parts(encoded, after_scope + 2)?;
        Ok(DecodedKey { tenant, scope, family, parts })
    }
}

/// The exclusive upper bound of the range of keys that begin with `prefix`:
/// drop trailing `0xff` bytes and increment the last remaining byte. A
/// prefix made only of `0xff` bytes (or empty) has no upper bound.
pub open spec fn spec_prefix_end(prefix: Seq<u8>) -> Option<Seq<u8>>
    decreases prefix.len(),
{
    if prefix.len() == 0 {
        None
    } else if prefix.last() == 0xff {
        spec_prefix_end(prefix.drop_last())
    } else {
        Some(prefix.drop_last().push((prefix.last() + 1) as u8))
    }
}

/// Exclusive upper bound for a byte prefix.
pub fn prefix_end(prefix: &[u8]) -> (r: Option<Vec<u8>>)
    ensures
        match r {
            Some(end) => spec_prefix_end(prefix@) == Some(end@),
            None => spec_prefix_end(prefix@) is None,
        },
{
    let mut len = prefix.len();
    assert(prefix@.take(len as int) =~= prefix@);
    while len > 0 && prefix[len - 1] == 0xff
        invariant
            len <= prefix@.len(),
            spec_prefix_end(prefix@) == spec_prefix_end(prefix@.take(len as int)),
        decreases len,
    {
        assert(prefix@.take(len as int).drop_last() =~= prefix@.take(len - 1));
        len = len - 1;
    }
    if len == 0 {
        assert(prefix@.take(0) =~= Seq::<u8>::empty());
        return None;
    }
    let mut end: Vec<u8> = Vec::new();
    push_all(&mut end, &prefix[0..len - 1]);
    end.push(prefix[len - 1] + 1);
    assert(prefix@.take(len as int).drop_last() =~= prefix@.subrange(0, len - 1));
    Some(end)
}


/// `key` begins with `prefix`.
pub open spec fn starts_with(key: Seq<u8>, prefix: Seq<u8>) -> bool {
    prefix.len() <= key.len() && key.take(prefix.len() as int) == prefix
}

/// Every byte of `s` is `0xff`.
pub open spec fn all_ff(s: Seq<u8>) -> bool {
    forall|i: int| 0 <= i < s.len() ==> s[i] == 0xff
}

pub proof fn lemma_prefix_end_none_iff_all_ff(p: Seq<u8>)
    ensures
        spec_prefix_end(p) is None <==> all_ff(p),
    decreases p.len(),
{
    if p.len() > 0 {
        lemma_prefix_end_none_iff_all_ff(p.drop_last());
        if p.last() == 0xff {
            assert forall|i: int| 0 <= i < p.len() && all_ff(p.drop_last()) implies p[i] == 0xff by {
                if i < p.len() - 1 {
                    assert(p[i] == p.drop_last()[i]);
                }
            }
        }
    }
}

/// `spec_prefix_end` seen from the front of the prefix.
proof fn lemma_prefix_end_front(x: u8, p: Seq<u8>)
    ensures
        spec_prefix_end(seq![x] + p) == match spec_prefix_end(p) {
            Some(e) => Some(seq![x] + e),
            None => if x != 0xff {
                Some(seq![(x + 1) as u8])
            } else {
                None
            },
        },
    decreases p.len(),
{
    let whole = seq![x] + p;
    if p.len() == 0 {
        assert(whole =~= seq![x]);
        assert(whole.drop_last() =~= Seq::<u8>::empty());
        assert(whole.drop_last().push((x + 1) as u8) =~= seq![(x + 1) as u8]);
        assert(spec_prefix_end(Seq::<u8>::empty()) is None);
        if x == 0xff {
            assert(spec_prefix_end(whole) == spec_prefix_end(whole.drop_last()));
        }
        assert(spec_prefix_end(p) is None);
    } else {
        assert(whole.drop_last() =~= seq![x] + p.drop_last());
        assert(whole.last() == p.last());
        lemma_prefix_end_front(x, p.drop_last());
        if p.last() != 0xff {
            assert(whole.drop_last().push((p.last() + 1) as u8) =~= seq![x] + p.drop_last().push(
                (p.last() + 1) as u8,
            ));
        }
    }
}

proof fn lemma_cons_order(x: u8, a: Seq<u8>, b: Seq<u8>)
    ensures
        lex_lt(seq![x] + a, seq![x] + b) == lex_lt(a, b),
        lex_le(seq![x] + a, seq![x] + b) == lex_le(a, b),
        starts_with(seq![x] + b, seq![x] + a) == starts_with(b, a),
{
    let xa = seq![x] + a;
    let xb = seq![x] + b;
    assert(xa.drop_first() =~= a);
    assert(xb.drop_first() =~= b);
    if xa == xb {
        assert(a == b);
    }
    if a == b {
        assert(xa =~= xb);
    }
    if starts_with(xb, xa) {
        assert(b.take(a.len() as int) =~= xb.take(xa.len() as int).drop_first());
    }
    if starts_with(b, a) {
        assert(xb.take(xa.len() as int) =~= seq![x] + b.take(a.len() as int));
    }
}

proof fn lemma_all_ff_le_iff_prefix(p: Seq<u8>, k: Seq<u8>)
    requires
        all_ff(p),
    ensures
        lex_le(p, k) <==> starts_with(k, p),
    decreases p.len(),
{
    if p.len() == 0 {
        assert(k.take(0) =~= p);
        if k.len() > 0 {
            assert(lex_lt(p, k));
        } else {
            assert(p =~= k);
        }
    } else if k.len() == 0 {
    } else {
        assert(p[0] == 0xff);
        if k[0] == 0xff {
            let p1 = p.drop_first();
            let k1 = k.drop_first();
            assert(all_ff(p1)) by {
                assert forall|i: int| 0 <= i < p1.len() implies p1[i] == 0xff by {
                    assert(p1[i] == p[i + 1]);
                }
            }
            lemma_all_ff_le_iff_prefix(p1, k1);
            assert(p =~= seq![0xffu8] + p1);
            assert(k =~= seq![0xffu8] + k1);
            lemma_cons_order(0xffu8, p1, k1);
            assert(lex_le(p, k) == lex_le(p1, k1));
            assert(starts_with(k, p) == starts_with(k1, p1));
        } else {
            if p.len() <= k.len() {
                assert(k.take(p.len() as int)[0] != p[0]);
            }
            assert(!starts_with(k, p));
            assert(!lex_lt(p, k));
            assert(p != k);
        }
    }
}

/// The exact-range law of prefix scans: when a prefix has an upper bound,
/// a key begins with the prefix if and only if it lies in the half-open
/// range `[prefix, end)` in bytewise order.
pub proof fn lemma_prefix_end_exact_range(prefix: Seq<u8>, key: Seq<u8>)
    requires
        spec_prefix_end(prefix) is Some,
    ensures
        starts_with(key, prefix) <==> (lex_le(prefix, key) && lex_lt(
            key,
            spec_prefix_end(prefix)->Some_0,
        )),
    decreases prefix.len(),
{
    let end = spec_prefix_end(prefix)->Some_0;
    if prefix.len() == 0 {
    } else {
        let x = prefix[0];
        let rest = prefix.drop_first();
        assert(prefix =~= seq![x] + rest);
        lemma_prefix_end_front(x, rest);
        if key.len() == 0 {
            assert(!starts_with(key, prefix));
            assert(!lex_le(prefix, key));
        } else if key[0] != x {
            if prefix.len() <= key.len() {
                assert(key.take(prefix.len() as int)[0] != prefix[0]);
            }
            if key[0] < x {
                assert(!lex_le(prefix, key));
            } else {
                match spec_prefix_end(rest) {
                    Some(e) => {
                        assert(end[0] == x);
                        assert(!lex_lt(key, end));
                    },
                    None => {
                        assert(end =~= seq![(x + 1) as u8]);
                        if key[0] == (x + 1) as u8 {
                            assert(end.drop_first().len() == 0);
                            assert(lex_lt(key, end) == lex_lt(key.drop_first(), end.drop_first()));
                        }
                        assert(!lex_lt(key, end));
                    },
                }
            }
        } else {
            let krest = key.drop_first();
            assert(key =~= seq![x] + krest);
            lemma_cons_order(x, rest, krest);
            match spec_prefix_end(rest) {
                Some(e) => {
                    lemma_prefix_end_exact_range(rest, krest);
                    assert(end =~= seq![x] + e);
                    lemma_cons_order(x, krest, e);
                },
                None => {
                    lemma_prefix_end_none_iff_all_ff(rest);
                    lemma_all_ff_le_iff_prefix(rest, krest);
                    assert(end =~= seq![(x + 1) as u8]);
                    assert(lex_lt(key, end));
                },
            }
        }
    }
}

} // verus!
