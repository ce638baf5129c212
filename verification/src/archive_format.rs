//! The byte layout of a logical archive: a header declaring the source cut,
//! one length-prefixed frame per replay action, and a footer carrying the
//! replay counters and the SHA-256 of everything before it.

use crate::archive::{replay_step, ArchiveHeader, LogicalArchiveInventory, ReplayState, ReplayedAction, LOGICAL_ARCHIVE_VERSION, RRD_CONTRACT_VERSION};
use crate::bytes::{be16, be64, from_be64, lemma_be64_of_from_be64, lemma_from_be64_of_be64, push_all, push_be16, push_be64, read_be64};
use crate::error::{text, Error, Result};
use crate::bytes::{bytes_eq, hex, hex_text};
use crate::control::opt_string_view;
use crate::digest::{sha256, sha256_digest};
use vstd::prelude::*;

verus! {

/// Largest payload one archive action may carry.
pub const MAX_ACTION_BYTES: usize = 67108864;

/// The length of an archive header.
pub const HEADER_LEN: usize = 36;

/// The length of an archive footer.
pub const FOOTER_LEN: usize = 65;

/// The eight big-endian bytes of `x`.
#[verifier::opaque]
pub open spec fn enc64(x: u64) -> Seq<u8> {
    be64(x)
}

/// The integer whose big-endian bytes are the first eight of `s`.
#[verifier::opaque]
pub open spec fn dec64(s: Seq<u8>) -> u64 {
    from_be64(s)
}

/// Decoding an encoding gives the integer back.
pub proof fn lemma_dec_enc(x: u64)
    ensures
        dec64(enc64(x)) == x,
        enc64(x).len() == 8,
{
    reveal(enc64);
    reveal(dec64);
    lemma_from_be64_of_be64(x);
}

/// Eight bytes are the encoding of what they decode to.
pub proof fn lemma_enc_dec(s: Seq<u8>)
    requires
        s.len() == 8,
    ensures
        enc64(dec64(s)) == s,
{
    reveal(enc64);
    reveal(dec64);
    lemma_be64_of_from_be64(s);
}

/// The magic bytes that open an archive: `RRDLAR01`.
pub open spec fn archive_magic() -> Seq<u8> {
    seq![82u8, 82u8, 68u8, 76u8, 65u8, 82u8, 48u8, 49u8]
}

/// The header: magic, archive and contract versions, and the source cut.
pub open spec fn header_bytes(h: ArchiveHeader) -> Seq<u8> {
    archive_magic() + be16(LOGICAL_ARCHIVE_VERSION) + be16(RRD_CONTRACT_VERSION) + enc64(h.claim_sequence) + enc64(h.runtime_cursor)
        + enc64(h.action_count)
}

/// One action frame: the action tag, the payload length, and the payload.
pub open spec fn frame_bytes(payload: Seq<u8>) -> Seq<u8> {
    seq![1u8] + enc64(payload.len() as u64) + payload
}

/// The frames of `payloads`, in order.
pub open spec fn frames_bytes(payloads: Seq<Seq<u8>>) -> Seq<u8>
    decreases payloads.len(),
{
    if payloads.len() == 0 {
        Seq::empty()
    } else {
        frame_bytes(payloads[0]) + frames_bytes(payloads.drop_first())
    }
}

/// The replay counters a footer carries.
#[derive(Debug, Clone, Copy, PartialEq, Eq, Structural)]
pub struct ArchiveFooter {
    pub standalone_claims: u64,
    pub runtime_commits: u64,
    pub runtime_mutations: u64,
    pub payload_bytes: u64,
}

/// The footer: its tag, the four counters, and the 32-byte digest.
pub open spec fn footer_bytes(f: ArchiveFooter, digest: Seq<u8>) -> Seq<u8> {
    seq![255u8] + enc64(f.standalone_claims) + enc64(f.runtime_commits) + enc64(f.runtime_mutations) + enc64(f.payload_bytes) + digest
}

/// A whole archive.
pub open spec fn archive_bytes(h: ArchiveHeader, payloads: Seq<Seq<u8>>, f: ArchiveFooter, digest: Seq<u8>) -> Seq<u8> {
    header_bytes(h) + frames_bytes(payloads) + footer_bytes(f, digest)
}

/// Every payload is within the action bound.
pub open spec fn payloads_bounded(payloads: Seq<Seq<u8>>) -> bool {
    forall|i: int| 0 <= i < payloads.len() ==> (#[trigger] payloads[i]).len() <= MAX_ACTION_BYTES
}

/// The parts of a well-formed archive: as many bounded payloads as the
/// header declares and a 32-byte digest.
pub open spec fn well_formed(h: ArchiveHeader, payloads: Seq<Seq<u8>>, digest: Seq<u8>) -> bool {
    &&& payloads.len() == h.action_count
    &&& payloads_bounded(payloads)
    &&& digest.len() == 32
}

/// Reads `count` frames from the front of `bytes`: the payloads and what
/// follows them, or `None` where a frame is malformed or out of bound.
pub open spec fn parse_frames(bytes: Seq<u8>, count: nat) -> Option<(Seq<Seq<u8>>, Seq<u8>)>
    decreases count,
{
    if count == 0 {
        Some((Seq::empty(), bytes))
    } else if bytes.len() < 9 || bytes[0] != 1u8 {
        None
    } else {
        let length = dec64(bytes.subrange(1, 9));
        if length > MAX_ACTION_BYTES || 9 + length > bytes.len() {
            None
        } else {
            match parse_frames(bytes.skip(9 + length), (count - 1) as nat) {
                Some((rest_payloads, rest)) => Some((seq![bytes.subrange(9, 9 + length)] + rest_payloads, rest)),
                None => None,
            }
        }
    }
}

/// The header at the front of `bytes`, where the magic and versions match.
pub open spec fn parse_header(bytes: Seq<u8>) -> Option<ArchiveHeader> {
    if bytes.len() >= 36 && bytes.take(8) == archive_magic() && bytes.subrange(8, 10) == be16(LOGICAL_ARCHIVE_VERSION)
        && bytes.subrange(10, 12) == be16(RRD_CONTRACT_VERSION) {
        Some(ArchiveHeader {
            claim_sequence: dec64(bytes.subrange(12, 20)),
            runtime_cursor: dec64(bytes.subrange(20, 28)),
            action_count: dec64(bytes.subrange(28, 36)),
        })
    } else {
        None
    }
}

/// The footer that is exactly `bytes`.
pub open spec fn parse_footer(bytes: Seq<u8>) -> Option<(ArchiveFooter, Seq<u8>)> {
    if bytes.len() == 65 && bytes[0] == 255u8 {
        Some((
            ArchiveFooter {
                standalone_claims: dec64(bytes.subrange(1, 9)),
                runtime_commits: dec64(bytes.subrange(9, 17)),
                runtime_mutations: dec64(bytes.subrange(17, 25)),
                payload_bytes: dec64(bytes.subrange(25, 33)),
            },
            bytes.subrange(33, 65),
        ))
    } else {
        None
    }
}

/// The parts of the archive `bytes`, where it is one.
pub open spec fn parse_archive_spec(bytes: Seq<u8>) -> Option<(ArchiveHeader, Seq<Seq<u8>>, ArchiveFooter, Seq<u8>)> {
    match parse_header(bytes) {
        None => None,
        Some(h) => match parse_frames(bytes.skip(36), h.action_count as nat) {
            None => None,
            Some((payloads, rest)) => match parse_footer(rest) {
                None => None,
                Some((f, digest)) => Some((h, payloads, f, digest)),
            },
        },
    }
}

proof fn lemma_be16_one()
    ensures
        be16(1u16) == seq![0u8, 1u8],
{
    assert((1u16 >> 8u16) as u8 == 0u8) by (bit_vector);
    assert(1u16 as u8 == 1u8) by (bit_vector);
    assert(be16(1u16) =~= seq![0u8, 1u8]);
}

/// Reading the frames of bounded payloads gives them back, with what
/// follows them.
pub proof fn lemma_parse_frames_of_frames(payloads: Seq<Seq<u8>>, rest: Seq<u8>)
    requires
        payloads_bounded(payloads),
    ensures
        parse_frames(frames_bytes(payloads) + rest, payloads.len()) == Some((payloads, rest)),
    decreases payloads.len(),
{
    if payloads.len() > 0 {
        let p = payloads[0];
        let tail = payloads.drop_first();
        assert(payloads_bounded(tail)) by {
            assert forall|i: int| 0 <= i < tail.len() implies (#[trigger] tail[i]).len() <= MAX_ACTION_BYTES by {
                assert(tail[i] == payloads[i + 1]);
            }
        }
        lemma_parse_frames_of_frames(tail, rest);
        let b = frames_bytes(payloads) + rest;
        lemma_dec_enc(p.len() as u64);
        assert(b =~= seq![1u8] + enc64(p.len() as u64) + p + (frames_bytes(tail) + rest));
        assert(b.subrange(1, 9) =~= enc64(p.len() as u64));
        assert(b.subrange(9, 9 + p.len() as int) =~= p);
        assert(b.skip(9 + p.len() as int) =~= frames_bytes(tail) + rest);
        assert(seq![p] + tail =~= payloads);
    }
}

/// What parses as frames is their encoding followed by the rest.
pub proof fn lemma_frames_of_parse_frames(bytes: Seq<u8>, count: nat)
    requires
        parse_frames(bytes, count) is Some,
    ensures
        ({
            let (payloads, rest) = parse_frames(bytes, count).unwrap();
            &&& payloads.len() == count
            &&& payloads_bounded(payloads)
            &&& bytes == frames_bytes(payloads) + rest
        }),
    decreases count,
{
    if count > 0 {
        let length = dec64(bytes.subrange(1, 9));
        let next = bytes.skip(9 + length);
        lemma_frames_of_parse_frames(next, (count - 1) as nat);
        let (tail, rest) = parse_frames(next, (count - 1) as nat).unwrap();
        let p = bytes.subrange(9, 9 + length);
        let payloads = seq![p] + tail;
        assert(payloads.drop_first() =~= tail);
        assert(payloads[0] == p);
        lemma_enc_dec(bytes.subrange(1, 9));
        assert(bytes =~= seq![1u8] + enc64(p.len() as u64) + p + (frames_bytes(tail) + rest));
        assert forall|i: int| 0 <= i < payloads.len() implies (#[trigger] payloads[i]).len() <= MAX_ACTION_BYTES by {
            if i > 0 {
                assert(payloads[i] == tail[i - 1]);
            }
        }
    }
}

/// Parsing the encoding of a well-formed archive gives back its parts.
pub proof fn lemma_parse_archive_round_trip(h: ArchiveHeader, payloads: Seq<Seq<u8>>, f: ArchiveFooter, digest: Seq<u8>)
    requires
        well_formed(h, payloads, digest),
    ensures
        parse_archive_spec(archive_bytes(h, payloads, f, digest)) == Some((h, payloads, f, digest)),
{
    let b = archive_bytes(h, payloads, f, digest);
    let footer = footer_bytes(f, digest);
    lemma_be16_one();
    lemma_dec_enc(h.claim_sequence);
    lemma_dec_enc(h.runtime_cursor);
    lemma_dec_enc(h.action_count);
    lemma_dec_enc(f.standalone_claims);
    lemma_dec_enc(f.runtime_commits);
    lemma_dec_enc(f.runtime_mutations);
    lemma_dec_enc(f.payload_bytes);
    assert(b.take(8) =~= archive_magic());
    assert(b.subrange(8, 10) =~= be16(LOGICAL_ARCHIVE_VERSION));
    assert(b.subrange(10, 12) =~= be16(RRD_CONTRACT_VERSION));
    assert(b.subrange(12, 20) =~= enc64(h.claim_sequence));
    assert(b.subrange(20, 28) =~= enc64(h.runtime_cursor));
    assert(b.subrange(28, 36) =~= enc64(h.action_count));
    assert(b.skip(36) =~= frames_bytes(payloads) + footer);
    lemma_parse_frames_of_frames(payloads, footer);
    assert(footer.subrange(1, 9) =~= enc64(f.standalone_claims));
    assert(footer.subrange(9, 17) =~= enc64(f.runtime_commits));
    assert(footer.subrange(17, 25) =~= enc64(f.runtime_mutations));
    assert(footer.subrange(25, 33) =~= enc64(f.payload_bytes));
    assert(footer.subrange(33, 65) =~= digest);
}

/// What parses as an archive is the encoding of its well-formed parts.
pub proof fn lemma_archive_of_parse(bytes: Seq<u8>)
    requires
        parse_archive_spec(bytes) is Some,
    ensures
        ({
            let (h, payloads, f, digest) = parse_archive_spec(bytes).unwrap();
            well_formed(h, payloads, digest) && bytes == archive_bytes(h, payloads, f, digest)
        }),
{
    let (h, payloads, f, digest) = parse_archive_spec(bytes).unwrap();
    let (ps, rest) = parse_frames(bytes.skip(36), h.action_count as nat).unwrap();
    lemma_frames_of_parse_frames(bytes.skip(36), h.action_count as nat);
    lemma_be16_one();
    lemma_enc_dec(bytes.subrange(12, 20));
    lemma_enc_dec(bytes.subrange(20, 28));
    lemma_enc_dec(bytes.subrange(28, 36));
    lemma_enc_dec(rest.subrange(1, 9));
    lemma_enc_dec(rest.subrange(9, 17));
    lemma_enc_dec(rest.subrange(17, 25));
    lemma_enc_dec(rest.subrange(25, 33));
    assert(bytes.take(36) =~= header_bytes(h));
    assert(rest =~= footer_bytes(f, digest));
    assert(bytes =~= bytes.take(36) + bytes.skip(36));
}

/// The views of a list of payloads.
pub open spec fn payload_views(payloads: Seq<Vec<u8>>) -> Seq<Seq<u8>> {
    payloads.map_values(|p: Vec<u8>| p@)
}

/// An archive split into its parts.
#[derive(Debug, Clone, PartialEq, Eq)]
pub struct ParsedArchive {
    pub header: ArchiveHeader,
    pub payloads: Vec<Vec<u8>>,
    pub footer: ArchiveFooter,
    pub digest: Vec<u8>,
}

/// The bytes of `bytes` in `[start, end)`.
fn copy_range(bytes: &[u8], start: usize, end: usize) -> (v: Vec<u8>)
    requires
        start <= end <= bytes@.len(),
    ensures
        v@ == bytes@.subrange(start as int, end as int),
{
    let mut v: Vec<u8> = Vec::new();
    let mut i: usize = start;
    while i < end
        invariant
            start <= i <= end <= bytes@.len(),
            v@ == bytes@.subrange(start as int, i as int),
        decreases end - i,
    {
        v.push(bytes[i]);
        proof {
            assert(v@ =~= bytes@.subrange(start as int, i + 1));
        }
        i = i + 1;
    }
    v
}

/// Appends the encoding of `x`.
fn push_enc64(out: &mut Vec<u8>, x: u64)
    ensures
        final(out)@ == old(out)@ + enc64(x),
{
    proof {
        reveal(enc64);
    }
    push_be64(out, x);
}

/// Reads the integer encoded at `pos`.
fn read_dec64(bytes: &[u8], pos: usize) -> (x: u64)
    requires
        pos + 8 <= bytes@.len(),
    ensures
        x == dec64(bytes@.subrange(pos as int, pos + 8)),
{
    proof {
        reveal(dec64);
    }
    read_be64(bytes, pos)
}

/// The header of an archive over the source cut `h`.
pub fn encode_header(h: ArchiveHeader) -> (b: Vec<u8>)
    ensures
        b@ == header_bytes(h),
{
    let mut b: Vec<u8> = Vec::new();
    b.push(82);
    b.push(82);
    b.push(68);
    b.push(76);
    b.push(65);
    b.push(82);
    b.push(48);
    b.push(49);
    push_be16(&mut b, LOGICAL_ARCHIVE_VERSION);
    push_be16(&mut b, RRD_CONTRACT_VERSION);
    push_enc64(&mut b, h.claim_sequence);
    push_enc64(&mut b, h.runtime_cursor);
    push_enc64(&mut b, h.action_count);
    assert(b@ =~= header_bytes(h));
    b
}

/// The frame of one action payload; a payload past the bound is refused.
pub fn encode_frame(payload: &[u8]) -> (r: Result<Vec<u8>>)
    ensures
        payload@.len() <= MAX_ACTION_BYTES ==> (r matches Ok(b) && b@ == frame_bytes(payload@)),
        payload@.len() > MAX_ACTION_BYTES ==> r matches Err(Error::Archive(_)),
{
    if payload.len() > MAX_ACTION_BYTES {
        return Err(Error::Archive(text("archive action exceeds the v1 size bound")));
    }
    let mut b: Vec<u8> = Vec::new();
    b.push(1);
    push_enc64(&mut b, payload.len() as u64);
    push_all(&mut b, payload);
    assert(b@ =~= frame_bytes(payload@));
    Ok(b)
}

/// The footer carrying `f` and the 32-byte `digest`.
pub fn encode_footer(f: ArchiveFooter, digest: &[u8]) -> (b: Vec<u8>)
    ensures
        b@ == footer_bytes(f, digest@),
{
    let mut b: Vec<u8> = Vec::new();
    b.push(255);
    push_enc64(&mut b, f.standalone_claims);
    push_enc64(&mut b, f.runtime_commits);
    push_enc64(&mut b, f.runtime_mutations);
    push_enc64(&mut b, f.payload_bytes);
    push_all(&mut b, digest);
    assert(b@ =~= footer_bytes(f, digest@));
    b
}

/// One step of reading frames: a well-formed frame at the front is its
/// payload followed by the frames after it.
proof fn lemma_parse_frames_step(s: Seq<u8>, count: nat, length: int)
    requires
        count > 0,
        s.len() >= 9,
        s[0] == 1u8,
        length == dec64(s.subrange(1, 9)),
        length <= MAX_ACTION_BYTES,
        9 + length <= s.len(),
    ensures
        parse_frames(s, count) == match parse_frames(s.skip(9 + length), (count - 1) as nat) {
            Some((ps, rest)) => Some((seq![s.subrange(9, 9 + length)] + ps, rest)),
            None => None::<(Seq<Seq<u8>>, Seq<u8>)>,
        },
{
}

/// Splits an archive into its header, action payloads, footer counters and
/// declared digest; whatever is not exactly such an archive is refused.
pub fn parse_archive(bytes: &[u8]) -> (r: Result<ParsedArchive>)
    ensures
        match r {
            Ok(p) => parse_archive_spec(bytes@) == Some((p.header, payload_views(p.payloads@), p.footer, p.digest@)),
            Err(e) => parse_archive_spec(bytes@) is None && e is Archive,
        },
{
    let n = bytes.len();
    proof {
        lemma_be16_one();
    }
    if n < 36 || bytes[0] != 82 || bytes[1] != 82 || bytes[2] != 68 || bytes[3] != 76 || bytes[4] != 65
        || bytes[5] != 82 || bytes[6] != 48 || bytes[7] != 49 {
        proof {
            if n >= 36 {
                assert(bytes@.take(8) != archive_magic()) by {
                    if bytes@.take(8) == archive_magic() {
                        assert(bytes@.take(8)[0] == bytes@[0]);
                        assert(bytes@.take(8)[1] == bytes@[1]);
                        assert(bytes@.take(8)[2] == bytes@[2]);
                        assert(bytes@.take(8)[3] == bytes@[3]);
                        assert(bytes@.take(8)[4] == bytes@[4]);
                        assert(bytes@.take(8)[5] == bytes@[5]);
                        assert(bytes@.take(8)[6] == bytes@[6]);
                        assert(bytes@.take(8)[7] == bytes@[7]);
                    }
                }
            }
        }
        return Err(Error::Archive(text("archive magic does not match")));
    }
    assert(bytes@.take(8) =~= archive_magic());
    if bytes[8] != 0 || bytes[9] != 1 || bytes[10] != 0 || bytes[11] != 1 {
        proof {
            if bytes@.subrange(8, 10) == seq![0u8, 1u8] {
                assert(bytes@.subrange(8, 10)[0] == bytes@[8]);
                assert(bytes@.subrange(8, 10)[1] == bytes@[9]);
            }
            if bytes@.subrange(10, 12) == seq![0u8, 1u8] {
                assert(bytes@.subrange(10, 12)[0] == bytes@[10]);
                assert(bytes@.subrange(10, 12)[1] == bytes@[11]);
            }
        }
        return Err(Error::Archive(text("unsupported logical archive version or contract")));
    }
    assert(bytes@.subrange(8, 10) =~= seq![0u8, 1u8]);
    assert(bytes@.subrange(10, 12) =~= seq![0u8, 1u8]);
    let header = ArchiveHeader {
        claim_sequence: read_dec64(bytes, 12),
        runtime_cursor: read_dec64(bytes, 20),
        action_count: read_dec64(bytes, 28),
    };
    assert(parse_header(bytes@) == Some(header));
    let count = header.action_count;
    let mut payloads: Vec<Vec<u8>> = Vec::new();
    let mut pos: usize = 36;
    let mut i: u64 = 0;
    while i < count
        invariant
            n == bytes@.len(),
            parse_header(bytes@) == Some(header),
            count == header.action_count,
            36 <= pos <= n,
            i <= count,
            payload_views(payloads@).len() == i,
            parse_frames(bytes@.skip(36), count as nat) == match parse_frames(bytes@.skip(pos as int), (count - i) as nat) {
                Some((ps, rest)) => Some((payload_views(payloads@) + ps, rest)),
                None => None::<(Seq<Seq<u8>>, Seq<u8>)>,
            },
        decreases count - i,
    {
        let ghost s = bytes@.skip(pos as int);
        if n - pos < 9 || bytes[pos] != 1 {
            proof {
                assert(parse_frames(s, (count - i) as nat) is None);
            }
            return Err(Error::Archive(text("logical archive frame is truncated or carries an unknown tag")));
        }
        let length = read_dec64(bytes, pos + 1);
        proof {
            assert(s.subrange(1, 9) =~= bytes@.subrange(pos + 1, pos + 9));
        }
        if length > MAX_ACTION_BYTES as u64 || length > (n - pos - 9) as u64 {
            proof {
                assert(parse_frames(s, (count - i) as nat) is None);
            }
            return Err(Error::Archive(text("archive action exceeds the v1 size bound or the archive")));
        }
        let end = pos + 9 + length as usize;
        let payload = copy_range(bytes, pos + 9, end);
        proof {
            lemma_parse_frames_step(s, (count - i) as nat, length as int);
            assert(s.skip(9 + length) =~= bytes@.skip(end as int));
            assert(s.subrange(9, 9 + length) =~= payload@);
        }
        let ghost before = payload_views(payloads@);
        payloads.push(payload);
        proof {
            assert(payload_views(payloads@) =~= before.push(payload@));
            match parse_frames(bytes@.skip(end as int), (count - i - 1) as nat) {
                Some((ps, rest)) => {
                    assert(before + (seq![payload@] + ps) =~= before.push(payload@) + ps);
                },
                None => {},
            }
        }
        pos = end;
        i = i + 1;
    }
    let ghost rest = bytes@.skip(pos as int);
    assert(parse_frames(bytes@.skip(pos as int), 0) == Some((Seq::<Seq<u8>>::empty(), rest)));
    assert(payload_views(payloads@) + Seq::<Seq<u8>>::empty() =~= payload_views(payloads@));
    if n - pos != 65 || bytes[pos] != 255 {
        return Err(Error::Archive(text("logical archive footer is absent, truncated, or followed by trailing bytes")));
    }
    let footer = ArchiveFooter {
        standalone_claims: read_dec64(bytes, pos + 1),
        runtime_commits: read_dec64(bytes, pos + 9),
        runtime_mutations: read_dec64(bytes, pos + 17),
        payload_bytes: read_dec64(bytes, pos + 25),
    };
    let digest = copy_range(bytes, pos + 33, n);
    proof {
        assert(rest.subrange(1, 9) =~= bytes@.subrange(pos + 1, pos + 9));
        assert(rest.subrange(9, 17) =~= bytes@.subrange(pos + 9, pos + 17));
        assert(rest.subrange(17, 25) =~= bytes@.subrange(pos + 17, pos + 25));
        assert(rest.subrange(25, 33) =~= bytes@.subrange(pos + 25, pos + 33));
        assert(rest.subrange(33, 65) =~= digest@);
    }
    Ok(ParsedArchive { header, payloads, footer, digest })
}

/// The bytes an archive's digest covers: all but its footer.
pub open spec fn hashed_prefix(bytes: Seq<u8>) -> Seq<u8> {
    bytes.take(bytes.len() - 65)
}

/// The footer counters, the declared digest and the header's watermarks of
/// an archive agree with what replaying its actions gave, and the digest is
/// that of all bytes before the footer.
pub open spec fn parts_agree(bytes: Seq<u8>, h: ArchiveHeader, f: ArchiveFooter, digest: Seq<u8>, state: ReplayState) -> bool {
    &&& bytes.len() >= 65
    &&& f.standalone_claims == state.standalone_claims
    &&& f.runtime_commits == state.runtime_commits
    &&& f.runtime_mutations == state.runtime_mutations
    &&& f.payload_bytes == state.payload_bytes
    &&& digest == sha256_digest(hashed_prefix(bytes))
    &&& state.action_count == h.action_count
    &&& state.claim_sequence == h.claim_sequence
    &&& state.runtime_cursor == h.runtime_cursor
}

/// The same agreement, for an archive split into `parsed`.
pub open spec fn archive_agrees(bytes: Seq<u8>, parsed: ParsedArchive, state: ReplayState) -> bool {
    parts_agree(bytes, parsed.header, parsed.footer, parsed.digest@, state)
}

/// `inv` reports the archive `bytes` whose actions replayed into `state`.
pub open spec fn reports(inv: LogicalArchiveInventory, bytes: Seq<u8>, state: ReplayState) -> bool {
    &&& inv.format_version == LOGICAL_ARCHIVE_VERSION
    &&& inv.contract_version == RRD_CONTRACT_VERSION
    &&& inv.archive_sha256@ == hex_text(sha256_digest(hashed_prefix(bytes)))
    &&& inv.action_count == state.action_count
    &&& inv.standalone_claims == state.standalone_claims
    &&& inv.runtime_commits == state.runtime_commits
    &&& inv.runtime_mutations == state.runtime_mutations
    &&& inv.payload_bytes == state.payload_bytes
    &&& inv.claim_sequence == state.claim_sequence
    &&& inv.runtime_cursor == state.runtime_cursor
    &&& opt_string_view(inv.runtime_audit_sha256) == opt_string_view(state.runtime_audit_sha256)
}

/// The inventory of the archive `bytes`, split by `parse_archive` into
/// `parsed`, whose actions replayed into `state`; refused unless the
/// footer, the digest of all bytes before the footer, and the header's
/// watermarks agree with the replay.
pub fn verify_archive(bytes: &[u8], parsed: &ParsedArchive, state: &ReplayState) -> (r: Result<LogicalArchiveInventory>)
    requires
        parse_archive_spec(bytes@) == Some((parsed.header, payload_views(parsed.payloads@), parsed.footer, parsed.digest@)),
    ensures
        r is Ok <==> archive_agrees(bytes@, *parsed, *state),
        r matches Err(e) ==> e is Archive,
        r matches Ok(inv) ==> reports(inv, bytes@, *state),
{
    let n = bytes.len();
    if n < 65 {
        return Err(Error::Archive(text("logical archive footer is absent")));
    }
    let prefix = copy_range(bytes, 0, n - 65);
    assert(prefix@ =~= hashed_prefix(bytes@));
    let actual = sha256(prefix.as_slice());
    let f = parsed.footer;
    let h = parsed.header;
    if f.standalone_claims != state.standalone_claims || f.runtime_commits != state.runtime_commits
        || f.runtime_mutations != state.runtime_mutations || f.payload_bytes != state.payload_bytes
        || !bytes_eq(parsed.digest.as_slice(), actual.as_slice()) || state.action_count != h.action_count
        || state.claim_sequence != h.claim_sequence || state.runtime_cursor != h.runtime_cursor {
        return Err(Error::Archive(text("archive footer, digest, or replay watermarks do not match")));
    }
    let audit = match &state.runtime_audit_sha256 {
        Some(a) => Some(a.clone()),
        None => None,
    };
    Ok(LogicalArchiveInventory {
        format_version: LOGICAL_ARCHIVE_VERSION,
        contract_version: RRD_CONTRACT_VERSION,
        archive_sha256: hex(actual.as_slice()),
        action_count: state.action_count,
        standalone_claims: state.standalone_claims,
        runtime_commits: state.runtime_commits,
        runtime_mutations: state.runtime_mutations,
        payload_bytes: state.payload_bytes,
        claim_sequence: state.claim_sequence,
        runtime_cursor: state.runtime_cursor,
        runtime_audit_sha256: audit,
    })
}


/// The counters before any action is replayed.
pub open spec fn replay_start() -> ReplayState {
    ReplayState {
        action_count: 0,
        standalone_claims: 0,
        runtime_commits: 0,
        runtime_mutations: 0,
        payload_bytes: 0,
        claim_sequence: 0,
        runtime_cursor: 0,
        runtime_audit_sha256: None,
    }
}

/// The counters after replaying the first `n` actions, the `i`-th of
/// `payloads[i].len()` bytes: none where a step is refused.
pub open spec fn replay_prefix(actions: Seq<ReplayedAction>, payloads: Seq<Seq<u8>>, n: nat) -> Option<ReplayState>
    decreases n,
{
    if n == 0 {
        Some(replay_start())
    } else {
        match replay_prefix(actions, payloads, (n - 1) as nat) {
            None => None,
            Some(s) => replay_step(s, actions[n - 1], payloads[n - 1].len() as u64),
        }
    }
}

/// A refused step refuses every longer replay.
proof fn lemma_replay_refusal_stays(actions: Seq<ReplayedAction>, payloads: Seq<Seq<u8>>, i: nat, n: nat)
    requires
        i <= n,
        replay_prefix(actions, payloads, i) is None,
    ensures
        replay_prefix(actions, payloads, n) is None,
    decreases n - i,
{
    if i < n {
        lemma_replay_refusal_stays(actions, payloads, (i + 1) as nat, n);
    }
}

/// Every replayed action is either a standalone claim or a runtime commit.
pub proof fn lemma_replay_counts_actions(actions: Seq<ReplayedAction>, payloads: Seq<Seq<u8>>, n: nat)
    requires
        replay_prefix(actions, payloads, n) is Some,
    ensures
        ({
            let s = replay_prefix(actions, payloads, n)->0;
            s.action_count == s.standalone_claims + s.runtime_commits && s.action_count == n
        }),
    decreases n,
{
    if n > 0 {
        lemma_replay_counts_actions(actions, payloads, (n - 1) as nat);
    }
}

/// The footer that records the counters of `state`.
pub open spec fn footer_of(state: ReplayState) -> ArchiveFooter {
    ArchiveFooter {
        standalone_claims: state.standalone_claims,
        runtime_commits: state.runtime_commits,
        runtime_mutations: state.runtime_mutations,
        payload_bytes: state.payload_bytes,
    }
}

/// An archive written from its parts is what inspection accepts: where
/// `actions`, one per payload, replay into `state`, the header declares
/// their count and the watermarks they reach, the footer records their
/// counters, and the digest is the SHA-256 of the header and frames,
/// inspecting the written bytes with `actions` replays them into `state`
/// and succeeds.
pub proof fn lemma_written_archive_inspects(
    h: ArchiveHeader,
    payloads: Seq<Seq<u8>>,
    actions: Seq<ReplayedAction>,
    state: ReplayState,
    digest: Seq<u8>,
)
    requires
        payloads_bounded(payloads),
        actions.len() == payloads.len(),
        replay_prefix(actions, payloads, payloads.len()) == Some(state),
        h.action_count == payloads.len(),
        h.claim_sequence == state.claim_sequence,
        h.runtime_cursor == state.runtime_cursor,
        digest == sha256_digest(header_bytes(h) + frames_bytes(payloads)),
        digest.len() == 32,
    ensures
        archive_replay(archive_bytes(h, payloads, footer_of(state), digest), actions) == Some(state),
        archive_inspects(archive_bytes(h, payloads, footer_of(state), digest), actions),
{
    let f = footer_of(state);
    let b = archive_bytes(h, payloads, f, digest);
    lemma_parse_archive_round_trip(h, payloads, f, digest);
    lemma_replay_counts_actions(actions, payloads, payloads.len());
    lemma_dec_enc(f.standalone_claims);
    lemma_dec_enc(f.runtime_commits);
    lemma_dec_enc(f.runtime_mutations);
    lemma_dec_enc(f.payload_bytes);
    assert(footer_bytes(f, digest).len() == 65);
    assert(hashed_prefix(b) =~= header_bytes(h) + frames_bytes(payloads));
}

/// What replaying the archive `bytes` gives, one decoded action per frame:
/// none where the bytes are no archive, the actions are not one per frame,
/// or a step is refused.
pub open spec fn archive_replay(bytes: Seq<u8>, actions: Seq<ReplayedAction>) -> Option<ReplayState> {
    match parse_archive_spec(bytes) {
        None => None,
        Some((h, payloads, f, digest)) => if actions.len() != payloads.len() {
            None
        } else {
            replay_prefix(actions, payloads, payloads.len())
        },
    }
}

/// The archive `bytes` replays with `actions` and its footer, digest and
/// watermarks agree with the replay.
pub open spec fn archive_inspects(bytes: Seq<u8>, actions: Seq<ReplayedAction>) -> bool {
    match (parse_archive_spec(bytes), archive_replay(bytes, actions)) {
        (Some((h, payloads, f, digest)), Some(state)) => parts_agree(bytes, h, f, digest, state),
        _ => false,
    }
}

/// Inspects the archive `bytes`, whose frames decode, in order, to
/// `actions`: splits it, replays the actions with the lengths of their
/// frames, and checks the footer counters, the declared digest and the
/// header's watermarks against the replay.
pub fn inspect_archive(bytes: &[u8], actions: &[ReplayedAction]) -> (r: Result<LogicalArchiveInventory>)
    ensures
        r is Ok <==> archive_inspects(bytes@, actions@),
        r matches Err(e) ==> e is Archive || e is SequenceOverflow,
        r matches Ok(inv) ==> reports(inv, bytes@, archive_replay(bytes@, actions@)->0),
        r matches Ok(inv) ==> inv.action_count == actions@.len(),
        r matches Ok(inv) ==> inv.action_count == inv.standalone_claims + inv.runtime_commits,
{
    let parsed = parse_archive(bytes)?;
    let ghost pv = payload_views(parsed.payloads@);
    let n = parsed.payloads.len();
    assert(pv.len() == n);
    if actions.len() != n {
        return Err(Error::Archive(text("decoded actions are not one per archive frame")));
    }
    let mut state = ReplayState {
        action_count: 0,
        standalone_claims: 0,
        runtime_commits: 0,
        runtime_mutations: 0,
        payload_bytes: 0,
        claim_sequence: 0,
        runtime_cursor: 0,
        runtime_audit_sha256: None,
    };
    let mut i: usize = 0;
    while i < n
        invariant
            n == parsed.payloads@.len(),
            n == actions@.len(),
            pv == payload_views(parsed.payloads@),
            parse_archive_spec(bytes@) == Some((parsed.header, pv, parsed.footer, parsed.digest@)),
            i <= n,
            replay_prefix(actions@, pv, i as nat) == Some(state),
        decreases n - i,
    {
        let size = parsed.payloads[i].len() as u64;
        assert(pv[i as int] == parsed.payloads@[i as int]@);
        let ghost before = state;
        assert(replay_prefix(actions@, pv, (i + 1) as nat) == replay_step(before, actions@[i as int], size));
        match state.accept(&actions[i], size) {
            Ok(()) => {},
            Err(e) => {
                proof {
                    lemma_replay_refusal_stays(actions@, pv, (i + 1) as nat, n as nat);
                    assert(pv.len() == n);
                    assert(archive_replay(bytes@, actions@) is None);
                }
                return Err(e);
            },
        }
        i = i + 1;
    }
    proof {
        lemma_replay_counts_actions(actions@, pv, n as nat);
    }
    verify_archive(bytes, &parsed, &state)
}

} // verus!
