//! The 16-byte wire envelope of the TCP and HTTP transports.
//!
//! ```text
//! +---------+---------+---------+---------+----------------+
//! | magic 4 | ver 4LE | crc 4LE | len 4LE | body[len] ...  |
//! +---------+---------+---------+---------+----------------+
//! ```
//!
//! `crc` is the CRC32C of the body and `len` its length. A stream reader
//! decodes the header first, rejects an oversized `len` before it allocates
//! anything, and verifies the checksum once the body has arrived.

use vstd::prelude::*;

use crate::le::{
    get_u32, le_bytes, le_value, lemma_le_capacities, lemma_le_round_trip, lemma_le_unique,
    lemma_le_value_bound, push_bytes, push_u32, starts_with,
};
use crate::text::{byte_list, dec, hex_padded, push_byte_list, push_dec, push_hex_padded};

verus! {

/// `WMBT`
pub const WIRE_ENVELOPE_MAGIC: [u8; 4] = [0x57, 0x4d, 0x42, 0x54];

pub const WIRE_ENVELOPE_VERSION: u32 = 1;

pub const WIRE_ENVELOPE_BYTES: usize = 16;

/// The CRC-32-Castagnoli checksum of a byte sequence.
pub uninterp spec fn crc32c_of(bytes: Seq<u8>) -> u32;

/// `crc32c::crc32c`: the CRC32C checksum of a slice, a function of its bytes.
#[verifier::external_body]
pub(crate) fn crc32c(bytes: &[u8]) -> (crc: u32)
    ensures
        crc == crc32c_of(bytes@),
{
    crc32c::crc32c(bytes)
}

/// Why an envelope was rejected.
#[derive(Debug)]
pub enum EnvelopeError {
    TooShort { got: usize, need: usize },
    BadMagic { got: [u8; 4] },
    BadVersion { got: u32, want: u32 },
    BadLength { header_len: u32, actual_body_bytes: usize },
    BadCrc { header_crc: u32, computed_crc: u32 },
}

/// The contents of an [`EnvelopeError`].
pub enum EnvelopeFault {
    TooShort { got: nat, need: nat },
    BadMagic { got: Seq<u8> },
    BadVersion { got: u32, want: u32 },
    BadLength { header_len: u32, actual_body_bytes: nat },
    BadCrc { header_crc: u32, computed_crc: u32 },
}

impl View for EnvelopeError {
    type V = EnvelopeFault;

    open spec fn view(&self) -> EnvelopeFault {
        match *self {
            EnvelopeError::TooShort { got, need } => EnvelopeFault::TooShort {
                got: got as nat,
                need: need as nat,
            },
            EnvelopeError::BadMagic { got } => EnvelopeFault::BadMagic { got: got@ },
            EnvelopeError::BadVersion { got, want } => EnvelopeFault::BadVersion { got, want },
            EnvelopeError::BadLength { header_len, actual_body_bytes } => {
                EnvelopeFault::BadLength { header_len, actual_body_bytes: actual_body_bytes as nat }
            },
            EnvelopeError::BadCrc { header_crc, computed_crc } => EnvelopeFault::BadCrc {
                header_crc,
                computed_crc,
            },
        }
    }
}

/// The displayed text of an envelope error.
pub open spec fn envelope_fault_text(fault: EnvelopeFault) -> Seq<char> {
    match fault {
        EnvelopeFault::TooShort { got, need } => "envelope too short: got "@ + dec(got)
            + " bytes, need at least "@ + dec(need),
        EnvelopeFault::BadMagic { got } => "envelope bad magic: got "@ + byte_list(got)
            + ", expected "@ + byte_list(WIRE_ENVELOPE_MAGIC@),
        EnvelopeFault::BadVersion { got, want } => "envelope unsupported version "@ + dec(
            got as nat,
        ) + " (want "@ + dec(want as nat)
            + "); pre-launch breaking-window applies, daemons and clients must upgrade together"@,
        EnvelopeFault::BadLength { header_len, actual_body_bytes } => {
            "envelope length mismatch: header says "@ + dec(header_len as nat)
                + " body bytes, actually got "@ + dec(actual_body_bytes)
        },
        EnvelopeFault::BadCrc { header_crc, computed_crc } => {
            "envelope CRC32C mismatch: header="@ + hex_padded(header_crc as nat, 8) + " computed="@
                + hex_padded(computed_crc as nat, 8)
        },
    }
}

impl EnvelopeError {
    /// The error in words.
    pub fn to_text(&self) -> (text: String)
        ensures
            text@ == envelope_fault_text(self@),
    {
        let mut text = String::new();
        match self {
            EnvelopeError::TooShort { got, need } => {
                text.push_str("envelope too short: got ");
                push_dec(&mut text, *got as u128);
                text.push_str(" bytes, need at least ");
                push_dec(&mut text, *need as u128);
            },
            EnvelopeError::BadMagic { got } => {
                text.push_str("envelope bad magic: got ");
                push_byte_list(&mut text, got);
                text.push_str(", expected ");
                push_byte_list(&mut text, &WIRE_ENVELOPE_MAGIC);
            },
            EnvelopeError::BadVersion { got, want } => {
                text.push_str("envelope unsupported version ");
                push_dec(&mut text, *got as u128);
                text.push_str(" (want ");
                push_dec(&mut text, *want as u128);
                text.push_str(
                    "); pre-launch breaking-window applies, daemons and clients must upgrade together",
                );
            },
            EnvelopeError::BadLength { header_len, actual_body_bytes } => {
                text.push_str("envelope length mismatch: header says ");
                push_dec(&mut text, *header_len as u128);
                text.push_str(" body bytes, actually got ");
                push_dec(&mut text, *actual_body_bytes as u128);
            },
            EnvelopeError::BadCrc { header_crc, computed_crc } => {
                text.push_str("envelope CRC32C mismatch: header=");
                push_hex_padded(&mut text, *header_crc as u64, 8);
                text.push_str(" computed=");
                push_hex_padded(&mut text, *computed_crc as u64, 8);
            },
        }
        assert(text@ =~= envelope_fault_text(self@));
        text
    }
}

/// Just the 16-byte envelope header (no body). Useful for streaming
/// readers that need to know `len` before allocating the body buffer.
#[derive(Clone, Copy, Debug)]
pub struct EnvelopeHeader {
    pub crc: u32,
    pub len: u32,
}

/// The envelope around a body.
pub open spec fn envelope_bytes(body: Seq<u8>) -> Seq<u8> {
    WIRE_ENVELOPE_MAGIC@ + le_bytes(WIRE_ENVELOPE_VERSION as nat, 4) + le_bytes(
        crc32c_of(body) as nat,
        4,
    ) + le_bytes(body.len(), 4) + body
}

/// What sixteen header bytes say.
pub open spec fn header_decoded(header: Seq<u8>) -> Result<EnvelopeHeader, EnvelopeFault> {
    if header.subrange(0, 4) != WIRE_ENVELOPE_MAGIC@ {
        Err(EnvelopeFault::BadMagic { got: header.subrange(0, 4) })
    } else if le_value(header.subrange(4, 8)) != WIRE_ENVELOPE_VERSION {
        Err(
            EnvelopeFault::BadVersion {
                got: le_value(header.subrange(4, 8)) as u32,
                want: WIRE_ENVELOPE_VERSION,
            },
        )
    } else {
        Ok(
            EnvelopeHeader {
                crc: le_value(header.subrange(8, 12)) as u32,
                len: le_value(header.subrange(12, 16)) as u32,
            },
        )
    }
}

/// What is wrong with a body under a header, if anything.
pub open spec fn body_fault(header: EnvelopeHeader, body: Seq<u8>) -> Option<EnvelopeFault> {
    if body.len() != header.len {
        Some(EnvelopeFault::BadLength { header_len: header.len, actual_body_bytes: body.len() })
    } else if crc32c_of(body) != header.crc {
        Some(EnvelopeFault::BadCrc { header_crc: header.crc, computed_crc: crc32c_of(body) })
    } else {
        None
    }
}

/// What a complete message decodes to.
pub open spec fn envelope_decoded(bytes: Seq<u8>) -> Result<Seq<u8>, EnvelopeFault> {
    if bytes.len() < WIRE_ENVELOPE_BYTES {
        Err(EnvelopeFault::TooShort { got: bytes.len(), need: WIRE_ENVELOPE_BYTES as nat })
    } else {
        match header_decoded(bytes.take(16)) {
            Err(fault) => Err(fault),
            Ok(header) => match body_fault(header, bytes.skip(16)) {
                Some(fault) => Err(fault),
                None => Ok(bytes.skip(16)),
            },
        }
    }
}

/// Wrap `body` in the envelope. Returns a fresh Vec containing
/// `[envelope 16 bytes][body]`.
pub fn encode_envelope(body: &[u8]) -> (wire: Vec<u8>)
    requires
        body@.len() <= u32::MAX,
    ensures
        wire@ == envelope_bytes(body@),
{
    let crc: u32 = crc32c(body);
    let mut out: Vec<u8> = Vec::new();
    push_bytes(&mut out, &WIRE_ENVELOPE_MAGIC);
    push_u32(&mut out, WIRE_ENVELOPE_VERSION);
    push_u32(&mut out, crc);
    push_u32(&mut out, body.len() as u32);
    push_bytes(&mut out, body);
    assert(out@ =~= envelope_bytes(body@));
    out
}

/// Decode + validate a complete envelope, returning the body slice.
pub fn decode_envelope(bytes: &[u8]) -> (decoded: Result<&[u8], EnvelopeError>)
    ensures
        match decoded {
            Ok(body) => envelope_decoded(bytes@) == Ok::<Seq<u8>, EnvelopeFault>(body@),
            Err(error) => envelope_decoded(bytes@) == Err::<Seq<u8>, EnvelopeFault>(error@),
        },
{
    if bytes.len() < WIRE_ENVELOPE_BYTES {
        return Err(EnvelopeError::TooShort { got: bytes.len(), need: WIRE_ENVELOPE_BYTES });
    }
    let mut header_bytes: [u8; 16] = [0;16];
    let mut i: usize = 0;
    while i < 16
        invariant
            i <= 16 <= bytes@.len(),
            forall|j: int| 0 <= j < i ==> header_bytes@[j] == bytes@[j],
        decreases 16 - i,
    {
        header_bytes[i] = bytes[i];
        i = i + 1;
    }
    assert(header_bytes@ =~= bytes@.take(16));
    let header = match decode_envelope_header(&header_bytes) {
        Ok(header) => header,
        Err(error) => {
            return Err(error);
        },
    };
    let body = &bytes[WIRE_ENVELOPE_BYTES..bytes.len()];
    assert(body@ =~= bytes@.skip(16));
    match verify_envelope_crc(&header, body) {
        Ok(()) => Ok(body),
        Err(error) => Err(error),
    }
}

/// Decode the fixed-size header, without a body.
pub fn decode_envelope_header(header: &[u8; 16]) -> (decoded: Result<EnvelopeHeader, EnvelopeError>)
    ensures
        match decoded {
            Ok(h) => header_decoded(header@) == Ok::<EnvelopeHeader, EnvelopeFault>(h),
            Err(error) => header_decoded(header@) == Err::<EnvelopeHeader, EnvelopeFault>(error@),
        },
{
    proof {
        lemma_le_capacities();
    }
    if !starts_with(header, &WIRE_ENVELOPE_MAGIC) {
        let got: [u8; 4] = [header[0], header[1], header[2], header[3]];
        assert(got@ =~= header@.subrange(0, 4));
        return Err(EnvelopeError::BadMagic { got });
    }
    let version: u32 = get_u32(header, 4);
    if version != WIRE_ENVELOPE_VERSION {
        return Err(EnvelopeError::BadVersion { got: version, want: WIRE_ENVELOPE_VERSION });
    }
    let crc: u32 = get_u32(header, 8);
    let len: u32 = get_u32(header, 12);
    Ok(EnvelopeHeader { crc, len })
}

/// Hold a body against its header: the length first, then the checksum.
pub fn verify_envelope_crc(header: &EnvelopeHeader, body: &[u8]) -> (verified: Result<
    (),
    EnvelopeError,
>)
    ensures
        match verified {
            Ok(_) => body_fault(*header, body@) is None,
            Err(error) => body_fault(*header, body@) == Some(error@),
        },
{
    if body.len() != header.len as usize {
        return Err(
            EnvelopeError::BadLength { header_len: header.len, actual_body_bytes: body.len() },
        );
    }
    let computed: u32 = crc32c(body);
    if computed != header.crc {
        return Err(EnvelopeError::BadCrc { header_crc: header.crc, computed_crc: computed });
    }
    Ok(())
}

/// Decoding an envelope gives back the body it was made for.
pub proof fn envelope_round_trip(body: Seq<u8>)
    requires
        body.len() <= u32::MAX,
    ensures
        envelope_decoded(envelope_bytes(body)) == Ok::<Seq<u8>, EnvelopeFault>(body),
{
    let wire = envelope_bytes(body);
    let crc = crc32c_of(body) as nat;
    lemma_le_capacities();
    lemma_le_round_trip(WIRE_ENVELOPE_VERSION as nat, 4);
    lemma_le_round_trip(crc, 4);
    lemma_le_round_trip(body.len(), 4);
    let header = wire.take(16);
    assert(header.subrange(0, 4) =~= WIRE_ENVELOPE_MAGIC@);
    assert(header.subrange(4, 8) =~= le_bytes(WIRE_ENVELOPE_VERSION as nat, 4));
    assert(header.subrange(8, 12) =~= le_bytes(crc, 4));
    assert(header.subrange(12, 16) =~= le_bytes(body.len(), 4));
    assert(wire.skip(16) =~= body);
}

/// A message decodes to a body if and only if it is the body's envelope: nothing
/// else is accepted.
pub proof fn envelope_is_the_encoding(bytes: Seq<u8>, body: Seq<u8>)
    requires
        body.len() <= u32::MAX,
    ensures
        envelope_decoded(bytes) == Ok::<Seq<u8>, EnvelopeFault>(body) <==> bytes
            == envelope_bytes(body),
{
    if bytes == envelope_bytes(body) {
        envelope_round_trip(body);
    }
    if envelope_decoded(bytes) == Ok::<Seq<u8>, EnvelopeFault>(body) {
        let header = bytes.take(16);
        let (version, crc, len) = (
            header.subrange(4, 8),
            header.subrange(8, 12),
            header.subrange(12, 16),
        );
        lemma_le_capacities();
        lemma_le_unique(version);
        lemma_le_unique(crc);
        lemma_le_unique(len);
        lemma_le_value_bound(crc);
        lemma_le_value_bound(len);
        assert(bytes =~= header.subrange(0, 4) + version + crc + len + bytes.skip(16));
    }
}

/// A message whose length differs from what its header announces is rejected:
/// neither a shortened nor an extended message decodes.
pub proof fn envelope_rejects_other_lengths(body: Seq<u8>, wire: Seq<u8>)
    requires
        body.len() <= u32::MAX,
        wire.len() >= WIRE_ENVELOPE_BYTES,
        wire.take(16) == envelope_bytes(body).take(16),
        wire.len() != envelope_bytes(body).len(),
    ensures
        envelope_decoded(wire) == Err::<Seq<u8>, EnvelopeFault>(
            EnvelopeFault::BadLength {
                header_len: body.len() as u32,
                actual_body_bytes: (wire.len() - 16) as nat,
            },
        ),
{
    let crc = crc32c_of(body) as nat;
    lemma_le_capacities();
    lemma_le_round_trip(WIRE_ENVELOPE_VERSION as nat, 4);
    lemma_le_round_trip(crc, 4);
    lemma_le_round_trip(body.len(), 4);
    let header = wire.take(16);
    assert(header.subrange(0, 4) =~= WIRE_ENVELOPE_MAGIC@);
    assert(header.subrange(4, 8) =~= le_bytes(WIRE_ENVELOPE_VERSION as nat, 4));
    assert(header.subrange(8, 12) =~= le_bytes(crc, 4));
    assert(header.subrange(12, 16) =~= le_bytes(body.len(), 4));
}

/// A message whose body is not the one that its header was made for is rejected where
/// the two differ in their checksums, and the failure names both sums.
pub proof fn exchanged_body_is_rejected(body: Seq<u8>, other: Seq<u8>)
    requires
        body.len() <= u32::MAX,
        other.len() == body.len(),
        crc32c_of(other) != crc32c_of(body),
    ensures
        envelope_decoded(envelope_bytes(body).take(16) + other) == Err::<Seq<u8>, EnvelopeFault>(
            EnvelopeFault::BadCrc {
                header_crc: crc32c_of(body),
                computed_crc: crc32c_of(other),
            },
        ),
{
    let wire = envelope_bytes(body).take(16) + other;
    let crc = crc32c_of(body) as nat;
    lemma_le_capacities();
    lemma_le_round_trip(WIRE_ENVELOPE_VERSION as nat, 4);
    lemma_le_round_trip(crc, 4);
    lemma_le_round_trip(body.len(), 4);
    let header = wire.take(16);
    assert(header.subrange(0, 4) =~= WIRE_ENVELOPE_MAGIC@);
    assert(header.subrange(4, 8) =~= le_bytes(WIRE_ENVELOPE_VERSION as nat, 4));
    assert(header.subrange(8, 12) =~= le_bytes(crc, 4));
    assert(header.subrange(12, 16) =~= le_bytes(body.len(), 4));
    assert(wire.skip(16) =~= other);
}

/// A message shorter than a header is too short; one that starts with other bytes than
/// the magic is foreign, whatever follows; and one of another version is refused with
/// that version, whatever body it has.
pub proof fn foreign_messages_are_refused(bytes: Seq<u8>)
    ensures
        match envelope_decoded(bytes) {
            Ok(body) => bytes.len() >= 16 && bytes.take(4) == WIRE_ENVELOPE_MAGIC@ && le_value(
                bytes.subrange(4, 8),
            ) == WIRE_ENVELOPE_VERSION && body == bytes.skip(16),
            Err(EnvelopeFault::TooShort { got, need }) => bytes.len() < 16 && got == bytes.len()
                && need == 16,
            Err(EnvelopeFault::BadMagic { got }) => bytes.len() >= 16 && got == bytes.take(4)
                && got != WIRE_ENVELOPE_MAGIC@,
            Err(EnvelopeFault::BadVersion { got, want }) => bytes.len() >= 16 && bytes.take(4)
                == WIRE_ENVELOPE_MAGIC@ && le_value(bytes.subrange(4, 8)) == got && got != want
                && want == WIRE_ENVELOPE_VERSION,
            Err(_) => bytes.len() >= 16 && bytes.take(4) == WIRE_ENVELOPE_MAGIC@ && le_value(
                bytes.subrange(4, 8),
            ) == WIRE_ENVELOPE_VERSION,
        },
{
    if bytes.len() >= 16 {
        assert(bytes.take(16).subrange(0, 4) =~= bytes.take(4));
        assert(bytes.take(16).subrange(4, 8) =~= bytes.subrange(4, 8));
        lemma_le_capacities();
        lemma_le_value_bound(bytes.subrange(4, 8));
    }
}

} // verus!
