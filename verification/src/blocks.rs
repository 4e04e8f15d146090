//! Block-shaped op payloads: hash lists, block batches and their replies, each
//! an archive behind a 16-byte magic that names the op.

use vstd::prelude::*;

use crate::archive::{
    all_short, any_refused, is_refused, is_refused_opt, is_short, is_short_opt,
    lemma_reached_payloads, lemma_reached_texts, padded4, payloads_bytes, payloads_reach,
    payloads_total, reaches_payloads, reaches_texts, refused, refused_opt, short, short_opt,
    stored_bytes, stored_bytes_opt, stored_len, stored_opt, texts_bytes, texts_reach,
    texts_refused, texts_short, texts_total, ENTRY_BYTES, REACH,
};
use crate::le::{push_bytes, starts_with};
use crate::text::{blobs, byte_len, dec, push_dec, text_opt, texts};
use crate::wire::{
    bad_magic, bad_magic_error, WireCodecError, WireFault, GET_KV_BLOCKS_BATCH_REQ_MAGIC,
    GET_KV_BLOCKS_BATCH_RESP_MAGIC, LOOKUP_BLOCK_PREFIX_REQ_MAGIC, LOOKUP_BLOCK_PREFIX_RESP_MAGIC,
    PUT_KV_BLOCKS_BATCH_REQ_MAGIC, PUT_KV_BLOCKS_BATCH_RESP_MAGIC,
};

verus! {

/// Request payload for `LOOKUP_BLOCK_PREFIX`.
#[derive(Debug, Clone, PartialEq, Eq)]
pub struct LookupBlockPrefixReq {
    pub namespace: String,
    /// Each entry is 64 lower-hex characters (32 bytes).
    pub block_hashes_hex: Vec<String>,
}

/// Response payload for `LOOKUP_BLOCK_PREFIX`: how many leading hashes the
/// daemon's index recognized; `error` only for malformed inputs.
#[derive(Debug, Clone, PartialEq, Eq)]
pub struct LookupBlockPrefixResp {
    pub matched_count: u32,
    pub error: Option<String>,
}

/// Request payload for `GET_KV_BLOCKS_BATCH`.
#[derive(Debug, Clone, PartialEq, Eq)]
pub struct GetKvBlocksBatchReq {
    pub namespace: String,
    pub block_hashes_hex: Vec<String>,
}

/// Response payload for `GET_KV_BLOCKS_BATCH`: all payloads in input order, or
/// `None` when at least one block was missing.
#[derive(Debug, Clone, PartialEq, Eq)]
pub struct GetKvBlocksBatchResp {
    pub payloads: Option<Vec<Vec<u8>>>,
    pub error: Option<String>,
}

/// Request payload for `PUT_KV_BLOCKS_BATCH`.
#[derive(Debug, Clone, PartialEq, Eq)]
pub struct PutKvBlocksBatchReq {
    pub namespace: String,
    pub block_hashes_hex: Vec<String>,
    pub payloads: Vec<Vec<u8>>,
}

/// Response payload for `PUT_KV_BLOCKS_BATCH`: the stored bytes, or the error
/// of a block that could not be stored.
#[derive(Debug, Clone, PartialEq, Eq)]
pub struct PutKvBlocksBatchResp {
    pub total_bytes: u64,
    pub error: Option<String>,
}

/// A namespace and its hashes.
pub struct HashListFields {
    pub namespace: Seq<char>,
    pub hashes: Seq<Seq<char>>,
}

/// A count and an error.
pub struct CountFields {
    pub count: nat,
    pub error: Option<Seq<char>>,
}

/// Optional payloads and an error.
pub struct PayloadsFields {
    pub payloads: Option<Seq<Seq<u8>>>,
    pub error: Option<Seq<char>>,
}

/// A namespace, its hashes and their payloads.
pub struct PutFields {
    pub namespace: Seq<char>,
    pub hashes: Seq<Seq<char>>,
    pub payloads: Seq<Seq<u8>>,
}

/// The contents of optional byte vectors.
pub open spec fn blobs_opt(vectors: Option<Vec<Vec<u8>>>) -> Option<Seq<Seq<u8>>> {
    match vectors {
        Some(v) => Some(blobs(v@)),
        None => None,
    }
}

impl View for LookupBlockPrefixReq {
    type V = HashListFields;

    open spec fn view(&self) -> HashListFields {
        HashListFields { namespace: self.namespace@, hashes: texts(self.block_hashes_hex@) }
    }
}

impl View for LookupBlockPrefixResp {
    type V = CountFields;

    open spec fn view(&self) -> CountFields {
        CountFields { count: self.matched_count as nat, error: text_opt(self.error) }
    }
}

impl View for GetKvBlocksBatchReq {
    type V = HashListFields;

    open spec fn view(&self) -> HashListFields {
        HashListFields { namespace: self.namespace@, hashes: texts(self.block_hashes_hex@) }
    }
}

impl View for GetKvBlocksBatchResp {
    type V = PayloadsFields;

    open spec fn view(&self) -> PayloadsFields {
        PayloadsFields { payloads: blobs_opt(self.payloads), error: text_opt(self.error) }
    }
}

impl View for PutKvBlocksBatchReq {
    type V = PutFields;

    open spec fn view(&self) -> PutFields {
        PutFields {
            namespace: self.namespace@,
            hashes: texts(self.block_hashes_hex@),
            payloads: blobs(self.payloads@),
        }
    }
}

impl View for PutKvBlocksBatchResp {
    type V = CountFields;

    open spec fn view(&self) -> CountFields {
        CountFields { count: self.total_bytes as nat, error: text_opt(self.error) }
    }
}

/// The message for hashes and payloads that differ in number.
pub open spec fn count_mismatch(hashes: nat, payloads: nat) -> Seq<char> {
    "put_kv_blocks_batch length mismatch: "@ + dec(hashes) + " hashes vs "@ + dec(payloads)
        + " payloads"@
}

/// Builds the message for hashes and payloads that differ in number.
pub(crate) fn count_mismatch_text(hashes: usize, payloads: usize) -> (message: String)
    ensures
        message@ == count_mismatch(hashes as nat, payloads as nat),
{
    let mut text = String::new();
    text.push_str("put_kv_blocks_batch length mismatch: ");
    push_dec(&mut text, hashes as u128);
    text.push_str(" hashes vs ");
    push_dec(&mut text, payloads as u128);
    text.push_str(" payloads");
    assert(text@ =~= count_mismatch(hashes as nat, payloads as nat));
    text
}

// ---- archives ----

/// Whether the texts of a namespace and its hashes are short enough for an
/// archive.
pub open spec fn hash_list_short(fields: HashListFields) -> bool {
    is_short(fields.namespace) && all_short(fields.hashes)
}

/// Whether an archived namespace and its hashes reach what they refer to. The
/// namespace and the hashes stand one after the other from the start; the entries
/// of the hashes and the message follow.
pub open spec fn hash_list_reaches(fields: HashListFields) -> bool {
    let start = stored_len(fields.namespace);
    let entries = padded4(start + texts_bytes(fields.hashes));
    let message = entries + ENTRY_BYTES * fields.hashes.len();
    &&& start > 0 ==> message <= REACH
    &&& message + 8 <= REACH + entries
    &&& texts_reach(fields.hashes, start, entries)
}

/// Whether a namespace and its hashes can be archived or are refused for a text.
/// What is left is too large for the offsets of an archive.
pub open spec fn hash_list_fits(fields: HashListFields) -> bool {
    ||| is_refused(fields.namespace) || any_refused(fields.hashes)
    ||| hash_list_short(fields) && hash_list_reaches(fields)
}

/// Whether a count and an error can be archived or are refused for the text. An
/// error that is short enough is always reached.
pub open spec fn count_fits(fields: CountFields) -> bool {
    is_refused_opt(fields.error) || is_short_opt(fields.error)
}

/// Whether the fields of an archived answer reach what they refer to. The entries
/// of the payloads follow the payloads; the error and the message follow them.
pub open spec fn payloads_in_reach(payloads: Seq<Seq<u8>>, error: nat) -> bool {
    let entries = padded4(payloads_bytes(payloads));
    padded4((entries + ENTRY_BYTES * payloads.len() + error) as nat) + 4 <= REACH + entries
}

/// Whether optional payloads and an error can be archived or are refused for the
/// text. What is left is too large for the offsets of an archive.
pub open spec fn payloads_fit(fields: PayloadsFields) -> bool {
    &&& fields.payloads matches Some(list) ==> payloads_reach(list, 0, padded4(payloads_bytes(list)))
    &&& {
        ||| is_refused_opt(fields.error)
        ||| is_short_opt(fields.error) && (fields.payloads matches Some(list) ==> payloads_in_reach(
            list,
            stored_opt(fields.error),
        ))
    }
}

/// Whether the texts of a block put are short enough for an archive.
pub open spec fn put_short(fields: PutFields) -> bool {
    is_short(fields.namespace) && all_short(fields.hashes)
}

/// Whether the fields of an archived block put reach what they refer to. The
/// namespace and the hashes stand one after the other from the start; the entries
/// of the hashes, the payloads, their entries and the message follow.
pub open spec fn put_reaches(fields: PutFields) -> bool {
    let start = stored_len(fields.namespace);
    let entries = padded4(start + texts_bytes(fields.hashes));
    let payloads = (entries + ENTRY_BYTES * fields.hashes.len()) as nat;
    let last_entries = padded4(payloads + payloads_bytes(fields.payloads));
    let message = last_entries + ENTRY_BYTES * fields.payloads.len();
    &&& start > 0 ==> message <= REACH
    &&& message + 8 <= REACH + entries
    &&& message + 16 <= REACH + last_entries
    &&& texts_reach(fields.hashes, start, entries)
    &&& payloads_reach(fields.payloads, payloads, last_entries)
}

/// Whether a namespace, hashes and payloads can be archived or are refused for a
/// text. What is left is too large for the offsets of an archive.
pub open spec fn put_fits(fields: PutFields) -> bool {
    ||| is_refused(fields.namespace) || any_refused(fields.hashes)
    ||| put_short(fields) && put_reaches(fields)
}

/// Tells whether a namespace and its hashes can be archived or are refused for a
/// text.
pub(crate) fn hash_list_in_bounds(namespace: &String, hashes: &Vec<String>) -> (fits: bool)
    ensures
        fits == hash_list_fits(
            HashListFields { namespace: namespace@, hashes: texts(hashes@) },
        ),
{
    if refused(namespace.as_str()) || texts_refused(hashes) {
        return true;
    }
    if !short(namespace.as_str()) || !texts_short(hashes) {
        return false;
    }
    let start: u64 = stored_bytes(namespace.as_str()) as u64;
    if hashes.len() as u64 > (REACH - 8) / 8 {
        return false;
    }
    match texts_total(hashes) {
        Some(total) => {
            let entries: u64 = (start + total + 3) / 4 * 4;
            let message: u64 = entries + 8 * hashes.len() as u64;
            (start == 0 || message <= REACH) && reaches_texts(hashes, start, entries)
        },
        None => {
            proof {
                let all = texts(hashes@);
                let entries = padded4(start as nat + texts_bytes(all));
                if texts_reach(all, start as nat, entries) {
                    lemma_reached_texts(all, start as nat, entries);
                }
            }
            false
        },
    }
}

/// Tells whether a count and an error can be archived or are refused for the text.
pub(crate) fn count_in_bounds(error: &Option<String>) -> (fits: bool)
    ensures
        forall|count: nat| #[trigger]
            count_fits(CountFields { count, error: text_opt(*error) }) == fits,
{
    refused_opt(error) || short_opt(error)
}

/// Tells whether a namespace, hashes and payloads can be archived or are refused
/// for a text.
pub(crate) fn put_in_bounds(
    namespace: &String,
    hashes: &Vec<String>,
    payloads: &Vec<Vec<u8>>,
) -> (fits: bool)
    ensures
        fits == put_fits(
            PutFields {
                namespace: namespace@,
                hashes: texts(hashes@),
                payloads: blobs(payloads@),
            },
        ),
{
    if refused(namespace.as_str()) || texts_refused(hashes) {
        return true;
    }
    if !short(namespace.as_str()) || !texts_short(hashes) {
        return false;
    }
    let start: u64 = stored_bytes(namespace.as_str()) as u64;
    if hashes.len() as u64 > (REACH - 8) / 8 || payloads.len() as u64 > (REACH - 16) / 8 {
        return false;
    }
    match (texts_total(hashes), payloads_total(payloads)) {
        (Some(total), Some(last_total)) => {
            let entries: u64 = (start + total + 3) / 4 * 4;
            let first: u64 = entries + 8 * hashes.len() as u64;
            let last_entries: u64 = (first + last_total + 3) / 4 * 4;
            let message: u64 = last_entries + 8 * payloads.len() as u64;
            (start == 0 || message <= REACH) && message + 8 <= REACH + entries && reaches_texts(
                hashes,
                start,
                entries,
            ) && reaches_payloads(payloads, first, last_entries)
        },
        _ => {
            proof {
                let fields = PutFields {
                    namespace: namespace@,
                    hashes: texts(hashes@),
                    payloads: blobs(payloads@),
                };
                if put_reaches(fields) {
                    let entries = padded4(start as nat + texts_bytes(fields.hashes));
                    let first = (entries + ENTRY_BYTES * fields.hashes.len()) as nat;
                    lemma_reached_texts(fields.hashes, start as nat, entries);
                    lemma_reached_payloads(
                        fields.payloads,
                        first,
                        padded4(first + payloads_bytes(fields.payloads)),
                    );
                }
            }
            false
        },
    }
}

/// Tells whether payloads and an error can be archived or are refused for the
/// text.
fn answer_in_bounds(payloads: &Vec<Vec<u8>>, error: &Option<String>) -> (fits: bool)
    ensures
        fits == payloads_fit(
            PayloadsFields { payloads: Some(blobs(payloads@)), error: text_opt(*error) },
        ),
{
    match payloads_total(payloads) {
        Some(total) => {
            let entries: u64 = (total + 3) / 4 * 4;
            if !reaches_payloads(payloads, 0, entries) {
                return false;
            }
            if refused_opt(error) {
                return true;
            }
            if !short_opt(error) || payloads.len() as u64 > REACH / 8 {
                return false;
            }
            let text: u64 = stored_bytes_opt(error) as u64;
            let message: u64 = (entries + 8 * payloads.len() as u64 + text + 3) / 4 * 4;
            message + 4 <= REACH + entries
        },
        None => {
            proof {
                let all = blobs(payloads@);
                if payloads_reach(all, 0, padded4(payloads_bytes(all))) {
                    lemma_reached_payloads(all, 0, padded4(payloads_bytes(all)));
                }
            }
            false
        },
    }
}

impl LookupBlockPrefixReq {
    /// Whether the request can be archived or is refused for a text.
    pub fn fits(&self) -> (fits: bool)
        ensures
            fits == hash_list_fits(self@),
    {
        hash_list_in_bounds(&self.namespace, &self.block_hashes_hex)
    }
}

impl LookupBlockPrefixResp {
    /// Whether the response can be archived or is refused for its text.
    pub fn fits(&self) -> (fits: bool)
        ensures
            fits == count_fits(self@),
    {
        count_in_bounds(&self.error)
    }
}

impl GetKvBlocksBatchReq {
    /// Whether the request can be archived or is refused for a text.
    pub fn fits(&self) -> (fits: bool)
        ensures
            fits == hash_list_fits(self@),
    {
        hash_list_in_bounds(&self.namespace, &self.block_hashes_hex)
    }
}

impl GetKvBlocksBatchResp {
    /// Whether the response can be archived or is refused for its text.
    pub fn fits(&self) -> (fits: bool)
        ensures
            fits == payloads_fit(self@),
    {
        match &self.payloads {
            Some(list) => answer_in_bounds(list, &self.error),
            None => refused_opt(&self.error) || short_opt(&self.error),
        }
    }
}

impl PutKvBlocksBatchReq {
    /// Whether the request can be archived or is refused for a text.
    pub fn fits(&self) -> (fits: bool)
        ensures
            fits == put_fits(self@),
    {
        put_in_bounds(&self.namespace, &self.block_hashes_hex, &self.payloads)
    }
}

impl PutKvBlocksBatchResp {
    /// Whether the response can be archived or is refused for its text.
    pub fn fits(&self) -> (fits: bool)
        ensures
            fits == count_fits(self@),
    {
        count_in_bounds(&self.error)
    }
}

/// The archive that rkyv writes for a namespace and its hashes.
pub uninterp spec fn hash_list_archive(fields: HashListFields) -> Option<Seq<u8>>;

/// The namespace and hashes that rkyv reads from an archive.
pub uninterp spec fn hash_list_archived(bytes: Seq<u8>) -> Option<HashListFields>;

/// The archive that rkyv writes for a 32-bit count and an error.
pub uninterp spec fn count32_archive(fields: CountFields) -> Option<Seq<u8>>;

/// The 32-bit count and error that rkyv reads from an archive.
pub uninterp spec fn count32_archived(bytes: Seq<u8>) -> Option<CountFields>;

/// The archive that rkyv writes for a 64-bit count and an error.
pub uninterp spec fn count64_archive(fields: CountFields) -> Option<Seq<u8>>;

/// The 64-bit count and error that rkyv reads from an archive.
pub uninterp spec fn count64_archived(bytes: Seq<u8>) -> Option<CountFields>;

/// The archive that rkyv writes for optional payloads and an error.
pub uninterp spec fn payloads_archive(fields: PayloadsFields) -> Option<Seq<u8>>;

/// The optional payloads and error that rkyv reads from an archive.
pub uninterp spec fn payloads_archived(bytes: Seq<u8>) -> Option<PayloadsFields>;

/// The archive that rkyv writes for a namespace, hashes and payloads.
pub uninterp spec fn put_archive(fields: PutFields) -> Option<Seq<u8>>;

/// The namespace, hashes and payloads that rkyv reads from an archive.
pub uninterp spec fn put_archived(bytes: Seq<u8>) -> Option<PutFields>;

/// `rkyv::to_bytes` on `(namespace, hashes)`. It fails on a text that is too
/// long for an archive and on nothing else. The bytes depend on the values
/// alone, and reading them back gives the values.
/// Nothing is said of the error text. Where an entry or a field does not reach what
/// it refers to, the call panics or writes a wrong offset, hence the bound.
#[verifier::external_body]
fn rkyv_write_hash_list(namespace: &String, hashes: &Vec<String>) -> (bytes: Result<
    Vec<u8>,
    String,
>)
    requires
        hash_list_fits(HashListFields { namespace: namespace@, hashes: texts(hashes@) }),
    ensures
        ({
            let fields = HashListFields { namespace: namespace@, hashes: texts(hashes@) };
            match bytes {
                Ok(b) => hash_list_short(fields) && hash_list_archive(fields) == Some(b@)
                    && hash_list_archived(b@) == Some(fields),
                Err(_) => !hash_list_short(fields) && hash_list_archive(fields) is None,
            }
        }),
{
    match rkyv::to_bytes::<rkyv::rancor::Error>(&(namespace.clone(), hashes.clone())) {
        Ok(bytes) => Ok(bytes.to_vec()),
        Err(err) => Err(format!("{err}")),
    }
}

/// `rkyv::from_bytes` on an aligned copy of the bytes, into `(namespace,
/// hashes)`. The result depends on the bytes alone; nothing is said of the
/// error text.
#[verifier::external_body]
fn rkyv_read_hash_list(bytes: &[u8]) -> (fields: Result<(String, Vec<String>), String>)
    ensures
        fields matches Ok(f) ==> hash_list_archived(bytes@) == Some(
            HashListFields { namespace: f.0@, hashes: texts(f.1@) },
        ),
        fields is Err ==> hash_list_archived(bytes@) is None,
{
    let mut aligned: rkyv::util::AlignedVec<16> = rkyv::util::AlignedVec::new();
    aligned.extend_from_slice(bytes);
    match rkyv::from_bytes::<(String, Vec<String>), rkyv::rancor::Error>(&aligned) {
        Ok(fields) => Ok(fields),
        Err(err) => Err(format!("{err}")),
    }
}

/// `rkyv::to_bytes` on `(count, error)` with a 32-bit count. It fails on a
/// text that is too long for an archive and on nothing else. The bytes depend on
/// the values alone, and reading them back gives the values.
/// Nothing is said of the error text. A longer text that is not refused is
/// archived wrong, hence the bound.
#[verifier::external_body]
fn rkyv_write_count32(count: u32, error: &Option<String>) -> (bytes: Result<Vec<u8>, String>)
    requires
        count_fits(CountFields { count: count as nat, error: text_opt(*error) }),
    ensures
        ({
            let fields = CountFields { count: count as nat, error: text_opt(*error) };
            match bytes {
                Ok(b) => is_short_opt(fields.error) && count32_archive(fields) == Some(b@)
                    && count32_archived(b@) == Some(fields),
                Err(_) => !is_short_opt(fields.error) && count32_archive(fields) is None,
            }
        }),
{
    match rkyv::to_bytes::<rkyv::rancor::Error>(&(count, error.clone())) {
        Ok(bytes) => Ok(bytes.to_vec()),
        Err(err) => Err(format!("{err}")),
    }
}

/// `rkyv::from_bytes` on an aligned copy of the bytes, into `(count, error)`
/// with a 32-bit count. The result depends on the bytes alone; nothing is said
/// of the error text.
#[verifier::external_body]
fn rkyv_read_count32(bytes: &[u8]) -> (fields: Result<(u32, Option<String>), String>)
    ensures
        fields matches Ok(f) ==> count32_archived(bytes@) == Some(
            CountFields { count: f.0 as nat, error: text_opt(f.1) },
        ),
        fields is Err ==> count32_archived(bytes@) is None,
{
    let mut aligned: rkyv::util::AlignedVec<16> = rkyv::util::AlignedVec::new();
    aligned.extend_from_slice(bytes);
    match rkyv::from_bytes::<(u32, Option<String>), rkyv::rancor::Error>(&aligned) {
        Ok(fields) => Ok(fields),
        Err(err) => Err(format!("{err}")),
    }
}

/// `rkyv::to_bytes` on `(count, error)` with a 64-bit count. It fails on a
/// text that is too long for an archive and on nothing else. The bytes depend on
/// the values alone, and reading them back gives the values.
/// Nothing is said of the error text. A longer text that is not refused is
/// archived wrong, hence the bound.
#[verifier::external_body]
fn rkyv_write_count64(count: u64, error: &Option<String>) -> (bytes: Result<Vec<u8>, String>)
    requires
        count_fits(CountFields { count: count as nat, error: text_opt(*error) }),
    ensures
        ({
            let fields = CountFields { count: count as nat, error: text_opt(*error) };
            match bytes {
                Ok(b) => is_short_opt(fields.error) && count64_archive(fields) == Some(b@)
                    && count64_archived(b@) == Some(fields),
                Err(_) => !is_short_opt(fields.error) && count64_archive(fields) is None,
            }
        }),
{
    match rkyv::to_bytes::<rkyv::rancor::Error>(&(count, error.clone())) {
        Ok(bytes) => Ok(bytes.to_vec()),
        Err(err) => Err(format!("{err}")),
    }
}

/// `rkyv::from_bytes` on an aligned copy of the bytes, into `(count, error)`
/// with a 64-bit count. The result depends on the bytes alone; nothing is said
/// of the error text.
#[verifier::external_body]
fn rkyv_read_count64(bytes: &[u8]) -> (fields: Result<(u64, Option<String>), String>)
    ensures
        fields matches Ok(f) ==> count64_archived(bytes@) == Some(
            CountFields { count: f.0 as nat, error: text_opt(f.1) },
        ),
        fields is Err ==> count64_archived(bytes@) is None,
{
    let mut aligned: rkyv::util::AlignedVec<16> = rkyv::util::AlignedVec::new();
    aligned.extend_from_slice(bytes);
    match rkyv::from_bytes::<(u64, Option<String>), rkyv::rancor::Error>(&aligned) {
        Ok(fields) => Ok(fields),
        Err(err) => Err(format!("{err}")),
    }
}

/// `rkyv::to_bytes` on `(payloads, error)`. It fails on a text that is too
/// long for an archive and on nothing else. The bytes depend on the values
/// alone, and reading them back gives the values.
/// Nothing is said of the error text. Where an entry or a field does not reach what
/// it refers to, the call panics or writes a wrong offset, hence the bound.
#[verifier::external_body]
fn rkyv_write_payloads(payloads: &Option<Vec<Vec<u8>>>, error: &Option<String>) -> (bytes: Result<
    Vec<u8>,
    String,
>)
    requires
        payloads_fit(PayloadsFields { payloads: blobs_opt(*payloads), error: text_opt(*error) }),
    ensures
        ({
            let fields = PayloadsFields { payloads: blobs_opt(*payloads), error: text_opt(*error) };
            match bytes {
                Ok(b) => is_short_opt(fields.error) && payloads_archive(fields) == Some(b@)
                    && payloads_archived(b@) == Some(fields),
                Err(_) => !is_short_opt(fields.error) && payloads_archive(fields) is None,
            }
        }),
{
    match rkyv::to_bytes::<rkyv::rancor::Error>(&(payloads.clone(), error.clone())) {
        Ok(bytes) => Ok(bytes.to_vec()),
        Err(err) => Err(format!("{err}")),
    }
}

/// `rkyv::from_bytes` on an aligned copy of the bytes, into `(payloads,
/// error)`. The result depends on the bytes alone; nothing is said of the error
/// text.
#[verifier::external_body]
fn rkyv_read_payloads(bytes: &[u8]) -> (fields: Result<
    (Option<Vec<Vec<u8>>>, Option<String>),
    String,
>)
    ensures
        fields matches Ok(f) ==> payloads_archived(bytes@) == Some(
            PayloadsFields { payloads: blobs_opt(f.0), error: text_opt(f.1) },
        ),
        fields is Err ==> payloads_archived(bytes@) is None,
{
    let mut aligned: rkyv::util::AlignedVec<16> = rkyv::util::AlignedVec::new();
    aligned.extend_from_slice(bytes);
    match rkyv::from_bytes::<(Option<Vec<Vec<u8>>>, Option<String>), rkyv::rancor::Error>(&aligned) {
        Ok(fields) => Ok(fields),
        Err(err) => Err(format!("{err}")),
    }
}

/// `rkyv::to_bytes` on `(namespace, hashes, payloads)`. It fails on a text
/// that is too long for an archive and on nothing else. The bytes depend on the
/// values alone, and reading them back gives the values. Nothing is said of the
/// error text. Where an entry or a field does not reach what it refers to, the call
/// panics or writes a wrong offset, hence the bound.
#[verifier::external_body]
fn rkyv_write_put(request: &PutKvBlocksBatchReq) -> (bytes: Result<Vec<u8>, String>)
    requires
        put_fits(request@),
    ensures
        ({
            let fields = request@;
            match bytes {
                Ok(b) => put_short(fields) && put_archive(fields) == Some(b@) && put_archived(b@)
                    == Some(fields),
                Err(_) => !put_short(fields) && put_archive(fields) is None,
            }
        }),
{
    let r = request.clone();
    match rkyv::to_bytes::<rkyv::rancor::Error>(&(r.namespace, r.block_hashes_hex, r.payloads)) {
        Ok(bytes) => Ok(bytes.to_vec()),
        Err(err) => Err(format!("{err}")),
    }
}

/// `rkyv::from_bytes` on an aligned copy of the bytes, into `(namespace,
/// hashes, payloads)`. The result depends on the bytes alone; nothing is said
/// of the error text.
#[verifier::external_body]
fn rkyv_read_put(bytes: &[u8]) -> (request: Result<PutKvBlocksBatchReq, String>)
    ensures
        request matches Ok(r) ==> put_archived(bytes@) == Some(r@),
        request is Err ==> put_archived(bytes@) is None,
{
    let mut aligned: rkyv::util::AlignedVec<16> = rkyv::util::AlignedVec::new();
    aligned.extend_from_slice(bytes);
    match rkyv::from_bytes::<(String, Vec<String>, Vec<Vec<u8>>), rkyv::rancor::Error>(&aligned) {
        Ok((namespace, block_hashes_hex, payloads)) => {
            Ok(PutKvBlocksBatchReq { namespace, block_hashes_hex, payloads })
        },
        Err(err) => Err(format!("{err}")),
    }
}

// ---- framing ----

/// The part behind a magic, if the payload starts with it.
pub open spec fn unframed(payload: Seq<u8>, magic: Seq<u8>) -> Option<Seq<u8>> {
    if magic.is_prefix_of(payload) {
        Some(payload.skip(magic.len() as int))
    } else {
        None
    }
}

/// An archive behind a magic, if there is an archive.
pub open spec fn framed(magic: Seq<u8>, archive: Option<Seq<u8>>) -> Option<Seq<u8>> {
    match archive {
        Some(body) => Some(magic + body),
        None => None,
    }
}

/// Whether an error is the right one for a payload that does not decode: a bad
/// magic where the payload does not start with it, else an archive failure.
pub open spec fn undecodable(
    error: WireFault,
    payload: Seq<u8>,
    magic: Seq<u8>,
    op: Seq<char>,
) -> bool {
    match unframed(payload, magic) {
        None => error == bad_magic(payload, magic, op),
        Some(_) => error matches WireFault::Rkyv { op: failed, source: _ } && failed == op,
    }
}

/// Whether an error is an archive failure of the given op.
pub open spec fn archive_fault(error: WireFault, op: Seq<char>) -> bool {
    error matches WireFault::Rkyv { op: failed, source: _ } && failed == op
}

/// Checks the magic and returns what is behind it.
fn expect_magic<'a>(payload: &'a [u8], magic: &[u8], op: &'static str) -> (body: Result<
    &'a [u8],
    WireCodecError,
>)
    ensures
        match body {
            Ok(b) => unframed(payload@, magic@) == Some(b@),
            Err(error) => unframed(payload@, magic@) is None && error@ == bad_magic(
                payload@,
                magic@,
                op@,
            ),
        },
{
    if !starts_with(payload, magic) {
        return Err(bad_magic_error(payload, magic, op));
    }
    let body = &payload[magic.len()..payload.len()];
    assert(body@ =~= payload@.skip(magic@.len() as int));
    Ok(body)
}

/// Puts a magic in front of an archive.
fn frame(magic: &[u8], body: &[u8]) -> (payload: Vec<u8>)
    ensures
        payload@ == magic@ + body@,
        unframed(payload@, magic@) == Some(body@),
{
    let mut out: Vec<u8> = Vec::new();
    push_bytes(&mut out, magic);
    push_bytes(&mut out, body);
    assert(out@ =~= magic@ + body@);
    assert(out@.subrange(0, magic@.len() as int) =~= magic@);
    assert(out@.skip(magic@.len() as int) =~= body@);
    out
}

// ---- LOOKUP_BLOCK_PREFIX ----

/// What a lookup request payload decodes to.
pub open spec fn lookup_req_decoded(payload: Seq<u8>) -> Option<HashListFields> {
    match unframed(payload, LOOKUP_BLOCK_PREFIX_REQ_MAGIC@) {
        Some(body) => hash_list_archived(body),
        None => None,
    }
}

/// What a lookup response payload decodes to.
pub open spec fn lookup_resp_decoded(payload: Seq<u8>) -> Option<CountFields> {
    match unframed(payload, LOOKUP_BLOCK_PREFIX_RESP_MAGIC@) {
        Some(body) => count32_archived(body),
        None => None,
    }
}

/// Encode a [`LookupBlockPrefixReq`] for `WireRequest.payload`: the magic, then
/// the archive. What it returns decodes to the same request.
pub fn encode_lookup_block_prefix_req(req: &LookupBlockPrefixReq) -> (encoded: Result<
    Vec<u8>,
    WireCodecError,
>)
    requires
        hash_list_fits(req@),
    ensures
        match encoded {
            Ok(payload) => framed(LOOKUP_BLOCK_PREFIX_REQ_MAGIC@, hash_list_archive(req@)) == Some(
                payload@,
            ) && lookup_req_decoded(payload@) == Some(req@),
            Err(error) => hash_list_archive(req@) is None && archive_fault(
                error@,
                "lookup_block_prefix_req"@,
            ),
        },
        encoded is Ok <==> hash_list_short(req@),
{
    match rkyv_write_hash_list(&req.namespace, &req.block_hashes_hex) {
        Ok(body) => Ok(frame(&LOOKUP_BLOCK_PREFIX_REQ_MAGIC, &body)),
        Err(source) => Err(WireCodecError::Rkyv { op: "lookup_block_prefix_req", source }),
    }
}

/// Decode a lookup request payload.
pub fn decode_lookup_block_prefix_req(bytes: &[u8]) -> (decoded: Result<
    LookupBlockPrefixReq,
    WireCodecError,
>)
    ensures
        match decoded {
            Ok(req) => lookup_req_decoded(bytes@) == Some(req@),
            Err(error) => lookup_req_decoded(bytes@) is None && undecodable(
                error@,
                bytes@,
                LOOKUP_BLOCK_PREFIX_REQ_MAGIC@,
                "lookup_block_prefix_req"@,
            ),
        },
{
    let body = match expect_magic(bytes, &LOOKUP_BLOCK_PREFIX_REQ_MAGIC, "lookup_block_prefix_req") {
        Ok(body) => body,
        Err(error) => {
            return Err(error);
        },
    };
    match rkyv_read_hash_list(body) {
        Ok((namespace, block_hashes_hex)) => Ok(LookupBlockPrefixReq { namespace, block_hashes_hex }),
        Err(source) => Err(WireCodecError::Rkyv { op: "lookup_block_prefix_req", source }),
    }
}

/// Encode a [`LookupBlockPrefixResp`] for `WireResponse.payload`. What it
/// returns decodes to the same response.
pub fn encode_lookup_block_prefix_resp(resp: &LookupBlockPrefixResp) -> (encoded: Result<
    Vec<u8>,
    WireCodecError,
>)
    requires
        count_fits(resp@),
    ensures
        match encoded {
            Ok(payload) => framed(LOOKUP_BLOCK_PREFIX_RESP_MAGIC@, count32_archive(resp@)) == Some(
                payload@,
            ) && lookup_resp_decoded(payload@) == Some(resp@),
            Err(error) => count32_archive(resp@) is None && archive_fault(
                error@,
                "lookup_block_prefix_resp"@,
            ),
        },
        encoded is Ok <==> is_short_opt(resp@.error),
{
    match rkyv_write_count32(resp.matched_count, &resp.error) {
        Ok(body) => Ok(frame(&LOOKUP_BLOCK_PREFIX_RESP_MAGIC, &body)),
        Err(source) => Err(WireCodecError::Rkyv { op: "lookup_block_prefix_resp", source }),
    }
}

/// Decode a lookup response payload.
pub fn decode_lookup_block_prefix_resp(bytes: &[u8]) -> (decoded: Result<
    LookupBlockPrefixResp,
    WireCodecError,
>)
    ensures
        match decoded {
            Ok(resp) => lookup_resp_decoded(bytes@) == Some(resp@),
            Err(error) => lookup_resp_decoded(bytes@) is None && undecodable(
                error@,
                bytes@,
                LOOKUP_BLOCK_PREFIX_RESP_MAGIC@,
                "lookup_block_prefix_resp"@,
            ),
        },
{
    let body = match expect_magic(
        bytes,
        &LOOKUP_BLOCK_PREFIX_RESP_MAGIC,
        "lookup_block_prefix_resp",
    ) {
        Ok(body) => body,
        Err(error) => {
            return Err(error);
        },
    };
    match rkyv_read_count32(body) {
        Ok((matched_count, error)) => Ok(LookupBlockPrefixResp { matched_count, error }),
        Err(source) => Err(WireCodecError::Rkyv { op: "lookup_block_prefix_resp", source }),
    }
}

// ---- GET_KV_BLOCKS_BATCH ----

/// What a block-get request payload decodes to.
pub open spec fn get_req_decoded(payload: Seq<u8>) -> Option<HashListFields> {
    match unframed(payload, GET_KV_BLOCKS_BATCH_REQ_MAGIC@) {
        Some(body) => hash_list_archived(body),
        None => None,
    }
}

/// What a block-get response payload decodes to.
pub open spec fn get_resp_decoded(payload: Seq<u8>) -> Option<PayloadsFields> {
    match unframed(payload, GET_KV_BLOCKS_BATCH_RESP_MAGIC@) {
        Some(body) => payloads_archived(body),
        None => None,
    }
}

/// Encode a [`GetKvBlocksBatchReq`]. What it returns decodes to the same
/// request.
pub fn encode_get_kv_blocks_batch_req(req: &GetKvBlocksBatchReq) -> (encoded: Result<
    Vec<u8>,
    WireCodecError,
>)
    requires
        hash_list_fits(req@),
    ensures
        match encoded {
            Ok(payload) => framed(GET_KV_BLOCKS_BATCH_REQ_MAGIC@, hash_list_archive(req@)) == Some(
                payload@,
            ) && get_req_decoded(payload@) == Some(req@),
            Err(error) => hash_list_archive(req@) is None && archive_fault(
                error@,
                "get_kv_blocks_batch_req"@,
            ),
        },
        encoded is Ok <==> hash_list_short(req@),
{
    match rkyv_write_hash_list(&req.namespace, &req.block_hashes_hex) {
        Ok(body) => Ok(frame(&GET_KV_BLOCKS_BATCH_REQ_MAGIC, &body)),
        Err(source) => Err(WireCodecError::Rkyv { op: "get_kv_blocks_batch_req", source }),
    }
}

/// Decode a block-get request payload.
pub fn decode_get_kv_blocks_batch_req(bytes: &[u8]) -> (decoded: Result<
    GetKvBlocksBatchReq,
    WireCodecError,
>)
    ensures
        match decoded {
            Ok(req) => get_req_decoded(bytes@) == Some(req@),
            Err(error) => get_req_decoded(bytes@) is None && undecodable(
                error@,
                bytes@,
                GET_KV_BLOCKS_BATCH_REQ_MAGIC@,
                "get_kv_blocks_batch_req"@,
            ),
        },
{
    let body = match expect_magic(bytes, &GET_KV_BLOCKS_BATCH_REQ_MAGIC, "get_kv_blocks_batch_req") {
        Ok(body) => body,
        Err(error) => {
            return Err(error);
        },
    };
    match rkyv_read_hash_list(body) {
        Ok((namespace, block_hashes_hex)) => Ok(GetKvBlocksBatchReq { namespace, block_hashes_hex }),
        Err(source) => Err(WireCodecError::Rkyv { op: "get_kv_blocks_batch_req", source }),
    }
}

/// Encode a [`GetKvBlocksBatchResp`]. What it returns decodes to the same
/// response.
pub fn encode_get_kv_blocks_batch_resp(resp: &GetKvBlocksBatchResp) -> (encoded: Result<
    Vec<u8>,
    WireCodecError,
>)
    requires
        payloads_fit(resp@),
    ensures
        match encoded {
            Ok(payload) => framed(GET_KV_BLOCKS_BATCH_RESP_MAGIC@, payloads_archive(resp@)) == Some(
                payload@,
            ) && get_resp_decoded(payload@) == Some(resp@),
            Err(error) => payloads_archive(resp@) is None && archive_fault(
                error@,
                "get_kv_blocks_batch_resp"@,
            ),
        },
        encoded is Ok <==> is_short_opt(resp@.error),
{
    match rkyv_write_payloads(&resp.payloads, &resp.error) {
        Ok(body) => Ok(frame(&GET_KV_BLOCKS_BATCH_RESP_MAGIC, &body)),
        Err(source) => Err(WireCodecError::Rkyv { op: "get_kv_blocks_batch_resp", source }),
    }
}

/// Decode a block-get response payload.
pub fn decode_get_kv_blocks_batch_resp(bytes: &[u8]) -> (decoded: Result<
    GetKvBlocksBatchResp,
    WireCodecError,
>)
    ensures
        match decoded {
            Ok(resp) => get_resp_decoded(bytes@) == Some(resp@),
            Err(error) => get_resp_decoded(bytes@) is None && undecodable(
                error@,
                bytes@,
                GET_KV_BLOCKS_BATCH_RESP_MAGIC@,
                "get_kv_blocks_batch_resp"@,
            ),
        },
{
    let body = match expect_magic(
        bytes,
        &GET_KV_BLOCKS_BATCH_RESP_MAGIC,
        "get_kv_blocks_batch_resp",
    ) {
        Ok(body) => body,
        Err(error) => {
            return Err(error);
        },
    };
    match rkyv_read_payloads(body) {
        Ok((payloads, error)) => Ok(GetKvBlocksBatchResp { payloads, error }),
        Err(source) => Err(WireCodecError::Rkyv { op: "get_kv_blocks_batch_resp", source }),
    }
}

// ---- PUT_KV_BLOCKS_BATCH ----

/// What a block-put request payload decodes to.
pub open spec fn put_req_decoded(payload: Seq<u8>) -> Option<PutFields> {
    match unframed(payload, PUT_KV_BLOCKS_BATCH_REQ_MAGIC@) {
        Some(body) => put_archived(body),
        None => None,
    }
}

/// What a block-put response payload decodes to.
pub open spec fn put_resp_decoded(payload: Seq<u8>) -> Option<CountFields> {
    match unframed(payload, PUT_KV_BLOCKS_BATCH_RESP_MAGIC@) {
        Some(body) => count64_archived(body),
        None => None,
    }
}

/// Encode a [`PutKvBlocksBatchReq`], which must have one payload per hash. What
/// it returns decodes to the same request.
pub fn encode_put_kv_blocks_batch_req(req: &PutKvBlocksBatchReq) -> (encoded: Result<
    Vec<u8>,
    WireCodecError,
>)
    requires
        req.block_hashes_hex@.len() == req.payloads@.len() ==> put_fits(req@),
    ensures
        req.block_hashes_hex@.len() != req.payloads@.len() ==> (encoded matches Err(error)
            && error@ == (WireFault::BodyLengthMismatch {
            what: "put_kv_blocks_batch_req"@,
            claimed: req.block_hashes_hex@.len(),
            actual: req.payloads@.len(),
        })),
        req.block_hashes_hex@.len() == req.payloads@.len() ==> match encoded {
            Ok(payload) => framed(PUT_KV_BLOCKS_BATCH_REQ_MAGIC@, put_archive(req@)) == Some(
                payload@,
            ) && put_req_decoded(payload@) == Some(req@),
            Err(error) => put_archive(req@) is None && archive_fault(
                error@,
                "put_kv_blocks_batch_req"@,
            ),
        },
        encoded is Ok <==> req.block_hashes_hex@.len() == req.payloads@.len() && put_short(req@),
{
    if req.block_hashes_hex.len() != req.payloads.len() {
        return Err(
            WireCodecError::BodyLengthMismatch {
                what: "put_kv_blocks_batch_req",
                claimed: req.block_hashes_hex.len(),
                actual: req.payloads.len(),
            },
        );
    }
    match rkyv_write_put(req) {
        Ok(body) => Ok(frame(&PUT_KV_BLOCKS_BATCH_REQ_MAGIC, &body)),
        Err(source) => Err(WireCodecError::Rkyv { op: "put_kv_blocks_batch_req", source }),
    }
}

/// Decode a block-put request payload.
pub fn decode_put_kv_blocks_batch_req(bytes: &[u8]) -> (decoded: Result<
    PutKvBlocksBatchReq,
    WireCodecError,
>)
    ensures
        match decoded {
            Ok(req) => put_req_decoded(bytes@) == Some(req@),
            Err(error) => put_req_decoded(bytes@) is None && undecodable(
                error@,
                bytes@,
                PUT_KV_BLOCKS_BATCH_REQ_MAGIC@,
                "put_kv_blocks_batch_req"@,
            ),
        },
{
    let body = match expect_magic(bytes, &PUT_KV_BLOCKS_BATCH_REQ_MAGIC, "put_kv_blocks_batch_req") {
        Ok(body) => body,
        Err(error) => {
            return Err(error);
        },
    };
    match rkyv_read_put(body) {
        Ok(req) => Ok(req),
        Err(source) => Err(WireCodecError::Rkyv { op: "put_kv_blocks_batch_req", source }),
    }
}

/// Encode a [`PutKvBlocksBatchResp`]. What it returns decodes to the same
/// response.
pub fn encode_put_kv_blocks_batch_resp(resp: &PutKvBlocksBatchResp) -> (encoded: Result<
    Vec<u8>,
    WireCodecError,
>)
    requires
        count_fits(resp@),
    ensures
        match encoded {
            Ok(payload) => framed(PUT_KV_BLOCKS_BATCH_RESP_MAGIC@, count64_archive(resp@)) == Some(
                payload@,
            ) && put_resp_decoded(payload@) == Some(resp@),
            Err(error) => count64_archive(resp@) is None && archive_fault(
                error@,
                "put_kv_blocks_batch_resp"@,
            ),
        },
        encoded is Ok <==> is_short_opt(resp@.error),
{
    match rkyv_write_count64(resp.total_bytes, &resp.error) {
        Ok(body) => Ok(frame(&PUT_KV_BLOCKS_BATCH_RESP_MAGIC, &body)),
        Err(source) => Err(WireCodecError::Rkyv { op: "put_kv_blocks_batch_resp", source }),
    }
}

/// Decode a block-put response payload.
pub fn decode_put_kv_blocks_batch_resp(bytes: &[u8]) -> (decoded: Result<
    PutKvBlocksBatchResp,
    WireCodecError,
>)
    ensures
        match decoded {
            Ok(resp) => put_resp_decoded(bytes@) == Some(resp@),
            Err(error) => put_resp_decoded(bytes@) is None && undecodable(
                error@,
                bytes@,
                PUT_KV_BLOCKS_BATCH_RESP_MAGIC@,
                "put_kv_blocks_batch_resp"@,
            ),
        },
{
    let body = match expect_magic(
        bytes,
        &PUT_KV_BLOCKS_BATCH_RESP_MAGIC,
        "put_kv_blocks_batch_resp",
    ) {
        Ok(body) => body,
        Err(error) => {
            return Err(error);
        },
    };
    match rkyv_read_count64(body) {
        Ok((total_bytes, error)) => Ok(PutKvBlocksBatchResp { total_bytes, error }),
        Err(source) => Err(WireCodecError::Rkyv { op: "put_kv_blocks_batch_resp", source }),
    }
}

// ---- laws ----

/// A payload is read as one kind of block message only: what decodes as one of the six
/// decodes as none of the others.
pub proof fn block_payloads_are_told_apart(payload: Seq<u8>)
    ensures
        ({
            let kinds = seq![
                lookup_req_decoded(payload) is Some,
                lookup_resp_decoded(payload) is Some,
                get_req_decoded(payload) is Some,
                get_resp_decoded(payload) is Some,
                put_req_decoded(payload) is Some,
                put_resp_decoded(payload) is Some,
            ];
            forall|i: int, j: int| 0 <= i < j < 6 ==> !(#[trigger] kinds[i] && #[trigger] kinds[j])
        }),
{
    let magics = seq![
        LOOKUP_BLOCK_PREFIX_REQ_MAGIC@,
        LOOKUP_BLOCK_PREFIX_RESP_MAGIC@,
        GET_KV_BLOCKS_BATCH_REQ_MAGIC@,
        GET_KV_BLOCKS_BATCH_RESP_MAGIC@,
        PUT_KV_BLOCKS_BATCH_REQ_MAGIC@,
        PUT_KV_BLOCKS_BATCH_RESP_MAGIC@,
    ];
    let kinds = seq![
        lookup_req_decoded(payload) is Some,
        lookup_resp_decoded(payload) is Some,
        get_req_decoded(payload) is Some,
        get_resp_decoded(payload) is Some,
        put_req_decoded(payload) is Some,
        put_resp_decoded(payload) is Some,
    ];
    assert forall|i: int, j: int| 0 <= i < j < 6 implies !(#[trigger] kinds[i]
        && #[trigger] kinds[j]) by {
        if kinds[i] && kinds[j] {
            assert(magics[i].is_prefix_of(payload));
            assert(magics[j].is_prefix_of(payload));
            assert forall|k: int| 0 <= k < 16 implies #[trigger] magics[i][k] == magics[j][k] by {
                assert(payload.subrange(0, 16)[k] == magics[i][k]);
                assert(payload.subrange(0, 16)[k] == magics[j][k]);
            }
            assert(magics[i][5] == magics[j][5] && magics[i][11] == magics[j][11]);
        }
    }
}

/// A list of whole hashes can be archived, with the blocks that belong to it, up to
/// sizes that no batch comes near.
pub proof fn common_batches_fit(fields: PutFields)
    requires
        byte_len(fields.namespace) <= 0x1_0000,
        fields.hashes.len() <= 0x400,
        fields.payloads.len() == fields.hashes.len(),
        forall|i: int|
            0 <= i < fields.hashes.len() ==> byte_len(#[trigger] fields.hashes[i]) <= 0x40,
        forall|i: int|
            0 <= i < fields.payloads.len() ==> (#[trigger] fields.payloads[i]).len() <= 0x10_0000,
    ensures
        put_fits(fields) && put_short(fields),
        hash_list_fits(HashListFields { namespace: fields.namespace, hashes: fields.hashes }),
        payloads_fit(PayloadsFields { payloads: Some(fields.payloads), error: None }),
{
    lemma_texts_bound(fields.hashes);
    lemma_payloads_bound(fields.payloads);
}

proof fn lemma_texts_bound(list: Seq<Seq<char>>)
    requires
        forall|i: int| 0 <= i < list.len() ==> byte_len(#[trigger] list[i]) <= 0x40,
    ensures
        texts_bytes(list) <= 0x40 * list.len(),
    decreases list.len(),
{
    if list.len() > 0 {
        let rest = list.drop_last();
        assert forall|i: int| 0 <= i < rest.len() implies byte_len(#[trigger] rest[i]) <= 0x40 by {
            assert(rest[i] == list[i]);
        }
        lemma_texts_bound(rest);
        assert(byte_len(list[list.len() - 1]) <= 0x40);
    }
}

proof fn lemma_payloads_bound(list: Seq<Seq<u8>>)
    requires
        forall|i: int| 0 <= i < list.len() ==> (#[trigger] list[i]).len() <= 0x10_0000,
    ensures
        payloads_bytes(list) <= 0x10_0000 * list.len(),
    decreases list.len(),
{
    if list.len() > 0 {
        let rest = list.drop_last();
        assert forall|i: int| 0 <= i < rest.len() implies (#[trigger] rest[i]).len() <= 0x10_0000 by {
            assert(rest[i] == list[i]);
        }
        lemma_payloads_bound(rest);
        assert(list[list.len() - 1].len() <= 0x10_0000);
    }
}

} // verus!
