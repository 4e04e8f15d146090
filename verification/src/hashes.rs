//! Block hashes: 64 hexadecimal digits on the wire, 32 bytes inside, and the
//! object keys derived from them.

use vstd::prelude::*;
use vstd::utf8::{
    encode_utf8, encode_utf8_decode_utf8, is_ascii_chars, is_ascii_chars_encode_utf8,
};

use crate::text::{debug_of, debug_text, dec, hex_char, push_dec, texts};

verus! {

/// The object-key namespace of content-addressed block payloads.
pub open spec fn block_key_prefix() -> Seq<char> {
    "wombatkv/v1/block/b3="@
}

/// Compose the content-addressed key for a block hash.
pub fn block_key_from_hex(hex: &str) -> (key: String)
    ensures
        key@ == block_key_prefix() + hex@,
{
    let mut key = String::new();
    key.push_str("wombatkv/v1/block/b3=");
    key.push_str(hex);
    assert(key@ =~= block_key_prefix() + hex@);
    key
}

/// The value of a hexadecimal digit. Letters are lower case: a hash has one text
/// only.
pub open spec fn nibble_of(c: u8) -> Option<nat> {
    if 48 <= c <= 57 {
        Some((c - 48) as nat)
    } else if 97 <= c <= 102 {
        Some((c - 87) as nat)
    } else {
        None
    }
}

/// The value of a hexadecimal digit.
pub fn decode_hex_nibble(c: u8) -> (nibble: Option<u8>)
    ensures
        match nibble {
            Some(n) => nibble_of(c) == Some(n as nat) && n < 16,
            None => nibble_of(c) is None,
        },
{
    if 48 <= c && c <= 57 {
        Some(c - 48)
    } else if 97 <= c && c <= 102 {
        Some(c - 87)
    } else {
        None
    }
}

/// Whether every byte is a hexadecimal digit.
pub open spec fn all_hex(bytes: Seq<u8>) -> bool {
    forall|i: int| 0 <= i < bytes.len() ==> nibble_of(#[trigger] bytes[i]) is Some
}

/// The first byte that is not a hexadecimal digit, or the length.
pub open spec fn first_bad(bytes: Seq<u8>) -> nat
    decreases bytes.len(),
{
    if bytes.len() == 0 || nibble_of(bytes[0]) is None {
        0
    } else {
        1 + first_bad(bytes.drop_first())
    }
}

/// A position is the first bad one if it is bad and nothing before it is.
proof fn lemma_first_bad(bytes: Seq<u8>, at: int)
    requires
        0 <= at < bytes.len(),
        nibble_of(bytes[at]) is None,
        forall|i: int| 0 <= i < at ==> nibble_of(#[trigger] bytes[i]) is Some,
    ensures
        first_bad(bytes) == at,
    decreases bytes.len(),
{
    if at > 0 {
        assert(nibble_of(bytes[0]) is Some);
        let rest = bytes.drop_first();
        assert forall|i: int| 0 <= i < at - 1 implies nibble_of(#[trigger] rest[i]) is Some by {
            assert(nibble_of(bytes[i + 1]) is Some);
        }
        lemma_first_bad(rest, at - 1);
    }
}

/// The bytes that hexadecimal digits denote, two digits each.
pub open spec fn hash_of(bytes: Seq<u8>) -> Seq<u8> {
    Seq::new(
        bytes.len() / 2,
        |i: int| (16 * nibble_of(bytes[2 * i])->0 + nibble_of(bytes[2 * i + 1])->0) as u8,
    )
}

/// The hash that a text denotes, or what is wrong with it.
pub open spec fn hash_parsed(hex: Seq<char>) -> Result<Seq<u8>, Seq<char>> {
    let bytes = encode_utf8(hex);
    if bytes.len() != 64 {
        Err(
            "block hash hex must be 64 chars; got "@ + dec(bytes.len()) + " for "@ + debug_of(hex),
        )
    } else if !all_hex(bytes) {
        Err("bad hex char at pos "@ + dec(first_bad(bytes)) + " in "@ + debug_of(hex))
    } else {
        Ok(hash_of(bytes))
    }
}

/// Builds the bad-digit message.
fn bad_digit(at: usize, hex: &str) -> (message: String)
    ensures
        message@ == "bad hex char at pos "@ + dec(at as nat) + " in "@ + debug_of(hex@),
{
    let mut text = String::new();
    text.push_str("bad hex char at pos ");
    push_dec(&mut text, at as u128);
    text.push_str(" in ");
    text.push_str(&debug_text(hex));
    assert(text@ =~= "bad hex char at pos "@ + dec(at as nat) + " in "@ + debug_of(hex@));
    text
}

/// Parse a 64-digit hexadecimal hash.
pub fn parse_block_hash_hex(hex: &str) -> (hash: Result<[u8; 32], String>)
    ensures
        match hash {
            Ok(h) => hash_parsed(hex@) == Ok::<Seq<u8>, Seq<char>>(h@),
            Err(message) => hash_parsed(hex@) == Err::<Seq<u8>, Seq<char>>(message@),
        },
{
    let bytes = hex.as_bytes();
    if bytes.len() != 64 {
        let mut text = String::new();
        text.push_str("block hash hex must be 64 chars; got ");
        push_dec(&mut text, bytes.len() as u128);
        text.push_str(" for ");
        text.push_str(&debug_text(hex));
        assert(text@ =~= "block hash hex must be 64 chars; got "@ + dec(bytes@.len()) + " for "@
            + debug_of(hex@));
        return Err(text);
    }
    let mut out: [u8; 32] = [0;32];
    let mut i: usize = 0;
    while i < 32
        invariant
            i <= 32,
            bytes@ == encode_utf8(hex@),
            bytes@.len() == 64,
            forall|j: int| 0 <= j < 2 * i ==> nibble_of(#[trigger] bytes@[j]) is Some,
            forall|j: int| 0 <= j < i ==> out@[j] == hash_of(bytes@)[j],
        decreases 32 - i,
    {
        let hi: u8 = match decode_hex_nibble(bytes[2 * i]) {
            Some(n) => n,
            None => {
                proof {
                    lemma_first_bad(bytes@, 2 * i as int);
                    assert(!all_hex(bytes@));
                }
                return Err(bad_digit(2 * i, hex));
            },
        };
        let lo: u8 = match decode_hex_nibble(bytes[2 * i + 1]) {
            Some(n) => n,
            None => {
                proof {
                    lemma_first_bad(bytes@, 2 * i as int + 1);
                    assert(!all_hex(bytes@));
                }
                return Err(bad_digit(2 * i + 1, hex));
            },
        };
        out[i] = 16 * hi + lo;
        i = i + 1;
    }
    assert(out@ =~= hash_of(bytes@));
    Ok(out)
}

/// The contents of a sequence of hashes.
pub open spec fn hash_bytes(hashes: Seq<[u8; 32]>) -> Seq<Seq<u8>> {
    hashes.map_values(|h: [u8; 32]| h@)
}

/// The hashes from position `from` on, or the first error with its position.
pub open spec fn hashes_parsed_from(list: Seq<Seq<char>>, from: nat) -> Result<
    Seq<Seq<u8>>,
    Seq<char>,
>
    decreases list.len() - from,
{
    if from >= list.len() {
        Ok(Seq::empty())
    } else {
        match hash_parsed(list[from as int]) {
            Err(message) => Err("hash["@ + dec(from) + "]: "@ + message),
            Ok(hash) => match hashes_parsed_from(list, from + 1) {
                Err(message) => Err(message),
                Ok(rest) => Ok(seq![hash] + rest),
            },
        }
    }
}

/// The hashes of a list, or the first error with its position.
pub open spec fn hashes_parsed(list: Seq<Seq<char>>) -> Result<Seq<Seq<u8>>, Seq<char>> {
    hashes_parsed_from(list, 0)
}

/// Validate and parse a list of hexadecimal hashes. Returns the first error
/// encountered.
pub fn parse_block_hash_list(hex_list: &[String]) -> (hashes: Result<Vec<[u8; 32]>, String>)
    ensures
        match hashes {
            Ok(h) => hashes_parsed(texts(hex_list@)) == Ok::<Seq<Seq<u8>>, Seq<char>>(
                hash_bytes(h@),
            ) && h@.len() == hex_list@.len(),
            Err(message) => hashes_parsed(texts(hex_list@)) == Err::<Seq<Seq<u8>>, Seq<char>>(
                message@,
            ),
        },
{
    let ghost list = texts(hex_list@);
    let mut out: Vec<[u8; 32]> = Vec::new();
    let mut i: usize = 0;
    proof {
        if let Ok(rest) = hashes_parsed_from(list, 0) {
            assert(hash_bytes(out@) + rest =~= rest);
        }
    }
    while i < hex_list.len()
        invariant
            i <= hex_list@.len(),
            list == texts(hex_list@),
            out@.len() == i,
            match hashes_parsed_from(list, i as nat) {
                Ok(rest) => hashes_parsed(list) == Ok::<Seq<Seq<u8>>, Seq<char>>(
                    hash_bytes(out@) + rest,
                ),
                Err(message) => hashes_parsed(list) == Err::<Seq<Seq<u8>>, Seq<char>>(message),
            },
        decreases hex_list@.len() - i,
    {
        let ghost before = out@;
        assert(list[i as int] == hex_list@[i as int]@);
        match parse_block_hash_hex(&hex_list[i]) {
            Ok(hash) => {
                out.push(hash);
                proof {
                    assert(hash_bytes(out@) =~= hash_bytes(before).push(hash@));
                    if let Ok(rest) = hashes_parsed_from(list, (i + 1) as nat) {
                        assert(hash_bytes(before) + (seq![hash@] + rest) =~= hash_bytes(out@)
                            + rest);
                    }
                }
            },
            Err(message) => {
                let mut text = String::new();
                text.push_str("hash[");
                push_dec(&mut text, i as u128);
                text.push_str("]: ");
                text.push_str(&message);
                assert(text@ =~= "hash["@ + dec(i as nat) + "]: "@ + message@);
                return Err(text);
            },
        }
        i = i + 1;
    }
    assert(hash_bytes(out@) + Seq::<Seq<u8>>::empty() =~= hash_bytes(out@));
    Ok(out)
}

/// The keys of a list of hashes.
pub open spec fn block_keys_of(list: Seq<Seq<char>>) -> Seq<Seq<char>> {
    list.map_values(|hex: Seq<char>| block_key_prefix() + hex)
}

/// The object keys of a list of hexadecimal hashes.
pub fn block_keys(hex_list: &[String]) -> (keys: Vec<String>)
    ensures
        texts(keys@) == block_keys_of(texts(hex_list@)),
{
    let mut keys: Vec<String> = Vec::new();
    let mut i: usize = 0;
    while i < hex_list.len()
        invariant
            i <= hex_list@.len(),
            keys@.len() == i,
            forall|j: int|
                0 <= j < i ==> (#[trigger] keys@[j])@ == block_key_prefix() + hex_list@[j]@,
        decreases hex_list@.len() - i,
    {
        keys.push(block_key_from_hex(&hex_list[i]));
        i = i + 1;
    }
    assert(texts(keys@) =~= block_keys_of(texts(hex_list@)));
    keys
}

/// A hash has one text: two texts of the same hash are the same, so the index,
/// which goes by the hash, and the object store, which goes by the text, name the
/// same block.
pub proof fn a_hash_has_one_text(a: Seq<char>, b: Seq<char>)
    requires
        hash_parsed(a) is Ok,
        hash_parsed(a) == hash_parsed(b),
    ensures
        a == b,
{
    let (x, y) = (encode_utf8(a), encode_utf8(b));
    assert forall|i: int| 0 <= i < 64 implies x[i] == y[i] by {
        let k = i / 2;
        assert(nibble_of(x[2 * k]) is Some && nibble_of(x[2 * k + 1]) is Some);
        assert(nibble_of(y[2 * k]) is Some && nibble_of(y[2 * k + 1]) is Some);
        assert(hash_of(x)[k] == hash_of(y)[k]);
        assert(i == 2 * k || i == 2 * k + 1);
    }
    assert(x =~= y);
    encode_utf8_decode_utf8(a);
    encode_utf8_decode_utf8(b);
}

/// A text of sixty-four digits, two for each byte, the higher half first, is read as
/// the hash with those bytes.
pub proof fn hash_is_read_from_its_digits(hash: Seq<u8>, text: Seq<char>)
    requires
        hash.len() == 32,
        text.len() == 64,
        forall|i: int|
            0 <= i < 32 ==> text[2 * i] == hex_char((#[trigger] hash[i] / 16) as nat) && text[2 * i
                + 1] == hex_char((hash[i] % 16) as nat),
    ensures
        hash_parsed(text) == Ok::<Seq<u8>, Seq<char>>(hash),
{
    let bytes = encode_utf8(text);
    assert forall|i: int| 0 <= i < text.len() implies '\0' <= #[trigger] text[i] <= '\u{7f}' by {
        let k = i / 2;
        assert(hash[k] / 16 < 16 && hash[k] % 16 < 16);
        assert(i == 2 * k || i == 2 * k + 1);
    }
    assert(is_ascii_chars(text));
    is_ascii_chars_encode_utf8(text);
    assert forall|k: int| 0 <= k < 32 implies nibble_of(bytes[2 * k]) == Some(
        (#[trigger] hash[k] / 16) as nat,
    ) && nibble_of(bytes[2 * k + 1]) == Some((hash[k] % 16) as nat) by {
        assert(hash[k] / 16 < 16 && hash[k] % 16 < 16);
        assert(text[2 * k] == hex_char((hash[k] / 16) as nat));
        assert(bytes[2 * k] == text[2 * k] as u8);
        assert(bytes[2 * k + 1] == text[2 * k + 1] as u8);
    }
    assert forall|i: int| 0 <= i < 64 implies nibble_of(#[trigger] bytes[i]) is Some by {
        let k = i / 2;
        assert(hash[k] / 16 < 16);
        assert(i == 2 * k || i == 2 * k + 1);
    }
    assert(hash_of(bytes) =~= hash) by {
        assert forall|k: int| 0 <= k < 32 implies hash_of(bytes)[k] == hash[k] by {
            assert(hash[k] == 16 * (hash[k] / 16) + hash[k] % 16);
        }
    }
}

/// A list is read hash by hash and in order, and is refused where one of them is
/// malformed.
pub proof fn hash_lists_are_read_in_order(list: Seq<Seq<char>>)
    ensures
        match hashes_parsed(list) {
            Ok(hashes) => hashes.len() == list.len() && forall|i: int|
                0 <= i < list.len() ==> #[trigger] hash_parsed(list[i]) == Ok::<
                    Seq<u8>,
                    Seq<char>,
                >(hashes[i]),
            Err(_) => exists|i: int|
                0 <= i < list.len() && #[trigger] hash_parsed(list[i]) is Err,
        },
{
    lemma_hashes_from(list, 0);
}

proof fn lemma_hashes_from(list: Seq<Seq<char>>, from: nat)
    requires
        from <= list.len(),
    ensures
        match hashes_parsed_from(list, from) {
            Ok(hashes) => hashes.len() == list.len() - from && forall|i: int|
                from <= i < list.len() ==> is_hash(#[trigger] list[i], hashes[i - from]),
            Err(_) => exists|i: int|
                from <= i < list.len() && #[trigger] hash_parsed(list[i]) is Err,
        },
    decreases list.len() - from,
{
    if from < list.len() {
        match hash_parsed(list[from as int]) {
            Ok(hash) => {
                lemma_hashes_from(list, from + 1);
                match hashes_parsed_from(list, from + 1) {
                    Ok(rest) => {
                        let all = seq![hash] + rest;
                        assert forall|i: int| from <= i < list.len() implies is_hash(
                            #[trigger] list[i],
                            all[i - from],
                        ) by {
                            if i > from {
                                assert(is_hash(list[i], rest[i - (from + 1)]));
                            }
                        }
                    },
                    Err(_) => {
                        let i = choose|i: int|
                            from + 1 <= i < list.len() && #[trigger] hash_parsed(list[i]) is Err;
                        assert(hash_parsed(list[i]) is Err);
                    },
                }
            },
            Err(_) => {
                let i = from as int;
                assert(hash_parsed(list[i]) is Err);
            },
        }
    }
}

spec fn is_hash(text: Seq<char>, hash: Seq<u8>) -> bool {
    hash_parsed(text) == Ok::<Seq<u8>, Seq<char>>(hash)
}

/// A text is a hash exactly if it is made of sixty-four bytes and each of them is a
/// digit or one of the small letters from a to f.
pub proof fn hashes_are_sixty_four_digits(hex: Seq<char>)
    ensures
        hash_parsed(hex) is Ok <==> encode_utf8(hex).len() == 64 && forall|i: int|
            0 <= i < 64 ==> (48 <= #[trigger] encode_utf8(hex)[i] <= 57 || 97 <= encode_utf8(hex)[i]
                <= 102),
{
    let bytes = encode_utf8(hex);
    if hash_parsed(hex) is Ok {
        assert forall|i: int| 0 <= i < 64 implies (48 <= #[trigger] bytes[i] <= 57 || 97 <= bytes[i]
            <= 102) by {
            assert(nibble_of(bytes[i]) is Some);
        }
    }
}

} // verus!
