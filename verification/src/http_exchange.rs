//! What the two ends of the HTTP transport make of each other's messages.

use vstd::prelude::*;
use vstd::utf8::{
    decode_utf8, encode_scalar, encode_utf8, encode_utf8_decode_utf8, encode_utf8_valid_utf8,
};

use crate::envelope::{
    crc32c_of, envelope_bytes, envelope_decoded, envelope_round_trip, WIRE_ENVELOPE_VERSION,
};
use crate::http_head::{
    blank_line_at, find_line_end, head_end, head_lines, head_parsed, headers_of, keeps_alive,
    lemma_head_end, no_headers, with_header, HeadFields, HeaderFields,
};
use crate::http_transport::{
    body_goes_on, call_head, head_goes_on, http_goes_on, line_fate, response_bytes,
    response_head_of, routes, status_line_parsed, too_large_text, without_line_end, HttpAction,
    HttpClientFault, HttpConnection, HttpEvent, HttpStage, LineFate, MAX_BODY_BYTES,
    MAX_HEAD_BYTES,
};
use crate::le::lemma_le_bytes_len;
use crate::message::{request_archived, RequestFields};
use crate::segment::lemma_encode_concat;
use crate::text::{
    absent, byte_len, dec, find_char, is_white, lemma_dec_digits, lemma_dec_parses,
    lemma_find_char_is, lowered, trim_start, trimmed, word_len, words_of,
};

verus! {

// ---- bytes of texts ----

/// The encoding of a character other than a carriage return holds no byte 13.
proof fn lemma_scalar_bytes(c: char)
    requires
        c != '\r',
    ensures
        encode_scalar(c as u32).len() > 0,
        forall|i: int|
            0 <= i < encode_scalar(c as u32).len() ==> #[trigger] encode_scalar(c as u32)[i] != 13,
{
    let n = c as u32;
    assert(n != 13);
    assert(n <= 0x7f && n != 13 ==> (n & 0x7f) as u8 != 13u8) by (bit_vector);
    assert(0xC0u8 | ((n >> 6) & 0x1F) as u8 != 13u8) by (bit_vector);
    assert(0xE0u8 | ((n >> 12) & 0x0F) as u8 != 13u8) by (bit_vector);
    assert(0xF0u8 | ((n >> 18) & 0x7) as u8 != 13u8) by (bit_vector);
    assert(0x80u8 | (n & 0x3F) as u8 != 13u8) by (bit_vector);
    assert(0x80u8 | ((n >> 6) & 0x3F) as u8 != 13u8) by (bit_vector);
    assert(0x80u8 | ((n >> 12) & 0x3F) as u8 != 13u8) by (bit_vector);
}

/// Whether a byte does not occur in a sequence.
pub open spec fn byte_absent(bytes: Seq<u8>, b: u8) -> bool {
    forall|i: int| 0 <= i < bytes.len() ==> #[trigger] bytes[i] != b
}

/// The bytes of a text without carriage returns hold no byte 13, and there are
/// some if there is a character.
proof fn lemma_text_bytes(text: Seq<char>)
    requires
        absent(text, '\r'),
    ensures
        byte_absent(encode_utf8(text), 13),
        text.len() > 0 ==> encode_utf8(text).len() > 0,
    decreases text.len(),
{
    if text.len() > 0 {
        let rest = text.drop_first();
        assert forall|i: int| 0 <= i < rest.len() implies #[trigger] rest[i] != '\r' by {
            assert(rest[i] == text[i + 1]);
        }
        lemma_text_bytes(rest);
        lemma_scalar_bytes(text[0]);
        let first = encode_scalar(text[0] as u32);
        let all = encode_utf8(text);
        assert(all =~= first + encode_utf8(rest));
        assert forall|i: int| 0 <= i < all.len() implies #[trigger] all[i] != 13 by {
            if i >= first.len() {
                assert(all[i] == encode_utf8(rest)[i - first.len()]);
            } else {
                assert(all[i] == first[i]);
            }
        }
    }
}

/// A line end.
pub open spec fn line_end() -> Seq<char> {
    seq!['\r', '\n']
}

/// A line end in bytes.
pub open spec fn line_end_bytes() -> Seq<u8> {
    seq![13u8, 10u8]
}

proof fn lemma_line_end_bytes()
    ensures
        encode_utf8(line_end()) == line_end_bytes(),
{
    reveal_with_fuel(encode_utf8, 3);
    assert((13u32 & 0x7F) as u8 == 13u8) by (bit_vector);
    assert((10u32 & 0x7F) as u8 == 10u8) by (bit_vector);
    assert(line_end().drop_first() =~= seq!['\n']);
    assert(encode_utf8(line_end()) =~= line_end_bytes());
}

// ---- lines ----

/// Lines with line ends between them.
pub open spec fn joined_lines(lines: Seq<Seq<char>>) -> Seq<char>
    decreases lines.len(),
{
    if lines.len() == 0 {
        Seq::empty()
    } else if lines.len() == 1 {
        lines[0]
    } else {
        lines[0] + line_end() + joined_lines(lines.drop_first())
    }
}

/// Whether lines are not empty and hold no carriage return.
pub open spec fn plain_lines(lines: Seq<Seq<char>>) -> bool {
    forall|i: int|
        0 <= i < lines.len() ==> (#[trigger] lines[i]).len() > 0 && absent(lines[i], '\r')
}

proof fn lemma_plain_rest(lines: Seq<Seq<char>>)
    requires
        plain_lines(lines),
        lines.len() > 0,
    ensures
        plain_lines(lines.drop_first()),
{
    let rest = lines.drop_first();
    assert forall|i: int| 0 <= i < rest.len() implies (#[trigger] rest[i]).len() > 0 && absent(
        rest[i],
        '\r',
    ) by {
        assert(rest[i] == lines[i + 1]);
    }
}

proof fn lemma_find_line_end(first: Seq<char>, rest: Seq<char>)
    requires
        absent(first, '\r'),
    ensures
        find_line_end(first + line_end() + rest) == first.len(),
        find_line_end(first) == first.len(),
    decreases first.len(),
{
    let text = first + line_end() + rest;
    if first.len() == 0 {
        assert(text[0] == '\r' && text[1] == '\n');
    } else {
        let shorter = first.drop_first();
        assert forall|i: int| 0 <= i < shorter.len() implies #[trigger] shorter[i] != '\r' by {
            assert(shorter[i] == first[i + 1]);
        }
        lemma_find_line_end(shorter, rest);
        assert(text.drop_first() =~= shorter + line_end() + rest);
        assert(text[0] == first[0]);
    }
}

/// Joined lines fall apart into themselves.
proof fn lemma_head_lines(lines: Seq<Seq<char>>)
    requires
        lines.len() > 0,
        plain_lines(lines),
    ensures
        head_lines(joined_lines(lines)) == lines,
    decreases lines.len(),
{
    let first = lines[0];
    if lines.len() == 1 {
        lemma_find_line_end(first, Seq::empty());
        assert(head_lines(first) =~= seq![first]);
        assert(lines =~= seq![first]);
    } else {
        let rest = lines.drop_first();
        lemma_plain_rest(lines);
        lemma_head_lines(rest);
        let text = joined_lines(lines);
        let tail = joined_lines(rest);
        lemma_find_line_end(first, tail);
        assert(text == first + line_end() + tail);
        assert(text.take(first.len() as int) =~= first);
        assert(text.skip(first.len() as int + 2) =~= tail);
        assert(head_lines(text) == seq![first] + head_lines(tail));
        assert(lines =~= seq![first] + rest);
    }
}

/// A position is where the head ends if an empty line ends it there and nowhere
/// before.
proof fn lemma_head_end_is(buf: Seq<u8>, at: int)
    requires
        blank_line_at(buf, at),
        forall|j: int| 0 <= j < at ==> !#[trigger] blank_line_at(buf, j),
    ensures
        head_end(buf) == Some(at as nat),
{
    lemma_head_end(buf, 0);
    match head_end(buf) {
        Some(found) => {
            assert(blank_line_at(buf, found as int));
        },
        None => {
            assert(!blank_line_at(buf, at));
        },
    }
}

/// The head of joined lines ends behind the last of them.
proof fn lemma_lines_end(lines: Seq<Seq<char>>, body: Seq<u8>)
    requires
        lines.len() > 0,
        plain_lines(lines),
    ensures
        head_end(
            encode_utf8(joined_lines(lines)) + line_end_bytes() + line_end_bytes() + body,
        ) == Some(encode_utf8(joined_lines(lines)).len()),
        encode_utf8(joined_lines(lines)).len() > 0,
        encode_utf8(joined_lines(lines))[0] != 13,
    decreases lines.len(),
{
    let first = encode_utf8(lines[0]);
    lemma_text_bytes(lines[0]);
    let head = encode_utf8(joined_lines(lines));
    let buf = head + line_end_bytes() + line_end_bytes() + body;
    if lines.len() == 1 {
        assert forall|j: int| 0 <= j < head.len() implies !#[trigger] blank_line_at(buf, j) by {
            assert(buf[j] == first[j]);
        }
        assert(blank_line_at(buf, head.len() as int));
        lemma_head_end_is(buf, head.len() as int);
    } else {
        let rest = lines.drop_first();
        lemma_plain_rest(lines);
        lemma_lines_end(rest, body);
        let tail = encode_utf8(joined_lines(rest));
        lemma_encode_concat(lines[0] + line_end(), joined_lines(rest));
        lemma_encode_concat(lines[0], line_end());
        lemma_line_end_bytes();
        assert(head =~= first + line_end_bytes() + tail);
        let later = tail + line_end_bytes() + line_end_bytes() + body;
        let n = first.len() as int + 2;
        assert(buf =~= first + line_end_bytes() + later);
        lemma_head_end(later, 0);
        let at = tail.len() as int;
        assert(blank_line_at(later, at));
        assert forall|i: int| 0 <= i < later.len() implies buf[n + i] == #[trigger] later[i] by {}
        assert(blank_line_at(buf, n + at)) by {
            assert(buf[n + at] == later[at]);
            assert(buf[n + at + 1] == later[at + 1]);
            assert(buf[n + at + 2] == later[at + 2]);
            assert(buf[n + at + 3] == later[at + 3]);
        }
        assert forall|j: int| 0 <= j < n + at implies !#[trigger] blank_line_at(buf, j) by {
            if blank_line_at(buf, j) {
                if j < first.len() {
                    assert(buf[j] == first[j]);
                } else if j == first.len() {
                    assert(buf[j + 2] == later[0]);
                    assert(later[0] == tail[0]);
                } else if j == first.len() + 1 {
                    assert(buf[j] == 10);
                } else {
                    let i = j - n;
                    assert(buf[n + i] == later[i]);
                    assert(buf[n + i + 1] == later[i + 1]);
                    assert(buf[n + i + 2] == later[i + 2]);
                    assert(buf[n + i + 3] == later[i + 3]);
                    assert(blank_line_at(later, i));
                }
            }
        }
        lemma_head_end_is(buf, n + at);
        assert(head[0] == first[0]);
    }
}

// ---- words and headers ----

/// Whether a text holds no white space.
pub open spec fn no_white(text: Seq<char>) -> bool {
    forall|i: int| 0 <= i < text.len() ==> !is_white(#[trigger] text[i])
}

proof fn lemma_word_len(word: Seq<char>, rest: Seq<char>)
    requires
        no_white(word),
        rest.len() == 0 || is_white(rest[0]),
    ensures
        word_len(word + rest) == word.len(),
    decreases word.len(),
{
    if word.len() == 0 {
        assert(word + rest =~= rest);
    } else {
        let shorter = word.drop_first();
        assert forall|i: int| 0 <= i < shorter.len() implies !is_white(#[trigger] shorter[i]) by {
            assert(shorter[i] == word[i + 1]);
        }
        lemma_word_len(shorter, rest);
        assert((word + rest).drop_first() =~= shorter + rest);
        assert((word + rest)[0] == word[0]);
    }
}

/// A word at the start of a text comes first.
proof fn lemma_first_word(word: Seq<char>, rest: Seq<char>)
    requires
        word.len() > 0,
        no_white(word),
        rest.len() == 0 || is_white(rest[0]),
    ensures
        words_of(word + rest) == seq![word] + words_of(rest),
{
    let text = word + rest;
    assert(text[0] == word[0]);
    assert(trim_start(text) == text);
    lemma_word_len(word, rest);
    assert(text.take(word.len() as int) =~= word);
    assert(text.skip(word.len() as int) =~= rest);
}

/// A blank before a text adds no word.
proof fn lemma_blank_words(rest: Seq<char>)
    ensures
        words_of(seq![' '] + rest) == words_of(rest),
{
    let text = seq![' '] + rest;
    assert(text.drop_first() =~= rest);
    assert(is_white(text[0]));
    assert(trim_start(text) == trim_start(rest));
}

/// Whether a text has no white space at its ends.
pub open spec fn tight(text: Seq<char>) -> bool {
    text.len() > 0 && !is_white(text[0]) && !is_white(text.last())
}

proof fn lemma_trim_tight(text: Seq<char>)
    requires
        tight(text),
    ensures
        trimmed(text) == text,
        trimmed(seq![' '] + text) == text,
{
    assert((seq![' '] + text).drop_first() =~= text);
    assert(is_white(' '));
    assert(trim_start(seq![' '] + text) == trim_start(text));
}

/// The name of a header line, and its value if that has no white space at its
/// ends.
proof fn lemma_header_parts(name: Seq<char>, value: Seq<char>)
    requires
        tight(name),
        absent(name, ':'),
    ensures
        ({
            let line = name + seq![':', ' '] + value;
            &&& find_char(line, ':') == name.len()
            &&& trimmed(line.take(name.len() as int)) == name
            &&& tight(value) ==> trimmed(line.skip(name.len() as int + 1)) == value
        }),
{
    let line = name + seq![':', ' '] + value;
    let at = name.len() as int;
    assert(line[at] == ':');
    assert forall|i: int| 0 <= i < at implies #[trigger] line[i] != ':' by {
        assert(line[i] == name[i]);
    }
    lemma_find_char_is(line, ':', at);
    assert(line.take(at) =~= name);
    lemma_trim_tight(name);
    if tight(value) {
        assert(line.skip(at + 1) =~= seq![' '] + value);
        lemma_trim_tight(value);
    }
}

/// A number in decimal has no white space and no line end in it.
proof fn lemma_dec_plain(n: nat)
    ensures
        tight(dec(n)),
        absent(dec(n), '\r'),
        absent(dec(n), '\n'),
        absent(dec(n), ' '),
{
    lemma_dec_digits(n);
    let d = dec(n);
    assert(crate::text::is_digit(d[0]));
    assert(crate::text::is_digit(d[d.len() - 1]));
}

/// What header lines of the transport say.
proof fn lemma_known_headers(found: HeaderFields, malformed: Seq<char>, len: nat, keep_alive: bool)
    requires
        len <= usize::MAX,
    ensures
        with_header(
            found,
            "Content-Type"@ + seq![':', ' '] + "application/x-wombatkv-rkyv"@,
            malformed,
        ) == Ok::<HeaderFields, Seq<char>>(found),
        with_header(found, "Content-Length"@ + seq![':', ' '] + dec(len), malformed) == Ok::<
            HeaderFields,
            Seq<char>,
        >(HeaderFields { content_length: Some(len), ..found }),
        with_header(
            found,
            "Connection"@ + seq![':', ' '] + connection_word(keep_alive),
            malformed,
        ) == Ok::<HeaderFields, Seq<char>>(
            HeaderFields { connection: Some(connection_word(keep_alive)), ..found },
        ),
{
    reveal_strlit("Content-Type");
    reveal_strlit("application/x-wombatkv-rkyv");
    reveal_strlit("Content-Length");
    reveal_strlit("Connection");
    reveal_strlit("content-length");
    reveal_strlit("connection");
    reveal_strlit("keep-alive");
    reveal_strlit("close");
    lemma_header_parts("Content-Type"@, "application/x-wombatkv-rkyv"@);
    assert(lowered("Content-Type"@)[8] == 't');
    assert("content-length"@[8] == 'l');
    assert(lowered("Content-Type"@).len() == 12);
    lemma_dec_plain(len);
    lemma_header_parts("Content-Length"@, dec(len));
    lemma_dec_parses(len, usize::MAX as nat);
    assert(lowered("Content-Length"@) =~= "content-length"@);
    let word = connection_word(keep_alive);
    assert(tight(word));
    lemma_header_parts("Connection"@, word);
    assert(lowered("Connection"@) =~= "connection"@);
    assert(lowered("Connection"@).len() != "content-length"@.len());
    assert(lowered(word) =~= word);
}

/// How a connection header says whether the connection stays open.
pub open spec fn connection_word(keep_alive: bool) -> Seq<char> {
    if keep_alive {
        "keep-alive"@
    } else {
        "close"@
    }
}

proof fn lemma_connection_words(keep_alive: bool, version: Seq<char>)
    ensures
        keeps_alive(Some(connection_word(keep_alive)), version) == keep_alive,
{
    reveal_strlit("keep-alive");
    reveal_strlit("close");
    assert("keep-alive"@.len() != "close"@.len());
}

// ---- requests ----

/// The lines of a call's head.
pub open spec fn call_lines(host: Seq<char>, len: nat) -> Seq<Seq<char>> {
    seq![
        "POST"@ + seq![' '] + ("/wmbt/v1/rpc"@ + seq![' '] + "HTTP/1.1"@),
        "Host"@ + seq![':', ' '] + host,
        "Content-Type"@ + seq![':', ' '] + "application/x-wombatkv-rkyv"@,
        "Content-Length"@ + seq![':', ' '] + dec(len),
        "Connection"@ + seq![':', ' '] + "keep-alive"@,
    ]
}

proof fn lemma_call_lines(host: Seq<char>, len: nat)
    requires
        absent(host, '\r'),
    ensures
        call_head(host, len) == joined_lines(call_lines(host, len)) + line_end() + line_end(),
        plain_lines(call_lines(host, len)),
{
    reveal_strlit("POST ");
    reveal_strlit("POST");
    reveal_strlit("/wmbt/v1/rpc");
    reveal_strlit(" HTTP/1.1\r\nHost: ");
    reveal_strlit("HTTP/1.1");
    reveal_strlit("Host");
    reveal_strlit("\r\nContent-Type: ");
    reveal_strlit("Content-Type");
    reveal_strlit("application/x-wombatkv-rkyv");
    reveal_strlit("\r\nContent-Length: ");
    reveal_strlit("Content-Length");
    reveal_strlit("\r\nConnection: keep-alive\r\n\r\n");
    reveal_strlit("Connection");
    reveal_strlit("keep-alive");
    let lines = call_lines(host, len);
    let d = dec(len);
    lemma_dec_plain(len);
    let l0 = lines[0];
    let l1 = lines[1];
    let l2 = lines[2];
    let l3 = lines[3];
    let l4 = lines[4];
    assert(lines.drop_first() =~= seq![l1, l2, l3, l4]);
    assert(lines.drop_first().drop_first() =~= seq![l2, l3, l4]);
    assert(lines.drop_first().drop_first().drop_first() =~= seq![l3, l4]);
    assert(lines.drop_first().drop_first().drop_first().drop_first() =~= seq![l4]);
    reveal_with_fuel(joined_lines, 6);
    let e = line_end();
    assert(joined_lines(lines) == l0 + e + (l1 + e + (l2 + e + (l3 + e + l4))));
    assert("POST "@ =~= "POST"@ + seq![' ']);
    assert(" HTTP/1.1\r\nHost: "@ =~= seq![' '] + "HTTP/1.1"@ + e + "Host"@ + seq![':', ' ']);
    assert("\r\nContent-Type: "@ =~= e + "Content-Type"@ + seq![':', ' ']);
    assert("\r\nContent-Length: "@ =~= e + "Content-Length"@ + seq![':', ' ']);
    assert("\r\nConnection: keep-alive\r\n\r\n"@ =~= e + l4 + e + e);
    let first = "POST "@ + "/wmbt/v1/rpc"@ + " HTTP/1.1\r\nHost: "@ + host;
    assert(first =~= l0 + e + l1);
    let second = first + "\r\nContent-Type: "@ + "application/x-wombatkv-rkyv"@;
    assert(second =~= l0 + e + l1 + (e + l2));
    let third = second + "\r\nContent-Length: "@ + d;
    assert(third =~= l0 + e + l1 + (e + l2) + (e + l3));
    assert(call_head(host, len) == third + "\r\nConnection: keep-alive\r\n\r\n"@);
    assert(call_head(host, len) =~= joined_lines(lines) + e + e);
    assert forall|i: int| 0 <= i < lines.len() implies (#[trigger] lines[i]).len() > 0 && absent(
        lines[i],
        '\r',
    ) by {
        if i == 1 {
            assert forall|j: int| 0 <= j < l1.len() implies #[trigger] l1[j] != '\r' by {
                if j >= 6 {
                    assert(l1[j] == host[j - 6]);
                }
            }
        } else if i == 3 {
            assert forall|j: int| 0 <= j < l3.len() implies #[trigger] l3[j] != '\r' by {
                if j >= 16 {
                    assert(l3[j] == d[j - 16]);
                }
            }
        }
    }
}

/// What the head of a call says.
proof fn lemma_call_parsed(host: Seq<char>, len: nat)
    requires
        absent(host, '\r'),
        len <= usize::MAX,
    ensures
        head_parsed(encode_utf8(joined_lines(call_lines(host, len)))) == Ok::<
            HeadFields,
            Seq<char>,
        >(
            HeadFields {
                method: "POST"@,
                path: "/wmbt/v1/rpc"@,
                content_length: Some(len),
                keep_alive: true,
            },
        ),
{
    let lines = call_lines(host, len);
    let head = joined_lines(lines);
    lemma_call_lines(host, len);
    lemma_head_lines(lines);
    encode_utf8_valid_utf8(head);
    encode_utf8_decode_utf8(head);
    assert(head_lines(decode_utf8(encode_utf8(head))) == lines);
    // The request line.
    reveal_strlit("POST");
    reveal_strlit("/wmbt/v1/rpc");
    reveal_strlit("HTTP/1.1");
    let w3 = "HTTP/1.1"@;
    let w2 = "/wmbt/v1/rpc"@;
    let w1 = "POST"@;
    let empty = Seq::<char>::empty();
    assert(words_of(empty) =~= Seq::<Seq<char>>::empty());
    lemma_first_word(w3, empty);
    assert(w3 + empty =~= w3);
    assert(words_of(w3) =~= seq![w3]);
    lemma_blank_words(w3);
    lemma_first_word(w2, seq![' '] + w3);
    assert(w2 + (seq![' '] + w3) =~= w2 + seq![' '] + w3);
    let after_method = w2 + seq![' '] + w3;
    assert(words_of(after_method) =~= seq![w2, w3]);
    lemma_blank_words(after_method);
    lemma_first_word(w1, seq![' '] + after_method);
    assert(w1 + (seq![' '] + after_method) =~= lines[0]);
    assert(words_of(lines[0]) =~= seq![w1, w2, w3]);
    // The headers.
    let rest = lines.skip(1);
    reveal_strlit("Host");
    reveal_strlit("content-length");
    reveal_strlit("connection");
    lemma_header_parts("Host"@, host);
    assert(lowered("Host"@).len() == 4);
    let h0 = no_headers();
    lemma_known_headers(h0, "malformed header: "@, len, true);
    let h3 = HeaderFields { content_length: Some(len), ..h0 };
    lemma_known_headers(h3, "malformed header: "@, len, true);
    let h4 = HeaderFields { connection: Some("keep-alive"@), ..h3 };
    assert(rest =~= seq![lines[1], lines[2], lines[3], lines[4]]);
    assert(rest.drop_last() =~= seq![lines[1], lines[2], lines[3]]);
    assert(rest.drop_last().drop_last() =~= seq![lines[1], lines[2]]);
    assert(rest.drop_last().drop_last().drop_last() =~= seq![lines[1]]);
    assert(rest.drop_last().drop_last().drop_last().drop_last() =~= Seq::<Seq<char>>::empty());
    assert(with_header(h0, lines[1], "malformed header: "@) == Ok::<HeaderFields, Seq<char>>(h0));
    assert(headers_of(seq![lines[1]]) == Ok::<HeaderFields, Seq<char>>(h0)) by {
        assert(seq![lines[1]].drop_last() =~= Seq::<Seq<char>>::empty());
        assert(headers_of(Seq::<Seq<char>>::empty()) == Ok::<HeaderFields, Seq<char>>(h0));
    }
    assert(headers_of(seq![lines[1], lines[2]]) == Ok::<HeaderFields, Seq<char>>(h0)) by {
        assert(seq![lines[1], lines[2]].drop_last() =~= seq![lines[1]]);
    }
    assert(headers_of(seq![lines[1], lines[2], lines[3]]) == Ok::<HeaderFields, Seq<char>>(h3)) by {
        assert(seq![lines[1], lines[2], lines[3]].drop_last() =~= seq![lines[1], lines[2]]);
    }
    assert(headers_of(rest) == Ok::<HeaderFields, Seq<char>>(h4));
    lemma_connection_words(true, w3);
}

/// What a client sends, the server serves: once the bytes of a call are there,
/// it dispatches the client's request, and what follows them is left for the
/// next one.
pub proof fn http_request_arrives(
    host: Seq<char>,
    request: RequestFields,
    archive: Seq<u8>,
    more: Seq<u8>,
    after: HttpConnection,
    action: HttpAction,
)
    requires
        absent(host, '\r'),
        request_archived(archive) == Some(request),
        archive.len() + 16 <= MAX_BODY_BYTES,
        head_goes_on(
            encode_utf8(call_head(host, envelope_bytes(archive).len())) + envelope_bytes(archive)
                + more,
            after,
            action,
        ),
    ensures
        action matches HttpAction::Serve(r) && r@ == request,
        after.stage == (HttpStage::Serving { keep_alive: true }),
        after.buf@ == more,
{
    let body = envelope_bytes(archive);
    lemma_le_bytes_len(WIRE_ENVELOPE_VERSION as nat, 4);
    lemma_le_bytes_len(crc32c_of(archive) as nat, 4);
    lemma_le_bytes_len(archive.len(), 4);
    assert(body.len() == 16 + archive.len());
    let len = body.len();
    let lines = call_lines(host, len);
    let head = encode_utf8(joined_lines(lines));
    lemma_call_lines(host, len);
    lemma_encode_concat(joined_lines(lines) + line_end(), line_end());
    lemma_encode_concat(joined_lines(lines), line_end());
    lemma_line_end_bytes();
    let e = line_end_bytes();
    let buf = encode_utf8(call_head(host, len)) + body + more;
    assert(buf =~= head + e + e + (body + more));
    lemma_lines_end(lines, body + more);
    lemma_call_parsed(host, len);
    assert(buf.take(head.len() as int) =~= head);
    assert(buf.skip(head.len() as int + 4) =~= body + more);
    assert((body + more).take(len as int) =~= body);
    assert((body + more).skip(len as int) =~= more);
    envelope_round_trip(archive);
    reveal_strlit("GET");
    reveal_strlit("POST");
    assert("GET"@.len() != "POST"@.len());
}

/// The head of a call in bytes, the empty line included.
pub open spec fn call_head_bytes(host: Seq<char>, archive: Seq<u8>) -> Seq<u8> {
    encode_utf8(call_head(host, envelope_bytes(archive).len()))
}

/// The bytes of a call.
pub open spec fn call_bytes(host: Seq<char>, archive: Seq<u8>) -> Seq<u8> {
    call_head_bytes(host, archive) + envelope_bytes(archive)
}

/// How a connection stands once the first `n` bytes of a call have arrived: it
/// waits for the rest of the head or of the body, or serves the request.
pub open spec fn call_under_way(
    host: Seq<char>,
    archive: Seq<u8>,
    request: RequestFields,
    n: int,
    connection: HttpConnection,
    action: HttpAction,
) -> bool {
    let wire = call_bytes(host, archive);
    let head = call_head_bytes(host, archive).len();
    if n < head {
        connection.stage is Head && connection.buf@ == wire.take(n) && action is Read
    } else if n < wire.len() {
        &&& connection.stage matches HttpStage::Body { len, keep_alive }
        &&& len == envelope_bytes(archive).len()
        &&& keep_alive
        &&& connection.buf@ == wire.subrange(head as int, n)
        &&& action is Read
    } else {
        &&& action matches HttpAction::Serve(r)
        &&& r@ == request
        &&& connection.stage == (HttpStage::Serving { keep_alive: true })
        &&& connection.buf@.len() == 0
    }
}

/// What pieces of bytes are together.
pub open spec fn joined_pieces(pieces: Seq<Vec<u8>>) -> Seq<u8>
    decreases pieces.len(),
{
    if pieces.len() == 0 {
        Seq::empty()
    } else {
        joined_pieces(pieces.drop_last()) + pieces.last()@
    }
}

proof fn lemma_pieces_nest(pieces: Seq<Vec<u8>>, k: int)
    requires
        0 <= k <= pieces.len(),
    ensures
        joined_pieces(pieces.take(k)).is_prefix_of(joined_pieces(pieces)),
    decreases pieces.len() - k,
{
    if k < pieces.len() {
        lemma_pieces_nest(pieces, k + 1);
        assert(pieces.take(k + 1).drop_last() =~= pieces.take(k));
    } else {
        assert(pieces.take(k) =~= pieces);
    }
}

/// Where the head of a call ends in what has arrived of it.
proof fn lemma_call_head_end(host: Seq<char>, archive: Seq<u8>, n: int)
    requires
        absent(host, '\r'),
        archive.len() + 16 <= MAX_BODY_BYTES,
        0 <= n <= call_bytes(host, archive).len(),
    ensures
        envelope_bytes(archive).len() == 16 + archive.len(),
        ({
            let wire = call_bytes(host, archive).take(n);
            let head = call_head_bytes(host, archive).len();
            if n < head {
                head_end(wire) is None
            } else {
                &&& head >= 4
                &&& head_end(wire) == Some((head - 4) as nat)
                &&& head_parsed(wire.take(head - 4)) == Ok::<HeadFields, Seq<char>>(
                    HeadFields {
                        method: "POST"@,
                        path: "/wmbt/v1/rpc"@,
                        content_length: Some(envelope_bytes(archive).len()),
                        keep_alive: true,
                    },
                )
            }
        }),
{
    let body = envelope_bytes(archive);
    lemma_le_bytes_len(WIRE_ENVELOPE_VERSION as nat, 4);
    lemma_le_bytes_len(crc32c_of(archive) as nat, 4);
    lemma_le_bytes_len(archive.len(), 4);
    assert(body.len() == 16 + archive.len());
    let lines = call_lines(host, body.len());
    let text = encode_utf8(joined_lines(lines));
    lemma_call_lines(host, body.len());
    lemma_encode_concat(joined_lines(lines) + line_end(), line_end());
    lemma_encode_concat(joined_lines(lines), line_end());
    lemma_line_end_bytes();
    let e = line_end_bytes();
    let whole = call_bytes(host, archive);
    let wire = whole.take(n);
    let head = call_head_bytes(host, archive).len() as int;
    assert(call_head_bytes(host, archive) =~= text + e + e);
    if n < head {
        assert(whole =~= text + e + e + body);
        lemma_lines_end(lines, body);
        lemma_head_end(whole, 0);
        lemma_head_end(wire, 0);
        if let Some(at) = head_end(wire) {
            assert(blank_line_at(wire, at as int));
            assert(blank_line_at(whole, at as int));
            assert(false);
        }
    } else {
        let arrived = body.take(n - head);
        assert(wire =~= text + e + e + arrived);
        lemma_lines_end(lines, arrived);
        lemma_call_parsed(host, body.len());
        assert(wire.take(head - 4) =~= text);
    }
}

/// A piece of a call brings the connection on, however small it is.
proof fn lemma_piece_taken(
    host: Seq<char>,
    request: RequestFields,
    archive: Seq<u8>,
    n: int,
    piece: Vec<u8>,
    before: HttpConnection,
    earlier: HttpAction,
    after: HttpConnection,
    action: HttpAction,
)
    requires
        absent(host, '\r'),
        request_archived(archive) == Some(request),
        archive.len() + 16 <= MAX_BODY_BYTES,
        call_head_bytes(host, archive).len() <= MAX_HEAD_BYTES,
        piece@.len() > 0,
        0 <= n,
        n + piece@.len() <= call_bytes(host, archive).len(),
        call_bytes(host, archive).subrange(n, n + piece@.len()) == piece@,
        call_under_way(host, archive, request, n, before, earlier),
        http_goes_on(before, HttpEvent::Read(piece), after, action),
    ensures
        call_under_way(host, archive, request, n + piece@.len(), after, action),
{
    let body = envelope_bytes(archive);
    let whole = call_bytes(host, archive);
    let head = call_head_bytes(host, archive).len() as int;
    let m = n + piece@.len();
    let wire = whole.take(m);
    lemma_call_head_end(host, archive, m);
    envelope_round_trip(archive);
    if n < head {
        assert(before.buf@ + piece@ =~= wire);
        assert(head_goes_on(wire, after, action));
        if m >= head {
            let rest = wire.skip(head);
            assert(wire.skip(head - 4 + 4) =~= rest);
            reveal_strlit("GET");
            reveal_strlit("POST");
            assert("GET"@.len() != "POST"@.len());
            assert(body_goes_on(body.len(), true, rest, after, action));
            assert(rest =~= whole.subrange(head, m));
            if m == whole.len() {
                assert(rest.take(body.len() as int) =~= body);
            }
        }
    } else {
        let rest = before.buf@ + piece@;
        assert(rest =~= whole.subrange(head, m));
        assert(body_goes_on(body.len(), true, rest, after, action));
        if m == whole.len() {
            assert(rest.take(body.len() as int) =~= body);
        }
    }
}

/// However the bytes of a call are cut into pieces on their way, the server waits
/// for the rest while some are missing, and serves the client's request once all
/// have arrived.
pub proof fn http_call_arrives_in_pieces(
    host: Seq<char>,
    request: RequestFields,
    archive: Seq<u8>,
    pieces: Seq<Vec<u8>>,
    connections: Seq<HttpConnection>,
    actions: Seq<HttpAction>,
    k: int,
)
    requires
        absent(host, '\r'),
        request_archived(archive) == Some(request),
        archive.len() + 16 <= MAX_BODY_BYTES,
        call_head_bytes(host, archive).len() <= MAX_HEAD_BYTES,
        joined_pieces(pieces) == call_bytes(host, archive),
        connections.len() == pieces.len() + 1,
        actions.len() == pieces.len() + 1,
        connections[0].stage is Head,
        connections[0].buf@.len() == 0,
        actions[0] is Read,
        forall|i: int|
            0 <= i < pieces.len() ==> (#[trigger] pieces[i])@.len() > 0 && http_goes_on(
                connections[i],
                HttpEvent::Read(pieces[i]),
                connections[i + 1],
                actions[i + 1],
            ),
        0 <= k <= pieces.len(),
    ensures
        call_under_way(
            host,
            archive,
            request,
            joined_pieces(pieces.take(k)).len() as int,
            connections[k],
            actions[k],
        ),
    decreases k,
{
    let whole = call_bytes(host, archive);
    lemma_call_head_end(host, archive, whole.len() as int);
    if k == 0 {
        assert(pieces.take(0) =~= Seq::empty());
        assert(whole.take(0) =~= connections[0].buf@);
    } else {
        http_call_arrives_in_pieces(host, request, archive, pieces, connections, actions, k - 1);
        let sofar = joined_pieces(pieces.take(k - 1));
        let piece = pieces[k - 1];
        assert(pieces.take(k).drop_last() =~= pieces.take(k - 1));
        lemma_pieces_nest(pieces, k);
        let with_piece = joined_pieces(pieces.take(k));
        assert(with_piece =~= sofar + piece@);
        assert(whole.subrange(sofar.len() as int, (sofar.len() + piece@.len()) as int)
            =~= piece@) by {
            assert(with_piece =~= whole.take(with_piece.len() as int));
            assert(with_piece.skip(sofar.len() as int) =~= piece@);
        }
        assert(connections[k - 1 + 1] == connections[k]);
        lemma_piece_taken(
            host,
            request,
            archive,
            sofar.len() as int,
            piece,
            connections[k - 1],
            actions[k - 1],
            connections[k],
            actions[k],
        );
    }
}

/// A body that is no envelope of its request ends the connection: nothing in it is
/// ever served, and nothing is answered.
pub proof fn corrupt_http_body_is_not_served(
    len: nat,
    keep_alive: bool,
    buf: Seq<u8>,
    after: HttpConnection,
    action: HttpAction,
)
    requires
        len <= buf.len(),
        envelope_decoded(buf.take(len as int)) is Err,
        body_goes_on(len, keep_alive, buf, after, action),
    ensures
        after.stage is Closed,
        action is Fail,
{
}

/// A call whose body is announced as too long is refused, with nothing of the body
/// read or served, and the connection closes after the refusal,
/// whatever becomes of the write.
pub proof fn oversized_http_body_is_refused(
    head: HeadFields,
    len: nat,
    rest: Seq<u8>,
    after: HttpConnection,
    action: HttpAction,
    event: HttpEvent,
    last: HttpConnection,
    ending: HttpAction,
)
    requires
        head.method == "POST"@,
        head.path == "/wmbt/v1/rpc"@,
        head.content_length == Some(len),
        len > MAX_BODY_BYTES,
        routes(head, rest, after, action),
        http_goes_on(after, event, last, ending),
    ensures
        action matches HttpAction::Write(bytes) && bytes@ == response_bytes(
            413,
            "Payload Too Large"@,
            "text/plain"@,
            encode_utf8(too_large_text(len)),
            false,
        ),
        ending is Close,
{
    reveal_strlit("GET");
    reveal_strlit("POST");
    assert("GET"@.len() != "POST"@.len());
}

// ---- responses ----

/// The lines of the head of a response to a call.
pub open spec fn reply_lines(len: nat, keep_alive: bool) -> Seq<Seq<char>> {
    seq![
        "HTTP/1.1"@ + seq![' '] + (dec(200) + seq![' '] + "OK"@),
        "Content-Type"@ + seq![':', ' '] + "application/x-wombatkv-rkyv"@,
        "Content-Length"@ + seq![':', ' '] + dec(len),
        "Connection"@ + seq![':', ' '] + connection_word(keep_alive),
        Seq::empty(),
    ]
}

/// A line of the head of a response as it is read: with its line end.
pub open spec fn reply_line(len: nat, keep_alive: bool, i: int) -> Seq<char> {
    reply_lines(len, keep_alive)[i] + line_end()
}

/// The bytes of a response to a call are those of its lines, followed by the
/// body.
proof fn lemma_reply_bytes(body: Seq<u8>, keep_alive: bool)
    ensures
        ({
            let len = body.len();
            response_bytes(200, "OK"@, "application/x-wombatkv-rkyv"@, body, keep_alive)
                == encode_utf8(
                reply_line(len, keep_alive, 0) + reply_line(len, keep_alive, 1) + reply_line(
                    len,
                    keep_alive,
                    2,
                ) + reply_line(len, keep_alive, 3) + reply_line(len, keep_alive, 4),
            ) + body
        }),
{
    reveal_strlit("HTTP/1.1 ");
    reveal_strlit("HTTP/1.1");
    reveal_strlit(" ");
    reveal_strlit("OK");
    reveal_strlit("\r\nContent-Type: ");
    reveal_strlit("Content-Type");
    reveal_strlit("\r\nContent-Length: ");
    reveal_strlit("Content-Length");
    reveal_strlit("\r\nConnection: ");
    reveal_strlit("Connection");
    reveal_strlit("\r\n\r\n");
    let len = body.len();
    let d = dec(len);
    let word = connection_word(keep_alive);
    let e = line_end();
    let l0 = reply_lines(len, keep_alive)[0];
    let l1 = reply_lines(len, keep_alive)[1];
    let l2 = reply_lines(len, keep_alive)[2];
    let l3 = reply_lines(len, keep_alive)[3];
    let first = "HTTP/1.1 "@ + dec(200) + " "@ + "OK"@;
    assert(first =~= l0);
    let second = first + "\r\nContent-Type: "@ + "application/x-wombatkv-rkyv"@;
    assert(second =~= l0 + e + l1);
    let third = second + "\r\nContent-Length: "@ + d;
    assert(third =~= l0 + e + l1 + e + l2);
    let fourth = third + "\r\nConnection: "@ + word;
    assert(fourth =~= l0 + e + l1 + e + l2 + e + l3);
    let whole = fourth + "\r\n\r\n"@;
    let lines = reply_line(len, keep_alive, 0) + reply_line(len, keep_alive, 1) + reply_line(
        len,
        keep_alive,
        2,
    ) + reply_line(len, keep_alive, 3) + reply_line(len, keep_alive, 4);
    assert(whole =~= lines);
}

/// A line with its line end, cut, is the line.
proof fn lemma_cut_line(line: Seq<char>)
    requires
        line.len() == 0 || (line.last() != '\r' && line.last() != '\n'),
    ensures
        without_line_end(line + line_end()) == line,
{
    let whole = line + line_end();
    assert(whole.drop_last() =~= line + seq!['\r']);
    assert((line + seq!['\r']).drop_last() =~= line);
    assert(without_line_end(line) == line);
    assert(without_line_end(line + seq!['\r']) == line);
}

/// The first line of a response to a call says that all is well.
proof fn lemma_status_line(len: nat, keep_alive: bool)
    ensures
        status_line_parsed(reply_line(len, keep_alive, 0)) == Ok::<(Seq<char>, nat), Seq<char>>(
            ("HTTP/1.1"@, 200),
        ),
{
    reveal_strlit("HTTP/1.1");
    let line = reply_line(len, keep_alive, 0);
    let version = "HTTP/1.1"@;
    assert(line[8] == ' ');
    assert forall|i: int| 0 <= i < 8 implies #[trigger] line[i] != ' ' by {
        assert(line[i] == version[i]);
    }
    lemma_find_char_is(line, ' ', 8);
    assert(line.take(8) =~= version);
    let rest = line.skip(9);
    let code = dec(200);
    lemma_dec_plain(200);
    assert(rest =~= code + seq![' '] + "OK"@ + line_end());
    assert(rest[code.len() as int] == ' ');
    assert forall|i: int| 0 <= i < code.len() implies #[trigger] rest[i] != ' ' by {
        assert(rest[i] == code[i]);
    }
    lemma_find_char_is(rest, ' ', code.len() as int);
    assert(rest.take(code.len() as int) =~= code);
    lemma_dec_parses(200, u16::MAX as nat);
}

/// Whether every character of a text takes one byte.
pub open spec fn one_byte_each(text: Seq<char>) -> bool {
    forall|i: int| 0 <= i < text.len() ==> #[trigger] text[i] as u32 <= 0x7f
}

proof fn lemma_one_byte_len(text: Seq<char>)
    requires
        one_byte_each(text),
    ensures
        byte_len(text) == text.len(),
    decreases text.len(),
{
    if text.len() > 0 {
        let rest = text.drop_first();
        assert forall|i: int| 0 <= i < rest.len() implies #[trigger] rest[i] as u32 <= 0x7f by {
            assert(rest[i] == text[i + 1]);
        }
        lemma_one_byte_len(rest);
        assert(text[0] as u32 <= 0x7f);
    }
}

/// A body's length has at most nine digits.
proof fn lemma_dec_short(n: nat)
    requires
        n <= MAX_BODY_BYTES,
    ensures
        dec(n).len() <= 9,
{
    reveal_with_fuel(dec, 10);
}

/// The lines of the head of a response to a call are short.
proof fn lemma_reply_short(len: nat, keep_alive: bool, i: int)
    requires
        len <= MAX_BODY_BYTES,
        0 <= i < 5,
    ensures
        0 < byte_len(reply_line(len, keep_alive, i)) <= 64,
        reply_line(len, keep_alive, i).len() > 0,
{
    reveal_strlit("HTTP/1.1");
    reveal_strlit("OK");
    reveal_strlit("Content-Type");
    reveal_strlit("application/x-wombatkv-rkyv");
    reveal_strlit("Content-Length");
    reveal_strlit("Connection");
    reveal_strlit("keep-alive");
    reveal_strlit("close");
    lemma_dec_short(len);
    lemma_dec_short(200);
    lemma_dec_digits(len);
    lemma_dec_digits(200);
    let line = reply_line(len, keep_alive, i);
    let d = if i == 0 {
        dec(200)
    } else {
        dec(len)
    };
    assert forall|j: int| 0 <= j < line.len() implies #[trigger] line[j] as u32 <= 0x7f by {
        if i == 0 && 9 <= j < 9 + d.len() {
            assert(line[j] == d[j - 9]);
        }
        if i == 2 && 16 <= j < 16 + d.len() {
            assert(line[j] == d[j - 16]);
        }
    }
    lemma_one_byte_len(line);
}

/// The fate of one header line of a response to a call.
proof fn lemma_reply_line(found: HeaderFields, head_bytes: nat, len: nat, keep_alive: bool, i: int)
    requires
        len <= MAX_BODY_BYTES,
        1 <= i < 4,
        head_bytes <= 1024,
    ensures
        line_fate(found, head_bytes, reply_line(len, keep_alive, i)) == LineFate::More(
            if i == 1 {
                found
            } else if i == 2 {
                HeaderFields { content_length: Some(len), ..found }
            } else {
                HeaderFields { connection: Some(connection_word(keep_alive)), ..found }
            },
        ),
{
    let line = reply_lines(len, keep_alive)[i];
    lemma_reply_short(len, keep_alive, i);
    reveal_strlit("Content-Type");
    reveal_strlit("application/x-wombatkv-rkyv");
    reveal_strlit("Content-Length");
    reveal_strlit("Connection");
    reveal_strlit("keep-alive");
    reveal_strlit("close");
    lemma_dec_plain(len);
    if i == 2 {
        assert(line.last() == dec(len).last());
    }
    lemma_cut_line(line);
    lemma_known_headers(found, "malformed response header: "@, len, keep_alive);
}

/// What a server answers to a call, the client reads: line by line it learns
/// that all is well, how long the body is and whether the connection stays
/// open; and what follows the last line is the body.
pub proof fn http_response_arrives(body: Seq<u8>, keep_alive: bool)
    requires
        body.len() <= MAX_BODY_BYTES,
    ensures
        ({
            let len = body.len();
            let l0 = reply_line(len, keep_alive, 0);
            let l1 = reply_line(len, keep_alive, 1);
            let l2 = reply_line(len, keep_alive, 2);
            let l3 = reply_line(len, keep_alive, 3);
            let l4 = reply_line(len, keep_alive, 4);
            let h0 = no_headers();
            let h2 = HeaderFields { content_length: Some(len), ..h0 };
            let h3 = HeaderFields { connection: Some(connection_word(keep_alive)), ..h2 };
            let n0 = byte_len(l0);
            let n1 = n0 + byte_len(l1);
            let n2 = n1 + byte_len(l2);
            let n3 = n2 + byte_len(l3);
            &&& response_bytes(200, "OK"@, "application/x-wombatkv-rkyv"@, body, keep_alive)
                == encode_utf8(l0 + l1 + l2 + l3 + l4) + body
            &&& status_line_parsed(l0) == Ok::<(Seq<char>, nat), Seq<char>>(("HTTP/1.1"@, 200))
            &&& line_fate(h0, n0, l1) == LineFate::More(h0)
            &&& line_fate(h0, n1, l2) == LineFate::More(h2)
            &&& line_fate(h2, n2, l3) == LineFate::More(h3)
            &&& line_fate(h3, n3, l4) is Done
            &&& response_head_of("HTTP/1.1"@, 200, h3) == Ok::<(u16, nat, bool), HttpClientFault>(
                (200, len, keep_alive),
            )
        }),
{
    let len = body.len();
    let h0 = no_headers();
    let h2 = HeaderFields { content_length: Some(len), ..h0 };
    let h3 = HeaderFields { connection: Some(connection_word(keep_alive)), ..h2 };
    lemma_reply_bytes(body, keep_alive);
    lemma_status_line(len, keep_alive);
    lemma_reply_short(len, keep_alive, 0);
    lemma_reply_short(len, keep_alive, 1);
    lemma_reply_short(len, keep_alive, 2);
    lemma_reply_short(len, keep_alive, 3);
    lemma_reply_short(len, keep_alive, 4);
    let n0 = byte_len(reply_line(len, keep_alive, 0));
    let n1 = n0 + byte_len(reply_line(len, keep_alive, 1));
    let n2 = n1 + byte_len(reply_line(len, keep_alive, 2));
    let n3 = n2 + byte_len(reply_line(len, keep_alive, 3));
    lemma_reply_line(h0, n0, len, keep_alive, 1);
    lemma_reply_line(h0, n1, len, keep_alive, 2);
    lemma_reply_line(h2, n2, len, keep_alive, 3);
    lemma_cut_line(Seq::empty());
    assert(reply_line(len, keep_alive, 4) =~= Seq::<char>::empty() + line_end());
    lemma_connection_words(keep_alive, "HTTP/1.1"@);
}

} // verus!
