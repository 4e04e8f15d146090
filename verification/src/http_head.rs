//! Heads of HTTP/1.1 messages: where they end and what they say.

use vstd::prelude::*;
use vstd::utf8::{decode_utf8, valid_utf8};

use crate::text::{
    char_parts, chars_are, chars_of, copy_chars, debug_of, debug_text, find_char, find_from,
    lemma_find_char_is, lower_chars, lowered, parse_error_text, parse_usize, parsed_uint,
    split_words, text_of, text_opt, trim, trimmed, utf8_error_text, utf8_text, words_of,
};

verus! {

// ---- the end of a head ----

/// Whether an empty line ends a head at a position: two line ends in a row.
pub open spec fn blank_line_at(buf: Seq<u8>, at: int) -> bool {
    &&& 0 <= at <= buf.len() - 4
    &&& buf[at] == 13
    &&& buf[at + 1] == 10
    &&& buf[at + 2] == 13
    &&& buf[at + 3] == 10
}

/// The first position from `from` on at which an empty line ends a head.
pub open spec fn head_end_from(buf: Seq<u8>, from: nat) -> Option<nat>
    decreases buf.len() - from,
{
    if from + 4 > buf.len() {
        None
    } else if blank_line_at(buf, from as int) {
        Some(from)
    } else {
        head_end_from(buf, from + 1)
    }
}

/// The first position at which an empty line ends a head.
pub open spec fn head_end(buf: Seq<u8>) -> Option<nat> {
    head_end_from(buf, 0)
}

/// The end of a head is the first of its kind.
pub proof fn lemma_head_end(buf: Seq<u8>, from: nat)
    ensures
        match head_end_from(buf, from) {
            Some(at) => blank_line_at(buf, at as int) && from <= at && forall|j: int|
                from <= j < at ==> !#[trigger] blank_line_at(buf, j),
            None => forall|j: int| from <= j ==> !#[trigger] blank_line_at(buf, j),
        },
    decreases buf.len() - from,
{
    if from + 4 <= buf.len() && !blank_line_at(buf, from as int) {
        lemma_head_end(buf, from + 1);
    }
}

/// Find where a head ends.
pub fn find_double_crlf(buf: &[u8]) -> (found: Option<usize>)
    ensures
        match found {
            Some(at) => head_end(buf@) == Some(at as nat),
            None => head_end(buf@) is None,
        },
        found matches Some(at) ==> blank_line_at(buf@, at as int),
{
    let mut at: usize = 0;
    while at < buf.len() && buf.len() - at >= 4
        invariant
            at <= buf@.len(),
            head_end(buf@) == head_end_from(buf@, at as nat),
        decreases buf@.len() - at,
    {
        if buf[at] == 13 && buf[at + 1] == 10 && buf[at + 2] == 13 && buf[at + 3] == 10 {
            return Some(at);
        }
        at = at + 1;
    }
    None
}

// ---- lines ----

/// The position of the first line end, or the length where there is none.
pub open spec fn find_line_end(text: Seq<char>) -> nat
    decreases text.len(),
{
    if text.len() == 0 || (text.len() >= 2 && text[0] == '\r' && text[1] == '\n') {
        0
    } else {
        1 + find_line_end(text.drop_first())
    }
}

/// The parts of a text between its line ends.
pub open spec fn head_lines(text: Seq<char>) -> Seq<Seq<char>>
    decreases text.len(),
    via head_lines_shrinks
{
    let at = find_line_end(text);
    if at >= text.len() {
        seq![text]
    } else {
        seq![text.take(at as int)] + head_lines(text.skip(at as int + 2))
    }
}

#[via_fn]
proof fn head_lines_shrinks(text: Seq<char>) {
    lemma_find_line_end(text);
}

proof fn lemma_find_line_end(text: Seq<char>)
    ensures
        find_line_end(text) <= text.len(),
        find_line_end(text) < text.len() ==> find_line_end(text) + 2 <= text.len(),
    decreases text.len(),
{
    if text.len() > 0 && !(text.len() >= 2 && text[0] == '\r' && text[1] == '\n') {
        lemma_find_line_end(text.drop_first());
    }
}

/// Splits a text at its line ends.
pub fn split_head(text: &[char]) -> (lines: Vec<Vec<char>>)
    ensures
        char_parts(lines@) == head_lines(text@),
        lines@.len() >= 1,
{
    let mut lines: Vec<Vec<char>> = Vec::new();
    let ghost all = head_lines(text@);
    let mut start: usize = 0;
    assert(text@.skip(0) =~= text@);
    assert(char_parts(lines@) + head_lines(text@) =~= head_lines(text@));
    loop
        invariant
            start <= text@.len(),
            all == head_lines(text@),
            char_parts(lines@) + head_lines(text@.skip(start as int)) == all,
        decreases text@.len() - start,
    {
        let ghost rest = text@.skip(start as int);
        let mut at: usize = start;
        assert(rest.skip(0) =~= rest);
        while at < text.len() && !(text[at] == '\r' && text.len() - at >= 2 && text[at + 1] == '\n')
            invariant
                start <= at <= text@.len(),
                rest == text@.skip(start as int),
                find_line_end(rest) == at - start + find_line_end(rest.skip(at - start)),
            decreases text@.len() - at,
        {
            proof {
                let here = rest.skip(at - start);
                assert(here[0] == text@[at as int]);
                if here.len() >= 2 {
                    assert(here[1] == text@[at + 1]);
                }
                assert(here.drop_first() =~= rest.skip(at + 1 - start));
            }
            at = at + 1;
        }
        proof {
            let here = rest.skip(at - start);
            if at < text@.len() {
                assert(here[0] == text@[at as int]);
                assert(here[1] == text@[at + 1]);
            }
            assert(find_line_end(here) == 0);
        }
        let ghost before = lines@;
        let line = copy_chars(text, start, at);
        assert(line@ =~= rest.take(at - start));
        lines.push(line);
        assert(char_parts(lines@) =~= char_parts(before).push(line@));
        if at == text.len() {
            assert(line@ =~= rest);
            assert(char_parts(lines@) =~= char_parts(before) + seq![rest]);
            return lines;
        }
        assert(rest.skip(at - start + 2) =~= text@.skip(at + 2));
        assert(char_parts(lines@) + head_lines(text@.skip(at + 2)) =~= char_parts(before) + (
        seq![line@] + head_lines(text@.skip(at + 2))));
        start = at + 2;
    }
}

// ---- headers ----

/// The headers that matter, as far as they were given.
#[verifier::ext_equal]
pub struct HeaderFields {
    pub content_length: Option<nat>,
    pub connection: Option<Seq<char>>,
}

/// No headers.
pub open spec fn no_headers() -> HeaderFields {
    HeaderFields { content_length: None, connection: None }
}

/// What one header line adds, or what is wrong with it. `malformed` introduces
/// a line without a colon.
pub open spec fn with_header(
    found: HeaderFields,
    line: Seq<char>,
    malformed: Seq<char>,
) -> Result<HeaderFields, Seq<char>> {
    let at = find_char(line, ':');
    if at >= line.len() {
        Err(malformed + debug_of(line))
    } else {
        let name = lowered(trimmed(line.take(at as int)));
        let value = trimmed(line.skip(at as int + 1));
        if name == "content-length"@ {
            match parsed_uint(value, usize::MAX as nat) {
                Some(len) => Ok(HeaderFields { content_length: Some(len), ..found }),
                None => Err(
                    "bad Content-Length "@ + debug_of(value) + ": "@ + parse_error_text(value),
                ),
            }
        } else if name == "connection"@ {
            Ok(HeaderFields { connection: Some(lowered(value)), ..found })
        } else {
            Ok(found)
        }
    }
}

/// The headers while a head is read.
#[derive(Debug, Clone)]
pub struct Headers {
    pub content_length: Option<usize>,
    pub connection: Option<String>,
}

impl View for Headers {
    type V = HeaderFields;

    open spec fn view(&self) -> HeaderFields {
        HeaderFields {
            content_length: match self.content_length {
                Some(len) => Some(len as nat),
                None => None,
            },
            connection: text_opt(self.connection),
        }
    }
}

impl Headers {
    /// No headers.
    pub fn new() -> (headers: Self)
        ensures
            headers@ == no_headers(),
    {
        Headers { content_length: None, connection: None }
    }

    /// Take a header line.
    pub fn take_line(&mut self, line: &[char], malformed: &str) -> (taken: Result<(), String>)
        ensures
            match taken {
                Ok(_) => with_header(old(self)@, line@, malformed@) == Ok::<
                    HeaderFields,
                    Seq<char>,
                >(final(self)@),
                Err(e) => with_header(old(self)@, line@, malformed@) == Err::<
                    HeaderFields,
                    Seq<char>,
                >(e@),
            },
    {
        let at: usize = find_from(line, 0, ':');
        assert(line@.skip(0) =~= line@);
        if at >= line.len() {
            let mut text = malformed.to_owned();
            text.push_str(&debug_text(&text_of(line)));
            return Err(text);
        }
        let before = copy_chars(line, 0, at);
        assert(before@ =~= line@.take(at as int));
        let behind = copy_chars(line, at + 1, line.len());
        assert(behind@ =~= line@.skip(at + 1));
        let name = lower_chars(&trim(&before));
        let value = trim(&behind);
        if chars_are(&name, "content-length") {
            let value_text = text_of(&value);
            match parse_usize(&value_text) {
                Ok(len) => {
                    self.content_length = Some(len);
                    Ok(())
                },
                Err(cause) => {
                    let mut text = String::new();
                    text.push_str("bad Content-Length ");
                    text.push_str(&debug_text(&value_text));
                    text.push_str(": ");
                    text.push_str(&cause);
                    assert(text@ =~= "bad Content-Length "@ + debug_of(value@) + ": "@
                        + parse_error_text(value@));
                    Err(text)
                },
            }
        } else {
            if chars_are(&name, "connection") {
                self.connection = Some(text_of(&lower_chars(&value)));
            }
            Ok(())
        }
    }

    /// Whether the connection stays open, given the version in the first line.
    pub fn keep_alive(&self, version: &[char]) -> (keep: bool)
        ensures
            keep == keeps_alive(self@.connection, version@),
    {
        match &self.connection {
            Some(value) => {
                let chars = chars_of(value);
                if chars_are(&chars, "close") {
                    return false;
                }
                if chars_are(&chars, "keep-alive") {
                    return true;
                }
            },
            None => {},
        }
        chars_are(&lower_chars(version), "http/1.1")
    }
}

/// Whether a connection stays open: as its header says, else if the version is
/// 1.1 in either case.
pub open spec fn keeps_alive(connection: Option<Seq<char>>, version: Seq<char>) -> bool {
    if connection == Some("close"@) {
        false
    } else if connection == Some("keep-alive"@) {
        true
    } else {
        lowered(version) == "http/1.1"@
    }
}

// ---- request heads ----

/// What the head of a request says.
#[derive(Debug, Clone)]
pub struct RequestHead {
    pub method: String,
    pub path: String,
    pub content_length: Option<usize>,
    pub keep_alive: bool,
}

/// The contents of a [`RequestHead`].
#[verifier::ext_equal]
pub struct HeadFields {
    pub method: Seq<char>,
    pub path: Seq<char>,
    pub content_length: Option<nat>,
    pub keep_alive: bool,
}

impl View for RequestHead {
    type V = HeadFields;

    open spec fn view(&self) -> HeadFields {
        HeadFields {
            method: self.method@,
            path: self.path@,
            content_length: match self.content_length {
                Some(len) => Some(len as nat),
                None => None,
            },
            keep_alive: self.keep_alive,
        }
    }
}

/// The headers that lines give, empty lines skipped; the later lines last. The
/// first bad line decides the failure.
pub open spec fn headers_of(lines: Seq<Seq<char>>) -> Result<HeaderFields, Seq<char>>
    decreases lines.len(),
{
    if lines.len() == 0 {
        Ok(no_headers())
    } else {
        match headers_of(lines.drop_last()) {
            Err(text) => Err(text),
            Ok(found) => if lines.last().len() == 0 {
                Ok(found)
            } else {
                with_header(found, lines.last(), "malformed header: "@)
            },
        }
    }
}

/// What a request head decodes to, or why it is refused.
pub open spec fn head_parsed(head: Seq<u8>) -> Result<HeadFields, Seq<char>> {
    if !valid_utf8(head) {
        Err("head not utf-8: "@ + utf8_error_text(head))
    } else {
        let lines = head_lines(decode_utf8(head));
        let words = words_of(lines[0]);
        if words.len() < 3 {
            Err("malformed request line: "@ + debug_of(lines[0]))
        } else {
            match headers_of(lines.skip(1)) {
                Err(text) => Err(text),
                Ok(found) => Ok(
                    HeadFields {
                        method: words[0],
                        path: words[1],
                        content_length: found.content_length,
                        keep_alive: keeps_alive(found.connection, words[2]),
                    },
                ),
            }
        }
    }
}

fn labelled(label: &str, text: &str) -> (out: String)
    ensures
        out@ == label@ + text@,
{
    let mut out = label.to_owned();
    out.push_str(text);
    out
}

proof fn lemma_headers_failed(lines: Seq<Seq<char>>, n: int)
    requires
        0 <= n <= lines.len(),
        headers_of(lines.take(n)) is Err,
    ensures
        headers_of(lines) == headers_of(lines.take(n)),
    decreases lines.len(),
{
    if n == lines.len() {
        assert(lines.take(n) =~= lines);
    } else {
        assert(lines.drop_last().take(n) =~= lines.take(n));
        lemma_headers_failed(lines.drop_last(), n);
    }
}

/// Read the head of a request: the bytes before the empty line.
pub fn parse_http_head_from_buf(head: &[u8]) -> (parsed: Result<RequestHead, String>)
    ensures
        match parsed {
            Ok(h) => head_parsed(head@) == Ok::<HeadFields, Seq<char>>(h@),
            Err(e) => head_parsed(head@) == Err::<HeadFields, Seq<char>>(e@),
        },
{
    let text: String = match utf8_text(head) {
        Ok(text) => text,
        Err(cause) => {
            return Err(labelled("head not utf-8: ", &cause));
        },
    };
    let lines = split_head(&chars_of(&text));
    let ghost all = char_parts(lines@);
    assert(all[0] == lines@[0]@);
    let words = split_words(&lines[0]);
    let ghost parts = char_parts(words@);
    if words.len() < 3 {
        return Err(labelled("malformed request line: ", &debug_text(&text_of(&lines[0]))));
    }
    assert(parts[0] == words@[0]@ && parts[1] == words@[1]@ && parts[2] == words@[2]@);
    let ghost rest = all.skip(1);
    let mut headers = Headers::new();
    let mut i: usize = 1;
    assert(rest.take(0).len() == 0);
    while i < lines.len()
        invariant
            1 <= i <= lines@.len(),
            all == char_parts(lines@),
            rest == all.skip(1),
            headers_of(rest.take(i - 1)) == Ok::<HeaderFields, Seq<char>>(headers@),
            valid_utf8(head@),
            all == head_lines(decode_utf8(head@)),
            words_of(all[0]).len() >= 3,
        decreases lines@.len() - i,
    {
        proof {
            assert(rest.take(i as int).drop_last() =~= rest.take(i - 1));
            assert(rest.take(i as int).last() == lines@[i as int]@);
        }
        if lines[i].len() > 0 {
            match headers.take_line(&lines[i], "malformed header: ") {
                Ok(()) => {},
                Err(cause) => {
                    proof {
                        lemma_headers_failed(rest, i as int);
                    }
                    return Err(cause);
                },
            }
        }
        i = i + 1;
    }
    assert(rest.take(i - 1) =~= rest);
    Ok(
        RequestHead {
            method: text_of(&words[0]),
            path: text_of(&words[1]),
            content_length: headers.content_length,
            keep_alive: headers.keep_alive(&words[2]),
        },
    )
}

/// A connection closes where its header says so and stays where it says so; otherwise
/// it stays open exactly for version 1.1.
pub proof fn connection_stays_as_asked(connection: Option<Seq<char>>, version: Seq<char>)
    ensures
        connection == Some("close"@) ==> !keeps_alive(connection, version),
        connection == Some("keep-alive"@) ==> keeps_alive(connection, version),
        connection != Some("close"@) && connection != Some("keep-alive"@) ==> (keeps_alive(
            connection,
            version,
        ) <==> lowered(version) == "http/1.1"@),
{
    reveal_strlit("close");
    reveal_strlit("keep-alive");
    assert("close"@.len() != "keep-alive"@.len());
}

/// A header line gives its value to the field that its name, in whatever case, stands
/// for; other names are passed over, and a later line replaces an earlier one.
pub proof fn header_lines_name_their_field(
    found: HeaderFields,
    name: Seq<char>,
    value: Seq<char>,
    malformed: Seq<char>,
)
    requires
        forall|i: int| 0 <= i < name.len() ==> #[trigger] name[i] != ':',
    ensures
        ({
            let line = name + seq![':'] + value;
            let field = lowered(trimmed(name));
            let taken = with_header(found, line, malformed);
            &&& field == "content-length"@ ==> match parsed_uint(trimmed(value), usize::MAX as nat) {
                Some(len) => taken matches Ok(more) && more.content_length == Some(len)
                    && more.connection == found.connection,
                None => taken is Err,
            }
            &&& field == "connection"@ ==> (taken matches Ok(more) && more.connection == Some(
                lowered(trimmed(value)),
            ) && more.content_length == found.content_length)
            &&& field != "content-length"@ && field != "connection"@ ==> taken == Ok::<
                HeaderFields,
                Seq<char>,
            >(found)
        }),
{
    reveal_strlit("content-length");
    reveal_strlit("connection");
    assert("content-length"@.len() != "connection"@.len());
    let line = name + seq![':'] + value;
    let at = name.len() as int;
    assert(line[at] == ':');
    assert forall|i: int| 0 <= i < at implies #[trigger] line[i] != ':' by {
        assert(line[i] == name[i]);
    }
    lemma_find_char_is(line, ':', at);
    assert(line.take(at) =~= name);
    assert(line.skip(at + 1) =~= value);
}

/// A head ends at the first place where two line ends follow each other, and a buffer
/// without such a place holds no whole head.
pub proof fn head_ends_at_its_first_blank_line(buf: Seq<u8>)
    ensures
        match head_end(buf) {
            Some(at) => {
                &&& at + 4 <= buf.len()
                &&& buf.subrange(at as int, at as int + 4) == seq![13u8, 10u8, 13u8, 10u8]
                &&& forall|j: int|
                    0 <= j < at ==> #[trigger] buf.subrange(j, j + 4) != seq![
                        13u8,
                        10u8,
                        13u8,
                        10u8,
                    ]
            },
            None => forall|j: int|
                0 <= j <= buf.len() - 4 ==> #[trigger] buf.subrange(j, j + 4) != seq![
                    13u8,
                    10u8,
                    13u8,
                    10u8,
                ],
        },
{
    lemma_head_end(buf, 0);
    let ends = seq![13u8, 10u8, 13u8, 10u8];
    assert forall|j: int| 0 <= j <= buf.len() - 4 && #[trigger] buf.subrange(j, j + 4)
        == ends implies blank_line_at(buf, j) by {
        let part = buf.subrange(j, j + 4);
        assert(part[0] == 13 && part[1] == 10 && part[2] == 13 && part[3] == 10);
    }
    if let Some(at) = head_end(buf) {
        assert(buf.subrange(at as int, at as int + 4) =~= ends);
    }
}

/// The lines of a head are what stands between its line ends: the first line is read up
/// to the first line end, the others from behind it, and a text without a line end is
/// one line.
pub proof fn heads_are_read_line_by_line(line: Seq<char>, rest: Seq<char>)
    requires
        forall|i: int| 0 <= i < line.len() ==> #[trigger] line[i] != '\r',
    ensures
        head_lines(line) == seq![line],
        head_lines(line + seq!['\r', '\n'] + rest) == seq![line] + head_lines(rest),
{
    let text = line + seq!['\r', '\n'] + rest;
    lemma_line_end_at(line, line.len() as int);
    assert(text[line.len() as int] == '\r' && text[line.len() as int + 1] == '\n');
    assert forall|i: int| 0 <= i < line.len() implies #[trigger] text[i] != '\r' by {
        assert(text[i] == line[i]);
    }
    lemma_line_end_at(text, line.len() as int);
    assert(text.take(line.len() as int) =~= line);
    assert(text.skip(line.len() as int + 2) =~= rest);
}

proof fn lemma_line_end_at(text: Seq<char>, at: int)
    requires
        0 <= at <= text.len(),
        forall|i: int| 0 <= i < at ==> #[trigger] text[i] != '\r',
        at == text.len() || (at + 2 <= text.len() && text[at] == '\r' && text[at + 1] == '\n'),
    ensures
        find_line_end(text) == at,
    decreases text.len(),
{
    if at > 0 {
        let rest = text.drop_first();
        assert(text[0] != '\r');
        assert forall|i: int| 0 <= i < at - 1 implies #[trigger] rest[i] != '\r' by {
            assert(rest[i] == text[i + 1]);
        }
        lemma_line_end_at(rest, at - 1);
    }
}

/// The header lines of a head add up one after the other: an empty line adds nothing,
/// one without a colon is refused, and after a refused line nothing else counts.
pub proof fn header_lines_add_up(lines: Seq<Seq<char>>, line: Seq<char>)
    ensures
        headers_of(Seq::empty()) == Ok::<HeaderFields, Seq<char>>(
            HeaderFields { content_length: None, connection: None },
        ),
        line.len() == 0 ==> headers_of(lines.push(line)) == headers_of(lines),
        headers_of(lines) is Err ==> headers_of(lines.push(line)) == headers_of(lines),
        line.len() > 0 && (forall|i: int| 0 <= i < line.len() ==> #[trigger] line[i] != ':')
            ==> headers_of(lines.push(line)) is Err,
        line.len() > 0 ==> match headers_of(lines) {
            Ok(found) => headers_of(lines.push(line)) == with_header(
                found,
                line,
                "malformed header: "@,
            ),
            Err(_) => true,
        },
{
    assert(lines.push(line).drop_last() =~= lines);
    if forall|i: int| 0 <= i < line.len() ==> #[trigger] line[i] != ':' {
        lemma_find_char_is(line, ':', line.len() as int);
    }
}

/// A head is refused where its bytes are no text or its first line has fewer than three
/// words; else the first two words are the method and the path, and the third decides
/// with the headers whether the connection stays.
pub proof fn heads_say_what_is_asked(head: Seq<u8>)
    ensures
        !valid_utf8(head) ==> head_parsed(head) is Err,
        valid_utf8(head) ==> ({
            let lines = head_lines(decode_utf8(head));
            let words = words_of(lines[0]);
            match head_parsed(head) {
                Ok(fields) => {
                    &&& words.len() > 2
                    &&& fields.method == words[0]
                    &&& fields.path == words[1]
                    &&& headers_of(lines.skip(1)) matches Ok(found)
                    &&& fields.content_length == found.content_length
                    &&& fields.keep_alive == keeps_alive(found.connection, words[2])
                },
                Err(text) => if words.len() <= 2 {
                    text == "malformed request line: "@ + debug_of(lines[0])
                } else {
                    headers_of(lines.skip(1)) == Err::<HeaderFields, Seq<char>>(text)
                },
            }
        }),
{
}

} // verus!
