//! The request that shows that the link works.

use vstd::prelude::*;

use crate::bounded;
use crate::bounded::Text;
use crate::text;

verus! {

/// Bytes that a request can take.
pub const REQUEST_SIZE: usize = 128;

/// How many bytes of an answer are shown.
pub const PREVIEW_SIZE: usize = 96;

/// What pieces written one after the other leave in `capacity` bytes: writing
/// stops at the first piece that does not fit.
pub open spec fn written(pieces: Seq<Seq<char>>, capacity: nat) -> Seq<char>
    decreases pieces.len(),
{
    if pieces.len() == 0 {
        Seq::empty()
    } else {
        let before = written(pieces.drop_last(), capacity);
        if all_written(pieces.drop_last(), capacity) && bounded::byte_len(before)
            + bounded::byte_len(pieces.last()) <= capacity {
            before + pieces.last()
        } else {
            before
        }
    }
}

/// Whether every piece fits.
pub open spec fn all_written(pieces: Seq<Seq<char>>, capacity: nat) -> bool
    decreases pieces.len(),
{
    pieces.len() == 0 || (all_written(pieces.drop_last(), capacity) && bounded::byte_len(
        written(pieces.drop_last(), capacity),
    ) + bounded::byte_len(pieces.last()) <= capacity)
}

/// The pieces of a request.
pub open spec fn request_pieces(host: Seq<char>) -> Seq<Seq<char>> {
    seq![
        "GET / HTTP/1.1\r\nHost: "@,
        host,
        "\r\nConnection: close\r\n\r\n"@,
    ]
}

/// The request for the front page of a host.
pub fn request(host: &str) -> (r: Text)
    ensures
        r@ == written(request_pieces(host@), REQUEST_SIZE as nat),
{
    let mut out = Text::new::<REQUEST_SIZE>();
    let ghost pieces = request_pieces(host@);
    proof {
        bounded::lemma_byte_len_empty();
        assert(pieces.take(0) =~= Seq::<Seq<char>>::empty());
        assert(pieces.take(1).drop_last() =~= pieces.take(0));
        assert(pieces.take(2).drop_last() =~= pieces.take(1));
        assert(pieces.take(3).drop_last() =~= pieces.take(2));
        assert(pieces.take(3) =~= pieces);
        reveal_with_fuel(written, 4);
        reveal_with_fuel(all_written, 4);
    }
    if out.push_str("GET / HTTP/1.1\r\nHost: ") {
        if out.push_str(host) {
            out.push_str("\r\nConnection: close\r\n\r\n");
        }
    }
    assert(out@ =~= written(pieces.take(3), REQUEST_SIZE as nat));
    out
}

/// A request for a host of up to 83 bytes goes out whole.
pub proof fn law_ordinary_request_is_whole(host: Seq<char>)
    requires
        bounded::byte_len(host) <= 83,
    ensures
        written(request_pieces(host), REQUEST_SIZE as nat) == "GET / HTTP/1.1\r\nHost: "@ + host
            + "\r\nConnection: close\r\n\r\n"@,
{
    reveal_strlit("GET / HTTP/1.1\r\nHost: ");
    reveal_strlit("\r\nConnection: close\r\n\r\n");
    let head = "GET / HTTP/1.1\r\nHost: "@;
    let tail = "\r\nConnection: close\r\n\r\n"@;
    bounded::lemma_byte_len_ascii(head);
    bounded::lemma_byte_len_ascii(tail);
    bounded::lemma_byte_len_empty();
    bounded::lemma_byte_len_add(head, host);
    let pieces = request_pieces(host);
    assert(pieces.drop_last() =~= seq![head, host]);
    assert(seq![head, host].drop_last() =~= seq![head]);
    assert(seq![head].drop_last() =~= Seq::<Seq<char>>::empty());
    reveal_with_fuel(written, 4);
    reveal_with_fuel(all_written, 4);
    assert(written(seq![head], REQUEST_SIZE as nat) =~= head);
    assert(written(seq![head, host], REQUEST_SIZE as nat) =~= head + host);
}

/// The beginning of an answer as far as it is shown.
pub open spec fn preview_of(answer: Seq<u8>) -> Seq<char> {
    let shown = if answer.len() > PREVIEW_SIZE {
        answer.take(PREVIEW_SIZE as int)
    } else {
        answer
    };
    if vstd::utf8::valid_utf8(shown) {
        vstd::utf8::decode_utf8(shown)
    } else {
        "<не utf8>"@
    }
}

/// The beginning of an answer, for the log.
pub fn preview(answer: &[u8]) -> (r: &str)
    ensures
        r@ == preview_of(answer@),
{
    let len: usize = if answer.len() > PREVIEW_SIZE {
        PREVIEW_SIZE
    } else {
        answer.len()
    };
    let shown: &[u8] = &answer[0..len];
    assert(shown@ =~= if answer@.len() > PREVIEW_SIZE {
        answer@.take(PREVIEW_SIZE as int)
    } else {
        answer@
    });
    match text::utf8(shown) {
        Some(s) => s,
        None => "<не utf8>",
    }
}

/// A longer host leaves out what no longer fits: the end of the request from 84
/// bytes on, the host itself from 107 bytes on.
pub proof fn law_long_host_cuts_the_request(host: Seq<char>)
    requires
        bounded::byte_len(host) > 83,
    ensures
        written(request_pieces(host), REQUEST_SIZE as nat) == if bounded::byte_len(host) <= 106 {
            "GET / HTTP/1.1\r\nHost: "@ + host
        } else {
            "GET / HTTP/1.1\r\nHost: "@
        },
{
    reveal_strlit("GET / HTTP/1.1\r\nHost: ");
    reveal_strlit("\r\nConnection: close\r\n\r\n");
    let head = "GET / HTTP/1.1\r\nHost: "@;
    let tail = "\r\nConnection: close\r\n\r\n"@;
    bounded::lemma_byte_len_ascii(head);
    bounded::lemma_byte_len_ascii(tail);
    bounded::lemma_byte_len_empty();
    bounded::lemma_byte_len_add(head, host);
    let pieces = request_pieces(host);
    assert(pieces.drop_last() =~= seq![head, host]);
    assert(seq![head, host].drop_last() =~= seq![head]);
    assert(seq![head].drop_last() =~= Seq::<Seq<char>>::empty());
    reveal_with_fuel(written, 4);
    reveal_with_fuel(all_written, 4);
    assert(written(seq![head], REQUEST_SIZE as nat) =~= head);
}

/// An answer of up to 96 bytes is shown whole, and of a longer one the first 96
/// bytes are. What is not UTF-8 is not shown.
pub proof fn law_preview_shows_the_beginning(shown: Seq<char>, answer: Seq<u8>)
    requires
        vstd::utf8::encode_utf8(shown).len() <= 96,
    ensures
        preview_of(vstd::utf8::encode_utf8(shown)) == shown,
        vstd::utf8::encode_utf8(shown).len() == 96 ==> preview_of(
            vstd::utf8::encode_utf8(shown) + answer,
        ) == shown,
        answer.len() <= 96 && !vstd::utf8::valid_utf8(answer) ==> preview_of(answer)
            == "<не utf8>"@,
{
    let bytes = vstd::utf8::encode_utf8(shown);
    vstd::utf8::encode_utf8_valid_utf8(shown);
    vstd::utf8::encode_utf8_decode_utf8(shown);
    if bytes.len() == 96 {
        assert((bytes + answer).take(96) =~= bytes);
        if answer.len() == 0 {
            assert(bytes + answer =~= bytes);
        }
    }
}

} // verus!
