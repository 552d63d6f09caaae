//! Chunked transfer encoding: the framing of a response body.
//!
//! A body is a run of frames, each a hexadecimal length, CRLF, that many
//! payload bytes, CRLF. A frame with no payload ends the body.

use vstd::prelude::*;

verus! {

/// The largest payload that one frame carries.
pub const BLOCK_SIZE: usize = 4096;

/// The ASCII digit for a value below sixteen, letters in lower case.
pub open spec fn hex_digit(d: nat) -> u8
    recommends
        d < 16,
{
    if d < 10 {
        (48 + d) as u8
    } else {
        (87 + d) as u8
    }
}

/// The hexadecimal numeral of `n`, most significant digit first, without leading zeros.
pub open spec fn lower_hex(n: nat) -> Seq<u8>
    decreases n,
{
    if n < 16 {
        seq![hex_digit(n)]
    } else {
        lower_hex(n / 16).push(hex_digit(n % 16))
    }
}

/// Carriage return, line feed.
pub open spec fn crlf() -> Seq<u8> {
    seq![13u8, 10u8]
}

/// One frame on the wire: the payload's length, CRLF, the payload, CRLF.
pub open spec fn frame(payload: Seq<u8>) -> Seq<u8> {
    lower_hex(payload.len()) + crlf() + payload + crlf()
}

/// The frame that ends a body: `0`, CRLF, CRLF.
pub open spec fn terminator() -> Seq<u8> {
    frame(Seq::empty())
}

/// The frames of the given payloads, one after the other.
pub open spec fn frames(payloads: Seq<Seq<u8>>) -> Seq<u8>
    decreases payloads.len(),
{
    if payloads.len() == 0 {
        Seq::empty()
    } else {
        frame(payloads[0]) + frames(payloads.drop_first())
    }
}

/// `data` cut into blocks of `BLOCK_SIZE` bytes, the last one holding what is left.
pub open spec fn blocks(data: Seq<u8>) -> Seq<Seq<u8>>
    decreases data.len(),
{
    if data.len() == 0 {
        Seq::empty()
    } else if data.len() <= BLOCK_SIZE {
        seq![data]
    } else {
        seq![data.take(BLOCK_SIZE as int)] + blocks(data.skip(BLOCK_SIZE as int))
    }
}

/// The complete chunked body for `data`.
pub open spec fn chunked(data: Seq<u8>) -> Seq<u8> {
    frames(blocks(data)) + terminator()
}

/// The value of an ASCII hexadecimal digit in lower case; `None` for any other byte.
pub open spec fn digit_value(b: u8) -> Option<nat> {
    if 48 <= b <= 57 {
        Some((b - 48) as nat)
    } else if 97 <= b <= 102 {
        Some((b - 87) as nat)
    } else {
        None
    }
}

/// How many hexadecimal digits `s` begins with.
pub open spec fn digit_run(s: Seq<u8>) -> nat
    decreases s.len(),
{
    if s.len() > 0 && digit_value(s[0]) is Some {
        1 + digit_run(s.drop_first())
    } else {
        0
    }
}

/// The number that a run of hexadecimal digits writes.
pub open spec fn numeral_value(digits: Seq<u8>) -> nat
    decreases digits.len(),
{
    if digits.len() == 0 {
        0
    } else {
        16 * numeral_value(digits.drop_last()) + digit_value(digits.last()).unwrap()
    }
}

/// Reads a chunked body back into its payloads.
///
/// The body must be a run of frames with non-empty payloads followed by exactly one
/// terminator and nothing after it. Each length is a lower-case hexadecimal numeral
/// without leading zeros, and each payload has exactly the length declared for it.
/// Anything else is `None`.
pub open spec fn decode(body: Seq<u8>) -> Option<Seq<Seq<u8>>>
    decreases body.len(),
{
    let k = digit_run(body) as int;
    let n = numeral_value(body.take(k)) as int;
    let end = k + 2 + n + 2;
    if k == 0 || (k > 1 && body[0] == 48) || body.len() < end || body.subrange(k, k + 2) != crlf()
        || body.subrange(k + 2 + n, end) != crlf() {
        None
    } else if n == 0 {
        if body.len() == end {
            Some(Seq::empty())
        } else {
            None
        }
    } else {
        match decode(body.skip(end)) {
            Some(rest) => Some(seq![body.subrange(k + 2, k + 2 + n)] + rest),
            None => None,
        }
    }
}

/// The bytes of the given payloads, joined.
pub open spec fn concat(payloads: Seq<Seq<u8>>) -> Seq<u8>
    decreases payloads.len(),
{
    if payloads.len() == 0 {
        Seq::empty()
    } else {
        payloads[0] + concat(payloads.drop_first())
    }
}

/// A hexadecimal numeral reads back as its number.
///
/// For every `n`, the numeral of `n` holds at least one digit and only digits, writes
/// the number `n`, and begins with `0` only if `n` is zero, in which case it is `0`
/// alone.
pub proof fn lower_hex_reads_back(n: nat)
    ensures
        lower_hex(n).len() >= 1,
        forall|i: int| 0 <= i < lower_hex(n).len() ==> digit_value(#[trigger] lower_hex(n)[i]) is Some,
        numeral_value(lower_hex(n)) == n,
        lower_hex(n)[0] == 48 ==> n == 0,
        n == 0 ==> lower_hex(n) =~= seq![48u8],
    decreases n,
{
    if n < 16 {
        assert(numeral_value(lower_hex(n).drop_last()) == 0);
    } else {
        lower_hex_reads_back(n / 16);
        assert(lower_hex(n).drop_last() =~= lower_hex(n / 16));
    }
}

proof fn lemma_digit_run(digits: Seq<u8>, rest: Seq<u8>)
    requires
        forall|i: int| 0 <= i < digits.len() ==> digit_value(#[trigger] digits[i]) is Some,
        rest.len() == 0 || digit_value(rest[0]) is None,
    ensures
        digit_run(digits + rest) == digits.len(),
    decreases digits.len(),
{
    if digits.len() > 0 {
        assert((digits + rest).drop_first() =~= digits.drop_first() + rest);
        lemma_digit_run(digits.drop_first(), rest);
    }
}

/// What `decode` makes of one frame followed by `rest`.
proof fn lemma_decode_frame(payload: Seq<u8>, rest: Seq<u8>)
    ensures
        payload.len() > 0 ==> decode(frame(payload) + rest) == match decode(rest) {
            Some(more) => Some(seq![payload] + more),
            None => None,
        },
        payload.len() == 0 && rest.len() == 0 ==> decode(frame(payload) + rest) == Some(
            Seq::<Seq<u8>>::empty(),
        ),
{
    let digits = lower_hex(payload.len());
    let body = frame(payload) + rest;
    let tail = crlf() + payload + crlf() + rest;
    lower_hex_reads_back(payload.len());
    assert(body =~= digits + tail);
    lemma_digit_run(digits, tail);
    let k = digits.len() as int;
    let n = payload.len() as int;
    assert(body.take(k) =~= digits);
    assert(body.subrange(k, k + 2) =~= crlf());
    assert(body.subrange(k + 2 + n, k + 2 + n + 2) =~= crlf());
    assert(body.subrange(k + 2, k + 2 + n) =~= payload);
    assert(body.skip(k + 2 + n + 2) =~= rest);
}

/// Decoding passes over well-formed frames and goes on with what follows them.
///
/// For every run of non-empty payloads and every `rest`, the frames of the payloads
/// followed by `rest` decode to the payloads followed by what `rest` decodes to, and
/// to nothing if `rest` does not decode.
pub proof fn decode_after_frames(payloads: Seq<Seq<u8>>, rest: Seq<u8>)
    requires
        forall|i: int| 0 <= i < payloads.len() ==> (#[trigger] payloads[i]).len() > 0,
    ensures
        decode(frames(payloads) + rest) == match decode(rest) {
            Some(more) => Some(payloads + more),
            None => None,
        },
    decreases payloads.len(),
{
    if payloads.len() > 0 {
        let first = payloads[0];
        let others = payloads.drop_first();
        decode_after_frames(others, rest);
        let tail = frames(others) + rest;
        assert(frames(payloads) + rest =~= frame(first) + tail);
        lemma_decode_frame(first, tail);
    }
}

/// A chunked body reads back as exactly the payloads that were framed.
///
/// For every run of non-empty payloads, the frames of the payloads followed by the
/// terminator decode to those payloads: every declared length is the byte count of
/// its payload, and the body ends with one zero-length frame and nothing more.
pub proof fn decode_inverts_frames(payloads: Seq<Seq<u8>>)
    requires
        forall|i: int| 0 <= i < payloads.len() ==> (#[trigger] payloads[i]).len() > 0,
    ensures
        decode(frames(payloads) + terminator()) == Some(payloads),
{
    decode_after_frames(payloads, terminator());
    lemma_decode_frame(Seq::empty(), Seq::empty());
}

/// A body without its terminator does not decode.
///
/// For every run of non-empty payloads, the frames alone, with no terminator after
/// them, are refused by `decode`.
pub proof fn decode_needs_terminator(payloads: Seq<Seq<u8>>)
    requires
        forall|i: int| 0 <= i < payloads.len() ==> (#[trigger] payloads[i]).len() > 0,
    ensures
        decode(frames(payloads)) is None,
{
    decode_after_frames(payloads, Seq::empty());
}

/// Nothing may follow the terminator.
///
/// For every run of non-empty payloads and every non-empty `extra`, a body that goes
/// on with `extra` after its terminator is refused by `decode`.
pub proof fn decode_stops_at_terminator(payloads: Seq<Seq<u8>>, extra: Seq<u8>)
    requires
        forall|i: int| 0 <= i < payloads.len() ==> (#[trigger] payloads[i]).len() > 0,
        extra.len() > 0,
    ensures
        decode(frames(payloads) + terminator() + extra) is None,
{
    let rest = terminator() + extra;
    decode_after_frames(payloads, rest);
    assert(frames(payloads) + terminator() + extra =~= frames(payloads) + rest);
    let digits = lower_hex(0);
    lower_hex_reads_back(0);
    let tail = crlf() + crlf() + extra;
    lemma_digit_run(digits, tail);
    assert(rest.take(1) =~= digits);
}

/// Joining the bytes of two runs of payloads is joining the runs first.
pub proof fn concat_of_joined(first: Seq<Seq<u8>>, second: Seq<Seq<u8>>)
    ensures
        concat(first + second) == concat(first) + concat(second),
    decreases first.len(),
{
    if first.len() > 0 {
        concat_of_joined(first.drop_first(), second);
        assert((first + second).drop_first() =~= first.drop_first() + second);
    }
}

/// Cutting data into blocks loses nothing and makes no empty or oversized block.
///
/// For every `data`, the blocks joined again are `data`, and each block holds at least
/// one byte and at most `BLOCK_SIZE`.
pub proof fn blocks_rejoin(data: Seq<u8>)
    ensures
        concat(blocks(data)) == data,
        forall|i: int|
            0 <= i < blocks(data).len() ==> 0 < (#[trigger] blocks(data)[i]).len() <= BLOCK_SIZE,
    decreases data.len(),
{
    if 0 < data.len() <= BLOCK_SIZE {
        assert(concat(blocks(data).drop_first()) =~= Seq::<u8>::empty());
    } else if data.len() > BLOCK_SIZE {
        let tail = data.skip(BLOCK_SIZE as int);
        blocks_rejoin(tail);
        assert(blocks(data).drop_first() =~= blocks(tail));
    }
}

/// The body written for `data` decodes to `data`.
///
/// For every `data`, decoding `chunked(data)` succeeds, and the payloads it finds,
/// joined, are `data` byte for byte.
pub proof fn chunked_round_trip(data: Seq<u8>)
    ensures
        decode(chunked(data)) == Some(blocks(data)),
        concat(blocks(data)) == data,
{
    blocks_rejoin(data);
    decode_inverts_frames(blocks(data));
}

fn hex_digit_byte(d: u8) -> (b: u8)
    requires
        d < 16,
    ensures
        b == hex_digit(d as nat),
{
    if d < 10 {
        48 + d
    } else {
        87 + d
    }
}

/// Writes `n` in lower-case hexadecimal.
pub fn encode_hex(n: usize) -> (digits: Vec<u8>)
    ensures
        digits@ == lower_hex(n as nat),
    decreases n,
{
    if n < 16 {
        let mut digits: Vec<u8> = Vec::new();
        digits.push(hex_digit_byte(n as u8));
        digits
    } else {
        let mut digits = encode_hex(n / 16);
        digits.push(hex_digit_byte((n % 16) as u8));
        digits
    }
}

/// Encodes one frame around `payload`.
pub fn encode_chunk(payload: &[u8]) -> (out: Vec<u8>)
    ensures
        out@ == frame(payload@),
{
    let mut out = encode_hex(payload.len());
    out.push(13);
    out.push(10);
    out.extend_from_slice(payload);
    out.push(13);
    out.push(10);
    out
}

/// Encodes `data` as frames of at most `BLOCK_SIZE` bytes each, without the terminator.
pub fn encode_blocks(data: &[u8]) -> (out: Vec<u8>)
    ensures
        out@ == frames(blocks(data@)),
{
    let mut out: Vec<u8> = Vec::new();
    let mut done: usize = 0;
    assert(data@.skip(0) =~= data@);
    while done < data.len()
        invariant
            done <= data.len(),
            frames(blocks(data@)) == out@ + frames(blocks(data@.skip(done as int))),
        decreases data.len() - done,
    {
        let left: usize = data.len() - done;
        let take: usize = if left <= BLOCK_SIZE {
            left
        } else {
            BLOCK_SIZE
        };
        let block = vstd::slice::slice_subrange(data, done, done + take);
        let piece = encode_chunk(block);
        proof {
            let rest = data@.skip(done as int);
            let after = data@.skip(done + take);
            assert(rest.skip(take as int) =~= after);
            if left <= BLOCK_SIZE {
                assert(blocks(rest).drop_first() =~= blocks(after));
            } else {
                assert(blocks(rest).drop_first() =~= blocks(after));
            }
        }
        out.extend_from_slice(piece.as_slice());
        done = done + take;
    }
    out
}

/// Encodes the whole body for `data`: its blocks as frames, then the terminator.
pub fn chunked_body(data: &[u8]) -> (out: Vec<u8>)
    ensures
        out@ == chunked(data@),
{
    let mut out = encode_blocks(data);
    let empty: Vec<u8> = Vec::new();
    let last = encode_chunk(empty.as_slice());
    out.extend_from_slice(last.as_slice());
    out
}

} // verus!
