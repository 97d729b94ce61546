use vstd::prelude::*;
use vstd::utf8::{decode_utf8, encode_scalar, encode_utf8, has_width_1_encoding, valid_utf8};
use bytes::BufMut;
use bytes::BytesMut;

verus! {

/// The byte value of the line delimiter.
pub const NEWLINE: u8 = 10;

/// The bytes currently held by a `bytes::BytesMut` buffer, oldest first.
pub uninterp spec fn bytes_of(b: BytesMut) -> Seq<u8>;

#[verifier::external_type_specification]
#[verifier::external_body]
pub struct ExBytesMut(BytesMut);

/// Relies on `AsRef<[u8]> for bytes::BytesMut`: a slice of exactly the bytes
/// the buffer holds.
#[verifier::external_body]
fn bytes_as_slice(b: &BytesMut) -> (r: &[u8])
    ensures
        r@ == bytes_of(*b),
{
    b.as_ref()
}

/// Relies on `bytes::BytesMut::split_to`: afterwards the buffer keeps the
/// bytes from `at` on, and the returned buffer holds the bytes before `at`.
/// `split_to` panics when `at` exceeds the length, so that is excluded here.
#[verifier::external_body]
fn bytes_split_to(b: &mut BytesMut, at: usize) -> (r: BytesMut)
    requires
        at <= bytes_of(*old(b)).len(),
    ensures
        bytes_of(r) == bytes_of(*old(b)).take(at as int),
        bytes_of(*final(b)) == bytes_of(*old(b)).skip(at as int),
{
    b.split_to(at)
}

/// Relies on `bytes::BytesMut::reserve`: it only grows capacity and leaves the
/// contents alone. It panics when the new capacity overflows `usize`.
#[verifier::external_body]
fn bytes_reserve(b: &mut BytesMut, additional: usize)
    requires
        bytes_of(*old(b)).len() + additional <= usize::MAX,
    ensures
        bytes_of(*final(b)) == bytes_of(*old(b)),
{
    b.reserve(additional)
}

/// Relies on `bytes::BytesMut::extend_from_slice`: appends the slice's bytes
/// after the bytes already held, growing the buffer as needed.
#[verifier::external_body]
fn bytes_extend_from_slice(b: &mut BytesMut, src: &[u8])
    requires
        bytes_of(*old(b)).len() + src@.len() <= usize::MAX,
    ensures
        bytes_of(*final(b)) == bytes_of(*old(b)) + src@,
{
    b.extend_from_slice(src)
}

/// Relies on `bytes::BufMut::put_u8` for `BytesMut`: appends the one byte,
/// growing the buffer as needed.
#[verifier::external_body]
fn bytes_put_u8(b: &mut BytesMut, byte: u8)
    requires
        bytes_of(*old(b)).len() + 1 <= usize::MAX,
    ensures
        bytes_of(*final(b)) == bytes_of(*old(b)).push(byte),
{
    b.put_u8(byte)
}

/// Relies on `core::str::from_utf8`: it succeeds exactly on valid UTF-8 and
/// then returns the decoded characters of those bytes.
#[verifier::external_body]
fn str_from_utf8(v: &[u8]) -> (r: Option<&str>)
    ensures
        (r is Some) == valid_utf8(v@),
        (r matches Some(s) ==> s@ == decode_utf8(v@)),
{
    match core::str::from_utf8(v) {
        Ok(s) => Some(s),
        Err(_) => None,
    }
}

/// Index of the first newline byte in `b`, if there is one.
pub open spec fn first_newline(b: Seq<u8>) -> Option<int>
    decreases b.len(),
{
    if b.len() == 0 {
        None
    } else if b[0] == NEWLINE {
        Some(0)
    } else {
        match first_newline(b.skip(1)) {
            Some(i) => Some(i + 1),
            None => None,
        }
    }
}

/// `first_newline` finds a newline byte with nothing but other bytes before
/// it, and reports none exactly when the sequence holds no newline at all.
pub proof fn lemma_first_newline(b: Seq<u8>)
    ensures
        (match first_newline(b) {
            Some(i) => 0 <= i < b.len() && b[i] == NEWLINE && (forall|j: int|
                0 <= j < i ==> b[j] != NEWLINE),
            None => forall|j: int| 0 <= j < b.len() ==> b[j] != NEWLINE,
        }),
    decreases b.len(),
{
    if b.len() == 0 {
    } else if b[0] == NEWLINE {
    } else {
        let rest = b.skip(1);
        lemma_first_newline(rest);
        assert(forall|j: int| 0 <= j < rest.len() ==> rest[j] == b[j + 1]);
        match first_newline(rest) {
            Some(i) => {
                assert(b[i + 1] == rest[i]);
                assert(forall|j: int| 1 <= j < i + 1 ==> b[j] == rest[j - 1]);
            },
            None => {
                assert(forall|j: int| 1 <= j < b.len() ==> b[j] == rest[j - 1]);
            },
        }
    }
}

/// A newline at `i` with none before it is the first newline.
pub proof fn lemma_first_newline_at(b: Seq<u8>, i: int)
    requires
        0 <= i < b.len(),
        b[i] == NEWLINE,
        forall|j: int| 0 <= j < i ==> b[j] != NEWLINE,
    ensures
        first_newline(b) == Some(i),
    decreases b.len(),
{
    if i == 0 {
    } else {
        assert(forall|j: int| 0 <= j < b.skip(1).len() ==> b.skip(1)[j] == b[j + 1]);
        lemma_first_newline_at(b.skip(1), i - 1);
    }
}

/// Find the index of the first newline byte in a slice.
fn find_newline(s: &[u8]) -> (r: Option<usize>)
    ensures
        (match r {
            Some(i) => first_newline(s@) == Some(i as int),
            None => first_newline(s@) is None,
        }),
{
    let len = s.len();
    let mut k: usize = 0;
    while k < len
        invariant
            len == s@.len(),
            0 <= k <= len,
            forall|j: int| 0 <= j < k ==> s@[j] != NEWLINE,
        decreases len - k,
    {
        if s[k] == NEWLINE {
            proof {
                lemma_first_newline_at(s@, k as int);
            }
            return Some(k);
        }
        k += 1;
    }
    proof {
        lemma_first_newline(s@);
    }
    None
}

/// The complete lines held in `b`: each element is a byte run ending in the
/// first newline at or after its start. Bytes after the last newline are not
/// included; they are the pending rest (see [`pending`]).
pub open spec fn complete_lines(b: Seq<u8>) -> Seq<Seq<u8>>
    decreases b.len(),
{
    match first_newline(b) {
        Some(i) => if 0 <= i < b.len() {
            seq![b.take(i + 1)] + complete_lines(b.skip(i + 1))
        } else {
            seq![]
        },
        None => seq![],
    }
}

/// The bytes left over after every complete line of `b` is taken out: the
/// tail after the last newline, with no newline in it.
pub open spec fn pending(b: Seq<u8>) -> Seq<u8>
    decreases b.len(),
{
    match first_newline(b) {
        Some(i) => if 0 <= i < b.len() {
            pending(b.skip(i + 1))
        } else {
            b
        },
        None => b,
    }
}

/// One decode step takes exactly the first complete line off the buffer:
/// with a newline at `n` the line is the bytes through `n` and the stream of
/// lines continues in the rest; without one there is no complete line and
/// everything stays pending.
pub proof fn lemma_decode_takes_first_line(b: Seq<u8>)
    ensures
        (match first_newline(b) {
            Some(n) => complete_lines(b) == seq![b.take(n + 1)] + complete_lines(b.skip(n + 1))
                && pending(b) == pending(b.skip(n + 1)),
            None => complete_lines(b) == Seq::<Seq<u8>>::empty() && pending(b) == b,
        }),
{
    lemma_first_newline(b);
}

/// Encoding characters to UTF-8 distributes over concatenation.
pub proof fn lemma_encode_utf8_concat(a: Seq<char>, b: Seq<char>)
    ensures
        encode_utf8(a + b) == encode_utf8(a) + encode_utf8(b),
    decreases a.len(),
{
    if a.len() == 0 {
        assert(a + b =~= b);
        assert(encode_utf8(a) + encode_utf8(b) =~= encode_utf8(b));
    } else {
        assert((a + b).drop_first() =~= a.drop_first() + b);
        assert((a + b)[0] == a[0]);
        lemma_encode_utf8_concat(a.drop_first(), b);
        assert(encode_utf8(a + b) =~= encode_utf8(a) + encode_utf8(b));
    }
}

/// The UTF-8 encoding of text without a newline character holds no newline
/// byte: multi-byte encodings use only bytes at or above 0x80, and a one-byte
/// encoding is the character itself.
pub proof fn lemma_encode_utf8_no_newline(chars: Seq<char>)
    requires
        forall|i: int| 0 <= i < chars.len() ==> chars[i] != '\n',
    ensures
        forall|j: int| 0 <= j < encode_utf8(chars).len() ==> encode_utf8(chars)[j] != NEWLINE,
    decreases chars.len(),
{
    if chars.len() == 0 {
    } else {
        let c = chars[0];
        let s = c as u32;
        let head = encode_scalar(s);
        vstd::utf8::char_is_scalar(c);
        assert(s != 10) by {
            if s == 10 {
                vstd::utf8::char_u32_cast(c, s);
                assert(c == '\n');
            }
        }
        assert(forall|j: int| 0 <= j < head.len() ==> head[j] != NEWLINE) by {
            if has_width_1_encoding(s) {
                assert(s <= 0x7f && s != 10 ==> (s & 0x7F) as u8 != 10) by (bit_vector);
            } else {
                assert((0xC0 | ((s >> 6) & 0x1F) as u8) != 10) by (bit_vector);
                assert((0xE0 | ((s >> 12) & 0x0F) as u8) != 10) by (bit_vector);
                assert((0xF0 | ((s >> 18) & 0x7) as u8) != 10) by (bit_vector);
                assert((0x80 | (s & 0x3F) as u8) != 10) by (bit_vector);
                assert((0x80 | ((s >> 6) & 0x3F) as u8) != 10) by (bit_vector);
                assert((0x80 | ((s >> 12) & 0x3F) as u8) != 10) by (bit_vector);
            }
        }
        let rest = chars.drop_first();
        assert(forall|i: int| 0 <= i < rest.len() ==> rest[i] == chars[i + 1]);
        lemma_encode_utf8_no_newline(rest);
        let tail = encode_utf8(rest);
        assert(encode_utf8(chars) == head + tail);
        assert(forall|j: int|
            0 <= j < (head + tail).len() ==> (head + tail)[j] == if j < head.len() {
                head[j]
            } else {
                tail[j - head.len()]
            });
    }
}

/// The framed bytes of one outbound line: the text's UTF-8 encoding followed
/// by exactly one newline byte, as `encode` appends them.
pub open spec fn framed_bytes(text: Seq<char>) -> Seq<u8> {
    encode_utf8(text) + seq![NEWLINE]
}

/// Round trip: for text without an embedded newline, decoding what `encode`
/// produced yields one complete line, the text followed by exactly one
/// newline character, and leaves nothing pending.
pub proof fn lemma_encode_then_decode(text: Seq<char>)
    requires
        forall|i: int| 0 <= i < text.len() ==> text[i] != '\n',
    ensures
        ({
            let b = framed_bytes(text);
            &&& first_newline(b) == Some(encode_utf8(text).len() as int)
            &&& valid_utf8(b)
            &&& decode_utf8(b) == text + seq!['\n']
            &&& b.take(encode_utf8(text).len() as int + 1) == b
            &&& b.skip(encode_utf8(text).len() as int + 1) == Seq::<u8>::empty()
        }),
{
    let e = encode_utf8(text);
    let b = framed_bytes(text);
    let n = e.len() as int;
    lemma_encode_utf8_no_newline(text);
    assert(forall|j: int| 0 <= j < n ==> b[j] == e[j]);
    assert(b[n] == NEWLINE);
    lemma_first_newline_at(b, n);
    assert(encode_scalar('\n' as u32) =~= seq![NEWLINE]) by {
        vstd::utf8::char_is_scalar('\n');
        assert(('\n' as u32) == 10);
        assert((10u32 & 0x7F) as u8 == 10u8) by (bit_vector);
    }
    assert(encode_utf8(seq!['\n']) =~= seq![NEWLINE]) by {
        assert(seq!['\n'].drop_first() =~= Seq::<char>::empty());
        assert(encode_utf8(seq!['\n'].drop_first()) =~= Seq::<u8>::empty());
    }
    lemma_encode_utf8_concat(text, seq!['\n']);
    assert(b =~= encode_utf8(text + seq!['\n']));
    vstd::utf8::encode_utf8_valid_utf8(text + seq!['\n']);
    vstd::utf8::encode_utf8_decode_utf8(text + seq!['\n']);
    assert(b.take(n + 1) =~= b);
    assert(b.skip(n + 1) =~= Seq::<u8>::empty());
}

/// Reassembly: however a byte stream is cut into two deliveries, draining the
/// first delivery's complete lines and carrying its pending rest over to the
/// second yields exactly the lines of the whole stream, with the same bytes
/// pending at the end.
pub proof fn lemma_reassembly(a: Seq<u8>, b: Seq<u8>)
    ensures
        complete_lines(a + b) == complete_lines(a) + complete_lines(pending(a) + b),
        pending(a + b) == pending(pending(a) + b),
    decreases a.len(),
{
    lemma_first_newline(a);
    match first_newline(a) {
        None => {
            assert(pending(a) == a);
            assert(complete_lines(a) =~= Seq::<Seq<u8>>::empty());
            assert(complete_lines(a + b) =~= complete_lines(a) + complete_lines(pending(a) + b));
        },
        Some(i) => {
            let ab = a + b;
            assert(forall|j: int| 0 <= j < a.len() ==> ab[j] == a[j]);
            lemma_first_newline_at(ab, i);
            assert(ab.take(i + 1) =~= a.take(i + 1));
            assert(ab.skip(i + 1) =~= a.skip(i + 1) + b);
            lemma_reassembly(a.skip(i + 1), b);
            assert(complete_lines(ab) =~= seq![a.take(i + 1)] + complete_lines(a.skip(i + 1) + b));
            assert(complete_lines(a) + complete_lines(pending(a) + b) =~= seq![a.take(i + 1)]
                + (complete_lines(a.skip(i + 1)) + complete_lines(pending(a.skip(i + 1)) + b)));
            assert(complete_lines(ab) =~= complete_lines(a) + complete_lines(pending(a) + b));
        },
    }
}

/// What is left pending never holds a newline: the next line is complete
/// only once more bytes arrive.
pub proof fn lemma_pending_has_no_newline(b: Seq<u8>)
    ensures
        first_newline(pending(b)) is None,
    decreases b.len(),
{
    lemma_first_newline(b);
    match first_newline(b) {
        Some(i) => {
            lemma_pending_has_no_newline(b.skip(i + 1));
        },
        None => {},
    }
}

/// The lines drained after each of a series of deliveries, with the
/// undrained rest of the buffer carried over to the next delivery.
pub open spec fn drained_lines(start: Seq<u8>, fragments: Seq<Seq<u8>>) -> Seq<Seq<u8>>
    decreases fragments.len(),
{
    if fragments.len() == 0 {
        seq![]
    } else {
        complete_lines(start + fragments[0]) + drained_lines(
            pending(start + fragments[0]),
            fragments.drop_first(),
        )
    }
}

/// Fragmentation: however a byte stream is cut into deliveries, draining the
/// buffer after each delivery produces exactly the lines of the whole
/// stream, in order.
pub proof fn lemma_fragmentation(start: Seq<u8>, fragments: Seq<Seq<u8>>)
    requires
        first_newline(start) is None,
    ensures
        drained_lines(start, fragments) == complete_lines(start + fragments.flatten()),
    decreases fragments.len(),
{
    if fragments.len() == 0 {
        assert(start + fragments.flatten() =~= start);
        assert(complete_lines(start) =~= Seq::<Seq<u8>>::empty());
    } else {
        let f = fragments[0];
        let rest = fragments.drop_first();
        lemma_pending_has_no_newline(start + f);
        lemma_fragmentation(pending(start + f), rest);
        lemma_reassembly(start + f, rest.flatten());
        assert(fragments.flatten() == fragments.first() + fragments.drop_first().flatten());
        assert(fragments.flatten() == f + rest.flatten());
        assert((start + f) + rest.flatten() =~= start + fragments.flatten());
        assert(drained_lines(start, fragments) =~= complete_lines(start + fragments.flatten()));
    }
}

/// Why a buffered line could not be delivered.
#[derive(PartialEq, Eq, Structural, Clone, Copy, Debug)]
pub enum FrameError {
    /// The bytes up to and including the newline are not valid UTF-8 text.
    /// This is fatal to the read path that drives the framer.
    InvalidText,
}

/// The newline framer: it turns an accumulating byte buffer into discrete
/// text lines on decode, and appends the line terminator on encode.
pub struct LineCodec;

impl LineCodec {
    /// Scan the buffer for the first newline. Without one, report that no
    /// line is complete yet and leave the buffer exactly as it was. With one,
    /// remove the bytes up to and including it from the buffer, and deliver
    /// them as text (terminator included) when they are valid UTF-8;
    /// otherwise fail.
    pub fn decode(&mut self, src: &mut BytesMut) -> (r: Result<Option<String>, FrameError>)
        ensures
            (match first_newline(bytes_of(*old(src))) {
                None => {
                    &&& bytes_of(*final(src)) == bytes_of(*old(src))
                    &&& (r matches Ok(o) && o is None)
                },
                Some(n) => {
                    let line_bytes = bytes_of(*old(src)).take(n + 1);
                    &&& bytes_of(*final(src)) == bytes_of(*old(src)).skip(n + 1)
                    &&& (match r {
                        Ok(o) => o matches Some(line) && valid_utf8(line_bytes) && line@
                            == decode_utf8(line_bytes),
                        Err(e) => !valid_utf8(line_bytes) && e == FrameError::InvalidText,
                    })
                },
            }),
    {
        let src_slice = bytes_as_slice(src);
        let src_len = src_slice.len();
        let n_opt = find_newline(src_slice);
        match n_opt {
            None => Ok(None),
            Some(n) => {
                proof {
                    lemma_first_newline(bytes_of(*src));
                    assert(n < src_len);
                }
                let chunk = bytes_split_to(src, n + 1);
                let chunk_slice = bytes_as_slice(&chunk);
                match str_from_utf8(chunk_slice) {
                    Some(text) => Ok(Some(text.to_owned())),
                    None => Err(FrameError::InvalidText),
                }
            },
        }
    }

    /// Append the text's bytes and then exactly one newline byte to the
    /// output buffer. The terminator comes from the framer, not the caller.
    pub fn encode(&mut self, item: String, dst: &mut BytesMut)
        requires
            bytes_of(*old(dst)).len() + encode_utf8(item@).len() + 1 <= usize::MAX,
        ensures
            bytes_of(*final(dst)) == bytes_of(*old(dst)) + encode_utf8(item@) + seq![NEWLINE],
    {
        let text_bytes = item.as_str().as_bytes();
        bytes_reserve(dst, text_bytes.len() + 1);
        bytes_extend_from_slice(dst, text_bytes);
        bytes_put_u8(dst, NEWLINE);
        proof {
            assert(bytes_of(*dst) =~= bytes_of(*old(dst)) + encode_utf8(item@) + seq![NEWLINE]);
        }
    }
}

} // verus!
