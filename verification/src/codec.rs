//! The message codec: a bit-packed binary frame for the three message kinds.
//!
//! Wire layout (all multi-byte integers big-endian):
//! byte 0 is a header of bit flags, byte 1 the priority, byte 2 the byte
//! length of the topic, then the UTF-8 bytes of the topic, then a
//! variant-dependent tail: an 8-byte ttl followed by the content for a
//! cacheable `RegularMsg` with a ttl, the bare content otherwise, and an
//! 8-byte counter for a `ServiceMsg`.

use vstd::prelude::*;
use vstd::slice::{slice_index_get, slice_subrange, slice_to_vec};
use vstd::utf8::{decode_utf8, encode_utf8, encode_utf8_decode_utf8, encode_utf8_valid_utf8,
    valid_utf8};

verus! {

/// Error returned by [`Package::encode`].
#[derive(Debug, Clone, PartialEq, Eq)]
pub enum EncodeError {
    /// The topic's UTF-8 encoding is longer than 255 bytes.
    TooLongTopic,
    /// A `RegularMsg` carries a ttl although its `cash` flag is clear.
    TtlNotAvailable,
}

/// Error returned by [`Package::decode`].
#[derive(Debug, Clone, PartialEq, Eq)]
pub enum DecodeError {
    /// The buffer is shorter than the three-byte fixed prefix, or too short
    /// to hold the topic region and trailing fields it declares.
    TooShortPackage,
    /// The declared topic region is not valid UTF-8.
    TopicParsingError,
}

impl EncodeError {
    /// The diagnostic text for this error.
    pub fn message(&self) -> (r: &'static str)
        ensures
            self is TooLongTopic ==> r@ == "Topic is too long; Max topic length is 255 bytes"@,
            self is TtlNotAvailable ==> r@ == "Ttl option available only if cash flag enable"@,
    {
        match self {
            EncodeError::TooLongTopic => "Topic is too long; Max topic length is 255 bytes",
            EncodeError::TtlNotAvailable => "Ttl option available only if cash flag enable",
        }
    }
}

impl DecodeError {
    /// The diagnostic text for this error.
    pub fn message(&self) -> (r: &'static str)
        ensures
            self is TooShortPackage ==> r@ == "Row package is too short to decode"@,
            self is TopicParsingError ==> r@ == "Topic region is not valid UTF-8"@,
    {
        match self {
            DecodeError::TooShortPackage => "Row package is too short to decode",
            DecodeError::TopicParsingError => "Topic region is not valid UTF-8",
        }
    }
}

/// A protocol message: the value the codec serializes and recovers.
#[derive(Debug, Clone, PartialEq, Eq)]
pub enum Package {
    /// Registers or cancels a subscription.
    Subscribe { topic: String, priority: u8, is_subscribe: bool, silent_mod: bool },
    /// An application payload; a ttl is representable only when `cash` is set.
    RegularMsg { topic: String, priority: u8, content: Vec<u8>, cash: bool, ttl: Option<u64> },
    /// A control message carrying a counter.
    ServiceMsg { topic: String, priority: u8, count: u64 },
}

/// The mathematical value of a [`Package`]: the topic as a character
/// sequence and the content as a byte sequence.
#[verifier::ext_equal]
pub enum PackageView {
    Subscribe { topic: Seq<char>, priority: u8, is_subscribe: bool, silent_mod: bool },
    RegularMsg { topic: Seq<char>, priority: u8, content: Seq<u8>, cash: bool, ttl: Option<u64> },
    ServiceMsg { topic: Seq<char>, priority: u8, count: u64 },
}

impl View for Package {
    type V = PackageView;

    open spec fn view(&self) -> PackageView {
        match self {
            Package::Subscribe { topic, priority, is_subscribe, silent_mod } => {
                PackageView::Subscribe {
                    topic: topic@,
                    priority: *priority,
                    is_subscribe: *is_subscribe,
                    silent_mod: *silent_mod,
                }
            },
            Package::RegularMsg { topic, priority, content, cash, ttl } => {
                PackageView::RegularMsg {
                    topic: topic@,
                    priority: *priority,
                    content: content@,
                    cash: *cash,
                    ttl: *ttl,
                }
            },
            Package::ServiceMsg { topic, priority, count } => {
                PackageView::ServiceMsg { topic: topic@, priority: *priority, count: *count }
            },
        }
    }
}

impl PackageView {
    /// The topic carried by any of the three variants.
    pub open spec fn topic(self) -> Seq<char> {
        match self {
            PackageView::Subscribe { topic, .. } => topic,
            PackageView::RegularMsg { topic, .. } => topic,
            PackageView::ServiceMsg { topic, .. } => topic,
        }
    }

    /// The priority carried by any of the three variants.
    pub open spec fn priority(self) -> u8 {
        match self {
            PackageView::Subscribe { priority, .. } => priority,
            PackageView::RegularMsg { priority, .. } => priority,
            PackageView::ServiceMsg { priority, .. } => priority,
        }
    }

    /// The byte length of the topic on the wire.
    pub open spec fn topic_wire_len(self) -> nat {
        encode_utf8(self.topic()).len()
    }
}

/// The error `encode` returns for this message, if any: `TooLongTopic` when
/// the topic's UTF-8 encoding exceeds 255 bytes, else `TtlNotAvailable` when
/// a `RegularMsg` carries a ttl without the `cash` flag.
pub open spec fn encode_error_of(p: PackageView) -> Option<EncodeError> {
    if p.topic_wire_len() > 255 {
        Some(EncodeError::TooLongTopic)
    } else if p matches PackageView::RegularMsg { cash, ttl, .. } && ttl is Some && !cash {
        Some(EncodeError::TtlNotAvailable)
    } else {
        None
    }
}

/// True when the message satisfies the encode invariants: topic at most 255
/// bytes, and a ttl only together with the `cash` flag.
pub open spec fn encodable(p: PackageView) -> bool {
    encode_error_of(p) is None
}

/// The header byte: bit 7 set for a `RegularMsg` or `ServiceMsg`, bit 6 for
/// a `RegularMsg`; bit 3 is the `cash` flag and bit 2 the presence of a ttl;
/// for a `Subscribe`, bit 5 is `is_subscribe` and bit 4 `silent_mod`.
pub open spec fn header_byte(p: PackageView) -> u8 {
    match p {
        PackageView::Subscribe { is_subscribe, silent_mod, .. } => (if is_subscribe {
            0x20u8
        } else {
            0u8
        }) | (if silent_mod {
            0x10u8
        } else {
            0u8
        }),
        PackageView::RegularMsg { cash, ttl, .. } => 0xc0u8 | (if cash {
            0x08u8
        } else {
            0u8
        }) | (if cash && ttl is Some {
            0x04u8
        } else {
            0u8
        }),
        PackageView::ServiceMsg { .. } => 0x80u8,
    }
}

/// The big-endian bytes of a 64-bit integer.
pub open spec fn u64_be_bytes(v: u64) -> Seq<u8> {
    seq![
        (v >> 56) as u8,
        (v >> 48) as u8,
        (v >> 40) as u8,
        (v >> 32) as u8,
        (v >> 24) as u8,
        (v >> 16) as u8,
        (v >> 8) as u8,
        v as u8,
    ]
}

/// The 64-bit integer read big-endian from eight bytes.
pub open spec fn u64_from_be_bytes(s: Seq<u8>) -> u64
    recommends
        s.len() == 8,
{
    ((s[0] as u64) << 56) | ((s[1] as u64) << 48) | ((s[2] as u64) << 40) | ((s[3] as u64) << 32)
        | ((s[4] as u64) << 24) | ((s[5] as u64) << 16) | ((s[6] as u64) << 8) | (s[7] as u64)
}

/// Reading the big-endian bytes of an integer back yields the integer.
pub proof fn lemma_u64_be_round_trip(v: u64)
    ensures
        u64_from_be_bytes(u64_be_bytes(v)) == v,
{
    let s = u64_be_bytes(v);
    assert((((v >> 56) as u8 as u64) << 56) | (((v >> 48) as u8 as u64) << 48) | (((v
        >> 40) as u8 as u64) << 40) | (((v >> 32) as u8 as u64) << 32) | (((v
        >> 24) as u8 as u64) << 24) | (((v >> 16) as u8 as u64) << 16) | (((v
        >> 8) as u8 as u64) << 8) | (v as u8 as u64) == v) by (bit_vector);
}

/// The variant-dependent bytes after the topic.
pub open spec fn tail_bytes(p: PackageView) -> Seq<u8> {
    match p {
        PackageView::Subscribe { .. } => Seq::<u8>::empty(),
        PackageView::RegularMsg { content, ttl, .. } => match ttl {
            Some(t) => u64_be_bytes(t) + content,
            None => content,
        },
        PackageView::ServiceMsg { count, .. } => u64_be_bytes(count),
    }
}

/// The frame `encode` produces for a message that satisfies the encode
/// invariants.
pub open spec fn encoding_of(p: PackageView) -> Seq<u8>
    recommends
        encodable(p),
{
    seq![header_byte(p), p.priority(), p.topic_wire_len() as u8] + encode_utf8(p.topic())
        + tail_bytes(p)
}

/// What `decode` yields on any byte buffer. The checks run in the order the
/// decoder performs them: the three-byte floor, then room for the declared
/// topic, then UTF-8 validity of the topic region, then room for the 8-byte
/// trailing field where the header announces one. A buffer long enough for
/// the fixed prefix but too short for the regions it declares is reported as
/// `TooShortPackage` rather than read out of range.
pub open spec fn decode_result_of(b: Seq<u8>) -> Result<PackageView, DecodeError> {
    if b.len() < 3 {
        Err(DecodeError::TooShortPackage)
    } else {
        let header = b[0];
        let priority = b[1];
        let tl = b[2] as int;
        if b.len() < 3 + tl {
            Err(DecodeError::TooShortPackage)
        } else {
            let topic_region = b.subrange(3, 3 + tl);
            if !valid_utf8(topic_region) {
                Err(DecodeError::TopicParsingError)
            } else {
                let topic = decode_utf8(topic_region);
                if header & 0x80 != 0 {
                    if header & 0x40 != 0 {
                        let cash = header & 0x08 != 0;
                        if cash && header & 0x04 != 0 {
                            if b.len() < 11 + tl {
                                Err(DecodeError::TooShortPackage)
                            } else {
                                Ok(
                                    PackageView::RegularMsg {
                                        topic,
                                        priority,
                                        content: b.subrange(11 + tl, b.len() as int),
                                        cash,
                                        ttl: Some(u64_from_be_bytes(b.subrange(3 + tl, 11 + tl))),
                                    },
                                )
                            }
                        } else {
                            Ok(
                                PackageView::RegularMsg {
                                    topic,
                                    priority,
                                    content: b.subrange(3 + tl, b.len() as int),
                                    cash,
                                    ttl: None,
                                },
                            )
                        }
                    } else {
                        if b.len() < 11 + tl {
                            Err(DecodeError::TooShortPackage)
                        } else {
                            Ok(
                                PackageView::ServiceMsg {
                                    topic,
                                    priority,
                                    count: u64_from_be_bytes(b.subrange(3 + tl, 11 + tl)),
                                },
                            )
                        }
                    }
                } else {
                    Ok(
                        PackageView::Subscribe {
                            topic,
                            priority,
                            is_subscribe: header & 0x20 != 0,
                            silent_mod: header & 0x10 != 0,
                        },
                    )
                }
            }
        }
    }
}

proof fn lemma_subscribe_bits(x: u8, y: u8)
    by (bit_vector)
    requires
        x == 0 || x == 0x20,
        y == 0 || y == 0x10,
    ensures
        (x | y) & 0x80 == 0,
        ((x | y) & 0x20 != 0) == (x == 0x20),
        ((x | y) & 0x10 != 0) == (y == 0x10),
{
}

proof fn lemma_regular_bits(x: u8, y: u8)
    by (bit_vector)
    requires
        x == 0 || x == 0x08,
        y == 0 || y == 0x04,
    ensures
        (0xc0u8 | x | y) & 0x80 != 0,
        (0xc0u8 | x | y) & 0x40 != 0,
        ((0xc0u8 | x | y) & 0x08 != 0) == (x == 0x08),
        ((0xc0u8 | x | y) & 0x04 != 0) == (y == 0x04),
{
}

proof fn lemma_service_bits()
    by (bit_vector)
    ensures
        0x80u8 & 0x80 != 0,
        0x80u8 & 0x40 == 0,
{
}

/// Round trip: decoding the frame of any message that satisfies the encode
/// invariants yields the message back.
pub proof fn lemma_encode_decode(p: PackageView)
    requires
        encodable(p),
    ensures
        decode_result_of(encoding_of(p)) == Ok::<PackageView, DecodeError>(p),
{
    let b = encoding_of(p);
    let h = header_byte(p);
    let tb = encode_utf8(p.topic());
    let tl = tb.len() as int;
    let prefix = seq![h, p.priority(), p.topic_wire_len() as u8];
    encode_utf8_valid_utf8(p.topic());
    encode_utf8_decode_utf8(p.topic());
    assert(tl <= 255);
    assert(b.len() == 3 + tl + tail_bytes(p).len());
    assert(b[0] == h && b[1] == p.priority() && b[2] == tl as u8);
    assert(b[2] as int == tl);
    assert(b.subrange(3, 3 + tl) =~= tb);
    match p {
        PackageView::Subscribe { topic, priority, is_subscribe, silent_mod } => {
            let x: u8 = if is_subscribe {
                0x20
            } else {
                0
            };
            let y: u8 = if silent_mod {
                0x10
            } else {
                0
            };
            lemma_subscribe_bits(x, y);
            assert(decode_result_of(b) is Ok);
            assert(decode_result_of(b)->Ok_0 =~= p);
        },
        PackageView::RegularMsg { topic, priority, content, cash, ttl } => {
            let x: u8 = if cash {
                0x08
            } else {
                0
            };
            let y: u8 = if cash && ttl is Some {
                0x04
            } else {
                0
            };
            lemma_regular_bits(x, y);
            match ttl {
                Some(t) => {
                    assert(cash);
                    assert(b.len() == 11 + tl + content.len());
                    assert(b.subrange(3 + tl, 11 + tl) =~= u64_be_bytes(t));
                    lemma_u64_be_round_trip(t);
                    assert(b.subrange(11 + tl, b.len() as int) =~= content);
                    assert(decode_result_of(b) is Ok);
                    assert(decode_result_of(b)->Ok_0 =~= p);
                },
                None => {
                    assert(b.subrange(3 + tl, b.len() as int) =~= content);
                    assert(decode_result_of(b) is Ok);
                    assert(decode_result_of(b)->Ok_0 =~= p);
                },
            }
        },
        PackageView::ServiceMsg { topic, priority, count } => {
            lemma_service_bits();
            assert(b.len() == 11 + tl);
            assert(b.subrange(3 + tl, 11 + tl) =~= u64_be_bytes(count));
            lemma_u64_be_round_trip(count);
            assert(decode_result_of(b) is Ok);
            assert(decode_result_of(b)->Ok_0 =~= p);
        },
    }
}

/// Relies on `String::from_utf8`: it succeeds exactly when the bytes are
/// valid UTF-8, and then returns the string those bytes encode.
#[verifier::external_body]
fn bytes_to_string(bytes: Vec<u8>) -> (r: Option<String>)
    ensures
        r is Some <==> valid_utf8(bytes@),
        r matches Some(s) ==> s@ == decode_utf8(bytes@),
{
    String::from_utf8(bytes).ok()
}

/// Appends every byte of the slice, in order.
fn push_bytes(out: &mut Vec<u8>, b: &[u8])
    ensures
        final(out)@ == old(out)@ + b@,
{
    let n: usize = b.len();
    let mut i: usize = 0;
    while i < n
        invariant
            n == b@.len(),
            i <= n,
            out@ == old(out)@ + b@.subrange(0, i as int),
        decreases n - i,
    {
        let x: u8 = *slice_index_get(b, i);
        out.push(x);
        proof {
            assert(old(out)@ + b@.subrange(0, i as int) + seq![b@[i as int]] =~= old(out)@
                + b@.subrange(0, i + 1));
        }
        i = i + 1;
    }
    proof {
        assert(b@.subrange(0, n as int) =~= b@);
    }
}

/// Appends the eight big-endian bytes of the integer.
fn push_u64_be(out: &mut Vec<u8>, v: u64)
    ensures
        final(out)@ == old(out)@ + u64_be_bytes(v),
{
    out.push((v >> 56) as u8);
    out.push((v >> 48) as u8);
    out.push((v >> 40) as u8);
    out.push((v >> 32) as u8);
    out.push((v >> 24) as u8);
    out.push((v >> 16) as u8);
    out.push((v >> 8) as u8);
    out.push(v as u8);
    proof {
        assert(out@ =~= old(out)@ + u64_be_bytes(v));
    }
}

/// Reads a big-endian 64-bit integer from eight bytes at `off`.
fn read_u64_be(b: &[u8], off: usize) -> (v: u64)
    requires
        off + 8 <= b@.len(),
    ensures
        v == u64_from_be_bytes(b@.subrange(off as int, off as int + 8)),
{
    let n: usize = b.len();
    proof {
        assert(off + 8 <= n);
    }
    let b0: u8 = *slice_index_get(b, off);
    let b1: u8 = *slice_index_get(b, off + 1);
    let b2: u8 = *slice_index_get(b, off + 2);
    let b3: u8 = *slice_index_get(b, off + 3);
    let b4: u8 = *slice_index_get(b, off + 4);
    let b5: u8 = *slice_index_get(b, off + 5);
    let b6: u8 = *slice_index_get(b, off + 6);
    let b7: u8 = *slice_index_get(b, off + 7);
    ((b0 as u64) << 56) | ((b1 as u64) << 48) | ((b2 as u64) << 40) | ((b3 as u64) << 32) | ((
    b4 as u64) << 24) | ((b5 as u64) << 16) | ((b6 as u64) << 8) | (b7 as u64)
}

impl Package {
    /// Serializes the message into its wire frame. Fails with `TooLongTopic`
    /// when the topic's UTF-8 encoding exceeds 255 bytes, and with
    /// `TtlNotAvailable` when a `RegularMsg` carries a ttl although `cash`
    /// is clear; on every other input it returns the frame, and decoding
    /// that frame yields the message back.
    pub fn encode(self) -> (r: Result<Vec<u8>, EncodeError>)
        ensures
            encode_error_of(self@) matches Some(e) ==> r == Err::<Vec<u8>, EncodeError>(e),
            encodable(self@) ==> (r matches Ok(bytes) && bytes@ == encoding_of(self@)
                && decode_result_of(bytes@) == Ok::<PackageView, DecodeError>(self@)),
    {
        let ghost m = self@;
        match self {
            Package::Subscribe { topic, priority, is_subscribe, silent_mod } => {
                let tb: &[u8] = topic.as_str().as_bytes();
                if tb.len() > 255 {
                    return Err(EncodeError::TooLongTopic);
                }
                let header: u8 = (if is_subscribe {
                    0x20
                } else {
                    0
                }) | (if silent_mod {
                    0x10
                } else {
                    0
                });
                let mut result: Vec<u8> = Vec::new();
                result.push(header);
                result.push(priority);
                result.push(tb.len() as u8);
                push_bytes(&mut result, tb);
                proof {
                    assert(result@ =~= encoding_of(m));
                    lemma_encode_decode(m);
                }
                Ok(result)
            },
            Package::RegularMsg { topic, priority, content, cash, ttl } => {
                let tb: &[u8] = topic.as_str().as_bytes();
                if tb.len() > 255 {
                    return Err(EncodeError::TooLongTopic);
                }
                if !cash && ttl.is_some() {
                    return Err(EncodeError::TtlNotAvailable);
                }
                let header: u8 = 0xc0 | (if cash {
                    0x08
                } else {
                    0
                }) | (if cash && ttl.is_some() {
                    0x04
                } else {
                    0
                });
                let mut result: Vec<u8> = Vec::new();
                result.push(header);
                result.push(priority);
                result.push(tb.len() as u8);
                push_bytes(&mut result, tb);
                if let Some(t) = ttl {
                    push_u64_be(&mut result, t);
                }
                let mut content = content;
                result.append(&mut content);
                proof {
                    assert(result@ =~= encoding_of(m));
                    lemma_encode_decode(m);
                }
                Ok(result)
            },
            Package::ServiceMsg { topic, priority, count } => {
                let tb: &[u8] = topic.as_str().as_bytes();
                if tb.len() > 255 {
                    return Err(EncodeError::TooLongTopic);
                }
                let header: u8 = 0x80;
                let mut result: Vec<u8> = Vec::new();
                result.push(header);
                result.push(priority);
                result.push(tb.len() as u8);
                push_bytes(&mut result, tb);
                push_u64_be(&mut result, count);
                proof {
                    assert(result@ =~= encoding_of(m));
                    lemma_encode_decode(m);
                }
                Ok(result)
            },
        }
    }

    /// Parses a wire frame back into a message: exactly the value that
    /// [`decode_result_of`] gives on the buffer. A buffer shorter than the
    /// three-byte prefix, or too short for the topic region or trailing
    /// field it declares, fails with `TooShortPackage`; a topic region that
    /// is not valid UTF-8 fails with `TopicParsingError`.
    pub fn decode(bytes: Vec<u8>) -> (r: Result<Self, DecodeError>)
        ensures
            match r {
                Ok(p) => decode_result_of(bytes@) == Ok::<PackageView, DecodeError>(p@),
                Err(e) => decode_result_of(bytes@) == Err::<PackageView, DecodeError>(e),
            },
    {
        if bytes.len() < 3 {
            return Err(DecodeError::TooShortPackage);
        }
        let header: u8 = bytes[0];
        let priority: u8 = bytes[1];
        let tl: usize = bytes[2] as usize;
        if bytes.len() < 3 + tl {
            return Err(DecodeError::TooShortPackage);
        }
        let topic_region: Vec<u8> = slice_to_vec(slice_subrange(bytes.as_slice(), 3, 3 + tl));
        let topic: String = match bytes_to_string(topic_region) {
            Some(t) => t,
            None => {
                return Err(DecodeError::TopicParsingError);
            },
        };
        if header & 0x80 != 0 {
            if header & 0x40 != 0 {
                let cash: bool = header & 0x08 != 0;
                if cash && header & 0x04 != 0 {
                    if bytes.len() < 11 + tl {
                        return Err(DecodeError::TooShortPackage);
                    }
                    let ttl: u64 = read_u64_be(bytes.as_slice(), 3 + tl);
                    let content: Vec<u8> = slice_to_vec(
                        slice_subrange(bytes.as_slice(), 11 + tl, bytes.len()),
                    );
                    let p = Package::RegularMsg { topic, priority, content, cash, ttl: Some(ttl) };
                    proof {
                        assert(decode_result_of(bytes@)->Ok_0 =~= p@);
                    }
                    Ok(p)
                } else {
                    let content: Vec<u8> = slice_to_vec(
                        slice_subrange(bytes.as_slice(), 3 + tl, bytes.len()),
                    );
                    let p = Package::RegularMsg { topic, priority, content, cash, ttl: None };
                    proof {
                        assert(decode_result_of(bytes@)->Ok_0 =~= p@);
                    }
                    Ok(p)
                }
            } else {
                if bytes.len() < 11 + tl {
                    return Err(DecodeError::TooShortPackage);
                }
                let count: u64 = read_u64_be(bytes.as_slice(), 3 + tl);
                let p = Package::ServiceMsg { topic, priority, count };
                proof {
                    assert(decode_result_of(bytes@)->Ok_0 =~= p@);
                }
                Ok(p)
            }
        } else {
            let is_subscribe: bool = header & 0x20 != 0;
            let silent_mod: bool = header & 0x10 != 0;
            let p = Package::Subscribe { topic, priority, is_subscribe, silent_mod };
            proof {
                assert(decode_result_of(bytes@)->Ok_0 =~= p@);
            }
            Ok(p)
        }
    }
}

} // verus!
