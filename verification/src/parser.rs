//! Syntactic parsing of a descriptor byte stream
use vstd::prelude::*;

use crate::item::{item_type_of, tag_of, ItemType, LongItem, RawItem, RawItemView, ShortItem};

verus! {

#[derive(Debug, PartialEq, Eq, Structural)]
pub enum ParseError {
    /// A short item at `offset` requires `required` payload bytes, only `remaining` remain.
    TruncatedShort { offset: usize, required: usize, remaining: usize },
    /// The long item header at `offset` is truncated.
    TruncatedLongHeader { offset: usize },
    /// A long item at `offset` declares `declared` bytes, only `remaining` remain.
    TruncatedLong { offset: usize, declared: usize, remaining: usize },
}

/// The prefix byte that introduces a long item.
pub open spec fn is_long_prefix(prefix: u8) -> bool {
    prefix == 0xFE
}

/// The payload length of a short item: size code 0, 1, 2 or 3 stands for
/// 0, 1, 2 or 4 bytes.
pub open spec fn short_payload_len(prefix: u8) -> nat {
    if prefix % 4 == 3 {
        4
    } else {
        (prefix % 4) as nat
    }
}

/// The item that starts at position `at` of `bytes`, and the position at which
/// the next item starts; `None` at the end of the bytes. A malformed item
/// consumes the rest of the bytes.
pub open spec fn next_item(bytes: Seq<u8>, at: int) -> Option<(Result<RawItemView, ParseError>, int)> {
    if at < 0 || at >= bytes.len() {
        None
    } else {
        let prefix = bytes[at];
        let body = at + 1;
        let rest = bytes.len() - body;
        if is_long_prefix(prefix) {
            if rest < 2 {
                Some((Err(ParseError::TruncatedLongHeader { offset: at as usize }), bytes.len() as int))
            } else {
                let size = bytes[body] as int;
                let tag = bytes[body + 1];
                let start = body + 2;
                let avail = bytes.len() - start;
                if avail < size {
                    Some(
                        (
                            Err(
                                ParseError::TruncatedLong {
                                    offset: at as usize,
                                    declared: size as usize,
                                    remaining: avail as usize,
                                },
                            ),
                            bytes.len() as int,
                        ),
                    )
                } else {
                    Some(
                        (
                            Ok(RawItemView::Long { tag, data: bytes.subrange(start, start + size) }),
                            start + size,
                        ),
                    )
                }
            }
        } else {
            let size = short_payload_len(prefix) as int;
            if rest < size {
                Some(
                    (
                        Err(
                            ParseError::TruncatedShort {
                                offset: at as usize,
                                required: size as usize,
                                remaining: rest as usize,
                            },
                        ),
                        bytes.len() as int,
                    ),
                )
            } else {
                Some(
                    (
                        Ok(
                            RawItemView::Short {
                                prefix,
                                item_type: item_type_of(prefix),
                                tag: tag_of(prefix),
                                data: bytes.subrange(body, body + size),
                            },
                        ),
                        body + size,
                    ),
                )
            }
        }
    }
}

/// The bytes that encode a raw item: a short item is its prefix followed by its
/// payload; a long item is 0xFE, the payload length, the tag and the payload.
pub open spec fn encoding(v: RawItemView) -> Seq<u8> {
    match v {
        RawItemView::Short { prefix, data, .. } => seq![prefix] + data,
        RawItemView::Long { tag, data } => seq![0xFEu8, data.len() as u8, tag] + data,
    }
}

/// Whether a raw item is one that some byte stream encodes: a short item's type,
/// tag and payload length agree with its prefix, and a long item's payload
/// length fits in its length byte.
pub open spec fn encodable(v: RawItemView) -> bool {
    match v {
        RawItemView::Short { prefix, item_type, tag, data } => {
            &&& !is_long_prefix(prefix)
            &&& item_type == item_type_of(prefix)
            &&& tag == tag_of(prefix)
            &&& data.len() == short_payload_len(prefix)
        },
        RawItemView::Long { data, .. } => data.len() <= 255,
    }
}

/// How an item's bytes are read. Bits 0-1 of a short item's prefix give its
/// payload length (0, 1, 2, or 4 for code 3), bits 2-3 its type (main, global,
/// local, reserved) and bits 4-7 its tag; the payload follows the prefix. A long
/// item is 0xFE, a length byte, a tag byte and that many payload bytes.
pub proof fn lemma_item_layout(bytes: Seq<u8>, at: int)
    requires
        0 <= at < bytes.len(),
    ensures
        ({
            let p = bytes[at];
            match next_item(bytes, at) {
                Some((Ok(RawItemView::Short { prefix, item_type, tag, data }), n)) => {
                    &&& p != 0xFE
                    &&& prefix == p
                    &&& tag == p / 16
                    &&& item_type == (if (p / 4) % 4 == 0 {
                        ItemType::Main
                    } else if (p / 4) % 4 == 1 {
                        ItemType::Global
                    } else if (p / 4) % 4 == 2 {
                        ItemType::Local
                    } else {
                        ItemType::Reserved
                    })
                    &&& data.len() == (if p % 4 == 3 { 4 } else { p % 4 })
                    &&& n == at + 1 + data.len()
                    &&& forall|i: int| 0 <= i < data.len() ==> data[i] == bytes[at + 1 + i]
                },
                Some((Ok(RawItemView::Long { tag, data }), n)) => {
                    &&& p == 0xFE
                    &&& tag == bytes[at + 2]
                    &&& data.len() == bytes[at + 1]
                    &&& n == at + 3 + data.len()
                    &&& forall|i: int| 0 <= i < data.len() ==> data[i] == bytes[at + 3 + i]
                },
                Some((Err(e), n)) => {
                    &&& n == bytes.len()
                    &&& if p == 0xFE {
                        if bytes.len() - at < 3 {
                            e == ParseError::TruncatedLongHeader { offset: at as usize }
                        } else {
                            &&& bytes.len() - at - 3 < bytes[at + 1]
                            &&& e == ParseError::TruncatedLong {
                                offset: at as usize,
                                declared: bytes[at + 1] as usize,
                                remaining: (bytes.len() - at - 3) as usize,
                            }
                        }
                    } else {
                        let need: int = if p % 4 == 3 { 4 } else { (p % 4) as int };
                        &&& bytes.len() - at - 1 < need
                        &&& e == ParseError::TruncatedShort {
                            offset: at as usize,
                            required: need as usize,
                            remaining: (bytes.len() - at - 1) as usize,
                        }
                    }
                },
                None => false,
            }
        }),
{
}

/// Every item the parser reads consumes at least one byte and stays within the
/// bytes; it reads nothing exactly at their end. So iteration ends.
pub proof fn lemma_next_item_advances(bytes: Seq<u8>, at: int)
    requires
        0 <= at <= bytes.len(),
    ensures
        next_item(bytes, at) is None <==> at == bytes.len(),
        next_item(bytes, at) matches Some((_, n)) ==> at < n <= bytes.len(),
{
}

/// A malformed item consumes the rest of the bytes, so a descriptor yields at
/// most one error and nothing after it.
pub proof fn lemma_error_ends_descriptor(bytes: Seq<u8>, at: int)
    ensures
        next_item(bytes, at) matches Some((Err(_), n)) ==> n == bytes.len() && next_item(bytes, n) is None,
{
}

/// An item that is read is exactly the bytes it spans: the parser keeps in step
/// with the byte stream, short or long.
pub proof fn lemma_item_is_its_encoding(bytes: Seq<u8>, at: int)
    ensures
        next_item(bytes, at) matches Some((Ok(v), n)) ==> encodable(v) && bytes.subrange(at, n)
            == encoding(v),
{
    if let Some((Ok(v), n)) = next_item(bytes, at) {
        assert(bytes.subrange(at, n) =~= encoding(v));
    }
}

/// Reading the encoding of an item, whatever follows it, gives the item back
/// and stops right after its encoding.
pub proof fn lemma_encoding_reads_back(v: RawItemView, rest: Seq<u8>)
    requires
        encodable(v),
    ensures
        next_item(encoding(v) + rest, 0) == Some((Ok::<RawItemView, ParseError>(v), encoding(v).len() as int)),
{
    let bytes = encoding(v) + rest;
    match v {
        RawItemView::Short { prefix, item_type, tag, data } => {
            assert(bytes.subrange(1, 1 + data.len() as int) =~= data);
        },
        RawItemView::Long { tag, data } => {
            assert(bytes.subrange(3, 3 + data.len() as int) =~= data);
        },
    }
}

/// The outcomes that repeated reads give from position `at` on, in order, up to
/// the read that finds the end of the bytes: each read is `next_item` at the
/// position the previous one stopped at.
pub open spec fn outcomes_from(bytes: Seq<u8>, at: int) -> Seq<Result<RawItemView, ParseError>>
    decreases bytes.len() - at,
{
    match next_item(bytes, at) {
        None => Seq::empty(),
        Some((outcome, n)) => if at < n <= bytes.len() {
            seq![outcome] + outcomes_from(bytes, n)
        } else {
            seq![outcome]
        },
    }
}

/// The bytes that encode a run of outcomes: each item's encoding in order (an
/// error encodes nothing).
pub open spec fn encoding_of_all(outcomes: Seq<Result<RawItemView, ParseError>>) -> Seq<u8>
    decreases outcomes.len(),
{
    if outcomes.len() == 0 {
        Seq::empty()
    } else {
        (match outcomes[0] {
            Ok(v) => encoding(v),
            Err(_) => Seq::empty(),
        }) + encoding_of_all(outcomes.drop_first())
    }
}

/// A run of reads is one read followed by the run from where it stopped; at
/// the end of the bytes the run is empty.
pub proof fn lemma_outcomes_step(bytes: Seq<u8>, at: int)
    requires
        0 <= at <= bytes.len(),
    ensures
        next_item(bytes, at) is None ==> outcomes_from(bytes, at) == Seq::<
            Result<RawItemView, ParseError>,
        >::empty(),
        next_item(bytes, at) matches Some((outcome, n)) ==> outcomes_from(bytes, at) == seq![outcome]
            + outcomes_from(bytes, n),
{
    lemma_next_item_advances(bytes, at);
}

/// A run of reads over a descriptor gives at most one outcome per byte, and an
/// error can only be its last outcome.
pub proof fn lemma_outcomes_bounded_and_error_last(bytes: Seq<u8>, at: int)
    requires
        0 <= at <= bytes.len(),
    ensures
        outcomes_from(bytes, at).len() <= bytes.len() - at,
        forall|i: int|
            0 <= i < outcomes_from(bytes, at).len() - 1 ==> (#[trigger] outcomes_from(bytes, at)[i]) is Ok,
    decreases bytes.len() - at,
{
    lemma_next_item_advances(bytes, at);
    lemma_error_ends_descriptor(bytes, at);
    if let Some((outcome, n)) = next_item(bytes, at) {
        lemma_outcomes_bounded_and_error_last(bytes, n);
        let rest = outcomes_from(bytes, n);
        let all = outcomes_from(bytes, at);
        assert(all == seq![outcome] + rest);
        if outcome is Err {
            assert(rest.len() == 0);
        }
        assert forall|i: int| 0 <= i < all.len() - 1 implies (#[trigger] all[i]) is Ok by {
            if i > 0 {
                assert(all[i] == rest[i - 1]);
            }
        }
    }
}

/// When a run of reads meets no error, its items, encoded one after another,
/// give back exactly the bytes: no byte is skipped, repeated or reordered.
pub proof fn lemma_outcomes_encode_the_bytes(bytes: Seq<u8>, at: int)
    requires
        0 <= at <= bytes.len(),
        forall|i: int| 0 <= i < outcomes_from(bytes, at).len() ==> (#[trigger] outcomes_from(bytes, at)[i]) is Ok,
    ensures
        encoding_of_all(outcomes_from(bytes, at)) == bytes.subrange(at, bytes.len() as int),
    decreases bytes.len() - at,
{
    lemma_next_item_advances(bytes, at);
    lemma_item_is_its_encoding(bytes, at);
    let all = outcomes_from(bytes, at);
    match next_item(bytes, at) {
        None => {
            assert(bytes.subrange(at, bytes.len() as int) =~= Seq::<u8>::empty());
        },
        Some((outcome, n)) => {
            let rest = outcomes_from(bytes, n);
            assert(all == seq![outcome] + rest);
            assert(all[0] == outcome);
            assert(outcome is Ok);
            assert forall|i: int| 0 <= i < rest.len() implies (#[trigger] rest[i]) is Ok by {
                assert(all[i + 1] == rest[i]);
            }
            lemma_outcomes_encode_the_bytes(bytes, n);
            assert(all.drop_first() =~= rest);
            assert(bytes.subrange(at, bytes.len() as int) =~= bytes.subrange(at, n) + bytes.subrange(
                n,
                bytes.len() as int,
            ));
        },
    }
}

/// A parse outcome with the item taken by its view.
pub open spec fn outcome_view(r: Result<RawItem, ParseError>) -> Result<RawItemView, ParseError> {
    match r {
        Ok(item) => Ok(item@),
        Err(e) => Err(e),
    }
}

/// Lazily splits descriptor bytes into borrowed raw items
pub struct ItemIter<'a> {
    bytes: &'a [u8],
    offset: usize,
}

impl<'a> View for ItemIter<'a> {
    /// The descriptor bytes and the position of the next item.
    type V = (Seq<u8>, nat);

    closed spec fn view(&self) -> (Seq<u8>, nat) {
        (self.bytes@, self.offset as nat)
    }
}

impl<'a> ItemIter<'a> {
    #[verifier::type_invariant]
    spec fn offset_in_bounds(self) -> bool {
        self.offset <= self.bytes@.len()
    }

    pub fn new(bytes: &'a [u8]) -> (r: Self)
        ensures
            r@ == (bytes@, 0nat),
    {
        ItemIter { bytes, offset: 0 }
    }

    fn parse_long(&mut self, start: usize) -> (r: Result<RawItem<'a>, ParseError>)
        requires
            old(self).offset == start + 1,
            start < old(self).bytes@.len(),
            is_long_prefix(old(self).bytes@[start as int]),
        ensures
            final(self).bytes == old(self).bytes,
            next_item(old(self).bytes@, start as int) == Some((outcome_view(r), final(self).offset as int)),
    {
        proof {
            use_type_invariant(&*self);
        }
        if self.remaining() < 2 {
            self.finish();
            return Err(ParseError::TruncatedLongHeader { offset: start });
        }
        // A long item stores its payload length and tag after the 0xFE prefix.

        let size = self.bytes[self.offset] as usize;
        let tag = self.bytes[self.offset + 1];

        self.offset += 2;

        if self.remaining() < size {
            let remaining = self.remaining();

            self.finish();

            return Err(ParseError::TruncatedLong { offset: start, declared: size, remaining });
        }
        let bytes: &'a [u8] = self.bytes;
        let data = &bytes[self.offset..self.offset + size];
        self.offset += size;

        Ok(RawItem::Long(LongItem { tag, data }))
    }

    fn remaining(&self) -> (r: usize)
        ensures
            r == self.bytes@.len() - self.offset,
    {
        proof {
            use_type_invariant(self);
        }
        self.bytes.len() - self.offset
    }

    // A malformed item consumes the rest so one descriptor yields one error.
    fn finish(&mut self)
        ensures
            final(self).bytes == old(self).bytes,
            final(self).offset == old(self).bytes@.len(),
    {
        self.offset = self.bytes.len();
    }

    /// The next raw item, `None` once the bytes are used up. A malformed item
    /// is reported once and consumes the rest of the bytes.
    pub fn next(&mut self) -> (res: Option<Result<RawItem<'a>, ParseError>>)
        ensures
            final(self)@.0 == old(self)@.0,
            final(self)@.1 <= final(self)@.0.len(),
            match next_item(old(self)@.0, old(self)@.1 as int) {
                None => res is None && final(self)@.1 == old(self)@.1,
                Some((outcome, at)) => res matches Some(r) && outcome_view(r) == outcome && final(self)@.1 == at,
            },
    {
        proof {
            use_type_invariant(&*self);
        }
        if self.offset == self.bytes.len() {
            return None;
        }
        let start = self.offset;
        let prefix = self.bytes[self.offset];

        self.offset += 1;

        if prefix == 0xFE {
            let r = self.parse_long(start);
            proof {
                use_type_invariant(&*self);
            }
            return Some(r);
        }
        // In HID's size code, binary 11 means four bytes rather than three.

        let code = prefix & 0b11;
        assert(code == prefix % 4) by (bit_vector)
            requires
                code == prefix & 0b11,
        ;
        let size: usize = if code == 3 {
            4
        } else {
            code as usize
        };

        if self.remaining() < size {
            let remaining = self.remaining();

            self.finish();

            return Some(Err(ParseError::TruncatedShort { offset: start, required: size, remaining }));
        }
        let bytes: &'a [u8] = self.bytes;
        let data = &bytes[self.offset..self.offset + size];

        self.offset += size;

        let tag = prefix >> 4;
        assert(tag == prefix / 16) by (bit_vector)
            requires
                tag == prefix >> 4,
        ;
        Some(
            Ok(
                RawItem::Short(
                    ShortItem { prefix, item_type: ItemType::from_prefix(prefix), tag, data },
                ),
            ),
        )
    }
}

} // verus!
