//! Persistence codec for auction and bid records, in the host's stream
//! format: unsigned numbers as variable-length (seven bits per byte,
//! continuation in the top bit) groups, strings as a length-prefixed
//! UTF-8 segment, and a one-byte flag before an optional field. The
//! encoding and decoding primitives are wasmlib's; their byte-level
//! behaviour is written out here as spec functions, so a decode is proved
//! to invert an encode.

use vstd::prelude::*;

use crate::types::AgentId;
use crate::types::Auction;
use crate::types::Bid;
use crate::types::TokenId;
use vstd::utf8::encode_utf8;

verus! {

/// The variable-length encoding wasmlib writes for an unsigned number:
/// low seven bits first, the top bit of each byte flagging a follower.
pub open spec fn vlu(v: u64) -> Seq<u8>
    decreases v,
{
    if v < 128 {
        seq![v as u8]
    } else {
        seq![(v % 128 + 128) as u8] + vlu(v / 128)
    }
}

/// A length-prefixed byte segment, as wasmlib's `bytes` encoding writes
/// it.
pub open spec fn bytes_enc(bs: Seq<u8>) -> Seq<u8> {
    vlu(bs.len() as u64) + bs
}

/// A string: its UTF-8 bytes, length-prefixed.
pub open spec fn str_enc(s: Seq<char>) -> Seq<u8> {
    bytes_enc(encode_utf8(s))
}

/// A boolean: one byte, zero or one.
pub open spec fn bool_enc(b: bool) -> Seq<u8> {
    if b {
        seq![1u8]
    } else {
        seq![0u8]
    }
}

/// An optional identity: a presence flag, then the identity if present.
pub open spec fn opt_agent_enc(o: Option<AgentId>) -> Seq<u8> {
    match o {
        None => bool_enc(false),
        Some(a) => bool_enc(true) + vlu(a.0),
    }
}

/// The stored form of a bid record.
pub open spec fn bid_enc(b: Bid) -> Seq<u8> {
    vlu(b.amount) + (vlu(b.index as u64) + vlu(b.timestamp))
}

/// The stored form of an auction record, fields in name order: each
/// `enc_from_` function is the encoding from that field on.
pub open spec fn auction_enc(a: Auction) -> Seq<u8> {
    vlu(a.creator.0) + enc_from_deposit(a)
}

pub open spec fn enc_from_deposit(a: Auction) -> Seq<u8> {
    vlu(a.deposit) + enc_from_description(a)
}

pub open spec fn enc_from_description(a: Auction) -> Seq<u8> {
    str_enc(a.description@) + enc_from_duration(a)
}

pub open spec fn enc_from_duration(a: Auction) -> Seq<u8> {
    vlu(a.duration as u64) + enc_from_highest_bid(a)
}

pub open spec fn enc_from_highest_bid(a: Auction) -> Seq<u8> {
    vlu(a.highest_bid) + enc_from_highest_bidder(a)
}

pub open spec fn enc_from_highest_bidder(a: Auction) -> Seq<u8> {
    opt_agent_enc(a.highest_bidder) + enc_from_minimum_bid(a)
}

pub open spec fn enc_from_minimum_bid(a: Auction) -> Seq<u8> {
    vlu(a.minimum_bid) + enc_from_num_tokens(a)
}

pub open spec fn enc_from_num_tokens(a: Auction) -> Seq<u8> {
    vlu(a.num_tokens) + enc_from_owner_margin(a)
}

pub open spec fn enc_from_owner_margin(a: Auction) -> Seq<u8> {
    vlu(a.owner_margin) + enc_from_token(a)
}

pub open spec fn enc_from_token(a: Auction) -> Seq<u8> {
    vlu(a.token.0) + vlu(a.when_started)
}

/// Field-wise sameness of two auction records; record equality up to the
/// description being the same text.
pub open spec fn same_auction(x: Auction, y: Auction) -> bool {
    &&& x.creator == y.creator
    &&& x.deposit == y.deposit
    &&& x.description@ == y.description@
    &&& x.duration == y.duration
    &&& x.highest_bid == y.highest_bid
    &&& x.highest_bidder == y.highest_bidder
    &&& x.minimum_bid == y.minimum_bid
    &&& x.num_tokens == y.num_tokens
    &&& x.owner_margin == y.owner_margin
    &&& x.token == y.token
    &&& x.when_started == y.when_started
}

#[verifier::external_type_specification]
#[verifier::external_body]
pub struct ExWasmEncoder(wasmlib::WasmEncoder);

#[verifier::external_type_specification]
#[verifier::external_body]
pub struct ExWasmDecoder<'a>(wasmlib::WasmDecoder<'a>);

/// The bytes an encoder has accumulated.
pub uninterp spec fn enc_view(e: wasmlib::WasmEncoder) -> Seq<u8>;

/// The bytes a decoder has not consumed yet.
pub uninterp spec fn dec_view(d: wasmlib::WasmDecoder) -> Seq<u8>;

/// Relies on wasmlib's WasmEncoder::new: a fresh, empty byte buffer.
#[verifier::external_body]
fn enc_new() -> (r: wasmlib::WasmEncoder)
    ensures
        enc_view(r) == Seq::<u8>::empty(),
{
    wasmlib::WasmEncoder::new()
}

/// Relies on wasmlib's uint64_encode: appends the vlu groups of `v`.
#[verifier::external_body]
fn enc_u64(e: &mut wasmlib::WasmEncoder, v: u64)
    ensures
        enc_view(*final(e)) == enc_view(*old(e)) + vlu(v),
{
    wasmlib::uint64_encode(e, v);
}

/// Relies on wasmlib's uint32_encode: appends the vlu groups of `v`.
#[verifier::external_body]
fn enc_u32(e: &mut wasmlib::WasmEncoder, v: u32)
    ensures
        enc_view(*final(e)) == enc_view(*old(e)) + vlu(v as u64),
{
    wasmlib::uint32_encode(e, v);
}

/// Relies on wasmlib's bool_encode: appends one byte, one or zero.
#[verifier::external_body]
fn enc_bool(e: &mut wasmlib::WasmEncoder, b: bool)
    ensures
        enc_view(*final(e)) == enc_view(*old(e)) + bool_enc(b),
{
    wasmlib::bool_encode(e, b);
}

/// Relies on wasmlib's string_encode: appends the string's UTF-8 bytes
/// behind their vlu-encoded count.
#[verifier::external_body]
fn enc_str(e: &mut wasmlib::WasmEncoder, s: &str)
    ensures
        enc_view(*final(e)) == enc_view(*old(e)) + str_enc(s@),
{
    wasmlib::string_encode(e, s);
}

/// Relies on wasmlib's WasmEncoder::buf: a copy of the accumulated bytes.
#[verifier::external_body]
fn enc_buf(e: &wasmlib::WasmEncoder) -> (r: Vec<u8>)
    ensures
        r@ == enc_view(*e),
{
    e.buf()
}

/// Relies on wasmlib's WasmDecoder::new, which refuses an empty buffer.
#[verifier::external_body]
fn dec_new<'a>(buf: &'a [u8]) -> (r: wasmlib::WasmDecoder<'a>)
    requires
        buf@.len() > 0,
    ensures
        dec_view(r) == buf@,
{
    wasmlib::WasmDecoder::new(buf)
}

/// Relies on wasmlib's uint64_decode: consumes one vlu group run and
/// returns its value. The vlu groups of a `u64` are at most ten bytes,
/// within what the decoder accepts, and determine where they end, so the
/// remainder is whatever followed them.
#[verifier::external_body]
fn dec_u64(d: &mut wasmlib::WasmDecoder) -> (r: u64)
    requires
        exists|v: u64, rest: Seq<u8>| dec_view(*old(d)) == vlu(v) + rest,
    ensures
        forall|v: u64, rest: Seq<u8>|
            dec_view(*old(d)) == vlu(v) + rest ==> r == v && dec_view(*final(d)) == rest,
{
    wasmlib::uint64_decode(d)
}

/// Relies on wasmlib's uint32_decode, as `dec_u64` but for a value that
/// fits 32 bits, which is all the decoder accepts there.
#[verifier::external_body]
fn dec_u32(d: &mut wasmlib::WasmDecoder) -> (r: u32)
    requires
        exists|v: u64, rest: Seq<u8>| v < 0x100000000 && dec_view(*old(d)) == vlu(v) + rest,
    ensures
        forall|v: u64, rest: Seq<u8>|
            v < 0x100000000 && dec_view(*old(d)) == vlu(v) + rest ==> r as u64 == v && dec_view(
                *final(d),
            ) == rest,
{
    wasmlib::uint32_decode(d)
}

/// Relies on wasmlib's bool_decode: consumes one byte, nonzero is true.
#[verifier::external_body]
fn dec_bool(d: &mut wasmlib::WasmDecoder) -> (r: bool)
    requires
        exists|b: bool, rest: Seq<u8>| dec_view(*old(d)) == bool_enc(b) + rest,
    ensures
        forall|b: bool, rest: Seq<u8>|
            dec_view(*old(d)) == bool_enc(b) + rest ==> r == b && dec_view(*final(d)) == rest,
{
    wasmlib::bool_decode(d)
}

/// Relies on wasmlib's string_decode: consumes a vlu byte count, then
/// that many bytes, and rebuilds the string from them; on the valid
/// UTF-8 that a string encoding is, the rebuild is exact. The count must
/// fit 32 bits, which is all the decoder accepts there.
#[verifier::external_body]
fn dec_str(d: &mut wasmlib::WasmDecoder) -> (r: String)
    requires
        exists|s: Seq<char>, rest: Seq<u8>|
            dec_view(*old(d)) == str_enc(s) + rest && encode_utf8(s).len() < 0x100000000,
    ensures
        forall|s: Seq<char>, rest: Seq<u8>|
            dec_view(*old(d)) == str_enc(s) + rest ==> r@ == s && dec_view(*final(d)) == rest,
{
    wasmlib::string_decode(d)
}

impl Auction {
    /// Serializes this auction record for the host's store.
    #[verifier::rlimit(50)]
    pub fn to_bytes(&self) -> (r: Vec<u8>)
        ensures
            r@ == auction_enc(*self),
    {
        let mut enc = enc_new();
        enc_u64(&mut enc, self.creator.0);
        enc_u64(&mut enc, self.deposit);
        enc_str(&mut enc, self.description.as_str());
        enc_u32(&mut enc, self.duration);
        enc_u64(&mut enc, self.highest_bid);
        match self.highest_bidder {
            None => enc_bool(&mut enc, false),
            Some(a) => {
                enc_bool(&mut enc, true);
                enc_u64(&mut enc, a.0);
            },
        }
        enc_u64(&mut enc, self.minimum_bid);
        enc_u64(&mut enc, self.num_tokens);
        enc_u64(&mut enc, self.owner_margin);
        enc_u64(&mut enc, self.token.0);
        enc_u64(&mut enc, self.when_started);
        let r = enc_buf(&enc);
        proof {
            assert(r@ =~= auction_enc(*self));
        }
        r
    }

    /// Rebuilds the auction record a byte string stores. The bytes must
    /// be a stored record, whole, its text segment counted in 32 bits as
    /// the stream format has it; the rebuilt record is exactly the one
    /// stored.
    pub fn from_bytes(bytes: &[u8]) -> (r: Auction)
        requires
            exists|a: Auction|
                bytes@ == auction_enc(a) && encode_utf8(a.description@).len() < 0x100000000,
        ensures
            forall|a: Auction| bytes@ == auction_enc(a) ==> same_auction(r, a),
    {
        proof {
            let a0 = choose|a: Auction|
                bytes@ == auction_enc(a) && encode_utf8(a.description@).len() < 0x100000000;
            assert(vlu(a0.creator.0).len() >= 1);
            assert(bytes@.len() > 0);
        }
        let mut dec = dec_new(bytes);
        let ghost v0 = dec_view(dec);
        proof {
            let a0 = choose|a: Auction|
                bytes@ == auction_enc(a) && encode_utf8(a.description@).len() < 0x100000000;
            assert(v0 == vlu(a0.creator.0) + enc_from_deposit(a0));
        }
        let creator = dec_u64(&mut dec);
        let ghost v1 = dec_view(dec);
        let deposit = dec_u64(&mut dec);
        let ghost v2 = dec_view(dec);
        proof {
            let a0 = choose|a: Auction|
                bytes@ == auction_enc(a) && encode_utf8(a.description@).len() < 0x100000000;
            assert(v1 == vlu(a0.deposit) + enc_from_description(a0));
            assert(v2 == str_enc(a0.description@) + enc_from_duration(a0));
        }
        let description = dec_str(&mut dec);
        let ghost v3 = dec_view(dec);
        let duration = dec_u32(&mut dec);
        let ghost v4 = dec_view(dec);
        let highest_bid = dec_u64(&mut dec);
        let ghost v5 = dec_view(dec);
        proof {
            let a0 = choose|a: Auction|
                bytes@ == auction_enc(a) && encode_utf8(a.description@).len() < 0x100000000;
            assert(v3 == vlu(a0.duration as u64) + enc_from_highest_bid(a0));
            assert((a0.duration as u64) < 0x100000000);
            assert(v4 == vlu(a0.highest_bid) + enc_from_highest_bidder(a0));
            assert(v5 == opt_agent_enc(a0.highest_bidder) + enc_from_minimum_bid(a0));
            match a0.highest_bidder {
                None => {
                    assert(v5 == bool_enc(false) + enc_from_minimum_bid(a0));
                },
                Some(x) => {
                    assert(v5 =~= bool_enc(true) + (vlu(x.0) + enc_from_minimum_bid(a0)));
                },
            }
        }
        let flag = dec_bool(&mut dec);
        let ghost v6 = dec_view(dec);
        let highest_bidder = if flag {
            proof {
                let a0 = choose|a: Auction|
                    bytes@ == auction_enc(a) && encode_utf8(a.description@).len() < 0x100000000;
                assert(a0.highest_bidder is Some);
                assert(v6 == vlu((a0.highest_bidder->0).0) + enc_from_minimum_bid(a0));
            }
            let id = dec_u64(&mut dec);
            Some(AgentId(id))
        } else {
            None
        };
        let ghost v7 = dec_view(dec);
        proof {
            let a0 = choose|a: Auction|
                bytes@ == auction_enc(a) && encode_utf8(a.description@).len() < 0x100000000;
            assert(v7 == vlu(a0.minimum_bid) + enc_from_num_tokens(a0));
        }
        let minimum_bid = dec_u64(&mut dec);
        let ghost v8 = dec_view(dec);
        let num_tokens = dec_u64(&mut dec);
        let ghost v9 = dec_view(dec);
        let owner_margin = dec_u64(&mut dec);
        let ghost v10 = dec_view(dec);
        let token = dec_u64(&mut dec);
        let ghost v11 = dec_view(dec);
        proof {
            let a0 = choose|a: Auction|
                bytes@ == auction_enc(a) && encode_utf8(a.description@).len() < 0x100000000;
            assert(v8 == vlu(a0.num_tokens) + enc_from_owner_margin(a0));
            assert(v9 == vlu(a0.owner_margin) + enc_from_token(a0));
            assert(v10 == vlu(a0.token.0) + vlu(a0.when_started));
            assert(v11 == vlu(a0.when_started) + Seq::<u8>::empty()) by {
                assert(vlu(a0.when_started) + Seq::<u8>::empty() =~= vlu(a0.when_started));
            }
        }
        let when_started = dec_u64(&mut dec);
        let r = Auction {
            creator: AgentId(creator),
            deposit,
            description,
            duration,
            highest_bid,
            highest_bidder,
            minimum_bid,
            num_tokens,
            owner_margin,
            token: TokenId(token),
            when_started,
        };
        proof {
            assert forall|a: Auction| bytes@ == auction_enc(a) implies same_auction(r, a) by {
                assert(v0 == vlu(a.creator.0) + enc_from_deposit(a));
                assert(creator == a.creator.0 && v1 == enc_from_deposit(a));
                assert(v1 == vlu(a.deposit) + enc_from_description(a));
                assert(v2 == str_enc(a.description@) + enc_from_duration(a));
                assert(description@ == a.description@ && v3 == enc_from_duration(a));
                assert(v3 == vlu(a.duration as u64) + enc_from_highest_bid(a));
                assert((a.duration as u64) < 0x100000000);
                assert(duration as u64 == a.duration as u64 && v4 == enc_from_highest_bid(a));
                assert(v4 == vlu(a.highest_bid) + enc_from_highest_bidder(a));
                assert(v5 == opt_agent_enc(a.highest_bidder) + enc_from_minimum_bid(a));
                match a.highest_bidder {
                    None => {
                        assert(v5 == bool_enc(false) + enc_from_minimum_bid(a));
                        assert(!flag && v6 == enc_from_minimum_bid(a));
                    },
                    Some(x) => {
                        assert(v5 =~= bool_enc(true) + (vlu(x.0) + enc_from_minimum_bid(a)));
                        assert(flag && v6 == vlu(x.0) + enc_from_minimum_bid(a));
                        assert(highest_bidder == Some(AgentId(x.0)));
                        assert(AgentId(x.0) == x);
                    },
                }
                assert(v7 == vlu(a.minimum_bid) + enc_from_num_tokens(a));
                assert(minimum_bid == a.minimum_bid && v8 == enc_from_num_tokens(a));
                assert(v8 == vlu(a.num_tokens) + enc_from_owner_margin(a));
                assert(v9 == vlu(a.owner_margin) + enc_from_token(a));
                assert(v10 == vlu(a.token.0) + vlu(a.when_started));
                assert(v11 == vlu(a.when_started) + Seq::<u8>::empty()) by {
                    assert(vlu(a.when_started) + Seq::<u8>::empty() =~= vlu(a.when_started));
                }
                assert(when_started == a.when_started);
            }
        }
        r
    }
}

impl Bid {
    /// Serializes this bid for the host's store.
    pub fn to_bytes(&self) -> (r: Vec<u8>)
        ensures
            r@ == bid_enc(*self),
    {
        let mut enc = enc_new();
        enc_u64(&mut enc, self.amount);
        enc_u32(&mut enc, self.index);
        enc_u64(&mut enc, self.timestamp);
        let r = enc_buf(&enc);
        proof {
            assert(r@ =~= bid_enc(*self));
        }
        r
    }

    /// Rebuilds the bid a byte string stores. The bytes must be a stored
    /// bid, whole; the rebuilt record is exactly the one stored.
    pub fn from_bytes(bytes: &[u8]) -> (r: Bid)
        requires
            exists|b: Bid| bytes@ == bid_enc(b),
        ensures
            forall|b: Bid| bytes@ == bid_enc(b) ==> r == b,
    {
        proof {
            let b0 = choose|b: Bid| bytes@ == bid_enc(b);
            assert(vlu(b0.amount).len() >= 1);
            assert(bytes@.len() > 0);
        }
        let mut dec = dec_new(bytes);
        let ghost v0 = dec_view(dec);
        proof {
            let b0 = choose|b: Bid| bytes@ == bid_enc(b);
            assert(v0 == vlu(b0.amount) + (vlu(b0.index as u64) + vlu(b0.timestamp)));
        }
        let amount = dec_u64(&mut dec);
        let ghost v1 = dec_view(dec);
        proof {
            let b0 = choose|b: Bid| bytes@ == bid_enc(b);
            assert(v0 == vlu(b0.amount) + (vlu(b0.index as u64) + vlu(b0.timestamp)));
            assert(v1 == vlu(b0.index as u64) + vlu(b0.timestamp));
        }
        let index = dec_u32(&mut dec);
        let ghost v2 = dec_view(dec);
        proof {
            let b0 = choose|b: Bid| bytes@ == bid_enc(b);
            assert(v0 == vlu(b0.amount) + (vlu(b0.index as u64) + vlu(b0.timestamp)));
            assert(v1 == vlu(b0.index as u64) + vlu(b0.timestamp));
            assert(v2 == vlu(b0.timestamp));
            assert(v2 == vlu(b0.timestamp) + Seq::<u8>::empty()) by {
                assert(vlu(b0.timestamp) + Seq::<u8>::empty() =~= vlu(b0.timestamp));
            }
        }
        let timestamp = dec_u64(&mut dec);
        let r = Bid { amount, index, timestamp };
        proof {
            assert forall|b: Bid| bytes@ == bid_enc(b) implies r == b by {
                assert(v0 == vlu(b.amount) + (vlu(b.index as u64) + vlu(b.timestamp)));
                assert(amount == b.amount && v1 == vlu(b.index as u64) + vlu(b.timestamp));
                assert(v1 == vlu(b.index as u64) + vlu(b.timestamp));
                assert(index == b.index && v2 == vlu(b.timestamp));
                assert(v2 == vlu(b.timestamp) + Seq::<u8>::empty()) by {
                    assert(vlu(b.timestamp) + Seq::<u8>::empty() =~= vlu(b.timestamp));
                }
                assert(timestamp == b.timestamp);
            }
        }
        r
    }
}

} // verus!
