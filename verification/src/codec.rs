//! The board-link wire format: a compact binary encoding of the datagram
//! envelopes, with integers as base-128 varints, signed values zigzagged,
//! strings length-prefixed, and enums tagged by variant index.
//!
//! Every encoder has a matching spec-level decoder (`take_*`) that the
//! executable decoder is proved against, and a round-trip lemma; a frame
//! that does not decode is discarded by the callers.
use crate::comm::ChannelType;
use crate::comm::CompositeValveState;
use crate::comm::DataMessage;
use crate::comm::DataPoint;
use crate::comm::FlightControlMessage;
use crate::comm::Measurement;
use crate::comm::NodeMapping;
use crate::comm::SamControlMessage;
use crate::comm::SensorType;
use crate::comm::Sequence;
use crate::comm::Trigger;
use crate::comm::Unit;
use crate::comm::ValveState;
use vstd::arithmetic::div_mod::lemma_fundamental_div_mod;
use vstd::prelude::*;
use vstd::string::StrSliceExecFns;
use vstd::utf8::decode_utf8;
use vstd::utf8::encode_utf8;
use vstd::utf8::encode_utf8_decode_utf8;
use vstd::utf8::encode_utf8_valid_utf8;
use vstd::utf8::valid_utf8;

verus! {

/// The base-128 little-endian encoding of an unsigned integer: seven bits
/// a byte, the high bit marking continuation.
pub open spec fn spec_varint(x: u64) -> Seq<u8>
    decreases x,
{
    if x < 128 {
        seq![x as u8]
    } else {
        seq![((x % 128) + 128) as u8] + spec_varint(x / 128)
    }
}

/// The varint at the front of a byte stream, with the rest: `None` for a
/// truncated, overlong or overflowing encoding.
pub open spec fn take_varint(bytes: Seq<u8>) -> Option<(u64, Seq<u8>)>
    decreases bytes.len(),
{
    if bytes.len() == 0 {
        Option::None
    } else {
        let b = bytes.first();
        if b < 128 {
            Option::Some((b as u64, bytes.drop_first()))
        } else {
            match take_varint(bytes.drop_first()) {
                Option::Some((hi, rest)) => if hi == 0 || (b - 128) + 128 * hi > u64::MAX {
                    Option::None
                } else {
                    Option::Some((((b - 128) + 128 * hi) as u64, rest))
                },
                Option::None => Option::None,
            }
        }
    }
}

/// Encoding then decoding an unsigned integer yields it back, with the
/// stream's remainder untouched.
pub proof fn lemma_varint_round_trip(x: u64, rest: Seq<u8>)
    ensures
        take_varint(spec_varint(x) + rest) == Option::Some((x, rest)),
    decreases x,
{
    let bytes = spec_varint(x) + rest;
    if x < 128 {
        assert(bytes.first() == x as u8);
        assert(bytes.drop_first() =~= rest);
    } else {
        assert(bytes.first() == ((x % 128) + 128) as u8);
        assert(bytes.drop_first() =~= spec_varint(x / 128) + rest);
        lemma_varint_round_trip((x / 128) as u64, rest);
        lemma_fundamental_div_mod(x as int, 128);
    }
}

/// The zigzag picture of a signed integer: non-negative values go to the
/// evens, negative ones to the odds.
pub open spec fn spec_zigzag(x: i64) -> u64 {
    if x >= 0 {
        (2 * x) as u64
    } else {
        (2 * (-(x + 1)) + 1) as u64
    }
}

/// The signed integer a zigzagged value stands for.
pub open spec fn spec_unzigzag(y: u64) -> i64 {
    if y % 2 == 0 {
        (y / 2) as i64
    } else {
        (-((y / 2) + 1)) as i64
    }
}

/// Zigzag is undone exactly by its inverse.
pub proof fn lemma_zigzag_round_trip(x: i64)
    ensures
        spec_unzigzag(spec_zigzag(x)) == x,
{
}

/// Zigzag a signed value for the wire.
pub fn zigzag(x: i64) -> (r: u64)
    ensures
        r == spec_zigzag(x),
{
    if x >= 0 {
        2 * (x as u64)
    } else {
        let n: u64 = (-(x + 1)) as u64;
        2 * n + 1
    }
}

/// Undo the zigzag.
pub fn unzigzag(y: u64) -> (r: i64)
    ensures
        r == spec_unzigzag(y),
{
    if y % 2 == 0 {
        (y / 2) as i64
    } else {
        let n: u64 = y / 2;
        proof {
            vstd::arithmetic::div_mod::lemma_div_is_ordered(y as int, u64::MAX as int, 2);
        }
        -1 - (n as i64)
    }
}

/// Append the varint encoding of `x` to `out`.
pub fn encode_varint(out: &mut Vec<u8>, x: u64)
    ensures
        final(out)@ == old(out)@ + spec_varint(x),
    decreases x,
{
    let mut x = x;
    let ghost x_arg = x;
    while x >= 128
        invariant
            out@ + spec_varint(x) == old(out)@ + spec_varint(x_arg),
        decreases x,
    {
        out.push(((x % 128) + 128) as u8);
        proof {
            assert(out@ + spec_varint(x / 128) =~= old(out)@ + spec_varint(x_arg));
        }
        x = x / 128;
    }
    out.push(x as u8);
    proof {
        assert(out@ =~= old(out)@ + spec_varint(x_arg));
    }
}

/// Read the varint at `pos`, returning its value and the position after
/// it, exactly as the spec-level `take_varint` reads the stream's front.
pub fn decode_varint(bytes: &Vec<u8>, pos: usize) -> (r: Option<(u64, usize)>)
    requires
        pos <= bytes@.len(),
    ensures
        match take_varint(bytes@.skip(pos as int)) {
            Option::Some((v, rest)) => {
                &&& r matches Some(p)
                &&& p.0 == v
                &&& pos < p.1 <= bytes@.len()
                &&& rest == bytes@.skip(p.1 as int)
            },
            Option::None => r is None,
        },
    decreases bytes@.len() - pos,
{
    if pos == bytes.len() {
        return None;
    }
    let b = bytes[pos];
    proof {
        assert(bytes@.skip(pos as int).first() == b);
        assert(bytes@.skip(pos as int).drop_first() =~= bytes@.skip(pos + 1));
    }
    if b < 128 {
        Some((b as u64, pos + 1))
    } else {
        match decode_varint(bytes, pos + 1) {
            Some((hi, end)) => {
                let low: u64 = (b - 128) as u64;
                if hi == 0 {
                    None
                } else if hi > (u64::MAX - low) / 128 {
                    proof {
                        lemma_fundamental_div_mod((u64::MAX - low) as int, 128);
                        assert(low + 128 * hi > u64::MAX) by (nonlinear_arith)
                            requires
                                hi > ((u64::MAX - low) as u64) / 128,
                                0 <= low < 128,
                                (u64::MAX - low) as int == 128 * (((u64::MAX - low) as u64 / 128)
                                    as int) + ((u64::MAX - low) as u64 % 128),
                                0 <= (u64::MAX - low) as u64 % 128 < 128,
                        ;
                    }
                    None
                } else {
                    proof {
                        lemma_fundamental_div_mod((u64::MAX - low) as int, 128);
                        assert(low + 128 * hi <= u64::MAX) by (nonlinear_arith)
                            requires
                                hi <= ((u64::MAX - low) as u64) / 128,
                                0 <= low < 128,
                                (u64::MAX - low) as int == 128 * (((u64::MAX - low) as u64 / 128)
                                    as int) + ((u64::MAX - low) as u64 % 128),
                                0 <= (u64::MAX - low) as u64 % 128 < 128,
                        ;
                    }
                    Some((low + 128 * hi, end))
                }
            },
            None => None,
        }
    }
}

/// Relies on String::from_utf8: it succeeds exactly on valid UTF-8 input
/// and returns the string those bytes spell.
#[verifier::external_body]
fn string_from_utf8(v: Vec<u8>) -> (r: Option<String>)
    ensures
        match r {
            Some(s) => valid_utf8(v@) && s@ == decode_utf8(v@),
            None => !valid_utf8(v@),
        },
{
    String::from_utf8(v).ok()
}

/// A length-prefixed string: the byte length as a varint, then the UTF-8
/// bytes themselves.
pub open spec fn spec_string(s: Seq<char>) -> Seq<u8> {
    spec_varint(encode_utf8(s).len() as u64) + encode_utf8(s)
}

/// The string at the front of a byte stream, with the rest.
pub open spec fn take_string(bytes: Seq<u8>) -> Option<(Seq<char>, Seq<u8>)> {
    match take_varint(bytes) {
        Option::Some((n, rest)) => if rest.len() < n {
            Option::None
        } else {
            let sb = rest.take(n as int);
            if valid_utf8(sb) {
                Option::Some((decode_utf8(sb), rest.skip(n as int)))
            } else {
                Option::None
            }
        },
        Option::None => Option::None,
    }
}

/// Encoding then decoding a string yields it back.
pub proof fn lemma_string_round_trip(s: Seq<char>, rest: Seq<u8>)
    requires
        encode_utf8(s).len() <= u64::MAX,
    ensures
        take_string(spec_string(s) + rest) == Option::Some((s, rest)),
{
    let sb = encode_utf8(s);
    assert(spec_string(s) + rest =~= spec_varint(sb.len() as u64) + (sb + rest));
    lemma_varint_round_trip(sb.len() as u64, sb + rest);
    assert((sb + rest).take(sb.len() as int) =~= sb);
    assert((sb + rest).skip(sb.len() as int) =~= rest);
    encode_utf8_valid_utf8(s);
    encode_utf8_decode_utf8(s);
}

/// Append the encoding of a string to `out`.
pub fn encode_string(out: &mut Vec<u8>, s: &String)
    ensures
        final(out)@ == old(out)@ + spec_string(s@),
{
    let sb = s.as_str().as_bytes_vec();
    encode_varint(out, sb.len() as u64);
    let mut i: usize = 0;
    while i < sb.len()
        invariant
            i <= sb@.len(),
            sb@ == encode_utf8(s@),
            out@ == old(out)@ + spec_varint(sb@.len() as u64) + sb@.take(i as int),
        decreases sb@.len() - i,
    {
        out.push(sb[i]);
        proof {
            assert(sb@.take(i + 1) =~= sb@.take(i as int).push(sb@[i as int]));
            assert(out@ =~= old(out)@ + spec_varint(sb@.len() as u64) + sb@.take(i + 1));
        }
        i = i + 1;
    }
    proof {
        assert(sb@.take(sb@.len() as int) =~= sb@);
        assert(out@ =~= old(out)@ + spec_string(s@));
    }
}

/// The bytes of `bytes` from `from` up to `to`.
fn bytes_subrange(bytes: &Vec<u8>, from: usize, to: usize) -> (r: Vec<u8>)
    requires
        from <= to <= bytes@.len(),
    ensures
        r@ == bytes@.subrange(from as int, to as int),
{
    let mut r: Vec<u8> = Vec::new();
    let mut i: usize = from;
    while i < to
        invariant
            from <= i <= to <= bytes@.len(),
            r@ == bytes@.subrange(from as int, i as int),
        decreases to - i,
    {
        r.push(bytes[i]);
        proof {
            assert(bytes@.subrange(from as int, i + 1) =~= bytes@.subrange(
                from as int,
                i as int,
            ).push(bytes@[i as int]));
        }
        i = i + 1;
    }
    r
}

/// Read the string at `pos`, as the spec-level `take_string` does.
pub fn decode_string(bytes: &Vec<u8>, pos: usize) -> (r: Option<(String, usize)>)
    requires
        pos <= bytes@.len(),
    ensures
        match take_string(bytes@.skip(pos as int)) {
            Option::Some((s, rest)) => {
                &&& r matches Some(p)
                &&& p.0@ == s
                &&& pos < p.1 <= bytes@.len()
                &&& rest == bytes@.skip(p.1 as int)
            },
            Option::None => r is None,
        },
{
    match decode_varint(bytes, pos) {
        Some((n, after_len)) => {
            if n > (bytes.len() - after_len) as u64 {
                None
            } else {
                let end: usize = after_len + (n as usize);
                let sb = bytes_subrange(bytes, after_len, end);
                proof {
                    let t = take_varint(bytes@.skip(pos as int));
                    let rest = t.unwrap().1;
                    assert(rest.take(n as int) =~= bytes@.subrange(after_len as int, end as int));
                    assert(rest.skip(n as int) =~= bytes@.skip(end as int));
                }
                match string_from_utf8(sb) {
                    Some(s) => Some((s, end)),
                    None => None,
                }
            }
        },
        None => None,
    }
}

/// The wire tag of a channel type.
pub open spec fn channel_type_tag(ct: ChannelType) -> u64 {
    match ct {
        ChannelType::CurrentLoop => 0,
        ChannelType::DifferentialSignal => 1,
        ChannelType::ValveVoltage => 2,
        ChannelType::ValveCurrent => 3,
        ChannelType::Rtd => 4,
        ChannelType::Tc => 5,
        ChannelType::RailVoltage => 6,
        ChannelType::RailCurrent => 7,
    }
}

/// The channel type a wire tag stands for.
pub open spec fn channel_type_from_tag(t: u64) -> Option<ChannelType> {
    if t == 0 {
        Option::Some(ChannelType::CurrentLoop)
    } else if t == 1 {
        Option::Some(ChannelType::DifferentialSignal)
    } else if t == 2 {
        Option::Some(ChannelType::ValveVoltage)
    } else if t == 3 {
        Option::Some(ChannelType::ValveCurrent)
    } else if t == 4 {
        Option::Some(ChannelType::Rtd)
    } else if t == 5 {
        Option::Some(ChannelType::Tc)
    } else if t == 6 {
        Option::Some(ChannelType::RailVoltage)
    } else if t == 7 {
        Option::Some(ChannelType::RailCurrent)
    } else {
        Option::None
    }
}

/// One data point on the wire: channel, channel-type tag, zigzagged value.
pub open spec fn spec_data_point(dp: DataPoint) -> Seq<u8> {
    spec_varint(dp.channel as u64) + spec_varint(channel_type_tag(dp.channel_type))
        + spec_varint(spec_zigzag(dp.value))
}

/// The data point at the front of a byte stream, with the rest.
pub open spec fn take_data_point(bytes: Seq<u8>) -> Option<(DataPoint, Seq<u8>)> {
    match take_varint(bytes) {
        Option::Some((ch, rest1)) => if ch > u32::MAX {
            Option::None
        } else {
            match take_varint(rest1) {
                Option::Some((tag, rest2)) => match channel_type_from_tag(tag) {
                    Option::Some(ct) => match take_varint(rest2) {
                        Option::Some((zz, rest3)) => Option::Some(
                            (
                                DataPoint {
                                    channel: ch as u32,
                                    channel_type: ct,
                                    value: spec_unzigzag(zz),
                                },
                                rest3,
                            ),
                        ),
                        Option::None => Option::None,
                    },
                    Option::None => Option::None,
                },
                Option::None => Option::None,
            }
        },
        Option::None => Option::None,
    }
}

/// Encoding then decoding a data point yields it back.
pub proof fn lemma_data_point_round_trip(dp: DataPoint, rest: Seq<u8>)
    ensures
        take_data_point(spec_data_point(dp) + rest) == Option::Some((dp, rest)),
{
    let b1 = spec_varint(dp.channel as u64);
    let b2 = spec_varint(channel_type_tag(dp.channel_type));
    let b3 = spec_varint(spec_zigzag(dp.value));
    assert(spec_data_point(dp) + rest =~= b1 + (b2 + (b3 + rest)));
    lemma_varint_round_trip(dp.channel as u64, b2 + (b3 + rest));
    lemma_varint_round_trip(channel_type_tag(dp.channel_type), b3 + rest);
    lemma_varint_round_trip(spec_zigzag(dp.value), rest);
    lemma_zigzag_round_trip(dp.value);
}

/// Append the encoding of a data point to `out`.
pub fn encode_data_point(out: &mut Vec<u8>, dp: &DataPoint)
    ensures
        final(out)@ == old(out)@ + spec_data_point(*dp),
{
    encode_varint(out, dp.channel as u64);
    let tag: u64 = match dp.channel_type {
        ChannelType::CurrentLoop => 0,
        ChannelType::DifferentialSignal => 1,
        ChannelType::ValveVoltage => 2,
        ChannelType::ValveCurrent => 3,
        ChannelType::Rtd => 4,
        ChannelType::Tc => 5,
        ChannelType::RailVoltage => 6,
        ChannelType::RailCurrent => 7,
    };
    encode_varint(out, tag);
    encode_varint(out, zigzag(dp.value));
    proof {
        assert(out@ =~= old(out)@ + spec_data_point(*dp));
    }
}

/// Read the data point at `pos`, as the spec-level `take_data_point` does.
pub fn decode_data_point(bytes: &Vec<u8>, pos: usize) -> (r: Option<(DataPoint, usize)>)
    requires
        pos <= bytes@.len(),
    ensures
        match take_data_point(bytes@.skip(pos as int)) {
            Option::Some((dp, rest)) => {
                &&& r matches Some(p)
                &&& p.0 == dp
                &&& pos < p.1 <= bytes@.len()
                &&& rest == bytes@.skip(p.1 as int)
            },
            Option::None => r is None,
        },
{
    match decode_varint(bytes, pos) {
        Some((ch, p1)) => {
            if ch > u32::MAX as u64 {
                return None;
            }
            match decode_varint(bytes, p1) {
                Some((tag, p2)) => {
                    let ct = match decode_channel_type(tag) {
                        Some(ct) => ct,
                        None => {
                            return None;
                        },
                    };
                    match decode_varint(bytes, p2) {
                        Some((zz, p3)) => Some(
                            (
                                DataPoint {
                                    channel: ch as u32,
                                    channel_type: ct,
                                    value: unzigzag(zz),
                                },
                                p3,
                            ),
                        ),
                        None => None,
                    }
                },
                None => None,
            }
        },
        None => None,
    }
}

/// The channel type a wire tag stands for.
fn decode_channel_type(tag: u64) -> (r: Option<ChannelType>)
    ensures
        r == channel_type_from_tag(tag),
{
    if tag == 0 {
        Some(ChannelType::CurrentLoop)
    } else if tag == 1 {
        Some(ChannelType::DifferentialSignal)
    } else if tag == 2 {
        Some(ChannelType::ValveVoltage)
    } else if tag == 3 {
        Some(ChannelType::ValveCurrent)
    } else if tag == 4 {
        Some(ChannelType::Rtd)
    } else if tag == 5 {
        Some(ChannelType::Tc)
    } else if tag == 6 {
        Some(ChannelType::RailVoltage)
    } else if tag == 7 {
        Some(ChannelType::RailCurrent)
    } else {
        None
    }
}

/// The abstract content of a board datagram: what the wire encoding spells,
/// with strings as their character sequences.
pub enum DataMessageModel {
    Identity(Seq<char>),
    Sam(Seq<char>, Seq<DataPoint>),
    Bms(Seq<char>),
    FlightHeartbeat,
}

/// The abstract content of a `DataMessage` value.
pub open spec fn data_message_model(m: DataMessage) -> DataMessageModel {
    match m {
        DataMessage::Identity(id) => DataMessageModel::Identity(id@),
        DataMessage::Sam(board, dps) => DataMessageModel::Sam(board@, dps@),
        DataMessage::Bms(board) => DataMessageModel::Bms(board@),
        DataMessage::FlightHeartbeat => DataMessageModel::FlightHeartbeat,
    }
}

/// A run of data points on the wire, in order.
pub open spec fn spec_data_points(dps: Seq<DataPoint>) -> Seq<u8>
    decreases dps.len(),
{
    if dps.len() == 0 {
        Seq::empty()
    } else {
        spec_data_point(dps.first()) + spec_data_points(dps.drop_first())
    }
}

/// A run of `n` data points at the front of a byte stream, with the rest.
pub open spec fn take_data_points(bytes: Seq<u8>, n: int) -> Option<(Seq<DataPoint>, Seq<u8>)>
    decreases n,
{
    if n <= 0 {
        Option::Some((Seq::empty(), bytes))
    } else {
        match take_data_point(bytes) {
            Option::Some((dp, rest)) => match take_data_points(rest, n - 1) {
                Option::Some((dps, rest2)) => Option::Some((seq![dp] + dps, rest2)),
                Option::None => Option::None,
            },
            Option::None => Option::None,
        }
    }
}

/// Appending one more point to a run extends its encoding at the end.
pub proof fn lemma_data_points_snoc(dps: Seq<DataPoint>, dp: DataPoint)
    ensures
        spec_data_points(dps.push(dp)) == spec_data_points(dps) + spec_data_point(dp),
    decreases dps.len(),
{
    reveal_with_fuel(spec_data_points, 3);
    if dps.len() == 0 {
        assert(dps.push(dp).first() == dp);
        assert(dps.push(dp).drop_first() =~= Seq::<DataPoint>::empty());
        assert(spec_data_points(dps.push(dp)) =~= spec_data_points(dps) + spec_data_point(dp));
    } else {
        assert(dps.push(dp).first() == dps.first());
        assert(dps.push(dp).drop_first() =~= dps.drop_first().push(dp));
        lemma_data_points_snoc(dps.drop_first(), dp);
        assert(spec_data_points(dps.push(dp)) =~= spec_data_points(dps) + spec_data_point(dp));
    }
}

/// Encoding then decoding a run of data points yields it back.
pub proof fn lemma_data_points_round_trip(dps: Seq<DataPoint>, rest: Seq<u8>)
    ensures
        take_data_points(spec_data_points(dps) + rest, dps.len() as int) == Option::Some(
            (dps, rest),
        ),
    decreases dps.len(),
{
    if dps.len() == 0 {
        assert(spec_data_points(dps) + rest =~= rest);
        assert(dps =~= Seq::<DataPoint>::empty());
    } else {
        assert(spec_data_points(dps) + rest =~= spec_data_point(dps.first()) + (
        spec_data_points(dps.drop_first()) + rest));
        lemma_data_point_round_trip(dps.first(), spec_data_points(dps.drop_first()) + rest);
        lemma_data_points_round_trip(dps.drop_first(), rest);
        assert(seq![dps.first()] + dps.drop_first() =~= dps);
    }
}

/// A board datagram on the wire: the variant tag, then its fields.
pub open spec fn spec_data_message(m: DataMessageModel) -> Seq<u8> {
    match m {
        DataMessageModel::Identity(id) => spec_varint(0) + spec_string(id),
        DataMessageModel::Sam(board, dps) => spec_varint(1) + spec_string(board) + spec_varint(
            dps.len() as u64,
        ) + spec_data_points(dps),
        DataMessageModel::Bms(board) => spec_varint(2) + spec_string(board),
        DataMessageModel::FlightHeartbeat => spec_varint(3),
    }
}

/// The datagram at the front of a byte stream, with the rest.
pub open spec fn take_data_message(bytes: Seq<u8>) -> Option<(DataMessageModel, Seq<u8>)> {
    match take_varint(bytes) {
        Option::Some((tag, rest)) => if tag == 0 {
            match take_string(rest) {
                Option::Some((id, rest1)) => Option::Some((DataMessageModel::Identity(id), rest1)),
                Option::None => Option::None,
            }
        } else if tag == 1 {
            match take_string(rest) {
                Option::Some((board, rest1)) => match take_varint(rest1) {
                    Option::Some((n, rest2)) => match take_data_points(rest2, n as int) {
                        Option::Some((dps, rest3)) => Option::Some(
                            (DataMessageModel::Sam(board, dps), rest3),
                        ),
                        Option::None => Option::None,
                    },
                    Option::None => Option::None,
                },
                Option::None => Option::None,
            }
        } else if tag == 2 {
            match take_string(rest) {
                Option::Some((board, rest1)) => Option::Some((DataMessageModel::Bms(board), rest1)),
                Option::None => Option::None,
            }
        } else if tag == 3 {
            Option::Some((DataMessageModel::FlightHeartbeat, rest))
        } else {
            Option::None
        },
        Option::None => Option::None,
    }
}

/// The string fields of a datagram fit the wire's length prefix.
pub open spec fn data_message_model_wf(m: DataMessageModel) -> bool {
    match m {
        DataMessageModel::Identity(id) => encode_utf8(id).len() <= u64::MAX,
        DataMessageModel::Sam(board, dps) => encode_utf8(board).len() <= u64::MAX && dps.len()
            <= u64::MAX,
        DataMessageModel::Bms(board) => encode_utf8(board).len() <= u64::MAX,
        DataMessageModel::FlightHeartbeat => true,
    }
}

/// Encoding then decoding a board datagram yields it back.
pub proof fn lemma_data_message_round_trip(m: DataMessageModel, rest: Seq<u8>)
    requires
        data_message_model_wf(m),
    ensures
        take_data_message(spec_data_message(m) + rest) == Option::Some((m, rest)),
{
    match m {
        DataMessageModel::Identity(id) => {
            assert(spec_data_message(m) + rest =~= spec_varint(0) + (spec_string(id) + rest));
            lemma_varint_round_trip(0, spec_string(id) + rest);
            lemma_string_round_trip(id, rest);
        },
        DataMessageModel::Sam(board, dps) => {
            let tail3 = spec_data_points(dps) + rest;
            let tail2 = spec_varint(dps.len() as u64) + tail3;
            let tail1 = spec_string(board) + tail2;
            assert(spec_data_message(m) + rest =~= spec_varint(1) + tail1);
            lemma_varint_round_trip(1, tail1);
            lemma_string_round_trip(board, tail2);
            lemma_varint_round_trip(dps.len() as u64, tail3);
            lemma_data_points_round_trip(dps, rest);
        },
        DataMessageModel::Bms(board) => {
            assert(spec_data_message(m) + rest =~= spec_varint(2) + (spec_string(board) + rest));
            lemma_varint_round_trip(2, spec_string(board) + rest);
            lemma_string_round_trip(board, rest);
        },
        DataMessageModel::FlightHeartbeat => {
            assert(spec_data_message(m) + rest =~= spec_varint(3) + rest);
            lemma_varint_round_trip(3, rest);
        },
    }
}

/// Encode a board datagram for the wire.
pub fn encode_data_message(m: &DataMessage) -> (r: Vec<u8>)
    ensures
        r@ == spec_data_message(data_message_model(*m)),
{
    let mut out: Vec<u8> = Vec::new();
    match m {
        DataMessage::Identity(id) => {
            encode_varint(&mut out, 0);
            encode_string(&mut out, id);
        },
        DataMessage::Sam(board, dps) => {
            encode_varint(&mut out, 1);
            encode_string(&mut out, board);
            encode_varint(&mut out, dps.len() as u64);
            let ghost head = out@;
            let mut i: usize = 0;
            while i < dps.len()
                invariant
                    i <= dps@.len(),
                    out@ == head + spec_data_points(dps@.take(i as int)),
                decreases dps@.len() - i,
            {
                encode_data_point(&mut out, &dps[i]);
                proof {
                    assert(dps@.take(i + 1) =~= dps@.take(i as int).push(dps@[i as int]));
                    lemma_data_points_snoc(dps@.take(i as int), dps@[i as int]);
                    assert(out@ =~= head + spec_data_points(dps@.take(i + 1)));
                }
                i = i + 1;
            }
            proof {
                assert(dps@.take(dps@.len() as int) =~= dps@);
            }
        },
        DataMessage::Bms(board) => {
            encode_varint(&mut out, 2);
            encode_string(&mut out, board);
        },
        DataMessage::FlightHeartbeat => {
            encode_varint(&mut out, 3);
        },
    }
    proof {
        assert(out@ =~= spec_data_message(data_message_model(*m)));
    }
    out
}

/// Decode the board datagram at `pos`; a frame that does not decode is the
/// caller's to discard.
#[verifier::loop_isolation(false)]
pub fn decode_data_message(bytes: &Vec<u8>, pos: usize) -> (r: Option<(DataMessage, usize)>)
    requires
        pos <= bytes@.len(),
    ensures
        match take_data_message(bytes@.skip(pos as int)) {
            Option::Some((m, rest)) => {
                &&& r matches Some(p)
                &&& data_message_model(p.0) == m
                &&& pos < p.1 <= bytes@.len()
                &&& rest == bytes@.skip(p.1 as int)
            },
            Option::None => r is None,
        },
{
    match decode_varint(bytes, pos) {
        Some((tag, p1)) => {
            if tag == 0 {
                match decode_string(bytes, p1) {
                    Some((id, p2)) => Some((DataMessage::Identity(id), p2)),
                    None => None,
                }
            } else if tag == 1 {
                let (board, p2) = match decode_string(bytes, p1) {
                    Some(pair) => pair,
                    None => {
                        return None;
                    },
                };
                let (n, p3) = match decode_varint(bytes, p2) {
                    Some(pair) => pair,
                    None => {
                        return None;
                    },
                };
                let mut points: Vec<DataPoint> = Vec::new();
                let mut cur: usize = p3;
                let mut k: u64 = 0;
                while k < n
                    invariant
                        k <= n,
                        p3 <= cur <= bytes@.len(),
                        points@.len() == k,
                        take_data_points(bytes@.skip(p3 as int), n as int) == (match take_data_points(
                            bytes@.skip(cur as int),
                            n - k,
                        ) {
                            Option::Some((pts, rest)) => Option::Some((points@ + pts, rest)),
                            Option::None => Option::None::<(Seq<DataPoint>, Seq<u8>)>,
                        }),
                    decreases n - k,
                {
                    match decode_data_point(bytes, cur) {
                        Some((dp, next)) => {
                            let ghost points_before = points@;
                            points.push(dp);
                            proof {
                                let tail = take_data_points(bytes@.skip(next as int), n - k - 1);
                                if tail is Some {
                                    assert(points_before + (seq![dp] + tail.unwrap().0)
                                        =~= points@ + tail.unwrap().0);
                                }
                            }
                            cur = next;
                            k = k + 1;
                        },
                        None => {
                            return None;
                        },
                    }
                }
                proof {
                    assert(take_data_points(bytes@.skip(cur as int), 0) == Option::Some(
                        (Seq::<DataPoint>::empty(), bytes@.skip(cur as int)),
                    ));
                    assert(points@ + Seq::<DataPoint>::empty() =~= points@);
                }
                Some((DataMessage::Sam(board, points), cur))
            } else if tag == 2 {
                match decode_string(bytes, p1) {
                    Some((board, p2)) => Some((DataMessage::Bms(board), p2)),
                    None => None,
                }
            } else if tag == 3 {
                Some((DataMessage::FlightHeartbeat, p1))
            } else {
                None
            }
        },
        None => None,
    }
}

/// A control message on the wire: the variant tag, the channel, and the
/// powered flag as one byte.
pub open spec fn spec_sam_control(m: SamControlMessage) -> Seq<u8> {
    match m {
        SamControlMessage::ActuateValve { channel, powered } => spec_varint(0) + spec_varint(
            channel as u64,
        ) + seq![if powered { 1u8 } else { 0u8 }],
    }
}

/// The control message at the front of a byte stream, with the rest.
pub open spec fn take_sam_control(bytes: Seq<u8>) -> Option<(SamControlMessage, Seq<u8>)> {
    match take_varint(bytes) {
        Option::Some((tag, rest)) => if tag == 0 {
            match take_varint(rest) {
                Option::Some((ch, rest1)) => if ch > u32::MAX || rest1.len() == 0 {
                    Option::None
                } else if rest1.first() == 1 {
                    Option::Some(
                        (
                            SamControlMessage::ActuateValve { channel: ch as u32, powered: true },
                            rest1.drop_first(),
                        ),
                    )
                } else if rest1.first() == 0 {
                    Option::Some(
                        (
                            SamControlMessage::ActuateValve { channel: ch as u32, powered: false },
                            rest1.drop_first(),
                        ),
                    )
                } else {
                    Option::None
                },
                Option::None => Option::None,
            }
        } else {
            Option::None
        },
        Option::None => Option::None,
    }
}

/// Encoding then decoding a control message yields it back.
pub proof fn lemma_sam_control_round_trip(m: SamControlMessage, rest: Seq<u8>)
    ensures
        take_sam_control(spec_sam_control(m) + rest) == Option::Some((m, rest)),
{
    match m {
        SamControlMessage::ActuateValve { channel, powered } => {
            let byte = seq![if powered { 1u8 } else { 0u8 }];
            assert(spec_sam_control(m) + rest =~= spec_varint(0) + (spec_varint(channel as u64) + (
            byte + rest)));
            lemma_varint_round_trip(0, spec_varint(channel as u64) + (byte + rest));
            lemma_varint_round_trip(channel as u64, byte + rest);
            assert((byte + rest).first() == byte[0]);
            assert((byte + rest).drop_first() =~= rest);
        },
    }
}

/// Encode a control message for the wire; it fits the fixed command buffer.
pub fn encode_sam_control(m: &SamControlMessage) -> (r: Vec<u8>)
    ensures
        r@ == spec_sam_control(*m),
        r@.len() <= crate::COMMAND_MESSAGE_BUFFER_SIZE,
{
    let mut out: Vec<u8> = Vec::new();
    match m {
        SamControlMessage::ActuateValve { channel, powered } => {
            encode_varint(&mut out, 0);
            encode_varint(&mut out, *channel as u64);
            out.push(if *powered {
                1
            } else {
                0
            });
            proof {
                assert(out@ =~= spec_sam_control(*m));
                lemma_varint_len(*channel as u64);
            }
        },
    }
    out
}

/// A channel number's varint spends at most five bytes.
pub proof fn lemma_varint_len(x: u64)
    requires
        x <= u32::MAX,
    ensures
        spec_varint(x).len() <= 5,
{
    reveal_with_fuel(spec_varint, 6);
    vstd::arithmetic::div_mod::lemma_div_is_ordered(x as int, u32::MAX as int, 128);
    let x1 = (x / 128) as u64;
    vstd::arithmetic::div_mod::lemma_div_is_ordered(x1 as int, 0x1FFFFFF, 128);
    let x2 = (x1 / 128) as u64;
    vstd::arithmetic::div_mod::lemma_div_is_ordered(x2 as int, 0x3FFFF, 128);
    let x3 = (x2 / 128) as u64;
    vstd::arithmetic::div_mod::lemma_div_is_ordered(x3 as int, 0x7FF, 128);
    assert(x3 / 128 < 128);
}

/// Decode the control message at `pos`, as a board would.
pub fn decode_sam_control(bytes: &Vec<u8>, pos: usize) -> (r: Option<(SamControlMessage, usize)>)
    requires
        pos <= bytes@.len(),
    ensures
        match take_sam_control(bytes@.skip(pos as int)) {
            Option::Some((m, rest)) => {
                &&& r matches Some(p)
                &&& p.0 == m
                &&& pos < p.1 <= bytes@.len()
                &&& rest == bytes@.skip(p.1 as int)
            },
            Option::None => r is None,
        },
{
    match decode_varint(bytes, pos) {
        Some((tag, p1)) => {
            if tag != 0 {
                return None;
            }
            match decode_varint(bytes, p1) {
                Some((ch, p2)) => {
                    if ch > u32::MAX as u64 || p2 == bytes.len() {
                        return None;
                    }
                    let b = bytes[p2];
                    proof {
                        assert(bytes@.skip(p2 as int).first() == b);
                        assert(bytes@.skip(p2 as int).drop_first() =~= bytes@.skip(p2 + 1));
                    }
                    if b == 1 {
                        Some(
                            (
                                SamControlMessage::ActuateValve {
                                    channel: ch as u32,
                                    powered: true,
                                },
                                p2 + 1,
                            ),
                        )
                    } else if b == 0 {
                        Some(
                            (
                                SamControlMessage::ActuateValve {
                                    channel: ch as u32,
                                    powered: false,
                                },
                                p2 + 1,
                            ),
                        )
                    } else {
                        None
                    }
                },
                None => None,
            }
        },
        None => None,
    }
}

/// A boolean on the wire: one byte, strictly zero or one.
pub open spec fn spec_bool(b: bool) -> Seq<u8> {
    seq![if b { 1u8 } else { 0u8 }]
}

/// The boolean at the front of a byte stream, with the rest.
pub open spec fn take_bool(bytes: Seq<u8>) -> Option<(bool, Seq<u8>)> {
    if bytes.len() == 0 {
        Option::None
    } else if bytes.first() == 1 {
        Option::Some((true, bytes.drop_first()))
    } else if bytes.first() == 0 {
        Option::Some((false, bytes.drop_first()))
    } else {
        Option::None
    }
}

/// An optional signed value on the wire: an absence byte, or a presence
/// byte followed by the zigzagged value.
pub open spec fn spec_opt_value(v: Option<i64>) -> Seq<u8> {
    match v {
        Option::Some(x) => seq![1u8] + spec_varint(spec_zigzag(x)),
        Option::None => seq![0u8],
    }
}

/// The optional signed value at the front of a byte stream, with the rest.
pub open spec fn take_opt_value(bytes: Seq<u8>) -> Option<(Option<i64>, Seq<u8>)> {
    if bytes.len() == 0 {
        Option::None
    } else if bytes.first() == 0 {
        Option::Some((Option::None, bytes.drop_first()))
    } else if bytes.first() == 1 {
        match take_varint(bytes.drop_first()) {
            Option::Some((zz, rest)) => Option::Some((Option::Some(spec_unzigzag(zz)), rest)),
            Option::None => Option::None,
        }
    } else {
        Option::None
    }
}

/// An optional boolean on the wire.
pub open spec fn spec_opt_bool(v: Option<bool>) -> Seq<u8> {
    match v {
        Option::Some(b) => seq![1u8] + spec_bool(b),
        Option::None => seq![0u8],
    }
}

/// The optional boolean at the front of a byte stream, with the rest.
pub open spec fn take_opt_bool(bytes: Seq<u8>) -> Option<(Option<bool>, Seq<u8>)> {
    if bytes.len() == 0 {
        Option::None
    } else if bytes.first() == 0 {
        Option::Some((Option::None, bytes.drop_first()))
    } else if bytes.first() == 1 {
        match take_bool(bytes.drop_first()) {
            Option::Some((b, rest)) => Option::Some((Option::Some(b), rest)),
            Option::None => Option::None,
        }
    } else {
        Option::None
    }
}

/// The wire tag of a sensor type.
pub open spec fn sensor_type_tag(st: SensorType) -> u64 {
    match st {
        SensorType::Pt => 0,
        SensorType::LoadCell => 1,
        SensorType::Rtd => 2,
        SensorType::Tc => 3,
        SensorType::RailVoltage => 4,
        SensorType::RailCurrent => 5,
        SensorType::Valve => 6,
    }
}

/// The sensor type a wire tag stands for.
pub open spec fn sensor_type_from_tag(t: u64) -> Option<SensorType> {
    if t == 0 {
        Option::Some(SensorType::Pt)
    } else if t == 1 {
        Option::Some(SensorType::LoadCell)
    } else if t == 2 {
        Option::Some(SensorType::Rtd)
    } else if t == 3 {
        Option::Some(SensorType::Tc)
    } else if t == 4 {
        Option::Some(SensorType::RailVoltage)
    } else if t == 5 {
        Option::Some(SensorType::RailCurrent)
    } else if t == 6 {
        Option::Some(SensorType::Valve)
    } else {
        Option::None
    }
}

/// The abstract content of a node mapping: its strings as character
/// sequences, the rest as the plain values the wire spells.
pub struct NodeMappingModel {
    pub text_id: Seq<char>,
    pub board_id: Seq<char>,
    pub channel: u32,
    pub channel_type: ChannelType,
    pub sensor_type: SensorType,
    pub min: Option<i64>,
    pub max: Option<i64>,
    pub calibrated_offset: i64,
    pub powered_threshold: Option<i64>,
    pub normally_closed: Option<bool>,
}

/// The abstract content of a `NodeMapping` value.
pub open spec fn node_mapping_model(m: NodeMapping) -> NodeMappingModel {
    NodeMappingModel {
        text_id: m.text_id@,
        board_id: m.board_id@,
        channel: m.channel,
        channel_type: m.channel_type,
        sensor_type: m.sensor_type,
        min: m.min,
        max: m.max,
        calibrated_offset: m.calibrated_offset,
        powered_threshold: m.powered_threshold,
        normally_closed: m.normally_closed,
    }
}

/// The calibration tail of a mapping on the wire: bounds, offset,
/// threshold and polarity.
pub open spec fn spec_mapping_calibration(
    min: Option<i64>,
    max: Option<i64>,
    calibrated_offset: i64,
    powered_threshold: Option<i64>,
    normally_closed: Option<bool>,
) -> Seq<u8> {
    spec_opt_value(min) + spec_opt_value(max) + spec_varint(spec_zigzag(calibrated_offset))
        + spec_opt_value(powered_threshold) + spec_opt_bool(normally_closed)
}

/// The calibration tail at the front of a byte stream, with the rest.
pub open spec fn take_mapping_calibration(bytes: Seq<u8>) -> Option<
    ((Option<i64>, Option<i64>, i64, Option<i64>, Option<bool>), Seq<u8>),
> {
    match take_opt_value(bytes) {
        Option::Some((min, r1)) => match take_opt_value(r1) {
            Option::Some((max, r2)) => match take_varint(r2) {
                Option::Some((zz, r3)) => match take_opt_value(r3) {
                    Option::Some((threshold, r4)) => match take_opt_bool(r4) {
                        Option::Some((nc, r5)) => Option::Some(
                            ((min, max, spec_unzigzag(zz), threshold, nc), r5),
                        ),
                        Option::None => Option::None,
                    },
                    Option::None => Option::None,
                },
                Option::None => Option::None,
            },
            Option::None => Option::None,
        },
        Option::None => Option::None,
    }
}

/// Encoding then decoding a calibration tail yields it back.
#[verifier::rlimit(100)]
pub proof fn lemma_mapping_calibration_round_trip(
    min: Option<i64>,
    max: Option<i64>,
    calibrated_offset: i64,
    powered_threshold: Option<i64>,
    normally_closed: Option<bool>,
    rest: Seq<u8>,
)
    ensures
        take_mapping_calibration(
            spec_mapping_calibration(
                min,
                max,
                calibrated_offset,
                powered_threshold,
                normally_closed,
            ) + rest,
        ) == Option::Some(
            ((min, max, calibrated_offset, powered_threshold, normally_closed), rest),
        ),
{
    let t5 = spec_opt_bool(normally_closed) + rest;
    let t4 = spec_opt_value(powered_threshold) + t5;
    let t3 = spec_varint(spec_zigzag(calibrated_offset)) + t4;
    let t2 = spec_opt_value(max) + t3;
    let b = spec_mapping_calibration(
        min,
        max,
        calibrated_offset,
        powered_threshold,
        normally_closed,
    ) + rest;
    assert(b =~= spec_opt_value(min) + t2);
    lemma_opt_value_round_trip(min, t2);
    lemma_opt_value_round_trip(max, t3);
    lemma_varint_round_trip(spec_zigzag(calibrated_offset), t4);
    lemma_zigzag_round_trip(calibrated_offset);
    lemma_opt_value_round_trip(powered_threshold, t5);
    lemma_opt_bool_round_trip(normally_closed, rest);
}

/// A node mapping on the wire: its fields in declaration order.
pub open spec fn spec_node_mapping(m: NodeMappingModel) -> Seq<u8> {
    spec_string(m.text_id) + spec_string(m.board_id) + spec_varint(m.channel as u64)
        + spec_varint(channel_type_tag(m.channel_type)) + spec_varint(
        sensor_type_tag(m.sensor_type),
    ) + spec_mapping_calibration(
        m.min,
        m.max,
        m.calibrated_offset,
        m.powered_threshold,
        m.normally_closed,
    )
}

/// The node mapping at the front of a byte stream, with the rest.
pub open spec fn take_node_mapping(bytes: Seq<u8>) -> Option<(NodeMappingModel, Seq<u8>)> {
    match take_string(bytes) {
        Option::Some((text_id, r1)) => match take_string(r1) {
            Option::Some((board_id, r2)) => match take_varint(r2) {
                Option::Some((ch, r3)) => if ch > u32::MAX {
                    Option::None
                } else {
                    match take_varint(r3) {
                        Option::Some((ct_tag, r4)) => match channel_type_from_tag(ct_tag) {
                            Option::Some(ct) => match take_varint(r4) {
                                Option::Some((st_tag, r5)) => match sensor_type_from_tag(st_tag) {
                                    Option::Some(st) => match take_mapping_calibration(r5) {
                                        Option::Some((cal, r6)) => Option::Some(
                                            (
                                                NodeMappingModel {
                                                    text_id,
                                                    board_id,
                                                    channel: ch as u32,
                                                    channel_type: ct,
                                                    sensor_type: st,
                                                    min: cal.0,
                                                    max: cal.1,
                                                    calibrated_offset: cal.2,
                                                    powered_threshold: cal.3,
                                                    normally_closed: cal.4,
                                                },
                                                r6,
                                            ),
                                        ),
                                        Option::None => Option::None,
                                    },
                                    Option::None => Option::None,
                                },
                                Option::None => Option::None,
                            },
                            Option::None => Option::None,
                        },
                        Option::None => Option::None,
                    }
                },
                Option::None => Option::None,
            },
            Option::None => Option::None,
        },
        Option::None => Option::None,
    }
}

/// The string fields of a mapping fit the wire's length prefix.
pub open spec fn node_mapping_model_wf(m: NodeMappingModel) -> bool {
    encode_utf8(m.text_id).len() <= u64::MAX && encode_utf8(m.board_id).len() <= u64::MAX
}

/// Encoding then decoding an optional value yields it back.
pub proof fn lemma_opt_value_round_trip(v: Option<i64>, rest: Seq<u8>)
    ensures
        take_opt_value(spec_opt_value(v) + rest) == Option::Some((v, rest)),
{
    match v {
        Option::Some(x) => {
            assert(spec_opt_value(v) + rest =~= seq![1u8] + (spec_varint(spec_zigzag(x)) + rest));
            assert((seq![1u8] + (spec_varint(spec_zigzag(x)) + rest)).drop_first()
                =~= spec_varint(spec_zigzag(x)) + rest);
            lemma_varint_round_trip(spec_zigzag(x), rest);
            lemma_zigzag_round_trip(x);
        },
        Option::None => {
            assert((spec_opt_value(v) + rest).drop_first() =~= rest);
        },
    }
}

/// Encoding then decoding an optional boolean yields it back.
pub proof fn lemma_opt_bool_round_trip(v: Option<bool>, rest: Seq<u8>)
    ensures
        take_opt_bool(spec_opt_bool(v) + rest) == Option::Some((v, rest)),
{
    match v {
        Option::Some(b) => {
            assert(spec_opt_bool(v) + rest =~= seq![1u8] + (spec_bool(b) + rest));
            assert((seq![1u8] + (spec_bool(b) + rest)).drop_first() =~= spec_bool(b) + rest);
            assert((spec_bool(b) + rest).drop_first() =~= rest);
        },
        Option::None => {
            assert((spec_opt_bool(v) + rest).drop_first() =~= rest);
        },
    }
}

/// Encoding then decoding a node mapping yields it back.
#[verifier::rlimit(100)]
pub proof fn lemma_node_mapping_round_trip(m: NodeMappingModel, rest: Seq<u8>)
    requires
        node_mapping_model_wf(m),
    ensures
        take_node_mapping(spec_node_mapping(m) + rest) == Option::Some((m, rest)),
{
    let b = spec_node_mapping(m) + rest;
    let t6 = spec_mapping_calibration(
        m.min,
        m.max,
        m.calibrated_offset,
        m.powered_threshold,
        m.normally_closed,
    ) + rest;
    let t5 = spec_varint(sensor_type_tag(m.sensor_type)) + t6;
    let t4 = spec_varint(channel_type_tag(m.channel_type)) + t5;
    let t3 = spec_varint(m.channel as u64) + t4;
    let t2 = spec_string(m.board_id) + t3;
    assert(b =~= spec_string(m.text_id) + t2);
    lemma_string_round_trip(m.text_id, t2);
    assert(take_string(b) == Option::Some((m.text_id, t2)));
    lemma_string_round_trip(m.board_id, t3);
    assert(take_string(t2) == Option::Some((m.board_id, t3)));
    lemma_varint_round_trip(m.channel as u64, t4);
    lemma_varint_round_trip(channel_type_tag(m.channel_type), t5);
    assert(channel_type_from_tag(channel_type_tag(m.channel_type)) == Option::Some(
        m.channel_type,
    ));
    lemma_varint_round_trip(sensor_type_tag(m.sensor_type), t6);
    assert(sensor_type_from_tag(sensor_type_tag(m.sensor_type)) == Option::Some(m.sensor_type));
    lemma_mapping_calibration_round_trip(
        m.min,
        m.max,
        m.calibrated_offset,
        m.powered_threshold,
        m.normally_closed,
        rest,
    );
}

/// Append a boolean byte to `out`.
fn encode_bool(out: &mut Vec<u8>, b: bool)
    ensures
        final(out)@ == old(out)@ + spec_bool(b),
{
    out.push(if b {
        1
    } else {
        0
    });
    proof {
        assert(out@ =~= old(out)@ + spec_bool(b));
    }
}

/// Append an optional signed value to `out`.
fn encode_opt_value(out: &mut Vec<u8>, v: &Option<i64>)
    ensures
        final(out)@ == old(out)@ + spec_opt_value(*v),
{
    match v {
        Some(x) => {
            out.push(1);
            encode_varint(out, zigzag(*x));
            proof {
                assert(out@ =~= old(out)@ + spec_opt_value(*v));
            }
        },
        None => {
            out.push(0);
            proof {
                assert(out@ =~= old(out)@ + spec_opt_value(*v));
            }
        },
    }
}

/// Append an optional boolean to `out`.
fn encode_opt_bool(out: &mut Vec<u8>, v: &Option<bool>)
    ensures
        final(out)@ == old(out)@ + spec_opt_bool(*v),
{
    match v {
        Some(b) => {
            out.push(1);
            encode_bool(out, *b);
            proof {
                assert(out@ =~= old(out)@ + spec_opt_bool(*v));
            }
        },
        None => {
            out.push(0);
            proof {
                assert(out@ =~= old(out)@ + spec_opt_bool(*v));
            }
        },
    }
}

/// Read the optional signed value at `pos`.
fn decode_opt_value(bytes: &Vec<u8>, pos: usize) -> (r: Option<(Option<i64>, usize)>)
    requires
        pos <= bytes@.len(),
    ensures
        match take_opt_value(bytes@.skip(pos as int)) {
            Option::Some((v, rest)) => {
                &&& r matches Some(p)
                &&& p.0 == v
                &&& pos < p.1 <= bytes@.len()
                &&& rest == bytes@.skip(p.1 as int)
            },
            Option::None => r is None,
        },
{
    if pos == bytes.len() {
        return None;
    }
    let b = bytes[pos];
    proof {
        assert(bytes@.skip(pos as int).first() == b);
        assert(bytes@.skip(pos as int).drop_first() =~= bytes@.skip(pos + 1));
    }
    if b == 0 {
        Some((None, pos + 1))
    } else if b == 1 {
        match decode_varint(bytes, pos + 1) {
            Some((zz, end)) => Some((Some(unzigzag(zz)), end)),
            None => None,
        }
    } else {
        None
    }
}

/// Read the optional boolean at `pos`.
fn decode_opt_bool(bytes: &Vec<u8>, pos: usize) -> (r: Option<(Option<bool>, usize)>)
    requires
        pos <= bytes@.len(),
    ensures
        match take_opt_bool(bytes@.skip(pos as int)) {
            Option::Some((v, rest)) => {
                &&& r matches Some(p)
                &&& p.0 == v
                &&& pos < p.1 <= bytes@.len()
                &&& rest == bytes@.skip(p.1 as int)
            },
            Option::None => r is None,
        },
{
    if pos == bytes.len() {
        return None;
    }
    let b = bytes[pos];
    proof {
        assert(bytes@.skip(pos as int).first() == b);
        assert(bytes@.skip(pos as int).drop_first() =~= bytes@.skip(pos + 1));
    }
    if b == 0 {
        Some((None, pos + 1))
    } else if b == 1 {
        if pos + 1 == bytes.len() {
            return None;
        }
        let inner = bytes[pos + 1];
        proof {
            assert(bytes@.skip(pos + 1).first() == inner);
            assert(bytes@.skip(pos + 1).drop_first() =~= bytes@.skip(pos + 2));
        }
        if inner == 1 {
            Some((Some(true), pos + 2))
        } else if inner == 0 {
            Some((Some(false), pos + 2))
        } else {
            None
        }
    } else {
        None
    }
}

/// The wire tag of a sensor type.
fn encode_sensor_type_tag(st: &SensorType) -> (r: u64)
    ensures
        r == sensor_type_tag(*st),
{
    match st {
        SensorType::Pt => 0,
        SensorType::LoadCell => 1,
        SensorType::Rtd => 2,
        SensorType::Tc => 3,
        SensorType::RailVoltage => 4,
        SensorType::RailCurrent => 5,
        SensorType::Valve => 6,
    }
}

/// The sensor type a wire tag stands for.
fn decode_sensor_type(tag: u64) -> (r: Option<SensorType>)
    ensures
        r == sensor_type_from_tag(tag),
{
    if tag == 0 {
        Some(SensorType::Pt)
    } else if tag == 1 {
        Some(SensorType::LoadCell)
    } else if tag == 2 {
        Some(SensorType::Rtd)
    } else if tag == 3 {
        Some(SensorType::Tc)
    } else if tag == 4 {
        Some(SensorType::RailVoltage)
    } else if tag == 5 {
        Some(SensorType::RailCurrent)
    } else if tag == 6 {
        Some(SensorType::Valve)
    } else {
        None
    }
}

/// The wire tag of a channel type.
fn encode_channel_type_tag(ct: &ChannelType) -> (r: u64)
    ensures
        r == channel_type_tag(*ct),
{
    match ct {
        ChannelType::CurrentLoop => 0,
        ChannelType::DifferentialSignal => 1,
        ChannelType::ValveVoltage => 2,
        ChannelType::ValveCurrent => 3,
        ChannelType::Rtd => 4,
        ChannelType::Tc => 5,
        ChannelType::RailVoltage => 6,
        ChannelType::RailCurrent => 7,
    }
}

/// Append the encoding of a node mapping to `out`.
#[verifier::rlimit(100)]
pub fn encode_node_mapping(out: &mut Vec<u8>, m: &NodeMapping)
    ensures
        final(out)@ == old(out)@ + spec_node_mapping(node_mapping_model(*m)),
{
    let ghost mv = node_mapping_model(*m);
    encode_string(out, &m.text_id);
    encode_string(out, &m.board_id);
    proof {
        assert(out@ =~= old(out)@ + (spec_string(mv.text_id) + spec_string(mv.board_id)));
    }
    let ghost g2 = spec_string(mv.text_id) + spec_string(mv.board_id);
    encode_varint(out, m.channel as u64);
    encode_varint(out, encode_channel_type_tag(&m.channel_type));
    encode_varint(out, encode_sensor_type_tag(&m.sensor_type));
    proof {
        assert(out@ =~= old(out)@ + (g2 + spec_varint(mv.channel as u64) + spec_varint(
            channel_type_tag(mv.channel_type),
        ) + spec_varint(sensor_type_tag(mv.sensor_type))));
    }
    let ghost g5 = g2 + spec_varint(mv.channel as u64) + spec_varint(
        channel_type_tag(mv.channel_type),
    ) + spec_varint(sensor_type_tag(mv.sensor_type));
    encode_opt_value(out, &m.min);
    encode_opt_value(out, &m.max);
    encode_varint(out, zigzag(m.calibrated_offset));
    encode_opt_value(out, &m.powered_threshold);
    encode_opt_bool(out, &m.normally_closed);
    proof {
        assert(out@ =~= old(out)@ + (g5 + spec_mapping_calibration(
            mv.min,
            mv.max,
            mv.calibrated_offset,
            mv.powered_threshold,
            mv.normally_closed,
        )));
        assert(g5 + spec_mapping_calibration(
            mv.min,
            mv.max,
            mv.calibrated_offset,
            mv.powered_threshold,
            mv.normally_closed,
        ) =~= spec_node_mapping(mv));
    }
}

/// Read the node mapping at `pos`, as the spec-level taker does.
#[verifier::rlimit(100)]
pub fn decode_node_mapping(bytes: &Vec<u8>, pos: usize) -> (r: Option<(NodeMapping, usize)>)
    requires
        pos <= bytes@.len(),
    ensures
        match take_node_mapping(bytes@.skip(pos as int)) {
            Option::Some((m, rest)) => {
                &&& r matches Some(p)
                &&& node_mapping_model(p.0) == m
                &&& pos < p.1 <= bytes@.len()
                &&& rest == bytes@.skip(p.1 as int)
            },
            Option::None => r is None,
        },
{
    let (text_id, p1) = match decode_string(bytes, pos) {
        Some(pair) => pair,
        None => {
            return None;
        },
    };
    let (board_id, p2) = match decode_string(bytes, p1) {
        Some(pair) => pair,
        None => {
            return None;
        },
    };
    let (ch, p3) = match decode_varint(bytes, p2) {
        Some(pair) => pair,
        None => {
            return None;
        },
    };
    if ch > u32::MAX as u64 {
        return None;
    }
    let (ct_tag, p4) = match decode_varint(bytes, p3) {
        Some(pair) => pair,
        None => {
            return None;
        },
    };
    let ct = match decode_channel_type(ct_tag) {
        Some(ct) => ct,
        None => {
            return None;
        },
    };
    let (st_tag, p5) = match decode_varint(bytes, p4) {
        Some(pair) => pair,
        None => {
            return None;
        },
    };
    let st = match decode_sensor_type(st_tag) {
        Some(st) => st,
        None => {
            return None;
        },
    };
    let (min, p6) = match decode_opt_value(bytes, p5) {
        Some(pair) => pair,
        None => {
            return None;
        },
    };
    let (max, p7) = match decode_opt_value(bytes, p6) {
        Some(pair) => pair,
        None => {
            return None;
        },
    };
    let (zz, p8) = match decode_varint(bytes, p7) {
        Some(pair) => pair,
        None => {
            return None;
        },
    };
    let (threshold, p9) = match decode_opt_value(bytes, p8) {
        Some(pair) => pair,
        None => {
            return None;
        },
    };
    let (nc, p10) = match decode_opt_bool(bytes, p9) {
        Some(pair) => pair,
        None => {
            return None;
        },
    };
    Some(
        (
            NodeMapping {
                text_id,
                board_id,
                channel: ch as u32,
                channel_type: ct,
                sensor_type: st,
                min,
                max,
                calibrated_offset: unzigzag(zz),
                powered_threshold: threshold,
                normally_closed: nc,
            },
            p10,
        ),
    )
}

/// The abstract content of an operator message.
pub enum FlightControlModel {
    Mappings(Seq<NodeMappingModel>),
    Sequence(Seq<char>, Seq<char>),
    Trigger(Seq<char>, Seq<char>, Seq<char>, bool),
}

/// The abstract content of a `FlightControlMessage` value.
pub open spec fn flight_control_model(m: FlightControlMessage) -> FlightControlModel {
    match m {
        FlightControlMessage::Mappings(list) => FlightControlModel::Mappings(
            list@.map_values(|nm: NodeMapping| node_mapping_model(nm)),
        ),
        FlightControlMessage::Sequence(seq) => FlightControlModel::Sequence(
            seq.name@,
            seq.script@,
        ),
        FlightControlMessage::Trigger(t) => FlightControlModel::Trigger(
            t.name@,
            t.condition@,
            t.script@,
            t.active,
        ),
    }
}

/// A run of node mappings on the wire, in order.
pub open spec fn spec_mapping_list(ms: Seq<NodeMappingModel>) -> Seq<u8>
    decreases ms.len(),
{
    if ms.len() == 0 {
        Seq::empty()
    } else {
        spec_node_mapping(ms.first()) + spec_mapping_list(ms.drop_first())
    }
}

/// A run of `n` node mappings at the front of a byte stream, with the rest.
pub open spec fn take_mapping_list(bytes: Seq<u8>, n: int) -> Option<
    (Seq<NodeMappingModel>, Seq<u8>),
>
    decreases n,
{
    if n <= 0 {
        Option::Some((Seq::empty(), bytes))
    } else {
        match take_node_mapping(bytes) {
            Option::Some((m, rest)) => match take_mapping_list(rest, n - 1) {
                Option::Some((ms, rest2)) => Option::Some((seq![m] + ms, rest2)),
                Option::None => Option::None,
            },
            Option::None => Option::None,
        }
    }
}

/// Appending one more mapping to a run extends its encoding at the end.
pub proof fn lemma_mapping_list_snoc(ms: Seq<NodeMappingModel>, m: NodeMappingModel)
    ensures
        spec_mapping_list(ms.push(m)) == spec_mapping_list(ms) + spec_node_mapping(m),
    decreases ms.len(),
{
    reveal_with_fuel(spec_mapping_list, 3);
    if ms.len() == 0 {
        assert(ms.push(m).first() == m);
        assert(ms.push(m).drop_first() =~= Seq::<NodeMappingModel>::empty());
        assert(spec_mapping_list(ms.push(m)) =~= spec_mapping_list(ms) + spec_node_mapping(m));
    } else {
        assert(ms.push(m).first() == ms.first());
        assert(ms.push(m).drop_first() =~= ms.drop_first().push(m));
        lemma_mapping_list_snoc(ms.drop_first(), m);
        assert(spec_mapping_list(ms.push(m)) =~= spec_mapping_list(ms) + spec_node_mapping(m));
    }
}

/// Every mapping of a run fits the wire.
pub open spec fn mapping_list_wf(ms: Seq<NodeMappingModel>) -> bool {
    forall|i: int| 0 <= i < ms.len() ==> node_mapping_model_wf(#[trigger] ms[i])
}

/// Encoding then decoding a run of node mappings yields it back.
#[verifier::rlimit(100)]
pub proof fn lemma_mapping_list_round_trip(ms: Seq<NodeMappingModel>, rest: Seq<u8>)
    requires
        mapping_list_wf(ms),
    ensures
        take_mapping_list(spec_mapping_list(ms) + rest, ms.len() as int) == Option::Some(
            (ms, rest),
        ),
    decreases ms.len(),
{
    if ms.len() == 0 {
        assert(spec_mapping_list(ms) + rest =~= rest);
        assert(ms =~= Seq::<NodeMappingModel>::empty());
    } else {
        assert(spec_mapping_list(ms) + rest =~= spec_node_mapping(ms.first()) + (
        spec_mapping_list(ms.drop_first()) + rest));
        lemma_node_mapping_round_trip(ms.first(), spec_mapping_list(ms.drop_first()) + rest);
        assert(mapping_list_wf(ms.drop_first()));
        lemma_mapping_list_round_trip(ms.drop_first(), rest);
        assert(seq![ms.first()] + ms.drop_first() =~= ms);
    }
}

/// An operator message on the wire: the variant tag, then its fields.
pub open spec fn spec_flight_control(m: FlightControlModel) -> Seq<u8> {
    match m {
        FlightControlModel::Mappings(ms) => spec_varint(0) + spec_varint(ms.len() as u64)
            + spec_mapping_list(ms),
        FlightControlModel::Sequence(name, script) => spec_varint(1) + spec_string(name)
            + spec_string(script),
        FlightControlModel::Trigger(name, condition, script, active) => spec_varint(2)
            + spec_string(name) + spec_string(condition) + spec_string(script) + spec_bool(
            active,
        ),
    }
}

/// The operator message at the front of a byte stream, with the rest.
pub open spec fn take_flight_control(bytes: Seq<u8>) -> Option<(FlightControlModel, Seq<u8>)> {
    match take_varint(bytes) {
        Option::Some((tag, rest)) => if tag == 0 {
            match take_varint(rest) {
                Option::Some((n, r1)) => match take_mapping_list(r1, n as int) {
                    Option::Some((ms, r2)) => Option::Some((FlightControlModel::Mappings(ms), r2)),
                    Option::None => Option::None,
                },
                Option::None => Option::None,
            }
        } else if tag == 1 {
            match take_string(rest) {
                Option::Some((name, r1)) => match take_string(r1) {
                    Option::Some((script, r2)) => Option::Some(
                        (FlightControlModel::Sequence(name, script), r2),
                    ),
                    Option::None => Option::None,
                },
                Option::None => Option::None,
            }
        } else if tag == 2 {
            match take_string(rest) {
                Option::Some((name, r1)) => match take_string(r1) {
                    Option::Some((condition, r2)) => match take_string(r2) {
                        Option::Some((script, r3)) => match take_bool(r3) {
                            Option::Some((active, r4)) => Option::Some(
                                (FlightControlModel::Trigger(name, condition, script, active), r4),
                            ),
                            Option::None => Option::None,
                        },
                        Option::None => Option::None,
                    },
                    Option::None => Option::None,
                },
                Option::None => Option::None,
            }
        } else {
            Option::None
        },
        Option::None => Option::None,
    }
}

/// The fields of an operator message fit the wire.
pub open spec fn flight_control_model_wf(m: FlightControlModel) -> bool {
    match m {
        FlightControlModel::Mappings(ms) => ms.len() <= u64::MAX && mapping_list_wf(ms),
        FlightControlModel::Sequence(name, script) => encode_utf8(name).len() <= u64::MAX
            && encode_utf8(script).len() <= u64::MAX,
        FlightControlModel::Trigger(name, condition, script, _) => encode_utf8(name).len()
            <= u64::MAX && encode_utf8(condition).len() <= u64::MAX && encode_utf8(script).len()
            <= u64::MAX,
    }
}

/// Encoding then decoding an operator message yields it back.
#[verifier::rlimit(100)]
pub proof fn lemma_flight_control_round_trip(m: FlightControlModel, rest: Seq<u8>)
    requires
        flight_control_model_wf(m),
    ensures
        take_flight_control(spec_flight_control(m) + rest) == Option::Some((m, rest)),
{
    match m {
        FlightControlModel::Mappings(ms) => {
            let t2 = spec_mapping_list(ms) + rest;
            let t1 = spec_varint(ms.len() as u64) + t2;
            assert(spec_flight_control(m) + rest =~= spec_varint(0) + t1);
            lemma_varint_round_trip(0, t1);
            lemma_varint_round_trip(ms.len() as u64, t2);
            lemma_mapping_list_round_trip(ms, rest);
        },
        FlightControlModel::Sequence(name, script) => {
            let t2 = spec_string(script) + rest;
            let t1 = spec_string(name) + t2;
            assert(spec_flight_control(m) + rest =~= spec_varint(1) + t1);
            lemma_varint_round_trip(1, t1);
            lemma_string_round_trip(name, t2);
            lemma_string_round_trip(script, rest);
        },
        FlightControlModel::Trigger(name, condition, script, active) => {
            let t4 = spec_bool(active) + rest;
            let t3 = spec_string(script) + t4;
            let t2 = spec_string(condition) + t3;
            let t1 = spec_string(name) + t2;
            assert(spec_flight_control(m) + rest =~= spec_varint(2) + t1);
            lemma_varint_round_trip(2, t1);
            lemma_string_round_trip(name, t2);
            lemma_string_round_trip(condition, t3);
            lemma_string_round_trip(script, t4);
            assert((spec_bool(active) + rest).first() == spec_bool(active)[0]);
            assert((spec_bool(active) + rest).drop_first() =~= rest);
        },
    }
}

/// Encode an operator message for the wire.
#[verifier::rlimit(100)]
pub fn encode_flight_control(m: &FlightControlMessage) -> (r: Vec<u8>)
    ensures
        r@ == spec_flight_control(flight_control_model(*m)),
{
    let mut out: Vec<u8> = Vec::new();
    match m {
        FlightControlMessage::Mappings(list) => {
            encode_varint(&mut out, 0);
            encode_varint(&mut out, list.len() as u64);
            let ghost head = out@;
            let ghost models = list@.map_values(|nm: NodeMapping| node_mapping_model(nm));
            let mut i: usize = 0;
            while i < list.len()
                invariant
                    i <= list@.len(),
                    models == list@.map_values(|nm: NodeMapping| node_mapping_model(nm)),
                    out@ == head + spec_mapping_list(models.take(i as int)),
                decreases list@.len() - i,
            {
                encode_node_mapping(&mut out, &list[i]);
                proof {
                    assert(models.take(i + 1) =~= models.take(i as int).push(models[i as int]));
                    lemma_mapping_list_snoc(models.take(i as int), models[i as int]);
                    assert(out@ =~= head + spec_mapping_list(models.take(i + 1)));
                }
                i = i + 1;
            }
            proof {
                assert(models.take(models.len() as int) =~= models);
            }
        },
        FlightControlMessage::Sequence(seq) => {
            encode_varint(&mut out, 1);
            encode_string(&mut out, &seq.name);
            encode_string(&mut out, &seq.script);
        },
        FlightControlMessage::Trigger(t) => {
            encode_varint(&mut out, 2);
            encode_string(&mut out, &t.name);
            encode_string(&mut out, &t.condition);
            encode_string(&mut out, &t.script);
            encode_bool(&mut out, t.active);
        },
    }
    proof {
        assert(out@ =~= spec_flight_control(flight_control_model(*m)));
    }
    out
}

/// Decode the operator message at `pos`; a frame that does not decode
/// leaves the operator state untouched.
#[verifier::loop_isolation(false)]
#[verifier::rlimit(100)]
pub fn decode_flight_control(bytes: &Vec<u8>, pos: usize) -> (r: Option<
    (FlightControlMessage, usize),
>)
    requires
        pos <= bytes@.len(),
    ensures
        match take_flight_control(bytes@.skip(pos as int)) {
            Option::Some((m, rest)) => {
                &&& r matches Some(p)
                &&& flight_control_model(p.0) == m
                &&& pos < p.1 <= bytes@.len()
                &&& rest == bytes@.skip(p.1 as int)
            },
            Option::None => r is None,
        },
{
    match decode_varint(bytes, pos) {
        Some((tag, p1)) => {
            if tag == 0 {
                let (n, p2) = match decode_varint(bytes, p1) {
                    Some(pair) => pair,
                    None => {
                        return None;
                    },
                };
                let mut list: Vec<NodeMapping> = Vec::new();
                let mut cur: usize = p2;
                let mut k: u64 = 0;
                while k < n
                    invariant
                        k <= n,
                        p2 <= cur <= bytes@.len(),
                        list@.len() == k,
                        take_mapping_list(bytes@.skip(p2 as int), n as int) == (match take_mapping_list(
                            bytes@.skip(cur as int),
                            n - k,
                        ) {
                            Option::Some((ms, rest)) => Option::Some(
                                (
                                    list@.map_values(|nm: NodeMapping| node_mapping_model(nm))
                                        + ms,
                                    rest,
                                ),
                            ),
                            Option::None => Option::None::<(Seq<NodeMappingModel>, Seq<u8>)>,
                        }),
                    decreases n - k,
                {
                    match decode_node_mapping(bytes, cur) {
                        Some((m, next)) => {
                            let ghost before = list@.map_values(
                                |nm: NodeMapping| node_mapping_model(nm),
                            );
                            list.push(m);
                            proof {
                                assert(list@.map_values(
                                    |nm: NodeMapping| node_mapping_model(nm),
                                ) =~= before.push(node_mapping_model(m)));
                                let tail = take_mapping_list(bytes@.skip(next as int), n - k - 1);
                                if tail is Some {
                                    assert(before + (seq![node_mapping_model(m)]
                                        + tail.unwrap().0) =~= before.push(node_mapping_model(m))
                                        + tail.unwrap().0);
                                }
                            }
                            cur = next;
                            k = k + 1;
                        },
                        None => {
                            return None;
                        },
                    }
                }
                proof {
                    assert(take_mapping_list(bytes@.skip(cur as int), 0) == Option::Some(
                        (Seq::<NodeMappingModel>::empty(), bytes@.skip(cur as int)),
                    ));
                    assert(list@.map_values(|nm: NodeMapping| node_mapping_model(nm))
                        + Seq::<NodeMappingModel>::empty() =~= list@.map_values(
                        |nm: NodeMapping| node_mapping_model(nm),
                    ));
                }
                Some((FlightControlMessage::Mappings(list), cur))
            } else if tag == 1 {
                let (name, p2) = match decode_string(bytes, p1) {
                    Some(pair) => pair,
                    None => {
                        return None;
                    },
                };
                let (script, p3) = match decode_string(bytes, p2) {
                    Some(pair) => pair,
                    None => {
                        return None;
                    },
                };
                Some((FlightControlMessage::Sequence(Sequence { name, script }), p3))
            } else if tag == 2 {
                let (name, p2) = match decode_string(bytes, p1) {
                    Some(pair) => pair,
                    None => {
                        return None;
                    },
                };
                let (condition, p3) = match decode_string(bytes, p2) {
                    Some(pair) => pair,
                    None => {
                        return None;
                    },
                };
                let (script, p4) = match decode_string(bytes, p3) {
                    Some(pair) => pair,
                    None => {
                        return None;
                    },
                };
                if p4 == bytes.len() {
                    return None;
                }
                let b = bytes[p4];
                proof {
                    assert(bytes@.skip(p4 as int).first() == b);
                    assert(bytes@.skip(p4 as int).drop_first() =~= bytes@.skip(p4 + 1));
                }
                let active = if b == 1 {
                    true
                } else if b == 0 {
                    false
                } else {
                    return None;
                };
                Some(
                    (
                        FlightControlMessage::Trigger(
                            Trigger { name, condition, script, active },
                        ),
                        p4 + 1,
                    ),
                )
            } else {
                None
            }
        },
        None => None,
    }
}

/// The wire tag of a measurement unit.
pub open spec fn unit_tag(u: Unit) -> u64 {
    match u {
        Unit::Volts => 0,
        Unit::Amps => 1,
        Unit::Kelvin => 2,
        Unit::Psi => 3,
        Unit::Pounds => 4,
        Unit::Unitless => 5,
    }
}

/// The unit a wire tag stands for.
pub open spec fn unit_from_tag(t: u64) -> Option<Unit> {
    if t == 0 {
        Option::Some(Unit::Volts)
    } else if t == 1 {
        Option::Some(Unit::Amps)
    } else if t == 2 {
        Option::Some(Unit::Kelvin)
    } else if t == 3 {
        Option::Some(Unit::Psi)
    } else if t == 4 {
        Option::Some(Unit::Pounds)
    } else if t == 5 {
        Option::Some(Unit::Unitless)
    } else {
        Option::None
    }
}

/// The wire tag of a valve state.
pub open spec fn valve_state_tag(v: ValveState) -> u64 {
    match v {
        ValveState::Open => 0,
        ValveState::Closed => 1,
        ValveState::Disconnected => 2,
        ValveState::Fault => 3,
        ValveState::Undetermined => 4,
    }
}

/// The valve state a wire tag stands for.
pub open spec fn valve_state_from_tag(t: u64) -> Option<ValveState> {
    if t == 0 {
        Option::Some(ValveState::Open)
    } else if t == 1 {
        Option::Some(ValveState::Closed)
    } else if t == 2 {
        Option::Some(ValveState::Disconnected)
    } else if t == 3 {
        Option::Some(ValveState::Fault)
    } else if t == 4 {
        Option::Some(ValveState::Undetermined)
    } else {
        Option::None
    }
}

/// One sensor entry of a telemetry snapshot: name, zigzagged value, unit.
pub open spec fn spec_sensor_entry(name: Seq<char>, m: Measurement) -> Seq<u8> {
    spec_string(name) + spec_varint(spec_zigzag(m.value)) + spec_varint(unit_tag(m.unit))
}

/// The sensor entry at the front of a byte stream, with the rest.
pub open spec fn take_sensor_entry(bytes: Seq<u8>) -> Option<((Seq<char>, Measurement), Seq<u8>)> {
    match take_string(bytes) {
        Option::Some((name, r1)) => match take_varint(r1) {
            Option::Some((zz, r2)) => match take_varint(r2) {
                Option::Some((ut, r3)) => match unit_from_tag(ut) {
                    Option::Some(unit) => Option::Some(
                        ((name, Measurement { value: spec_unzigzag(zz), unit }), r3),
                    ),
                    Option::None => Option::None,
                },
                Option::None => Option::None,
            },
            Option::None => Option::None,
        },
        Option::None => Option::None,
    }
}

/// One valve entry of a telemetry snapshot: name, commanded, actual.
pub open spec fn spec_valve_entry(name: Seq<char>, v: CompositeValveState) -> Seq<u8> {
    spec_string(name) + spec_varint(valve_state_tag(v.commanded)) + spec_varint(
        valve_state_tag(v.actual),
    )
}

/// The valve entry at the front of a byte stream, with the rest.
pub open spec fn take_valve_entry(bytes: Seq<u8>) -> Option<
    ((Seq<char>, CompositeValveState), Seq<u8>),
> {
    match take_string(bytes) {
        Option::Some((name, r1)) => match take_varint(r1) {
            Option::Some((ct, r2)) => match valve_state_from_tag(ct) {
                Option::Some(commanded) => match take_varint(r2) {
                    Option::Some((at, r3)) => match valve_state_from_tag(at) {
                        Option::Some(actual) => Option::Some(
                            ((name, CompositeValveState { commanded, actual }), r3),
                        ),
                        Option::None => Option::None,
                    },
                    Option::None => Option::None,
                },
                Option::None => Option::None,
            },
            Option::None => Option::None,
        },
        Option::None => Option::None,
    }
}

/// Encoding then decoding a sensor entry yields it back.
pub proof fn lemma_sensor_entry_round_trip(name: Seq<char>, m: Measurement, rest: Seq<u8>)
    requires
        encode_utf8(name).len() <= u64::MAX,
    ensures
        take_sensor_entry(spec_sensor_entry(name, m) + rest) == Option::Some(((name, m), rest)),
{
    let t2 = spec_varint(unit_tag(m.unit)) + rest;
    let t1 = spec_varint(spec_zigzag(m.value)) + t2;
    assert(spec_sensor_entry(name, m) + rest =~= spec_string(name) + t1);
    lemma_string_round_trip(name, t1);
    lemma_varint_round_trip(spec_zigzag(m.value), t2);
    lemma_zigzag_round_trip(m.value);
    lemma_varint_round_trip(unit_tag(m.unit), rest);
}

/// Encoding then decoding a valve entry yields it back.
pub proof fn lemma_valve_entry_round_trip(name: Seq<char>, v: CompositeValveState, rest: Seq<u8>)
    requires
        encode_utf8(name).len() <= u64::MAX,
    ensures
        take_valve_entry(spec_valve_entry(name, v) + rest) == Option::Some(((name, v), rest)),
{
    let t2 = spec_varint(valve_state_tag(v.actual)) + rest;
    let t1 = spec_varint(valve_state_tag(v.commanded)) + t2;
    assert(spec_valve_entry(name, v) + rest =~= spec_string(name) + t1);
    lemma_string_round_trip(name, t1);
    lemma_varint_round_trip(valve_state_tag(v.commanded), t2);
    lemma_varint_round_trip(valve_state_tag(v.actual), rest);
}

/// The view of a sensor table's entries.
pub open spec fn sensor_pairs_model(pairs: Seq<(String, Measurement)>) -> Seq<
    (Seq<char>, Measurement),
> {
    pairs.map_values(|p: (String, Measurement)| (p.0@, p.1))
}

/// The view of a valve table's entries.
pub open spec fn valve_pairs_model(pairs: Seq<(String, CompositeValveState)>) -> Seq<
    (Seq<char>, CompositeValveState),
> {
    pairs.map_values(|p: (String, CompositeValveState)| (p.0@, p.1))
}

/// A run of sensor entries on the wire, in order.
pub open spec fn spec_sensor_entries(entries: Seq<(Seq<char>, Measurement)>) -> Seq<u8>
    decreases entries.len(),
{
    if entries.len() == 0 {
        Seq::empty()
    } else {
        spec_sensor_entry(entries.first().0, entries.first().1) + spec_sensor_entries(
            entries.drop_first(),
        )
    }
}

/// A run of valve entries on the wire, in order.
pub open spec fn spec_valve_entries(entries: Seq<(Seq<char>, CompositeValveState)>) -> Seq<u8>
    decreases entries.len(),
{
    if entries.len() == 0 {
        Seq::empty()
    } else {
        spec_valve_entry(entries.first().0, entries.first().1) + spec_valve_entries(
            entries.drop_first(),
        )
    }
}

/// A telemetry snapshot on the wire: the two tables, each a counted run.
pub open spec fn spec_telemetry(
    sensors: Seq<(Seq<char>, Measurement)>,
    valves: Seq<(Seq<char>, CompositeValveState)>,
) -> Seq<u8> {
    spec_varint(sensors.len() as u64) + spec_sensor_entries(sensors) + spec_varint(
        valves.len() as u64,
    ) + spec_valve_entries(valves)
}

/// Appending one more sensor entry extends the run's encoding at the end.
pub proof fn lemma_sensor_entries_snoc(
    entries: Seq<(Seq<char>, Measurement)>,
    e: (Seq<char>, Measurement),
)
    ensures
        spec_sensor_entries(entries.push(e)) == spec_sensor_entries(entries) + spec_sensor_entry(
            e.0,
            e.1,
        ),
    decreases entries.len(),
{
    reveal_with_fuel(spec_sensor_entries, 3);
    if entries.len() == 0 {
        assert(entries.push(e).first() == e);
        assert(entries.push(e).drop_first() =~= Seq::<(Seq<char>, Measurement)>::empty());
        assert(spec_sensor_entries(entries.push(e)) =~= spec_sensor_entries(entries)
            + spec_sensor_entry(e.0, e.1));
    } else {
        assert(entries.push(e).first() == entries.first());
        assert(entries.push(e).drop_first() =~= entries.drop_first().push(e));
        lemma_sensor_entries_snoc(entries.drop_first(), e);
        assert(spec_sensor_entries(entries.push(e)) =~= spec_sensor_entries(entries)
            + spec_sensor_entry(e.0, e.1));
    }
}

/// Appending one more valve entry extends the run's encoding at the end.
pub proof fn lemma_valve_entries_snoc(
    entries: Seq<(Seq<char>, CompositeValveState)>,
    e: (Seq<char>, CompositeValveState),
)
    ensures
        spec_valve_entries(entries.push(e)) == spec_valve_entries(entries) + spec_valve_entry(
            e.0,
            e.1,
        ),
    decreases entries.len(),
{
    reveal_with_fuel(spec_valve_entries, 3);
    if entries.len() == 0 {
        assert(entries.push(e).first() == e);
        assert(entries.push(e).drop_first() =~= Seq::<(Seq<char>, CompositeValveState)>::empty());
        assert(spec_valve_entries(entries.push(e)) =~= spec_valve_entries(entries)
            + spec_valve_entry(e.0, e.1));
    } else {
        assert(entries.push(e).first() == entries.first());
        assert(entries.push(e).drop_first() =~= entries.drop_first().push(e));
        lemma_valve_entries_snoc(entries.drop_first(), e);
        assert(spec_valve_entries(entries.push(e)) =~= spec_valve_entries(entries)
            + spec_valve_entry(e.0, e.1));
    }
}

/// Encode a telemetry snapshot of the two tables' entries.
#[verifier::loop_isolation(false)]
#[verifier::rlimit(100)]
pub fn encode_telemetry(
    sensors: &Vec<(String, Measurement)>,
    valves: &Vec<(String, CompositeValveState)>,
) -> (r: Vec<u8>)
    ensures
        r@ == spec_telemetry(sensor_pairs_model(sensors@), valve_pairs_model(valves@)),
{
    let ghost sensors_model = sensor_pairs_model(sensors@);
    let ghost valves_model = valve_pairs_model(valves@);
    let mut out: Vec<u8> = Vec::new();
    encode_varint(&mut out, sensors.len() as u64);
    let ghost head1 = out@;
    let mut i: usize = 0;
    while i < sensors.len()
        invariant
            i <= sensors@.len(),
            out@ == head1 + spec_sensor_entries(sensors_model.take(i as int)),
        decreases sensors@.len() - i,
    {
        let ghost before = out@;
        encode_string(&mut out, &sensors[i].0);
        encode_varint(&mut out, zigzag(sensors[i].1.value));
        let ut: u64 = match sensors[i].1.unit {
            Unit::Volts => 0,
            Unit::Amps => 1,
            Unit::Kelvin => 2,
            Unit::Psi => 3,
            Unit::Pounds => 4,
            Unit::Unitless => 5,
        };
        encode_varint(&mut out, ut);
        proof {
            assert(out@ =~= before + spec_sensor_entry(
                sensors_model[i as int].0,
                sensors_model[i as int].1,
            ));
            assert(sensors_model.take(i + 1) =~= sensors_model.take(i as int).push(
                sensors_model[i as int],
            ));
            lemma_sensor_entries_snoc(sensors_model.take(i as int), sensors_model[i as int]);
            assert(out@ =~= head1 + spec_sensor_entries(sensors_model.take(i + 1)));
        }
        i = i + 1;
    }
    proof {
        assert(sensors_model.take(sensors_model.len() as int) =~= sensors_model);
    }
    encode_varint(&mut out, valves.len() as u64);
    let ghost head2 = out@;
    let mut j: usize = 0;
    while j < valves.len()
        invariant
            j <= valves@.len(),
            out@ == head2 + spec_valve_entries(valves_model.take(j as int)),
        decreases valves@.len() - j,
    {
        let ghost before = out@;
        encode_string(&mut out, &valves[j].0);
        encode_varint(&mut out, encode_valve_state_tag(&valves[j].1.commanded));
        encode_varint(&mut out, encode_valve_state_tag(&valves[j].1.actual));
        proof {
            assert(out@ =~= before + spec_valve_entry(
                valves_model[j as int].0,
                valves_model[j as int].1,
            ));
            assert(valves_model.take(j + 1) =~= valves_model.take(j as int).push(
                valves_model[j as int],
            ));
            lemma_valve_entries_snoc(valves_model.take(j as int), valves_model[j as int]);
            assert(out@ =~= head2 + spec_valve_entries(valves_model.take(j + 1)));
        }
        j = j + 1;
    }
    proof {
        assert(valves_model.take(valves_model.len() as int) =~= valves_model);
        assert(out@ =~= spec_telemetry(sensors_model, valves_model));
    }
    out
}

/// The wire tag of a valve state.
fn encode_valve_state_tag(v: &ValveState) -> (r: u64)
    ensures
        r == valve_state_tag(*v),
{
    match v {
        ValveState::Open => 0,
        ValveState::Closed => 1,
        ValveState::Disconnected => 2,
        ValveState::Fault => 3,
        ValveState::Undetermined => 4,
    }
}

/// A run of `n` sensor entries at the front of a byte stream.
pub open spec fn take_sensor_entries(bytes: Seq<u8>, n: int) -> Option<
    (Seq<(Seq<char>, Measurement)>, Seq<u8>),
>
    decreases n,
{
    if n <= 0 {
        Option::Some((Seq::empty(), bytes))
    } else {
        match take_sensor_entry(bytes) {
            Option::Some((e, rest)) => match take_sensor_entries(rest, n - 1) {
                Option::Some((es, rest2)) => Option::Some((seq![e] + es, rest2)),
                Option::None => Option::None,
            },
            Option::None => Option::None,
        }
    }
}

/// A run of `n` valve entries at the front of a byte stream.
pub open spec fn take_valve_entries(bytes: Seq<u8>, n: int) -> Option<
    (Seq<(Seq<char>, CompositeValveState)>, Seq<u8>),
>
    decreases n,
{
    if n <= 0 {
        Option::Some((Seq::empty(), bytes))
    } else {
        match take_valve_entry(bytes) {
            Option::Some((e, rest)) => match take_valve_entries(rest, n - 1) {
                Option::Some((es, rest2)) => Option::Some((seq![e] + es, rest2)),
                Option::None => Option::None,
            },
            Option::None => Option::None,
        }
    }
}

/// The telemetry snapshot at the front of a byte stream, with the rest.
pub open spec fn take_telemetry(bytes: Seq<u8>) -> Option<
    ((Seq<(Seq<char>, Measurement)>, Seq<(Seq<char>, CompositeValveState)>), Seq<u8>),
> {
    match take_varint(bytes) {
        Option::Some((n, r1)) => match take_sensor_entries(r1, n as int) {
            Option::Some((sensors, r2)) => match take_varint(r2) {
                Option::Some((m, r3)) => match take_valve_entries(r3, m as int) {
                    Option::Some((valves, r4)) => Option::Some(((sensors, valves), r4)),
                    Option::None => Option::None,
                },
                Option::None => Option::None,
            },
            Option::None => Option::None,
        },
        Option::None => Option::None,
    }
}

/// Every entry name of a snapshot fits the wire.
pub open spec fn sensor_entries_wf(entries: Seq<(Seq<char>, Measurement)>) -> bool {
    forall|i: int|
        0 <= i < entries.len() ==> encode_utf8((#[trigger] entries[i]).0).len() <= u64::MAX
}

/// Every valve name of a snapshot fits the wire.
pub open spec fn valve_entries_wf(entries: Seq<(Seq<char>, CompositeValveState)>) -> bool {
    forall|i: int|
        0 <= i < entries.len() ==> encode_utf8((#[trigger] entries[i]).0).len() <= u64::MAX
}

/// Encoding then decoding a run of sensor entries yields it back.
pub proof fn lemma_sensor_entries_round_trip(
    entries: Seq<(Seq<char>, Measurement)>,
    rest: Seq<u8>,
)
    requires
        sensor_entries_wf(entries),
    ensures
        take_sensor_entries(spec_sensor_entries(entries) + rest, entries.len() as int)
            == Option::Some((entries, rest)),
    decreases entries.len(),
{
    if entries.len() == 0 {
        assert(spec_sensor_entries(entries) + rest =~= rest);
        assert(entries =~= Seq::<(Seq<char>, Measurement)>::empty());
    } else {
        assert(spec_sensor_entries(entries) + rest =~= spec_sensor_entry(
            entries.first().0,
            entries.first().1,
        ) + (spec_sensor_entries(entries.drop_first()) + rest));
        lemma_sensor_entry_round_trip(
            entries.first().0,
            entries.first().1,
            spec_sensor_entries(entries.drop_first()) + rest,
        );
        assert(sensor_entries_wf(entries.drop_first()));
        lemma_sensor_entries_round_trip(entries.drop_first(), rest);
        assert(seq![entries.first()] + entries.drop_first() =~= entries);
    }
}

/// Encoding then decoding a run of valve entries yields it back.
pub proof fn lemma_valve_entries_round_trip(
    entries: Seq<(Seq<char>, CompositeValveState)>,
    rest: Seq<u8>,
)
    requires
        valve_entries_wf(entries),
    ensures
        take_valve_entries(spec_valve_entries(entries) + rest, entries.len() as int)
            == Option::Some((entries, rest)),
    decreases entries.len(),
{
    if entries.len() == 0 {
        assert(spec_valve_entries(entries) + rest =~= rest);
        assert(entries =~= Seq::<(Seq<char>, CompositeValveState)>::empty());
    } else {
        assert(spec_valve_entries(entries) + rest =~= spec_valve_entry(
            entries.first().0,
            entries.first().1,
        ) + (spec_valve_entries(entries.drop_first()) + rest));
        lemma_valve_entry_round_trip(
            entries.first().0,
            entries.first().1,
            spec_valve_entries(entries.drop_first()) + rest,
        );
        assert(valve_entries_wf(entries.drop_first()));
        lemma_valve_entries_round_trip(entries.drop_first(), rest);
        assert(seq![entries.first()] + entries.drop_first() =~= entries);
    }
}

/// Encoding then decoding a telemetry snapshot yields it back.
#[verifier::rlimit(100)]
pub proof fn lemma_telemetry_round_trip(
    sensors: Seq<(Seq<char>, Measurement)>,
    valves: Seq<(Seq<char>, CompositeValveState)>,
    rest: Seq<u8>,
)
    requires
        sensors.len() <= u64::MAX,
        valves.len() <= u64::MAX,
        sensor_entries_wf(sensors),
        valve_entries_wf(valves),
    ensures
        take_telemetry(spec_telemetry(sensors, valves) + rest) == Option::Some(
            ((sensors, valves), rest),
        ),
{
    let t3 = spec_valve_entries(valves) + rest;
    let t2 = spec_varint(valves.len() as u64) + t3;
    let t1 = spec_sensor_entries(sensors) + t2;
    assert(spec_telemetry(sensors, valves) + rest =~= spec_varint(sensors.len() as u64) + t1);
    lemma_varint_round_trip(sensors.len() as u64, t1);
    lemma_sensor_entries_round_trip(sensors, t2);
    lemma_varint_round_trip(valves.len() as u64, t3);
    lemma_valve_entries_round_trip(valves, rest);
}

/// Read the sensor entry at `pos`.
fn decode_sensor_entry(bytes: &Vec<u8>, pos: usize) -> (r: Option<((String, Measurement), usize)>)
    requires
        pos <= bytes@.len(),
    ensures
        match take_sensor_entry(bytes@.skip(pos as int)) {
            Option::Some((e, rest)) => {
                &&& r matches Some(p)
                &&& (p.0.0@, p.0.1) == e
                &&& pos < p.1 <= bytes@.len()
                &&& rest == bytes@.skip(p.1 as int)
            },
            Option::None => r is None,
        },
{
    let (name, p1) = match decode_string(bytes, pos) {
        Some(pair) => pair,
        None => {
            return None;
        },
    };
    let (zz, p2) = match decode_varint(bytes, p1) {
        Some(pair) => pair,
        None => {
            return None;
        },
    };
    let (ut, p3) = match decode_varint(bytes, p2) {
        Some(pair) => pair,
        None => {
            return None;
        },
    };
    let unit = if ut == 0 {
        Unit::Volts
    } else if ut == 1 {
        Unit::Amps
    } else if ut == 2 {
        Unit::Kelvin
    } else if ut == 3 {
        Unit::Psi
    } else if ut == 4 {
        Unit::Pounds
    } else if ut == 5 {
        Unit::Unitless
    } else {
        return None;
    };
    Some(((name, Measurement { value: unzigzag(zz), unit }), p3))
}

/// Read the valve entry at `pos`.
fn decode_valve_entry(bytes: &Vec<u8>, pos: usize) -> (r: Option<
    ((String, CompositeValveState), usize),
>)
    requires
        pos <= bytes@.len(),
    ensures
        match take_valve_entry(bytes@.skip(pos as int)) {
            Option::Some((e, rest)) => {
                &&& r matches Some(p)
                &&& (p.0.0@, p.0.1) == e
                &&& pos < p.1 <= bytes@.len()
                &&& rest == bytes@.skip(p.1 as int)
            },
            Option::None => r is None,
        },
{
    let (name, p1) = match decode_string(bytes, pos) {
        Some(pair) => pair,
        None => {
            return None;
        },
    };
    let (ct, p2) = match decode_varint(bytes, p1) {
        Some(pair) => pair,
        None => {
            return None;
        },
    };
    let commanded = match decode_valve_state(ct) {
        Some(v) => v,
        None => {
            return None;
        },
    };
    let (at, p3) = match decode_varint(bytes, p2) {
        Some(pair) => pair,
        None => {
            return None;
        },
    };
    let actual = match decode_valve_state(at) {
        Some(v) => v,
        None => {
            return None;
        },
    };
    Some(((name, CompositeValveState { commanded, actual }), p3))
}

/// The valve state a wire tag stands for.
fn decode_valve_state(tag: u64) -> (r: Option<ValveState>)
    ensures
        r == valve_state_from_tag(tag),
{
    if tag == 0 {
        Some(ValveState::Open)
    } else if tag == 1 {
        Some(ValveState::Closed)
    } else if tag == 2 {
        Some(ValveState::Disconnected)
    } else if tag == 3 {
        Some(ValveState::Fault)
    } else if tag == 4 {
        Some(ValveState::Undetermined)
    } else {
        None
    }
}

/// Decode the telemetry snapshot at `pos`, as the server side does.
#[verifier::loop_isolation(false)]
#[verifier::rlimit(100)]
pub fn decode_telemetry(bytes: &Vec<u8>, pos: usize) -> (r: Option<
    ((Vec<(String, Measurement)>, Vec<(String, CompositeValveState)>), usize),
>)
    requires
        pos <= bytes@.len(),
    ensures
        match take_telemetry(bytes@.skip(pos as int)) {
            Option::Some((tables, rest)) => {
                &&& r matches Some(p)
                &&& sensor_pairs_model(p.0.0@) == tables.0
                &&& valve_pairs_model(p.0.1@) == tables.1
                &&& pos <= p.1 <= bytes@.len()
                &&& rest == bytes@.skip(p.1 as int)
            },
            Option::None => r is None,
        },
{
    let (n, p1) = match decode_varint(bytes, pos) {
        Some(pair) => pair,
        None => {
            return None;
        },
    };
    let mut sensors: Vec<(String, Measurement)> = Vec::new();
    let mut cur: usize = p1;
    let mut k: u64 = 0;
    while k < n
        invariant
            k <= n,
            p1 <= cur <= bytes@.len(),
            sensors@.len() == k,
            take_sensor_entries(bytes@.skip(p1 as int), n as int) == (match take_sensor_entries(
                bytes@.skip(cur as int),
                n - k,
            ) {
                Option::Some((es, rest)) => Option::Some(
                    (sensor_pairs_model(sensors@) + es, rest),
                ),
                Option::None => Option::None::<(Seq<(Seq<char>, Measurement)>, Seq<u8>)>,
            }),
        decreases n - k,
    {
        match decode_sensor_entry(bytes, cur) {
            Some((e, next)) => {
                let ghost before = sensor_pairs_model(sensors@);
                let ghost emodel = (e.0@, e.1);
                sensors.push(e);
                proof {
                    assert(sensor_pairs_model(sensors@) =~= before.push(emodel));
                    let tail = take_sensor_entries(bytes@.skip(next as int), n - k - 1);
                    if tail is Some {
                        assert(before + (seq![emodel] + tail.unwrap().0) =~= before.push(emodel)
                            + tail.unwrap().0);
                    }
                }
                cur = next;
                k = k + 1;
            },
            None => {
                return None;
            },
        }
    }
    proof {
        assert(take_sensor_entries(bytes@.skip(cur as int), 0) == Option::Some(
            (Seq::<(Seq<char>, Measurement)>::empty(), bytes@.skip(cur as int)),
        ));
        assert(sensor_pairs_model(sensors@) + Seq::<(Seq<char>, Measurement)>::empty()
            =~= sensor_pairs_model(sensors@));
    }
    let (m, p2) = match decode_varint(bytes, cur) {
        Some(pair) => pair,
        None => {
            return None;
        },
    };
    let mut valves: Vec<(String, CompositeValveState)> = Vec::new();
    let mut vcur: usize = p2;
    let mut j: u64 = 0;
    while j < m
        invariant
            j <= m,
            p2 <= vcur <= bytes@.len(),
            valves@.len() == j,
            take_valve_entries(bytes@.skip(p2 as int), m as int) == (match take_valve_entries(
                bytes@.skip(vcur as int),
                m - j,
            ) {
                Option::Some((es, rest)) => Option::Some((valve_pairs_model(valves@) + es, rest)),
                Option::None => Option::None::<(Seq<(Seq<char>, CompositeValveState)>, Seq<u8>)>,
            }),
        decreases m - j,
    {
        match decode_valve_entry(bytes, vcur) {
            Some((e, next)) => {
                let ghost before = valve_pairs_model(valves@);
                let ghost emodel = (e.0@, e.1);
                valves.push(e);
                proof {
                    assert(valve_pairs_model(valves@) =~= before.push(emodel));
                    let tail = take_valve_entries(bytes@.skip(next as int), m - j - 1);
                    if tail is Some {
                        assert(before + (seq![emodel] + tail.unwrap().0) =~= before.push(emodel)
                            + tail.unwrap().0);
                    }
                }
                vcur = next;
                j = j + 1;
            },
            None => {
                return None;
            },
        }
    }
    proof {
        assert(take_valve_entries(bytes@.skip(vcur as int), 0) == Option::Some(
            (Seq::<(Seq<char>, CompositeValveState)>::empty(), bytes@.skip(vcur as int)),
        ));
        assert(valve_pairs_model(valves@) + Seq::<(Seq<char>, CompositeValveState)>::empty()
            =~= valve_pairs_model(valves@));
    }
    Some(((sensors, valves), vcur))
}

} // verus!
