//! The RESP protocol codec: framing, the encoder and the streaming decoder.
//!
//! A frame is modelled by [`FrameModel`], a purely mathematical mirror of
//! [`RespDataTypes`]; the encoder and decoder are specified against
//! [`spec_encode`] and [`spec_decode`], and the round-trip and streaming
//! laws are proved about those two functions.

use vstd::prelude::*;

use crate::num::{
    dec_i64, dec_usize, lemma_dec_i_bytes, lemma_parse_dec_of_dec_i, parse_dec, parse_line_int,
    spec_dec_i, spec_dec_u, LineInt,
};

verus! {

broadcast use {vstd::std_specs::vec::group_vec_axioms, vstd::seq::axiom_seq_index_decreases};

/// A decoded RESP frame. Payloads are raw bytes: bulk strings carry
/// arbitrary data, and the length is authoritative.
#[derive(Debug, PartialEq, Eq)]
pub enum RespDataTypes {
    /// `+<text>\r\n`
    SimpleString(Vec<u8>),
    /// `-<text>\r\n`
    SimpleError(Vec<u8>),
    /// `:<int>\r\n`
    Integer(i64),
    /// `$<len>\r\n<bytes>\r\n`
    BulkString(Vec<u8>),
    /// `$-1\r\n`, the null bulk string
    Null,
    /// `*<n>\r\n<elements>`
    Array(Vec<RespDataTypes>),
    /// `*-1\r\n`, the null array
    NullArray,
}

/// The mathematical model of a frame, used by every contract.
pub enum FrameModel {
    Simple(Seq<u8>),
    Error(Seq<u8>),
    Int(int),
    Bulk(Seq<u8>),
    Null,
    Arr(Seq<FrameModel>),
    NullArr,
}

/// Model of one frame.
pub open spec fn frame_model(f: RespDataTypes) -> FrameModel
    decreases f,
{
    match f {
        RespDataTypes::SimpleString(s) => FrameModel::Simple(s@),
        RespDataTypes::SimpleError(s) => FrameModel::Error(s@),
        RespDataTypes::Integer(v) => FrameModel::Int(v as int),
        RespDataTypes::BulkString(b) => FrameModel::Bulk(b@),
        RespDataTypes::Null => FrameModel::Null,
        RespDataTypes::Array(items) => FrameModel::Arr(frame_models(items@)),
        RespDataTypes::NullArray => FrameModel::NullArr,
    }
}

/// Models of a sequence of frames, in order.
pub open spec fn frame_models(items: Seq<RespDataTypes>) -> Seq<FrameModel>
    decreases items,
{
    if items.len() == 0 {
        Seq::empty()
    } else {
        seq![frame_model(items[0])] + frame_models(items.drop_first())
    }
}

impl View for RespDataTypes {
    type V = FrameModel;

    open spec fn view(&self) -> FrameModel {
        frame_model(*self)
    }
}

pub proof fn lemma_frame_models_len(items: Seq<RespDataTypes>)
    ensures
        frame_models(items).len() == items.len(),
    decreases items.len(),
{
    if items.len() > 0 {
        lemma_frame_models_len(items.drop_first());
    }
}

pub proof fn lemma_frame_models_index(items: Seq<RespDataTypes>, i: int)
    requires
        0 <= i < items.len(),
    ensures
        frame_models(items).len() == items.len(),
        frame_models(items)[i] == frame_model(items[i]),
    decreases items.len(),
{
    lemma_frame_models_len(items);
    if i > 0 {
        lemma_frame_models_index(items.drop_first(), i - 1);
    }
}

pub proof fn lemma_frame_models_push(items: Seq<RespDataTypes>, f: RespDataTypes)
    ensures
        frame_models(items.push(f)) =~= frame_models(items).push(frame_model(f)),
    decreases items.len(),
{
    lemma_frame_models_len(items);
    lemma_frame_models_len(items.push(f));
    if items.len() == 0 {
        assert(items.push(f)[0] == f);
        assert(items.push(f).drop_first() =~= items);
    } else {
        lemma_frame_models_push(items.drop_first(), f);
        assert(items.push(f).drop_first() =~= items.drop_first().push(f));
        assert(items.push(f)[0] == items[0]);
        lemma_frame_models_len(items.drop_first().push(f));
        lemma_frame_models_len(items.drop_first());
    }
}

/// The CRLF line terminator.
pub open spec fn crlf() -> Seq<u8> {
    seq![13u8, 10u8]
}

/// No CR or LF anywhere: the payload of a simple string or error line.
pub open spec fn line_ok(s: Seq<u8>) -> bool {
    forall|i: int| 0 <= i < s.len() ==> #[trigger] s[i] != 13 && s[i] != 10
}

/// Well-formed frames: simple lines carry no line terminator, and lengths
/// fit the signed 64-bit counters the wire format uses.
pub open spec fn wf_frame(m: FrameModel) -> bool
    decreases m,
{
    match m {
        FrameModel::Simple(s) => line_ok(s),
        FrameModel::Error(s) => line_ok(s),
        FrameModel::Int(v) => i64::MIN <= v <= i64::MAX,
        FrameModel::Bulk(b) => b.len() <= i64::MAX,
        FrameModel::Null => true,
        FrameModel::Arr(items) => items.len() <= i64::MAX && (forall|i: int|
            0 <= i < items.len() ==> wf_frame(#[trigger] items[i])),
        FrameModel::NullArr => true,
    }
}

/// The encoding of a frame, per the wire grammar.
pub open spec fn spec_encode(m: FrameModel) -> Seq<u8>
    decreases m, 1int,
{
    match m {
        FrameModel::Simple(s) => seq![0x2Bu8] + s + crlf(),
        FrameModel::Error(s) => seq![0x2Du8] + s + crlf(),
        FrameModel::Int(v) => seq![0x3Au8] + spec_dec_i(v) + crlf(),
        FrameModel::Bulk(b) => seq![0x24u8] + spec_dec_u(b.len()) + crlf() + b + crlf(),
        FrameModel::Null => seq![0x24u8, 0x2Du8, 0x31u8, 13u8, 10u8],
        FrameModel::Arr(items) => seq![0x2Au8] + spec_dec_u(items.len()) + crlf()
            + spec_encode_seq(items),
        FrameModel::NullArr => seq![0x2Au8, 0x2Du8, 0x31u8, 13u8, 10u8],
    }
}

/// The concatenated encodings of a sequence of frames.
pub open spec fn spec_encode_seq(items: Seq<FrameModel>) -> Seq<u8>
    decreases items, 0int,
{
    if items.len() == 0 {
        Seq::empty()
    } else {
        spec_encode(items[0]) + spec_encode_seq(items.drop_first())
    }
}

pub proof fn lemma_encode_seq_push(items: Seq<FrameModel>, m: FrameModel)
    ensures
        spec_encode_seq(items.push(m)) =~= spec_encode_seq(items) + spec_encode(m),
    decreases items.len(),
{
    if items.len() == 0 {
        assert(items.push(m)[0] == m);
        assert(items.push(m).drop_first() =~= items);
    } else {
        lemma_encode_seq_push(items.drop_first(), m);
        assert(items.push(m).drop_first() =~= items.drop_first().push(m));
        assert(items.push(m)[0] == items[0]);
    }
}

impl RespDataTypes {
    /// Number of lines a frame opens with when the wire bytes are split
    /// on CRLF: an array heading counts one line per immediate element
    /// plus its own, a bulk string two, anything else one.
    pub fn len(value: &RespDataTypes) -> (r: usize)
        ensures
            r == match value@ {
                FrameModel::Arr(items) => if items.len() + 1 <= usize::MAX {
                    items.len() as int + 1
                } else {
                    usize::MAX as int
                },
                FrameModel::Bulk(_) => 2int,
                _ => 1int,
            },
    {
        match value {
            Self::Array(arr) => {
                proof {
                    lemma_frame_models_len(arr@);
                }
                if arr.len() < usize::MAX {
                    arr.len() + 1
                } else {
                    usize::MAX
                }
            },
            Self::BulkString(_) => 2,
            _ => 1,
        }
    }
}

/// Append CRLF.
fn push_crlf(out: &mut Vec<u8>)
    ensures
        final(out)@ == old(out)@ + crlf(),
{
    out.push(13);
    out.push(10);
    assert(out@ =~= old(out)@ + crlf());
}

/// Encode a frame to its wire bytes. Total on the frame type; encoding a
/// well-formed frame round-trips through `decode`.
pub fn encode(f: &RespDataTypes) -> (r: Vec<u8>)
    ensures
        r@ == spec_encode(f@),
    decreases *f, 1int,
{
    match f {
        RespDataTypes::SimpleString(s) => {
            let mut out: Vec<u8> = Vec::new();
            out.push(0x2B);
            out.extend_from_slice(s.as_slice());
            push_crlf(&mut out);
            assert(out@ =~= spec_encode(f@));
            out
        },
        RespDataTypes::SimpleError(s) => {
            let mut out: Vec<u8> = Vec::new();
            out.push(0x2D);
            out.extend_from_slice(s.as_slice());
            push_crlf(&mut out);
            assert(out@ =~= spec_encode(f@));
            out
        },
        RespDataTypes::Integer(v) => {
            let mut out: Vec<u8> = Vec::new();
            out.push(0x3A);
            let mut digits = dec_i64(*v);
            out.append(&mut digits);
            push_crlf(&mut out);
            assert(out@ =~= spec_encode(f@));
            out
        },
        RespDataTypes::BulkString(b) => {
            let mut out: Vec<u8> = Vec::new();
            out.push(0x24);
            let mut digits = dec_usize(b.len());
            out.append(&mut digits);
            push_crlf(&mut out);
            out.extend_from_slice(b.as_slice());
            push_crlf(&mut out);
            assert(out@ =~= spec_encode(f@));
            out
        },
        RespDataTypes::Null => {
            let mut out: Vec<u8> = Vec::new();
            out.push(0x24);
            out.push(0x2D);
            out.push(0x31);
            push_crlf(&mut out);
            assert(out@ =~= spec_encode(f@));
            out
        },
        RespDataTypes::Array(items) => {
            let mut out: Vec<u8> = Vec::new();
            out.push(0x2A);
            let mut digits = dec_usize(items.len());
            out.append(&mut digits);
            push_crlf(&mut out);
            proof {
                lemma_frame_models_len(items@);
            }
            let ghost header = out@;
            let mut k: usize = 0;
            assert(items@.take(0) =~= Seq::<RespDataTypes>::empty());
            assert(frame_models(items@.take(0)) =~= Seq::<FrameModel>::empty());
            while k < items.len()
                invariant
                    *f == RespDataTypes::Array(*items),
                    k <= items@.len(),
                    out@ == header + spec_encode_seq(frame_models(items@.take(k as int))),
                decreases items@.len() - k,
            {
                proof {
                    assert(*f == RespDataTypes::Array(*items));
                    assert((*f)->Array_0 == *items);
                    assert(decreases_to!(*f => (*f)->Array_0));
                    assert(decreases_to!(*f => *items));
                    assert(decreases_to!(*items => items@));
                    assert(decreases_to!(items@ => items@[k as int]));
                    assert(decreases_to!(*f => items@[k as int]));
                }
                let mut piece = encode(&items[k]);
                out.append(&mut piece);
                proof {
                    let taken = items@.take(k as int);
                    assert(items@.take(k + 1) =~= taken.push(items@[k as int]));
                    lemma_frame_models_push(taken, items@[k as int]);
                    lemma_encode_seq_push(frame_models(taken), frame_model(items@[k as int]));
                }
                k = k + 1;
            }
            proof {
                assert(items@.take(items@.len() as int) =~= items@);
            }
            assert(out@ =~= spec_encode(f@));
            out
        },
        RespDataTypes::NullArray => {
            let mut out: Vec<u8> = Vec::new();
            out.push(0x2A);
            out.push(0x2D);
            out.push(0x31);
            push_crlf(&mut out);
            assert(out@ =~= spec_encode(f@));
            out
        },
    }
}

/// True when bytes `k` and `k+1` are CR LF.
pub open spec fn crlf_at(b: Seq<u8>, k: int) -> bool {
    b[k] == 13 && b[k + 1] == 10
}

/// Position of the first CRLF at or after `from`, if one is complete.
pub open spec fn find_crlf(b: Seq<u8>, from: int) -> Option<int>
    decreases b.len() - from,
{
    if from + 2 > b.len() {
        None
    } else if crlf_at(b, from) {
        Some(from)
    } else {
        find_crlf(b, from + 1)
    }
}

pub proof fn lemma_find_crlf_char(b: Seq<u8>, from: int)
    ensures
        match find_crlf(b, from) {
            Some(j) => from <= j && j + 2 <= b.len() && crlf_at(b, j) && (forall|k: int|
                from <= k < j ==> !crlf_at(b, k)),
            None => forall|k: int| from <= k && k + 2 <= b.len() ==> !crlf_at(b, k),
        },
    decreases b.len() - from,
{
    if from + 2 > b.len() {
    } else if crlf_at(b, from) {
    } else {
        lemma_find_crlf_char(b, from + 1);
    }
}

pub proof fn lemma_find_crlf_at(b: Seq<u8>, from: int, j: int)
    requires
        from <= j,
        j + 2 <= b.len(),
        crlf_at(b, j),
        forall|k: int| from <= k < j ==> #[trigger] b[k] != 13,
    ensures
        find_crlf(b, from) == Some(j),
    decreases j - from,
{
    if from < j {
        assert(!crlf_at(b, from));
        lemma_find_crlf_at(b, from + 1, j);
    }
}

pub proof fn lemma_find_crlf_none(b: Seq<u8>, from: int)
    requires
        forall|k: int| from <= k && k + 2 <= b.len() ==> !crlf_at(b, k),
    ensures
        find_crlf(b, from) is None,
    decreases b.len() - from,
{
    if from + 2 > b.len() {
    } else {
        assert(!crlf_at(b, from));
        lemma_find_crlf_none(b, from + 1);
    }
}

/// What the decoder says about a byte sequence.
pub enum SpecDec {
    /// One whole frame, and how many bytes it took.
    Frame(FrameModel, int),
    /// No complete frame yet; more bytes are needed.
    Incomplete,
    /// The bytes cannot begin a frame.
    Malformed,
}

/// What the decoder says about `n` consecutive frames.
pub enum SpecDecSeq {
    Frames(Seq<FrameModel>, int),
    Incomplete,
    Malformed,
}

/// The streaming decoder, as a mathematical function: exactly one frame
/// from the front of `b`, or `Incomplete`, or `Malformed`.
pub open spec fn spec_decode(b: Seq<u8>) -> SpecDec
    decreases b.len(), 0nat,
{
    if b.len() == 0 {
        SpecDec::Incomplete
    } else {
        let t = b[0];
        if t == 0x2B || t == 0x2D || t == 0x3A {
            match find_crlf(b, 1) {
                None => SpecDec::Incomplete,
                Some(j) => {
                    let line = b.subrange(1, j);
                    if t == 0x2B {
                        SpecDec::Frame(FrameModel::Simple(line), j + 2)
                    } else if t == 0x2D {
                        SpecDec::Frame(FrameModel::Error(line), j + 2)
                    } else {
                        match parse_dec(line) {
                            Some(v) => if i64::MIN <= v <= i64::MAX {
                                SpecDec::Frame(FrameModel::Int(v), j + 2)
                            } else {
                                SpecDec::Malformed
                            },
                            None => SpecDec::Malformed,
                        }
                    }
                },
            }
        } else if t == 0x24 {
            match find_crlf(b, 1) {
                None => SpecDec::Incomplete,
                Some(j) => match parse_dec(b.subrange(1, j)) {
                    None => SpecDec::Malformed,
                    Some(v) => if v == -1 {
                        SpecDec::Frame(FrameModel::Null, j + 2)
                    } else if v < 0 || v > i64::MAX {
                        SpecDec::Malformed
                    } else if b.len() < j + 2 + v + 2 {
                        SpecDec::Incomplete
                    } else if crlf_at(b, j + 2 + v) {
                        SpecDec::Frame(FrameModel::Bulk(b.subrange(j + 2, j + 2 + v)), j + 2 + v + 2)
                    } else {
                        SpecDec::Malformed
                    },
                },
            }
        } else if t == 0x2A {
            match find_crlf(b, 1) {
                None => SpecDec::Incomplete,
                Some(j) => match parse_dec(b.subrange(1, j)) {
                    None => SpecDec::Malformed,
                    Some(v) => if v == -1 {
                        SpecDec::Frame(FrameModel::NullArr, j + 2)
                    } else if v < 0 || v > i64::MAX {
                        SpecDec::Malformed
                    } else {
                        let adv = if 1 <= j + 2 <= b.len() {
                            j + 2
                        } else {
                            b.len() as int
                        };
                        match spec_decode_seq(b.skip(adv), v as nat) {
                            SpecDecSeq::Frames(fs, used) => SpecDec::Frame(
                                FrameModel::Arr(fs),
                                adv + used,
                            ),
                            SpecDecSeq::Incomplete => SpecDec::Incomplete,
                            SpecDecSeq::Malformed => SpecDec::Malformed,
                        }
                    },
                },
            }
        } else {
            SpecDec::Malformed
        }
    }
}

/// `n` frames decoded one after the other from the front of `b`.
pub open spec fn spec_decode_seq(b: Seq<u8>, n: nat) -> SpecDecSeq
    decreases b.len(), n,
{
    if n == 0 {
        SpecDecSeq::Frames(Seq::empty(), 0)
    } else {
        match spec_decode(b) {
            SpecDec::Frame(f, used) => {
                let step = if 0 <= used <= b.len() {
                    used
                } else {
                    0int
                };
                match spec_decode_seq(b.skip(step), (n - 1) as nat) {
                    SpecDecSeq::Frames(fs, used2) => SpecDecSeq::Frames(
                        seq![f] + fs,
                        step + used2,
                    ),
                    SpecDecSeq::Incomplete => SpecDecSeq::Incomplete,
                    SpecDecSeq::Malformed => SpecDecSeq::Malformed,
                }
            },
            SpecDec::Incomplete => SpecDecSeq::Incomplete,
            SpecDec::Malformed => SpecDecSeq::Malformed,
        }
    }
}

/// A complete frame always uses between 1 byte and the whole buffer.
pub proof fn lemma_spec_decode_bounds(b: Seq<u8>)
    ensures
        spec_decode(b) matches SpecDec::Frame(f, used) ==> 1 <= used <= b.len(),
    decreases b.len(), 0nat,
{
    if b.len() == 0 {
    } else {
        let t = b[0];
        lemma_find_crlf_char(b, 1);
        if t == 0x2A {
            match find_crlf(b, 1) {
                None => {},
                Some(j) => match parse_dec(b.subrange(1, j)) {
                    None => {},
                    Some(v) => if v == -1 {
                    } else if v < 0 || v > i64::MAX {
                    } else {
                        let adv = if 1 <= j + 2 <= b.len() {
                            j + 2
                        } else {
                            b.len() as int
                        };
                        lemma_spec_decode_seq_bounds(b.skip(adv), v as nat);
                    },
                },
            }
        }
    }
}

/// A run of `n` frames uses between 0 bytes and the whole buffer, and
/// yields exactly `n` frames.
pub proof fn lemma_spec_decode_seq_bounds(b: Seq<u8>, n: nat)
    ensures
        spec_decode_seq(b, n) matches SpecDecSeq::Frames(fs, used) ==> 0 <= used <= b.len()
            && fs.len() == n,
    decreases b.len(), n,
{
    if n == 0 {
    } else {
        lemma_spec_decode_bounds(b);
        match spec_decode(b) {
            SpecDec::Frame(f, used) => {
                let step = if 0 <= used <= b.len() {
                    used
                } else {
                    0int
                };
                lemma_spec_decode_seq_bounds(b.skip(step), (n - 1) as nat);
            },
            SpecDec::Incomplete => {},
            SpecDec::Malformed => {},
        }
    }
}

/// Result of feeding bytes to the decoder.
#[derive(Debug, PartialEq, Eq)]
pub enum DecodeResult {
    /// One whole frame and the number of bytes it consumed.
    Frame(RespDataTypes, usize),
    /// More bytes are needed before a frame is complete.
    Incomplete,
    /// The buffer cannot begin a frame.
    Malformed,
}

/// How an executable decode result reflects the mathematical one.
pub open spec fn decode_result_matches(r: DecodeResult, s: SpecDec) -> bool {
    match r {
        DecodeResult::Frame(f, used) => s == SpecDec::Frame(f@, used as int),
        DecodeResult::Incomplete => s is Incomplete,
        DecodeResult::Malformed => s is Malformed,
    }
}

/// Scan for the first complete CRLF at or after `from`.
fn find_crlf_exec(buf: &[u8], from: usize) -> (r: Option<usize>)
    ensures
        match r {
            Some(j) => find_crlf(buf@, from as int) == Some(j as int),
            None => find_crlf(buf@, from as int) is None,
        },
{
    let n = buf.len();
    if n < 2 {
        return None;
    }
    let mut i = from;
    while i <= n - 2
        invariant
            n == buf@.len(),
            n >= 2,
            from <= i,
            find_crlf(buf@, from as int) == find_crlf(buf@, i as int),
        decreases n - i,
    {
        if buf[i] == 13 && buf[i + 1] == 10 {
            assert(crlf_at(buf@, i as int));
            return Some(i);
        }
        assert(!crlf_at(buf@, i as int));
        i = i + 1;
    }
    None
}

/// Copy `buf[from..to]` into a fresh vector.
fn copy_range(buf: &[u8], from: usize, to: usize) -> (r: Vec<u8>)
    requires
        from <= to <= buf@.len(),
    ensures
        r@ == buf@.subrange(from as int, to as int),
{
    vstd::slice::slice_to_vec(vstd::slice::slice_subrange(buf, from, to))
}

/// Decode exactly one frame from the front of `buf`.
///
/// The result is precisely what [`spec_decode`] says of the bytes: one
/// whole frame with its consumed length, or `Incomplete`, or `Malformed`.
pub fn decode(buf: &[u8]) -> (r: DecodeResult)
    ensures
        decode_result_matches(r, spec_decode(buf@)),
    decreases buf@.len(), 1int,
{
    let n = buf.len();
    if n == 0 {
        return DecodeResult::Incomplete;
    }
    let t = buf[0];
    if t == 0x2B || t == 0x2D || t == 0x3A {
        match find_crlf_exec(buf, 1) {
            None => DecodeResult::Incomplete,
            Some(j) => {
                proof {
                    lemma_find_crlf_char(buf@, 1);
                }
                let line = vstd::slice::slice_subrange(buf, 1, j);
                if t == 0x2B {
                    DecodeResult::Frame(RespDataTypes::SimpleString(copy_range(buf, 1, j)), j + 2)
                } else if t == 0x2D {
                    DecodeResult::Frame(RespDataTypes::SimpleError(copy_range(buf, 1, j)), j + 2)
                } else {
                    match parse_line_int(line) {
                        LineInt::Val(v) => DecodeResult::Frame(RespDataTypes::Integer(v), j + 2),
                        _ => DecodeResult::Malformed,
                    }
                }
            },
        }
    } else if t == 0x24 {
        match find_crlf_exec(buf, 1) {
            None => DecodeResult::Incomplete,
            Some(j) => {
                proof {
                    lemma_find_crlf_char(buf@, 1);
                }
                let line = vstd::slice::slice_subrange(buf, 1, j);
                match parse_line_int(line) {
                    LineInt::Val(v) => {
                        if v == -1 {
                            DecodeResult::Frame(RespDataTypes::Null, j + 2)
                        } else if v < 0 {
                            DecodeResult::Malformed
                        } else {
                            let rem = n - (j + 2);
                            if (rem as u64) < (v as u64) + 2 {
                                DecodeResult::Incomplete
                            } else {
                                let vl = v as usize;
                                if buf[j + 2 + vl] == 13 && buf[j + 2 + vl + 1] == 10 {
                                    assert(crlf_at(buf@, j + 2 + v));
                                    DecodeResult::Frame(
                                        RespDataTypes::BulkString(
                                            copy_range(buf, j + 2, j + 2 + vl),
                                        ),
                                        j + 2 + vl + 2,
                                    )
                                } else {
                                    assert(!crlf_at(buf@, j + 2 + v));
                                    DecodeResult::Malformed
                                }
                            }
                        }
                    },
                    _ => DecodeResult::Malformed,
                }
            },
        }
    } else if t == 0x2A {
        match find_crlf_exec(buf, 1) {
            None => DecodeResult::Incomplete,
            Some(j) => {
                proof {
                    lemma_find_crlf_char(buf@, 1);
                }
                let line = vstd::slice::slice_subrange(buf, 1, j);
                match parse_line_int(line) {
                    LineInt::Val(v) => {
                        if v == -1 {
                            DecodeResult::Frame(RespDataTypes::NullArray, j + 2)
                        } else if v < 0 {
                            DecodeResult::Malformed
                        } else {
                            decode_elements(buf, j, v)
                        }
                    },
                    _ => DecodeResult::Malformed,
                }
            },
        }
    } else {
        DecodeResult::Malformed
    }
}

/// Decode the `v` elements of an array whose heading ends at `j + 2`.
#[verifier::loop_isolation(false)]
fn decode_elements(buf: &[u8], j: usize, v: i64) -> (r: DecodeResult)
    requires
        buf@.len() >= 1,
        buf@[0] == 0x2A,
        find_crlf(buf@, 1) == Some(j as int),
        1 <= j,
        j + 2 <= buf@.len(),
        parse_dec(buf@.subrange(1, j as int)) == Some(v as int),
        0 <= v,
    ensures
        decode_result_matches(r, spec_decode(buf@)),
    decreases buf@.len(), 0int,
{
    let n = buf.len();
    let ghost btail = buf@.skip(j + 2);
    let mut items: Vec<RespDataTypes> = Vec::new();
    let mut pos: usize = j + 2;
    let mut k: u64 = 0;
    let vcount = v as u64;
    proof {
        assert(frame_models(items@) =~= Seq::<FrameModel>::empty());
    }
    while k < vcount
        invariant
            n == buf@.len(),
            btail == buf@.skip(j + 2),
            1 <= j,
            j + 2 <= pos <= n,
            k <= vcount,
            vcount == v,
            0 <= v <= i64::MAX,
            frame_models(items@).len() == k,
            (match spec_decode_seq(buf@.skip(pos as int), (vcount - k) as nat) {
                SpecDecSeq::Frames(fs, u) => spec_decode_seq(btail, v as nat)
                    == SpecDecSeq::Frames(frame_models(items@) + fs, pos - (j + 2) + u),
                SpecDecSeq::Incomplete => spec_decode_seq(btail, v as nat)
                    is Incomplete,
                SpecDecSeq::Malformed => spec_decode_seq(btail, v as nat)
                    is Malformed,
            }),
        decreases vcount - k,
    {
        let sub = vstd::slice::slice_subrange(buf, pos, n);
        let res = decode(sub);
        proof {
            lemma_spec_decode_bounds(sub@);
        }
        match res {
            DecodeResult::Frame(f, used) => {
                proof {
                    let m = (vcount - k) as nat;
                    assert(spec_decode_seq(sub@, m) == (match spec_decode_seq(
                        sub@.skip(used as int),
                        (m - 1) as nat,
                    ) {
                        SpecDecSeq::Frames(fs2, u2) => SpecDecSeq::Frames(
                            seq![f@] + fs2,
                            used + u2,
                        ),
                        SpecDecSeq::Incomplete => SpecDecSeq::Incomplete,
                        SpecDecSeq::Malformed => SpecDecSeq::Malformed,
                    }));
                    assert(sub@.skip(used as int) =~= buf@.skip(pos + used));
                    lemma_frame_models_push(items@, f);
                    lemma_frame_models_len(items@);
                    match spec_decode_seq(buf@.skip(pos + used), (m - 1) as nat) {
                        SpecDecSeq::Frames(fs2, u2) => {
                            assert(frame_models(items@) + (seq![f@] + fs2) =~= frame_models(
                                items@.push(f),
                            ) + fs2);
                        },
                        SpecDecSeq::Incomplete => {},
                        SpecDecSeq::Malformed => {},
                    }
                }
                items.push(f);
                pos = pos + used;
                k = k + 1;
            },
            DecodeResult::Incomplete => {
                proof {
                    assert(spec_decode_seq(buf@.skip(pos as int), (vcount - k) as nat)
                        is Incomplete);
                    assert(spec_decode(buf@) is Incomplete);
                }
                return DecodeResult::Incomplete;
            },
            DecodeResult::Malformed => {
                proof {
                    assert(spec_decode_seq(buf@.skip(pos as int), (vcount - k) as nat)
                        is Malformed);
                    assert(spec_decode(buf@) is Malformed);
                }
                return DecodeResult::Malformed;
            },
        }
    }
    proof {
        assert(spec_decode_seq(buf@.skip(pos as int), 0) == SpecDecSeq::Frames(
            Seq::<FrameModel>::empty(),
            0,
        ));
        assert(frame_models(items@) + Seq::<FrameModel>::empty() =~= frame_models(items@));
        assert(spec_decode_seq(btail, v as nat) == SpecDecSeq::Frames(
            frame_models(items@),
            pos - (j + 2),
        ));
        lemma_find_crlf_char(buf@, 1);
        assert(spec_decode(buf@) == SpecDec::Frame(FrameModel::Arr(frame_models(items@)), pos as int));
    }
    DecodeResult::Frame(RespDataTypes::Array(items), pos)
}

/// Every encoding is non-empty.
proof fn lemma_encode_nonempty(m: FrameModel)
    ensures
        spec_encode(m).len() >= 1,
{
    match m {
        FrameModel::Simple(s) => {},
        FrameModel::Error(s) => {},
        FrameModel::Int(v) => {},
        FrameModel::Bulk(b) => {},
        FrameModel::Null => {},
        FrameModel::Arr(items) => {},
        FrameModel::NullArr => {},
    }
}

/// Decoding the encoding of a well-formed frame, with anything at all
/// appended, yields exactly that frame and consumes exactly its encoding.
pub proof fn lemma_decode_encode(m: FrameModel, rest: Seq<u8>)
    requires
        wf_frame(m),
    ensures
        spec_decode(spec_encode(m) + rest) == SpecDec::Frame(m, spec_encode(m).len() as int),
    decreases m, 1int,
{
    let e = spec_encode(m);
    let b = e + rest;
    match m {
        FrameModel::Simple(s) => {
            let j = 1 + s.len() as int;
            assert(b[0] == 0x2B);
            assert(crlf_at(b, j));
            assert forall|k: int| 1 <= k < j implies #[trigger] b[k] != 13 by {
                assert(b[k] == s[k - 1]);
            }
            lemma_find_crlf_at(b, 1, j);
            assert(b.subrange(1, j) =~= s);
        },
        FrameModel::Error(s) => {
            let j = 1 + s.len() as int;
            assert(b[0] == 0x2D);
            assert(crlf_at(b, j));
            assert forall|k: int| 1 <= k < j implies #[trigger] b[k] != 13 by {
                assert(b[k] == s[k - 1]);
            }
            lemma_find_crlf_at(b, 1, j);
            assert(b.subrange(1, j) =~= s);
        },
        FrameModel::Int(v) => {
            lemma_dec_i_bytes(v);
            lemma_parse_dec_of_dec_i(v);
            let d = spec_dec_i(v);
            let j = 1 + d.len() as int;
            assert(b[0] == 0x3A);
            assert(crlf_at(b, j));
            assert forall|k: int| 1 <= k < j implies #[trigger] b[k] != 13 by {
                assert(b[k] == d[k - 1]);
            }
            lemma_find_crlf_at(b, 1, j);
            assert(b.subrange(1, j) =~= d);
        },
        FrameModel::Bulk(bs) => {
            let d = spec_dec_u(bs.len());
            lemma_dec_i_bytes(bs.len() as int);
            lemma_parse_dec_of_dec_i(bs.len() as int);
            assert(spec_dec_i(bs.len() as int) == d);
            let j = 1 + d.len() as int;
            assert(b[0] == 0x24);
            assert(crlf_at(b, j));
            assert forall|k: int| 1 <= k < j implies #[trigger] b[k] != 13 by {
                assert(b[k] == d[k - 1]);
            }
            lemma_find_crlf_at(b, 1, j);
            assert(b.subrange(1, j) =~= d);
            let v = bs.len() as int;
            assert(b.len() >= j + 2 + v + 2);
            assert(crlf_at(b, j + 2 + v));
            assert(b.subrange(j + 2, j + 2 + v) =~= bs);
            assert(e.len() == j + 2 + v + 2);
        },
        FrameModel::Null => {
            assert(b[0] == 0x24);
            assert(crlf_at(b, 3));
            assert(b[1] == 0x2D && b[2] == 0x31);
            lemma_find_crlf_at(b, 1, 3);
            let line = b.subrange(1, 3);
            assert(line =~= seq![0x2Du8, 0x31u8]);
            assert(line.skip(1) =~= seq![0x31u8]);
            assert(seq![0x31u8].drop_last() =~= Seq::<u8>::empty());
            assert(seq![0x31u8].last() == 0x31u8);
            assert(crate::num::dec_val(Seq::<u8>::empty()) == 0);
            assert(crate::num::dec_val(seq![0x31u8]) == 1);
            assert(parse_dec(line) == Some(-1int));
        },
        FrameModel::NullArr => {
            assert(b[0] == 0x2A);
            assert(crlf_at(b, 3));
            assert(b[1] == 0x2D && b[2] == 0x31);
            lemma_find_crlf_at(b, 1, 3);
            let line = b.subrange(1, 3);
            assert(line =~= seq![0x2Du8, 0x31u8]);
            assert(line.skip(1) =~= seq![0x31u8]);
            assert(seq![0x31u8].drop_last() =~= Seq::<u8>::empty());
            assert(seq![0x31u8].last() == 0x31u8);
            assert(crate::num::dec_val(Seq::<u8>::empty()) == 0);
            assert(crate::num::dec_val(seq![0x31u8]) == 1);
            assert(parse_dec(line) == Some(-1int));
        },
        FrameModel::Arr(items) => {
            let d = spec_dec_u(items.len());
            lemma_dec_i_bytes(items.len() as int);
            lemma_parse_dec_of_dec_i(items.len() as int);
            assert(spec_dec_i(items.len() as int) == d);
            let j = 1 + d.len() as int;
            assert(b[0] == 0x2A);
            assert(crlf_at(b, j));
            assert forall|k: int| 1 <= k < j implies #[trigger] b[k] != 13 by {
                assert(b[k] == d[k - 1]);
            }
            lemma_find_crlf_at(b, 1, j);
            assert(b.subrange(1, j) =~= d);
            assert(b.skip(j + 2) =~= spec_encode_seq(items) + rest);
            assert(m->Arr_0 == items);
            assert(decreases_to!(m => m->Arr_0));
            lemma_decode_encode_seq(items, rest);
            assert(e.len() == j + 2 + spec_encode_seq(items).len());
        },
    }
}

/// Decoding `n` concatenated encodings, with anything appended, yields
/// exactly those frames and consumes exactly the concatenation.
pub proof fn lemma_decode_encode_seq(items: Seq<FrameModel>, rest: Seq<u8>)
    requires
        forall|i: int| 0 <= i < items.len() ==> wf_frame(#[trigger] items[i]),
    ensures
        spec_decode_seq(spec_encode_seq(items) + rest, items.len()) == SpecDecSeq::Frames(
            items,
            spec_encode_seq(items).len() as int,
        ),
    decreases items, 0int,
{
    if items.len() == 0 {
        assert(spec_decode_seq(spec_encode_seq(items) + rest, 0) == SpecDecSeq::Frames(
            Seq::<FrameModel>::empty(),
            0,
        ));
        assert(items =~= Seq::<FrameModel>::empty());
    } else {
        let e0 = spec_encode(items[0]);
        let tail_enc = spec_encode_seq(items.drop_first());
        let b = spec_encode_seq(items) + rest;
        assert(spec_encode_seq(items) == e0 + tail_enc);
        assert(b =~= e0 + (tail_enc + rest));
        lemma_decode_encode(items[0], tail_enc + rest);
        assert(spec_decode(b) == SpecDec::Frame(items[0], e0.len() as int));
        assert(b.skip(e0.len() as int) =~= tail_enc + rest);
        assert forall|i: int| 0 <= i < items.drop_first().len() implies wf_frame(
            #[trigger] items.drop_first()[i],
        ) by {
            assert(items.drop_first()[i] == items[i + 1]);
        }
        lemma_decode_encode_seq(items.drop_first(), rest);
        assert(seq![items[0]] + items.drop_first() =~= items);
    }
}

/// Decoding any strict prefix of the encoding of a well-formed frame
/// reports `Incomplete`.
pub proof fn lemma_decode_encode_prefix(m: FrameModel, cut: int)
    requires
        wf_frame(m),
        0 <= cut < spec_encode(m).len(),
    ensures
        spec_decode(spec_encode(m).take(cut)) is Incomplete,
    decreases m, 1int,
{
    let e = spec_encode(m);
    let b = e.take(cut);
    if cut == 0 {
        return;
    }
    match m {
        FrameModel::Simple(s) => {
            assert(b[0] == 0x2B);
            assert forall|k: int| 1 <= k && k + 2 <= b.len() implies !crlf_at(b, k) by {
                assert(b[k] == s[k - 1]);
            }
            lemma_find_crlf_none(b, 1);
        },
        FrameModel::Error(s) => {
            assert(b[0] == 0x2D);
            assert forall|k: int| 1 <= k && k + 2 <= b.len() implies !crlf_at(b, k) by {
                assert(b[k] == s[k - 1]);
            }
            lemma_find_crlf_none(b, 1);
        },
        FrameModel::Int(v) => {
            lemma_dec_i_bytes(v);
            let d = spec_dec_i(v);
            assert(b[0] == 0x3A);
            assert forall|k: int| 1 <= k && k + 2 <= b.len() implies !crlf_at(b, k) by {
                assert(b[k] == d[k - 1]);
            }
            lemma_find_crlf_none(b, 1);
        },
        FrameModel::Bulk(bs) => {
            let d = spec_dec_u(bs.len());
            lemma_dec_i_bytes(bs.len() as int);
            lemma_parse_dec_of_dec_i(bs.len() as int);
            assert(spec_dec_i(bs.len() as int) == d);
            let j = 1 + d.len() as int;
            let v = bs.len() as int;
            assert(b[0] == 0x24);
            if cut < j + 2 {
                assert forall|k: int| 1 <= k && k + 2 <= b.len() implies !crlf_at(b, k) by {
                    assert(b[k] == d[k - 1]);
                }
                lemma_find_crlf_none(b, 1);
            } else {
                assert(crlf_at(b, j));
                assert forall|k: int| 1 <= k < j implies #[trigger] b[k] != 13 by {
                    assert(b[k] == d[k - 1]);
                }
                lemma_find_crlf_at(b, 1, j);
                assert(b.subrange(1, j) =~= d);
                assert(e.len() == j + 2 + v + 2);
                assert(b.len() < j + 2 + v + 2);
            }
        },
        FrameModel::Null => {
            assert(b[0] == 0x24);
            assert(b.len() <= 4);
            assert forall|k: int| 1 <= k && k + 2 <= b.len() implies !crlf_at(b, k) by {
                assert(b[1] == 0x2D && b[2] == 0x31);
            }
            lemma_find_crlf_none(b, 1);
        },
        FrameModel::NullArr => {
            assert(b[0] == 0x2A);
            assert(b.len() <= 4);
            assert forall|k: int| 1 <= k && k + 2 <= b.len() implies !crlf_at(b, k) by {
                assert(b[1] == 0x2D && b[2] == 0x31);
            }
            lemma_find_crlf_none(b, 1);
        },
        FrameModel::Arr(items) => {
            let d = spec_dec_u(items.len());
            lemma_dec_i_bytes(items.len() as int);
            lemma_parse_dec_of_dec_i(items.len() as int);
            assert(spec_dec_i(items.len() as int) == d);
            let j = 1 + d.len() as int;
            assert(b[0] == 0x2A);
            if cut < j + 2 {
                assert forall|k: int| 1 <= k && k + 2 <= b.len() implies !crlf_at(b, k) by {
                    assert(b[k] == d[k - 1]);
                }
                lemma_find_crlf_none(b, 1);
            } else {
                assert(crlf_at(b, j));
                assert forall|k: int| 1 <= k < j implies #[trigger] b[k] != 13 by {
                    assert(b[k] == d[k - 1]);
                }
                lemma_find_crlf_at(b, 1, j);
                assert(b.subrange(1, j) =~= d);
                assert(e.len() == j + 2 + spec_encode_seq(items).len());
                let cut2 = cut - (j + 2);
                assert(0 <= cut2 < spec_encode_seq(items).len());
                assert(b.skip(j + 2) =~= spec_encode_seq(items).take(cut2));
                assert(m->Arr_0 == items);
                assert(decreases_to!(m => m->Arr_0));
                lemma_decode_encode_seq_prefix(items, cut2);
            }
        },
    }
}

/// Decoding any strict prefix of `n` concatenated encodings, expecting
/// `n` frames, reports `Incomplete`.
pub proof fn lemma_decode_encode_seq_prefix(items: Seq<FrameModel>, cut: int)
    requires
        forall|i: int| 0 <= i < items.len() ==> wf_frame(#[trigger] items[i]),
        0 <= cut < spec_encode_seq(items).len(),
    ensures
        spec_decode_seq(spec_encode_seq(items).take(cut), items.len()) is Incomplete,
    decreases items, 0int,
{
    let e0 = spec_encode(items[0]);
    let tail_enc = spec_encode_seq(items.drop_first());
    let b = spec_encode_seq(items).take(cut);
    assert(spec_encode_seq(items) == e0 + tail_enc);
    assert forall|i: int| 0 <= i < items.drop_first().len() implies wf_frame(
        #[trigger] items.drop_first()[i],
    ) by {
        assert(items.drop_first()[i] == items[i + 1]);
    }
    if cut < e0.len() {
        assert(b =~= e0.take(cut));
        lemma_decode_encode_prefix(items[0], cut);
    } else {
        let cut2 = cut - e0.len();
        assert(b =~= e0 + tail_enc.take(cut2));
        lemma_decode_encode(items[0], tail_enc.take(cut2));
        assert(spec_decode(b) == SpecDec::Frame(items[0], e0.len() as int));
        assert(b.skip(e0.len() as int) =~= tail_enc.take(cut2));
        assert(0 <= cut2 < tail_enc.len());
        if cut2 == 0 {
            assert(tail_enc.take(0) =~= Seq::<u8>::empty());
            assert(items.drop_first().len() >= 1) by {
                lemma_encode_nonempty(items.drop_first()[0]);
            }
            assert(spec_decode(Seq::<u8>::empty()) is Incomplete);
        } else {
            lemma_decode_encode_seq_prefix(items.drop_first(), cut2);
        }
    }
}

/// Codec round trip: decoding the encoding of a well-formed frame gives
/// back exactly that frame, consuming exactly the encoded length.
pub proof fn lemma_codec_round_trip(m: FrameModel)
    requires
        wf_frame(m),
    ensures
        spec_decode(spec_encode(m)) == SpecDec::Frame(m, spec_encode(m).len() as int),
{
    assert(spec_encode(m) + Seq::<u8>::empty() =~= spec_encode(m));
    lemma_decode_encode(m, Seq::<u8>::empty());
}

/// Streaming decode: split the encoding of a well-formed frame anywhere;
/// the first chunk alone decodes to `Incomplete`, and the two chunks
/// together decode to the frame.
pub proof fn lemma_streaming_decode(m: FrameModel, cut: int)
    requires
        wf_frame(m),
        0 <= cut < spec_encode(m).len(),
    ensures
        spec_decode(spec_encode(m).take(cut)) is Incomplete,
        spec_decode(spec_encode(m).take(cut) + spec_encode(m).skip(cut)) == SpecDec::Frame(
            m,
            spec_encode(m).len() as int,
        ),
{
    lemma_decode_encode_prefix(m, cut);
    assert(spec_encode(m).take(cut) + spec_encode(m).skip(cut) =~= spec_encode(m));
    lemma_codec_round_trip(m);
}

/// The snapshot transfer frame sent after FULLRESYNC: a bulk-string
/// heading without the trailing CRLF.
pub open spec fn spec_snapshot_frame(payload: Seq<u8>) -> Seq<u8> {
    seq![0x24u8] + spec_dec_u(payload.len()) + crlf() + payload
}

/// Frame a snapshot payload for the wire: `$<len>\r\n<bytes>`, with no
/// trailing CRLF.
pub fn encode_snapshot_frame(payload: &[u8]) -> (r: Vec<u8>)
    ensures
        r@ == spec_snapshot_frame(payload@),
{
    let mut out: Vec<u8> = Vec::new();
    out.push(0x24);
    let mut digits = dec_usize(payload.len());
    out.append(&mut digits);
    push_crlf(&mut out);
    out.extend_from_slice(payload);
    assert(out@ =~= spec_snapshot_frame(payload@));
    out
}

/// What the replica's decoder makes of bytes while it awaits the
/// snapshot: the payload and the bytes consumed, or `Incomplete`, or
/// `Malformed`.
pub open spec fn spec_decode_snapshot(b: Seq<u8>) -> SpecDec {
    if b.len() == 0 {
        SpecDec::Incomplete
    } else if b[0] != 0x24 {
        SpecDec::Malformed
    } else {
        match find_crlf(b, 1) {
            None => SpecDec::Incomplete,
            Some(j) => match parse_dec(b.subrange(1, j)) {
                None => SpecDec::Malformed,
                Some(v) => if v < 0 || v > i64::MAX {
                    SpecDec::Malformed
                } else if b.len() < j + 2 + v {
                    SpecDec::Incomplete
                } else {
                    SpecDec::Frame(FrameModel::Bulk(b.subrange(j + 2, j + 2 + v)), j + 2 + v)
                },
            },
        }
    }
}

/// Decode the snapshot frame after FULLRESYNC: `$<len>\r\n<bytes>`
/// without a trailing CRLF, exactly as [`spec_decode_snapshot`] says.
pub fn decode_snapshot_frame(buf: &[u8]) -> (r: DecodeResult)
    ensures
        decode_result_matches(r, spec_decode_snapshot(buf@)),
{
    let n = buf.len();
    if n == 0 {
        return DecodeResult::Incomplete;
    }
    if buf[0] != 0x24 {
        return DecodeResult::Malformed;
    }
    match find_crlf_exec(buf, 1) {
        None => DecodeResult::Incomplete,
        Some(j) => {
            proof {
                lemma_find_crlf_char(buf@, 1);
            }
            let line = vstd::slice::slice_subrange(buf, 1, j);
            match parse_line_int(line) {
                LineInt::Val(v) => {
                    if v < 0 {
                        DecodeResult::Malformed
                    } else {
                        let rem = n - (j + 2);
                        if (rem as u64) < (v as u64) {
                            DecodeResult::Incomplete
                        } else {
                            let vl = v as usize;
                            DecodeResult::Frame(
                                RespDataTypes::BulkString(copy_range(buf, j + 2, j + 2 + vl)),
                                j + 2 + vl,
                            )
                        }
                    }
                },
                _ => DecodeResult::Malformed,
            }
        },
    }
}

/// The snapshot transfer frame round-trips: framing a payload and
/// decoding it in the awaiting-snapshot state yields the payload back,
/// consuming the whole frame.
pub proof fn lemma_snapshot_frame_round_trip(payload: Seq<u8>)
    requires
        payload.len() <= i64::MAX,
    ensures
        spec_decode_snapshot(spec_snapshot_frame(payload)) == SpecDec::Frame(
            FrameModel::Bulk(payload),
            spec_snapshot_frame(payload).len() as int,
        ),
{
    let d = spec_dec_u(payload.len());
    crate::num::lemma_dec_i_bytes(payload.len() as int);
    crate::num::lemma_parse_dec_of_dec_i(payload.len() as int);
    assert(spec_dec_i(payload.len() as int) == d);
    let b = spec_snapshot_frame(payload);
    let j = 1 + d.len() as int;
    assert(b[0] == 0x24);
    assert(crlf_at(b, j));
    assert forall|k: int| 1 <= k < j implies #[trigger] b[k] != 13 by {
        assert(b[k] == d[k - 1]);
    }
    lemma_find_crlf_at(b, 1, j);
    assert(b.subrange(1, j) =~= d);
    assert(b.subrange(j + 2, j + 2 + payload.len()) =~= payload);
    assert(b.len() == j + 2 + payload.len());
}

/// A decoded array frame never has more elements than the wire's signed
/// 64-bit count allows.
pub proof fn lemma_spec_decode_arr_len(b: Seq<u8>)
    ensures
        spec_decode(b) matches SpecDec::Frame(f, u) ==> (f matches FrameModel::Arr(fs)
            ==> fs.len() <= i64::MAX),
{
    if b.len() > 0 && b[0] == 0x2A {
        lemma_find_crlf_char(b, 1);
        match find_crlf(b, 1) {
            None => {},
            Some(j) => match parse_dec(b.subrange(1, j)) {
                None => {},
                Some(v) => {
                    if 0 <= v <= i64::MAX {
                        let adv = if 1 <= j + 2 <= b.len() {
                            j + 2
                        } else {
                            b.len() as int
                        };
                        lemma_spec_decode_seq_bounds(b.skip(adv), v as nat);
                    }
                },
            },
        }
    }
}

} // verus!
