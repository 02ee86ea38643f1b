//! The RDB snapshot parser: a length-prefixed binary format that
//! hydrates the keyspaces on boot.
//!
//! Every decoder is specified against a mathematical mirror; the loader
//! either produces the exact databases the bytes denote or the exact
//! offset and reason of the first corrupt section.

use vstd::prelude::*;

use crate::database::{Database, RecordModel};
use crate::num::spec_dec_u;

verus! {

pub type DbModel = Map<Seq<u8>, RecordModel>;

pub type DbsModel = Map<int, DbModel>;

/// Why a snapshot is refused.
#[derive(Debug, Clone, Copy, PartialEq, Eq)]
pub enum RdbReason {
    /// The bytes end before a section is complete.
    Truncated,
    /// A byte is no section opcode and no supported entry.
    BadOpcode,
    /// A special string encoding this parser does not implement (LZF).
    UnsupportedString,
    /// A value type other than a plain string.
    UnsupportedType,
    /// The magic header is missing or wrong.
    BadHeader,
}

/// A corrupt snapshot: the offset of the first bad section and why.
#[derive(Debug, PartialEq, Eq)]
pub struct RdbError {
    pub offset: usize,
    pub reason: RdbReason,
}

pub open spec fn rdb_err_model(e: RdbError) -> (int, RdbReason) {
    (e.offset as int, e.reason)
}

/// A decoded length prefix: a plain length or a special-string subtype.
#[derive(Debug, PartialEq, Eq)]
pub enum LengthCode {
    Plain(u32),
    Special(u8),
}

pub enum LengthCodeModel {
    Plain(int),
    Special(int),
}

pub open spec fn length_code_model(c: LengthCode) -> LengthCodeModel {
    match c {
        LengthCode::Plain(n) => LengthCodeModel::Plain(n as int),
        LengthCode::Special(t) => LengthCodeModel::Special(t as int),
    }
}

/// The length encoding: the top two bits of the first byte choose among
/// a 6-bit length, a 14-bit length, a 32-bit big-endian length, and a
/// special string encoding.
pub open spec fn spec_decode_length(b: Seq<u8>, i: int) -> Result<
    (LengthCodeModel, int),
    (int, RdbReason),
> {
    if i >= b.len() {
        Err((i, RdbReason::Truncated))
    } else {
        let f = b[i];
        if f < 0x40 {
            Ok((LengthCodeModel::Plain(f as int), i + 1))
        } else if f < 0x80 {
            if i + 2 > b.len() {
                Err((i, RdbReason::Truncated))
            } else {
                Ok((LengthCodeModel::Plain((f - 0x40) * 256 + b[i + 1]), i + 2))
            }
        } else if f < 0xC0 {
            if i + 5 > b.len() {
                Err((i, RdbReason::Truncated))
            } else {
                Ok((
                    LengthCodeModel::Plain(
                        b[i + 1] * 0x1000000 + b[i + 2] * 0x10000 + b[i + 3] * 0x100 + b[i + 4],
                    ),
                    i + 5,
                ))
            }
        } else {
            Ok((LengthCodeModel::Special((f - 0xC0) as int), i + 1))
        }
    }
}

/// A length-prefixed or integer-encoded string starting at `i`: its
/// bytes (integers become their decimal rendering) and the position
/// after it.
pub open spec fn spec_decode_string(b: Seq<u8>, i: int) -> Result<
    (Seq<u8>, int),
    (int, RdbReason),
> {
    match spec_decode_length(b, i) {
        Err(e) => Err(e),
        Ok((LengthCodeModel::Plain(n), j)) => {
            if j + n > b.len() {
                Err((i, RdbReason::Truncated))
            } else {
                Ok((b.subrange(j, j + n), j + n))
            }
        },
        Ok((LengthCodeModel::Special(t), j)) => {
            if t == 0 {
                if j + 1 > b.len() {
                    Err((i, RdbReason::Truncated))
                } else {
                    Ok((spec_dec_u(b[j] as nat), j + 1))
                }
            } else if t == 1 {
                if j + 2 > b.len() {
                    Err((i, RdbReason::Truncated))
                } else {
                    Ok((spec_dec_u((b[j] + b[j + 1] * 0x100) as nat), j + 2))
                }
            } else if t == 2 {
                if j + 4 > b.len() {
                    Err((i, RdbReason::Truncated))
                } else {
                    Ok((
                        spec_dec_u(
                            (b[j] + b[j + 1] * 0x100 + b[j + 2] * 0x10000 + b[j + 3]
                                * 0x1000000) as nat,
                        ),
                        j + 4,
                    ))
                }
            } else {
                Err((i, RdbReason::UnsupportedString))
            }
        },
    }
}

/// An optional expiry marker at `i`: `0xFD` carries UNIX seconds in four
/// little-endian bytes, `0xFC` UNIX milliseconds in eight; anything else
/// is no marker and consumes nothing.
pub open spec fn spec_decode_expiry(b: Seq<u8>, i: int) -> Result<
    (Option<u64>, int),
    (int, RdbReason),
> {
    if i >= b.len() {
        Err((i, RdbReason::Truncated))
    } else if b[i] == 0xFD {
        if i + 5 > b.len() {
            Err((i, RdbReason::Truncated))
        } else {
            let secs = b[i + 1] + b[i + 2] * 0x100 + b[i + 3] * 0x10000 + b[i + 4] * 0x1000000;
            Ok((Some((secs * 1000) as u64), i + 5))
        }
    } else if b[i] == 0xFC {
        if i + 9 > b.len() {
            Err((i, RdbReason::Truncated))
        } else {
            let ms = b[i + 1] + b[i + 2] * 0x100 + b[i + 3] * 0x10000 + b[i + 4] * 0x1000000 + b[i
                + 5] * 0x100000000 + b[i + 6] * 0x10000000000 + b[i + 7] * 0x1000000000000 + b[i
                + 8] * 0x100000000000000;
            Ok((Some(ms as u64), i + 9))
        }
    } else {
        Ok((None, i))
    }
}

/// Decode one length prefix.
pub fn decode_length(b: &[u8], i: usize) -> (r: Result<(LengthCode, usize), RdbError>)
    ensures
        match r {
            Ok((c, j)) => spec_decode_length(b@, i as int) == Ok::<_, (int, RdbReason)>((
                length_code_model(c),
                j as int,
            )) && i < j <= b@.len(),
            Err(e) => spec_decode_length(b@, i as int) == Err::<(LengthCodeModel, int), _>(
                rdb_err_model(e),
            ),
        },
{
    if i >= b.len() {
        return Err(RdbError { offset: i, reason: RdbReason::Truncated });
    }
    let f = b[i];
    if f < 0x40 {
        Ok((LengthCode::Plain(f as u32), i + 1))
    } else if f < 0x80 {
        if b.len() - i < 2 {
            Err(RdbError { offset: i, reason: RdbReason::Truncated })
        } else {
            let n: u32 = ((f - 0x40) as u32) * 256 + (b[i + 1] as u32);
            Ok((LengthCode::Plain(n), i + 2))
        }
    } else if f < 0xC0 {
        if b.len() - i < 5 {
            Err(RdbError { offset: i, reason: RdbReason::Truncated })
        } else {
            let n: u32 = (b[i + 1] as u32) * 0x1000000 + (b[i + 2] as u32) * 0x10000 + (b[i
                + 3] as u32) * 0x100 + (b[i + 4] as u32);
            Ok((LengthCode::Plain(n), i + 5))
        }
    } else {
        Ok((LengthCode::Special(f - 0xC0), i + 1))
    }
}

/// Decode one string value.
pub fn decode_string(b: &[u8], i: usize) -> (r: Result<(Vec<u8>, usize), RdbError>)
    ensures
        match r {
            Ok((s, j)) => spec_decode_string(b@, i as int) == Ok::<_, (int, RdbReason)>((
                s@,
                j as int,
            )) && i < j <= b@.len(),
            Err(e) => spec_decode_string(b@, i as int) == Err::<(Seq<u8>, int), _>(
                rdb_err_model(e),
            ),
        },
{
    let (code, j) = match decode_length(b, i) {
        Ok(x) => x,
        Err(e) => {
            return Err(e);
        },
    };
    match code {
        LengthCode::Plain(n) => {
            let nn = n as usize;
            if b.len() - j < nn {
                Err(RdbError { offset: i, reason: RdbReason::Truncated })
            } else {
                Ok((crate::database::copy_bytes(vstd::slice::slice_subrange(b, j, j + nn)), j + nn))
            }
        },
        LengthCode::Special(t) => {
            if t == 0 {
                if b.len() - j < 1 {
                    Err(RdbError { offset: i, reason: RdbReason::Truncated })
                } else {
                    Ok((crate::num::dec_u64(b[j] as u64), j + 1))
                }
            } else if t == 1 {
                if b.len() - j < 2 {
                    Err(RdbError { offset: i, reason: RdbReason::Truncated })
                } else {
                    let n: u64 = (b[j] as u64) + (b[j + 1] as u64) * 0x100;
                    Ok((crate::num::dec_u64(n), j + 2))
                }
            } else if t == 2 {
                if b.len() - j < 4 {
                    Err(RdbError { offset: i, reason: RdbReason::Truncated })
                } else {
                    let n: u64 = (b[j] as u64) + (b[j + 1] as u64) * 0x100 + (b[j + 2] as u64)
                        * 0x10000 + (b[j + 3] as u64) * 0x1000000;
                    Ok((crate::num::dec_u64(n), j + 4))
                }
            } else {
                Err(RdbError { offset: i, reason: RdbReason::UnsupportedString })
            }
        },
    }
}

/// Decode an optional expiry marker.
pub fn decode_expiration_time(b: &[u8], i: usize) -> (r: Result<(Option<u64>, usize), RdbError>)
    ensures
        match r {
            Ok((e, j)) => spec_decode_expiry(b@, i as int) == Ok::<_, (int, RdbReason)>((
                e,
                j as int,
            )) && i <= j <= b@.len() && i < b@.len(),
            Err(e) => spec_decode_expiry(b@, i as int) == Err::<(Option<u64>, int), _>(
                rdb_err_model(e),
            ),
        },
{
    if i >= b.len() {
        return Err(RdbError { offset: i, reason: RdbReason::Truncated });
    }
    if b[i] == 0xFD {
        if b.len() - i < 5 {
            Err(RdbError { offset: i, reason: RdbReason::Truncated })
        } else {
            let secs: u64 = (b[i + 1] as u64) + (b[i + 2] as u64) * 0x100 + (b[i + 3] as u64)
                * 0x10000 + (b[i + 4] as u64) * 0x1000000;
            Ok((Some(secs * 1000), i + 5))
        }
    } else if b[i] == 0xFC {
        if b.len() - i < 9 {
            Err(RdbError { offset: i, reason: RdbReason::Truncated })
        } else {
            let ms: u64 = (b[i + 1] as u64) + (b[i + 2] as u64) * 0x100 + (b[i + 3] as u64)
                * 0x10000 + (b[i + 4] as u64) * 0x1000000 + (b[i + 5] as u64) * 0x100000000 + (b[i
                + 6] as u64) * 0x10000000000 + (b[i + 7] as u64) * 0x1000000000000 + (b[i
                + 8] as u64) * 0x100000000000000;
            Ok((Some(ms), i + 9))
        }
    } else {
        Ok((None, i))
    }
}

/// The value types the format names; only plain strings are supported.
#[derive(Debug, Clone, Copy, PartialEq, Eq)]
pub enum KeyType {
    StringValue,
    List,
    SetValue,
    SortedSet,
    HashValue,
    Zipmap,
    Ziplist,
    Intset,
    ZHashMap,
    ZSortedSet,
    ListQuickList,
}

pub open spec fn key_type_of(v: u8) -> Option<KeyType> {
    if v == 0x00 {
        Some(KeyType::StringValue)
    } else if v == 0x01 {
        Some(KeyType::List)
    } else if v == 0x02 {
        Some(KeyType::SetValue)
    } else if v == 0x03 {
        Some(KeyType::SortedSet)
    } else if v == 0x04 {
        Some(KeyType::HashValue)
    } else if v == 0x09 {
        Some(KeyType::Zipmap)
    } else if v == 0x0A {
        Some(KeyType::Ziplist)
    } else if v == 0x0B {
        Some(KeyType::Intset)
    } else if v == 0x0C {
        Some(KeyType::ZSortedSet)
    } else if v == 0x0D {
        Some(KeyType::ZHashMap)
    } else if v == 0x0E {
        Some(KeyType::ListQuickList)
    } else {
        None
    }
}

impl KeyType {
    /// The value type a byte names, if any.
    pub fn from_byte(v: u8) -> (r: Option<KeyType>)
        ensures
            r == key_type_of(v),
    {
        if v == 0x00 {
            Some(KeyType::StringValue)
        } else if v == 0x01 {
            Some(KeyType::List)
        } else if v == 0x02 {
            Some(KeyType::SetValue)
        } else if v == 0x03 {
            Some(KeyType::SortedSet)
        } else if v == 0x04 {
            Some(KeyType::HashValue)
        } else if v == 0x09 {
            Some(KeyType::Zipmap)
        } else if v == 0x0A {
            Some(KeyType::Ziplist)
        } else if v == 0x0B {
            Some(KeyType::Intset)
        } else if v == 0x0C {
            Some(KeyType::ZSortedSet)
        } else if v == 0x0D {
            Some(KeyType::ZHashMap)
        } else if v == 0x0E {
            Some(KeyType::ListQuickList)
        } else {
            None
        }
    }
}

/// The section opcodes.
#[derive(Debug, Clone, Copy, PartialEq, Eq)]
pub enum OperationCode {
    Eof,
    SelectDb,
    ResizeDb,
    Aux,
}

pub open spec fn op_code_of(v: u8) -> Option<OperationCode> {
    if v == 0xFF {
        Some(OperationCode::Eof)
    } else if v == 0xFE {
        Some(OperationCode::SelectDb)
    } else if v == 0xFB {
        Some(OperationCode::ResizeDb)
    } else if v == 0xFA {
        Some(OperationCode::Aux)
    } else {
        None
    }
}

impl OperationCode {
    /// The section opcode a byte names, if any.
    pub fn from_byte(v: u8) -> (r: Option<OperationCode>)
        ensures
            r == op_code_of(v),
    {
        if v == 0xFF {
            Some(OperationCode::Eof)
        } else if v == 0xFE {
            Some(OperationCode::SelectDb)
        } else if v == 0xFB {
            Some(OperationCode::ResizeDb)
        } else if v == 0xFA {
            Some(OperationCode::Aux)
        } else {
            None
        }
    }
}

/// One key entry at `i`: optional expiry marker, one value-type byte,
/// the key string, the value string.
pub open spec fn spec_decode_key(b: Seq<u8>, i: int) -> Result<
    ((Seq<u8>, Seq<u8>, Option<u64>), int),
    (int, RdbReason),
> {
    match spec_decode_expiry(b, i) {
        Err(e) => Err(e),
        Ok((exp, j)) => {
            if j >= b.len() {
                Err((j, RdbReason::Truncated))
            } else {
                match key_type_of(b[j]) {
                    None => Err((j, RdbReason::BadOpcode)),
                    Some(t) => {
                        if !(t is StringValue) {
                            Err((j, RdbReason::UnsupportedType))
                        } else {
                            match spec_decode_string(b, j + 1) {
                                Err(e) => Err(e),
                                Ok((k, j2)) => match spec_decode_string(b, j2) {
                                    Err(e) => Err(e),
                                    Ok((v, j3)) => Ok(((k, v, exp), j3)),
                                },
                            }
                        }
                    },
                }
            }
        },
    }
}

/// Decode the value of a key entry: only plain strings are carried;
/// every other value type is refused.
pub fn decode_key_value(b: &[u8], i: usize, t: KeyType) -> (r: Result<(Vec<u8>, usize), RdbError>)
    ensures
        match r {
            Ok((s, j)) => t is StringValue && spec_decode_string(b@, i as int) == Ok::<
                _,
                (int, RdbReason),
            >((s@, j as int)) && i < j <= b@.len(),
            Err(e) => if t is StringValue {
                spec_decode_string(b@, i as int) == Err::<(Seq<u8>, int), _>(rdb_err_model(e))
            } else {
                rdb_err_model(e) == (i as int, RdbReason::UnsupportedType)
            },
        },
{
    match t {
        KeyType::StringValue => decode_string(b, i),
        _ => Err(RdbError { offset: i, reason: RdbReason::UnsupportedType }),
    }
}

/// Decode one key entry.
pub fn decode_key(b: &[u8], i: usize) -> (r: Result<((Vec<u8>, Vec<u8>, Option<u64>), usize), RdbError>)
    ensures
        match r {
            Ok(((k, v, e), j)) => spec_decode_key(b@, i as int) == Ok::<_, (int, RdbReason)>((
                (k@, v@, e),
                j as int,
            )) && i < j <= b@.len(),
            Err(e) => spec_decode_key(b@, i as int) == Err::<((Seq<u8>, Seq<u8>, Option<u64>), int), _>(
                rdb_err_model(e),
            ),
        },
{
    let (exp, j) = match decode_expiration_time(b, i) {
        Ok(x) => x,
        Err(e) => {
            return Err(e);
        },
    };
    if j >= b.len() {
        return Err(RdbError { offset: j, reason: RdbReason::Truncated });
    }
    let t = match KeyType::from_byte(b[j]) {
        Some(t) => t,
        None => {
            return Err(RdbError { offset: j, reason: RdbReason::BadOpcode });
        },
    };
    match t {
        KeyType::StringValue => {},
        _ => {
            return Err(RdbError { offset: j, reason: RdbReason::UnsupportedType });
        },
    }
    let (key, j2) = match decode_string(b, j + 1) {
        Ok(x) => x,
        Err(e) => {
            return Err(e);
        },
    };
    let (value, j3) = match decode_key_value(b, j2, t) {
        Ok(x) => x,
        Err(e) => {
            return Err(e);
        },
    };
    Ok(((key, value, exp), j3))
}

/// The databases a sequence of them denotes, keyed by number.
pub open spec fn dbs_map(s: Seq<Database>) -> DbsModel
    decreases s.len(),
{
    if s.len() == 0 {
        Map::empty()
    } else {
        dbs_map(s.drop_last()).insert(s.last().spec_id() as int, s.last()@)
    }
}

/// Database numbers are pairwise distinct.
pub open spec fn unique_ids(s: Seq<Database>) -> bool {
    forall|i: int, j: int| 0 <= i < j < s.len() ==> (#[trigger] s[i]).spec_id() != (
    #[trigger] s[j]).spec_id()
}

/// What a run of databases with distinct numbers denotes.
pub(crate) proof fn lemma_dbs_map_char(s: Seq<Database>)
    requires
        unique_ids(s),
    ensures
        forall|i: int| 0 <= i < s.len() ==> dbs_map(s).contains_key(
            (#[trigger] s[i]).spec_id() as int,
        ) && dbs_map(s)[s[i].spec_id() as int] == s[i]@,
        forall|k: int| dbs_map(s).contains_key(k) ==> exists|i: int|
            0 <= i < s.len() && (#[trigger] s[i]).spec_id() == k,
    decreases s.len(),
{
    if s.len() > 0 {
        let head = s.drop_last();
        assert(unique_ids(head)) by {
            assert(forall|i: int| 0 <= i < head.len() ==> head[i] == s[i]);
        }
        lemma_dbs_map_char(head);
        assert(forall|i: int| 0 <= i < head.len() ==> head[i] == s[i]);
        assert forall|i: int| 0 <= i < s.len() implies dbs_map(s).contains_key(
            (#[trigger] s[i]).spec_id() as int,
        ) && dbs_map(s)[s[i].spec_id() as int] == s[i]@ by {
            if i < s.len() - 1 {
                assert(s[i].spec_id() != s.last().spec_id());
            }
        }
        assert forall|k: int| dbs_map(s).contains_key(k) implies exists|i: int|
            0 <= i < s.len() && (#[trigger] s[i]).spec_id() == k by {
            if k == s.last().spec_id() as int {
                assert(s[s.len() - 1].spec_id() == k);
            } else {
                assert(dbs_map(head).contains_key(k));
                let i = choose|i: int| 0 <= i < head.len() && (#[trigger] head[i]).spec_id() == k;
                assert(s[i].spec_id() == k);
            }
        }
    }
}

/// A record with expiry at or before `now` is dropped on load.
pub open spec fn load_live(exp: Option<u64>, now: u64) -> bool {
    match exp {
        None => true,
        Some(at) => at > now,
    }
}

/// The parse loop from position `i`: sections keyed by opcode, key
/// entries anywhere between them, ending only at the EOF opcode.
pub open spec fn spec_parse_from(b: Seq<u8>, i: int, sel: int, dbs: DbsModel, now: u64) -> Result<
    DbsModel,
    (int, RdbReason),
>
    decreases b.len() - i,
{
    if i >= b.len() {
        Err((i, RdbReason::Truncated))
    } else if b[i] == 0xFF {
        Ok(dbs)
    } else if b[i] == 0xFA {
        match spec_decode_string(b, i + 1) {
            Err(e) => Err(e),
            Ok((k, j)) => match spec_decode_string(b, j) {
                Err(e) => Err(e),
                Ok((v, j2)) => spec_parse_from(
                    b,
                    if j2 > i { j2 } else { i + 1 },
                    sel,
                    dbs,
                    now,
                ),
            },
        }
    } else if b[i] == 0xFE {
        match spec_decode_length(b, i + 1) {
            Err(e) => Err(e),
            Ok((LengthCodeModel::Plain(n), j)) => {
                let dbs2 = if dbs.contains_key(n) {
                    dbs
                } else {
                    dbs.insert(n, Map::empty())
                };
                spec_parse_from(b, if j > i { j } else { i + 1 }, n, dbs2, now)
            },
            Ok((LengthCodeModel::Special(_), j)) => Err((i + 1, RdbReason::BadOpcode)),
        }
    } else if b[i] == 0xFB {
        match spec_decode_length(b, i + 1) {
            Err(e) => Err(e),
            Ok((LengthCodeModel::Special(_), _)) => Err((i + 1, RdbReason::BadOpcode)),
            Ok((LengthCodeModel::Plain(_), j)) => match spec_decode_length(b, j) {
                Err(e) => Err(e),
                Ok((LengthCodeModel::Special(_), _)) => Err((j, RdbReason::BadOpcode)),
                Ok((LengthCodeModel::Plain(_), j2)) => spec_parse_from(
                    b,
                    if j2 > i { j2 } else { i + 1 },
                    sel,
                    dbs,
                    now,
                ),
            },
        }
    } else {
        match spec_decode_key(b, i) {
            Err(e) => Err(e),
            Ok(((k, v, exp), j)) => {
                let dbs2 = if load_live(exp, now) {
                    dbs.insert(sel, dbs[sel].insert(k, (v, exp)))
                } else {
                    dbs
                };
                spec_parse_from(b, if j > i { j } else { i + 1 }, sel, dbs2, now)
            },
        }
    }
}

/// The nine-byte header must open with ASCII `REDIS`.
pub open spec fn redis_magic() -> Seq<u8> {
    seq![0x52u8, 0x45u8, 0x44u8, 0x49u8, 0x53u8]
}

/// The keyspaces the loader yields for the given snapshot bytes at time
/// `now`: a fresh database 0 when there are no bytes, the parsed
/// sections otherwise.
pub open spec fn spec_load(d: Option<Seq<u8>>, now: u64) -> Result<DbsModel, (int, RdbReason)> {
    let init = Map::<int, DbModel>::empty().insert(0, Map::empty());
    match d {
        None => Ok(init),
        Some(b) => {
            if b.len() == 0 {
                Ok(init)
            } else if b.len() < 9 || b.subrange(0, 5) != redis_magic() {
                Err((0, RdbReason::BadHeader))
            } else {
                spec_parse_from(b, 9, 0, init, now)
            }
        },
    }
}

/// The snapshot loader: holds the raw file bytes, if the file existed.
pub struct RDB {
    data: Option<Vec<u8>>,
}

impl View for RDB {
    type V = Option<Seq<u8>>;

    closed spec fn view(&self) -> Option<Seq<u8>> {
        match self.data {
            Some(ref v) => Some(v@),
            None => None,
        }
    }
}

impl RDB {
    /// Wrap the raw bytes of a snapshot file; `None` stands for a file
    /// that does not exist.
    pub fn new(data: Option<Vec<u8>>) -> (r: RDB)
        ensures
            r@ == (match data {
                Some(v) => Some(v@),
                None => None::<Seq<u8>>,
            }),
    {
        RDB { data }
    }

    /// The raw snapshot bytes, if the file existed.
    pub fn data(&self) -> (r: Option<&Vec<u8>>)
        ensures
            match r {
                Some(v) => self@ == Some(v@),
                None => self@ is None,
            },
    {
        match &self.data {
            Some(v) => Some(v),
            None => None,
        }
    }

    /// Parse the snapshot into keyspaces, dropping entries already
    /// expired at `now`; exactly what [`spec_load`] says, as a vector
    /// of well-formed databases with pairwise-distinct numbers, always
    /// including database 0.
    #[verifier::rlimit(50)]
    pub fn load(&self, now: u64) -> (r: Result<Vec<Database>, RdbError>)
        ensures
            match r {
                Ok(dbs) => spec_load(self@, now) == Ok::<_, (int, RdbReason)>(dbs_map(dbs@))
                    && unique_ids(dbs@) && (forall|i: int|
                    0 <= i < dbs@.len() ==> (#[trigger] dbs@[i]).wf()) && dbs_map(
                    dbs@,
                ).contains_key(0),
                Err(e) => spec_load(self@, now) == Err::<DbsModel, _>(rdb_err_model(e)),
            },
    {
        let d = match &self.data {
            None => {
                let mut dbs: Vec<Database> = Vec::new();
                dbs.push(Database::new(0));
                proof {
                    assert(dbs@.drop_last() =~= Seq::<Database>::empty());
                    assert(dbs_map(Seq::<Database>::empty()) =~= Map::<int, DbModel>::empty());
                    assert(dbs_map(dbs@) =~= Map::<int, DbModel>::empty().insert(
                        0,
                        Map::empty(),
                    ));
                }
                return Ok(dbs);
            },
            Some(d) => d,
        };
        if d.len() == 0 {
            let mut dbs: Vec<Database> = Vec::new();
            dbs.push(Database::new(0));
            proof {
                assert(dbs@.drop_last() =~= Seq::<Database>::empty());
                assert(dbs_map(Seq::<Database>::empty()) =~= Map::<int, DbModel>::empty());
                assert(dbs_map(dbs@) =~= Map::<int, DbModel>::empty().insert(0, Map::empty()));
            }
            return Ok(dbs);
        }
        let b = d.as_slice();
        if b.len() < 9 || !(b[0] == 0x52 && b[1] == 0x45 && b[2] == 0x44 && b[3] == 0x49 && b[4]
            == 0x53) {
            proof {
                if b@.len() >= 9 {
                    assert(b@.subrange(0, 5) != redis_magic());
                }
            }
            return Err(RdbError { offset: 0, reason: RdbReason::BadHeader });
        }
        proof {
            assert(b@.subrange(0, 5) =~= redis_magic());
        }
        self.parse_file(b, now)
    }

    /// Run the parse loop over the bytes after the header.
    #[verifier::loop_isolation(false)]
    #[verifier::rlimit(100)]
    fn parse_file(&self, b: &[u8], now: u64) -> (r: Result<Vec<Database>, RdbError>)
        requires
            b@.len() >= 9,
        ensures
            match r {
                Ok(dbs) => spec_parse_from(
                    b@,
                    9,
                    0,
                    Map::<int, DbModel>::empty().insert(0, Map::empty()),
                    now,
                ) == Ok::<_, (int, RdbReason)>(dbs_map(dbs@)) && unique_ids(dbs@) && (forall|
                    i: int,
                |
                    0 <= i < dbs@.len() ==> (#[trigger] dbs@[i]).wf()) && dbs_map(
                    dbs@,
                ).contains_key(0),
                Err(e) => spec_parse_from(
                    b@,
                    9,
                    0,
                    Map::<int, DbModel>::empty().insert(0, Map::empty()),
                    now,
                ) == Err::<DbsModel, _>(rdb_err_model(e)),
            },
    {
        let ghost init = Map::<int, DbModel>::empty().insert(0, Map::<Seq<u8>, RecordModel>::empty());
        let n = b.len();
        let mut dbs: Vec<Database> = Vec::new();
        dbs.push(Database::new(0));
        let mut sel: u32 = 0;
        let mut pos: usize = 9;
        proof {
            assert(dbs@.drop_last() =~= Seq::<Database>::empty());
            assert(dbs_map(Seq::<Database>::empty()) =~= Map::<int, DbModel>::empty());
            assert(dbs_map(dbs@) =~= init);
        }
        loop
            invariant
                n == b@.len(),
                9 <= pos,
                unique_ids(dbs@),
                forall|i: int| 0 <= i < dbs@.len() ==> (#[trigger] dbs@[i]).wf(),
                dbs_map(dbs@).contains_key(0),
                dbs_map(dbs@).contains_key(sel as int),
                spec_parse_from(b@, 9, 0, init, now) == spec_parse_from(
                    b@,
                    pos as int,
                    sel as int,
                    dbs_map(dbs@),
                    now,
                ),
            decreases n - pos,
        {
            if pos >= n {
                return Err(RdbError { offset: pos, reason: RdbReason::Truncated });
            }
            let op = b[pos];
            match OperationCode::from_byte(op) {
                Some(OperationCode::Eof) => {
                    return Ok(dbs);
                },
                Some(OperationCode::Aux) => {
                    let (_k, j) = match decode_string(b, pos + 1) {
                        Ok(x) => x,
                        Err(e) => {
                            return Err(e);
                        },
                    };
                    let (_v, j2) = match decode_string(b, j) {
                        Ok(x) => x,
                        Err(e) => {
                            return Err(e);
                        },
                    };
                    pos = j2;
                },
                Some(OperationCode::SelectDb) => {
                    let (code, j) = match decode_length(b, pos + 1) {
                        Ok(x) => x,
                        Err(e) => {
                            return Err(e);
                        },
                    };
                    let nsel = match code {
                        LengthCode::Plain(v) => v,
                        LengthCode::Special(_) => {
                            return Err(RdbError { offset: pos + 1, reason: RdbReason::BadOpcode });
                        },
                    };
                    proof {
                        lemma_dbs_map_char(dbs@);
                    }
                    match find_db(&dbs, nsel) {
                        Some(_) => {},
                        None => {
                            let ghost s0 = dbs@;
                            dbs.push(Database::new(nsel));
                            proof {
                                assert(dbs@.drop_last() =~= s0);
                                assert(unique_ids(dbs@)) by {
                                    assert forall|a: int, c: int| 0 <= a < c < dbs@.len() implies (
                                    #[trigger] dbs@[a]).spec_id() != (#[trigger] dbs@[c]).spec_id()
                                        by {
                                        if c < dbs@.len() - 1 {
                                            assert(dbs@[a] == s0[a] && dbs@[c] == s0[c]);
                                        } else {
                                            assert(dbs@[a] == s0[a]);
                                        }
                                    }
                                }
                            }
                        },
                    }
                    sel = nsel;
                    pos = j;
                },
                Some(OperationCode::ResizeDb) => {
                    let (code, j) = match decode_length(b, pos + 1) {
                        Ok(x) => x,
                        Err(e) => {
                            return Err(e);
                        },
                    };
                    match code {
                        LengthCode::Plain(_) => {},
                        LengthCode::Special(_) => {
                            return Err(RdbError { offset: pos + 1, reason: RdbReason::BadOpcode });
                        },
                    }
                    let (code2, j2) = match decode_length(b, j) {
                        Ok(x) => x,
                        Err(e) => {
                            return Err(e);
                        },
                    };
                    match code2 {
                        LengthCode::Plain(_) => {},
                        LengthCode::Special(_) => {
                            return Err(RdbError { offset: j, reason: RdbReason::BadOpcode });
                        },
                    }
                    pos = j2;
                },
                None => {
                    let ((key, value, exp), j) = match decode_key(b, pos) {
                        Ok(x) => x,
                        Err(e) => {
                            return Err(e);
                        },
                    };
                    let live = match exp {
                        None => true,
                        Some(at) => at > now,
                    };
                    if live {
                        proof {
                            lemma_dbs_map_char(dbs@);
                        }
                        let idx = match find_db(&dbs, sel) {
                            Some(i) => i,
                            None => {
                                proof {
                                    let w = choose|w: int|
                                        0 <= w < dbs@.len() && (#[trigger] dbs@[w]).spec_id()
                                            == sel as int;
                                    assert(false);
                                }
                                return Err(RdbError { offset: pos, reason: RdbReason::BadOpcode });
                            },
                        };
                        let ghost s0 = dbs@;
                        let mut db = dbs.remove(idx);
                        db.insert(key, value, exp);
                        dbs.insert(idx, db);
                        proof {
                            assert(dbs@ =~= s0.update(idx as int, dbs@[idx as int]));
                            let dbv = dbs@[idx as int];
                            assert(dbv@ == s0[idx as int]@.insert(key@, (value@, exp)));
                            assert(dbv.spec_id() == sel as int);
                            assert(unique_ids(dbs@)) by {
                                assert forall|a: int, c: int| 0 <= a < c < dbs@.len() implies (
                                #[trigger] dbs@[a]).spec_id() != (#[trigger] dbs@[c]).spec_id()
                                    by {
                                    assert(s0[a].spec_id() != s0[c].spec_id());
                                }
                            }
                            lemma_dbs_map_char(s0);
                            lemma_dbs_map_char(dbs@);
                            assert(dbs_map(dbs@) =~= dbs_map(s0).insert(
                                sel as int,
                                s0[idx as int]@.insert(key@, (value@, exp)),
                            )) by {
                                assert forall|k: int| dbs_map(dbs@).contains_key(k)
                                    implies dbs_map(s0).insert(
                                    sel as int,
                                    s0[idx as int]@.insert(key@, (value@, exp)),
                                ).contains_key(k) && dbs_map(dbs@)[k] == dbs_map(s0).insert(
                                    sel as int,
                                    s0[idx as int]@.insert(key@, (value@, exp)),
                                )[k] by {
                                    let w = choose|w: int|
                                        0 <= w < dbs@.len() && (#[trigger] dbs@[w]).spec_id() == k;
                                    if w != idx {
                                        assert(dbs@[w] == s0[w]);
                                        assert(k != sel as int);
                                    }
                                }
                                assert forall|k: int| dbs_map(s0).insert(
                                    sel as int,
                                    s0[idx as int]@.insert(key@, (value@, exp)),
                                ).contains_key(k) implies dbs_map(dbs@).contains_key(k) by {
                                    if k == sel as int {
                                        assert(dbs@[idx as int].spec_id() == k);
                                    } else {
                                        let w = choose|w: int|
                                            0 <= w < s0.len() && (#[trigger] s0[w]).spec_id() == k;
                                        assert(w != idx);
                                        assert(dbs@[w] == s0[w]);
                                    }
                                }
                            }
                            assert(dbs_map(s0)[sel as int] == s0[idx as int]@);
                        }
                    }
                    pos = j;
                },
            }
        }
    }
}

/// The canonical minimal snapshot: a header, a few AUX fields and an
/// EOF marker, holding one empty database. A primary with no snapshot
/// file of its own sends this to a new follower.
pub open spec fn spec_canonical_snapshot() -> Seq<u8> {
    seq![0x52u8, 0x45u8, 0x44u8, 0x49u8, 0x53u8, 0x30u8, 0x30u8, 0x31u8, 0x31u8, 0xFAu8, 0x09u8, 0x72u8, 0x65u8, 0x64u8, 0x69u8, 0x73u8, 0x2Du8, 0x76u8, 0x65u8, 0x72u8, 0x05u8, 0x37u8, 0x2Eu8, 0x32u8, 0x2Eu8, 0x30u8, 0xFAu8, 0x0Au8, 0x72u8, 0x65u8, 0x64u8, 0x69u8, 0x73u8, 0x2Du8, 0x62u8, 0x69u8, 0x74u8, 0x73u8, 0xC0u8, 0x40u8, 0xFAu8, 0x05u8, 0x63u8, 0x74u8, 0x69u8, 0x6Du8, 0x65u8, 0xC2u8, 0x6Du8, 0x08u8, 0xBCu8, 0x65u8, 0xFAu8, 0x08u8, 0x75u8, 0x73u8, 0x65u8, 0x64u8, 0x2Du8, 0x6Du8, 0x65u8, 0x6Du8, 0xC2u8, 0xB0u8, 0xC4u8, 0x10u8, 0x00u8, 0xFAu8, 0x08u8, 0x61u8, 0x6Fu8, 0x66u8, 0x2Du8, 0x62u8, 0x61u8, 0x73u8, 0x65u8, 0xC0u8, 0x00u8, 0xFFu8, 0xF0u8, 0x6Eu8, 0x3Bu8, 0xFEu8, 0xC0u8, 0xFFu8, 0x5Au8, 0xA2u8]
}

/// The canonical minimal snapshot, as bytes.
pub fn canonical_snapshot() -> (r: Vec<u8>)
    ensures
        r@ == spec_canonical_snapshot(),
{
    let out: Vec<u8> = vec![0x52u8, 0x45u8, 0x44u8, 0x49u8, 0x53u8, 0x30u8, 0x30u8, 0x31u8, 0x31u8, 0xFAu8, 0x09u8, 0x72u8, 0x65u8, 0x64u8, 0x69u8, 0x73u8, 0x2Du8, 0x76u8, 0x65u8, 0x72u8, 0x05u8, 0x37u8, 0x2Eu8, 0x32u8, 0x2Eu8, 0x30u8, 0xFAu8, 0x0Au8, 0x72u8, 0x65u8, 0x64u8, 0x69u8, 0x73u8, 0x2Du8, 0x62u8, 0x69u8, 0x74u8, 0x73u8, 0xC0u8, 0x40u8, 0xFAu8, 0x05u8, 0x63u8, 0x74u8, 0x69u8, 0x6Du8, 0x65u8, 0xC2u8, 0x6Du8, 0x08u8, 0xBCu8, 0x65u8, 0xFAu8, 0x08u8, 0x75u8, 0x73u8, 0x65u8, 0x64u8, 0x2Du8, 0x6Du8, 0x65u8, 0x6Du8, 0xC2u8, 0xB0u8, 0xC4u8, 0x10u8, 0x00u8, 0xFAu8, 0x08u8, 0x61u8, 0x6Fu8, 0x66u8, 0x2Du8, 0x62u8, 0x61u8, 0x73u8, 0x65u8, 0xC0u8, 0x00u8, 0xFFu8, 0xF0u8, 0x6Eu8, 0x3Bu8, 0xFEu8, 0xC0u8, 0xFFu8, 0x5Au8, 0xA2u8];
    proof {
        assert(out@ =~= spec_canonical_snapshot());
    }
    out
}

/// Replacing one database in a run with distinct numbers rewrites just
/// its own entry of the denoted map.
pub(crate) proof fn lemma_dbs_update(s0: Seq<Database>, s1: Seq<Database>, idx: int, sel: int)
    requires
        unique_ids(s0),
        0 <= idx < s0.len(),
        s0[idx].spec_id() == sel,
        s1.len() == s0.len(),
        forall|j: int| 0 <= j < s0.len() && j != idx ==> s1[j] == s0[j],
        s1[idx].spec_id() == sel,
    ensures
        unique_ids(s1),
        dbs_map(s1) == dbs_map(s0).insert(sel, s1[idx]@),
        dbs_map(s0)[sel] == s0[idx]@,
        dbs_map(s1).contains_key(sel),
        forall|k: int| dbs_map(s0).contains_key(k) <==> dbs_map(s1).contains_key(k),
{
    assert(unique_ids(s1)) by {
        assert forall|a: int, c: int| 0 <= a < c < s1.len() implies (#[trigger] s1[a]).spec_id()
            != (#[trigger] s1[c]).spec_id() by {
            assert(s0[a].spec_id() != s0[c].spec_id());
        }
    }
    lemma_dbs_map_char(s0);
    lemma_dbs_map_char(s1);
    assert(dbs_map(s1) =~= dbs_map(s0).insert(sel, s1[idx]@)) by {
        assert forall|k: int| dbs_map(s1).contains_key(k) implies dbs_map(s0).insert(
            sel,
            s1[idx]@,
        ).contains_key(k) && dbs_map(s1)[k] == dbs_map(s0).insert(sel, s1[idx]@)[k] by {
            let w = choose|w: int| 0 <= w < s1.len() && (#[trigger] s1[w]).spec_id() == k;
            if w != idx {
                assert(s1[w] == s0[w]);
                assert(k != sel);
            }
        }
        assert forall|k: int| dbs_map(s0).insert(sel, s1[idx]@).contains_key(k)
            implies dbs_map(s1).contains_key(k) by {
            if k == sel {
                assert(s1[idx].spec_id() == k);
            } else {
                let w = choose|w: int| 0 <= w < s0.len() && (#[trigger] s0[w]).spec_id() == k;
                assert(w != idx);
                assert(s1[w] == s0[w]);
                assert(s1[w].spec_id() == k);
            }
        }
    }
}

/// Index of the database numbered `id`, if present.
pub(crate) fn find_db(dbs: &Vec<Database>, id: u32) -> (r: Option<usize>)
    ensures
        match r {
            Some(i) => i < dbs@.len() && dbs@[i as int].spec_id() == id,
            None => forall|i: int| 0 <= i < dbs@.len() ==> (#[trigger] dbs@[i]).spec_id() != id,
        },
{
    let n = dbs.len();
    let mut i: usize = 0;
    while i < n
        invariant
            i <= n,
            n == dbs@.len(),
            forall|k: int| 0 <= k < i ==> (#[trigger] dbs@[k]).spec_id() != id,
        decreases n - i,
    {
        if dbs[i].db_id() == id {
            return Some(i);
        }
        i = i + 1;
    }
    None
}

} // verus!
