//! The command engine: dispatch one decoded frame against the keyspace
//! and the replication state.
//!
//! [`RedisService::execute_command`] consumes exactly one frame from the
//! input, answers it, and reports the side work the surrounding process
//! must do: bytes to fan out to followers, a snapshot to send, a
//! follower to register. Its whole behaviour is pinned by
//! [`execute_post`].

use vstd::prelude::*;

use crate::command::{
    command_model, error_model, kw_get, lemma_args_from_len, spec_parse_command, upper_seq,
    CommandError, CommandErrorModel, CommandModel, Commands,
};
use crate::database::{record_live, Database, Record};
use crate::glob::{glob_match, lemma_star_matches_all};
use crate::num::{parse_line_u64, parse_dec, LineU64};
use crate::rdb::{
    canonical_snapshot, dbs_map, find_db, lemma_dbs_update, spec_canonical_snapshot, spec_load,
    unique_ids, DbModel, RdbError, RdbReason, RDB,
};
use crate::replication::{offset_after, ok_word, pong_word, spec_replication_info, Replica,
    fullresync_line};
use crate::resp::{
    decode, frame_model, frame_models, lemma_spec_decode_arr_len, lemma_spec_decode_bounds,
    spec_decode, spec_encode, spec_snapshot_frame, encode, encode_snapshot_frame, DecodeResult,
    FrameModel, RespDataTypes, SpecDec,
};
use crate::server_state::ServerState;

verus! {

/// The bytes of `"ERR Protocol error: malformed frame"`.
pub open spec fn err_protocol_msg() -> Seq<u8> {
    seq![0x45u8, 0x52u8, 0x52u8, 0x20u8, 0x50u8, 0x72u8, 0x6Fu8, 0x74u8, 0x6Fu8, 0x63u8, 0x6Fu8, 0x6Cu8, 0x20u8, 0x65u8, 0x72u8, 0x72u8, 0x6Fu8, 0x72u8, 0x3Au8, 0x20u8, 0x6Du8, 0x61u8, 0x6Cu8, 0x66u8, 0x6Fu8, 0x72u8, 0x6Du8, 0x65u8, 0x64u8, 0x20u8, 0x66u8, 0x72u8, 0x61u8, 0x6Du8, 0x65u8]
}

fn build_err_protocol_msg() -> (r: Vec<u8>)
    ensures
        r@ == err_protocol_msg(),
{
    let out: Vec<u8> = vec![0x45u8, 0x52u8, 0x52u8, 0x20u8, 0x50u8, 0x72u8, 0x6Fu8, 0x74u8, 0x6Fu8, 0x63u8, 0x6Fu8, 0x6Cu8, 0x20u8, 0x65u8, 0x72u8, 0x72u8, 0x6Fu8, 0x72u8, 0x3Au8, 0x20u8, 0x6Du8, 0x61u8, 0x6Cu8, 0x66u8, 0x6Fu8, 0x72u8, 0x6Du8, 0x65u8, 0x64u8, 0x20u8, 0x66u8, 0x72u8, 0x61u8, 0x6Du8, 0x65u8];
    proof {
        assert(out@ =~= err_protocol_msg());
    }
    out
}

/// The bytes of `"ERR Protocol error: expected array of bulk strings"`.
pub open spec fn err_notcommand_msg() -> Seq<u8> {
    seq![0x45u8, 0x52u8, 0x52u8, 0x20u8, 0x50u8, 0x72u8, 0x6Fu8, 0x74u8, 0x6Fu8, 0x63u8, 0x6Fu8, 0x6Cu8, 0x20u8, 0x65u8, 0x72u8, 0x72u8, 0x6Fu8, 0x72u8, 0x3Au8, 0x20u8, 0x65u8, 0x78u8, 0x70u8, 0x65u8, 0x63u8, 0x74u8, 0x65u8, 0x64u8, 0x20u8, 0x61u8, 0x72u8, 0x72u8, 0x61u8, 0x79u8, 0x20u8, 0x6Fu8, 0x66u8, 0x20u8, 0x62u8, 0x75u8, 0x6Cu8, 0x6Bu8, 0x20u8, 0x73u8, 0x74u8, 0x72u8, 0x69u8, 0x6Eu8, 0x67u8, 0x73u8]
}

fn build_err_notcommand_msg() -> (r: Vec<u8>)
    ensures
        r@ == err_notcommand_msg(),
{
    let out: Vec<u8> = vec![0x45u8, 0x52u8, 0x52u8, 0x20u8, 0x50u8, 0x72u8, 0x6Fu8, 0x74u8, 0x6Fu8, 0x63u8, 0x6Fu8, 0x6Cu8, 0x20u8, 0x65u8, 0x72u8, 0x72u8, 0x6Fu8, 0x72u8, 0x3Au8, 0x20u8, 0x65u8, 0x78u8, 0x70u8, 0x65u8, 0x63u8, 0x74u8, 0x65u8, 0x64u8, 0x20u8, 0x61u8, 0x72u8, 0x72u8, 0x61u8, 0x79u8, 0x20u8, 0x6Fu8, 0x66u8, 0x20u8, 0x62u8, 0x75u8, 0x6Cu8, 0x6Bu8, 0x20u8, 0x73u8, 0x74u8, 0x72u8, 0x69u8, 0x6Eu8, 0x67u8, 0x73u8];
    proof {
        assert(out@ =~= err_notcommand_msg());
    }
    out
}

/// The bytes of `"ERR unknown command '"`.
pub open spec fn err_unknown_head() -> Seq<u8> {
    seq![0x45u8, 0x52u8, 0x52u8, 0x20u8, 0x75u8, 0x6Eu8, 0x6Bu8, 0x6Eu8, 0x6Fu8, 0x77u8, 0x6Eu8, 0x20u8, 0x63u8, 0x6Fu8, 0x6Du8, 0x6Du8, 0x61u8, 0x6Eu8, 0x64u8, 0x20u8, 0x27u8]
}

fn build_err_unknown_head() -> (r: Vec<u8>)
    ensures
        r@ == err_unknown_head(),
{
    let out: Vec<u8> = vec![0x45u8, 0x52u8, 0x52u8, 0x20u8, 0x75u8, 0x6Eu8, 0x6Bu8, 0x6Eu8, 0x6Fu8, 0x77u8, 0x6Eu8, 0x20u8, 0x63u8, 0x6Fu8, 0x6Du8, 0x6Du8, 0x61u8, 0x6Eu8, 0x64u8, 0x20u8, 0x27u8];
    proof {
        assert(out@ =~= err_unknown_head());
    }
    out
}

/// The bytes of `"ERR wrong number of arguments"`.
pub open spec fn err_arity_msg() -> Seq<u8> {
    seq![0x45u8, 0x52u8, 0x52u8, 0x20u8, 0x77u8, 0x72u8, 0x6Fu8, 0x6Eu8, 0x67u8, 0x20u8, 0x6Eu8, 0x75u8, 0x6Du8, 0x62u8, 0x65u8, 0x72u8, 0x20u8, 0x6Fu8, 0x66u8, 0x20u8, 0x61u8, 0x72u8, 0x67u8, 0x75u8, 0x6Du8, 0x65u8, 0x6Eu8, 0x74u8, 0x73u8]
}

fn build_err_arity_msg() -> (r: Vec<u8>)
    ensures
        r@ == err_arity_msg(),
{
    let out: Vec<u8> = vec![0x45u8, 0x52u8, 0x52u8, 0x20u8, 0x77u8, 0x72u8, 0x6Fu8, 0x6Eu8, 0x67u8, 0x20u8, 0x6Eu8, 0x75u8, 0x6Du8, 0x62u8, 0x65u8, 0x72u8, 0x20u8, 0x6Fu8, 0x66u8, 0x20u8, 0x61u8, 0x72u8, 0x67u8, 0x75u8, 0x6Du8, 0x65u8, 0x6Eu8, 0x74u8, 0x73u8];
    proof {
        assert(out@ =~= err_arity_msg());
    }
    out
}

/// The bytes of `"ERR syntax"`.
pub open spec fn err_syntax_msg() -> Seq<u8> {
    seq![0x45u8, 0x52u8, 0x52u8, 0x20u8, 0x73u8, 0x79u8, 0x6Eu8, 0x74u8, 0x61u8, 0x78u8]
}

fn build_err_syntax_msg() -> (r: Vec<u8>)
    ensures
        r@ == err_syntax_msg(),
{
    let out: Vec<u8> = vec![0x45u8, 0x52u8, 0x52u8, 0x20u8, 0x73u8, 0x79u8, 0x6Eu8, 0x74u8, 0x61u8, 0x78u8];
    proof {
        assert(out@ =~= err_syntax_msg());
    }
    out
}

/// The bytes of `"ERR unknown CONFIG parameter"`.
pub open spec fn err_config_msg() -> Seq<u8> {
    seq![0x45u8, 0x52u8, 0x52u8, 0x20u8, 0x75u8, 0x6Eu8, 0x6Bu8, 0x6Eu8, 0x6Fu8, 0x77u8, 0x6Eu8, 0x20u8, 0x43u8, 0x4Fu8, 0x4Eu8, 0x46u8, 0x49u8, 0x47u8, 0x20u8, 0x70u8, 0x61u8, 0x72u8, 0x61u8, 0x6Du8, 0x65u8, 0x74u8, 0x65u8, 0x72u8]
}

fn build_err_config_msg() -> (r: Vec<u8>)
    ensures
        r@ == err_config_msg(),
{
    let out: Vec<u8> = vec![0x45u8, 0x52u8, 0x52u8, 0x20u8, 0x75u8, 0x6Eu8, 0x6Bu8, 0x6Eu8, 0x6Fu8, 0x77u8, 0x6Eu8, 0x20u8, 0x43u8, 0x4Fu8, 0x4Eu8, 0x46u8, 0x49u8, 0x47u8, 0x20u8, 0x70u8, 0x61u8, 0x72u8, 0x61u8, 0x6Du8, 0x65u8, 0x74u8, 0x65u8, 0x72u8];
    proof {
        assert(out@ =~= err_config_msg());
    }
    out
}

/// The bytes of `"ERR unknown INFO section"`.
pub open spec fn err_info_msg() -> Seq<u8> {
    seq![0x45u8, 0x52u8, 0x52u8, 0x20u8, 0x75u8, 0x6Eu8, 0x6Bu8, 0x6Eu8, 0x6Fu8, 0x77u8, 0x6Eu8, 0x20u8, 0x49u8, 0x4Eu8, 0x46u8, 0x4Fu8, 0x20u8, 0x73u8, 0x65u8, 0x63u8, 0x74u8, 0x69u8, 0x6Fu8, 0x6Eu8]
}

fn build_err_info_msg() -> (r: Vec<u8>)
    ensures
        r@ == err_info_msg(),
{
    let out: Vec<u8> = vec![0x45u8, 0x52u8, 0x52u8, 0x20u8, 0x75u8, 0x6Eu8, 0x6Bu8, 0x6Eu8, 0x6Fu8, 0x77u8, 0x6Eu8, 0x20u8, 0x49u8, 0x4Eu8, 0x46u8, 0x4Fu8, 0x20u8, 0x73u8, 0x65u8, 0x63u8, 0x74u8, 0x69u8, 0x6Fu8, 0x6Eu8];
    proof {
        assert(out@ =~= err_info_msg());
    }
    out
}

/// The bytes of `"ERR PSYNC on a replica"`.
pub open spec fn err_psync_msg() -> Seq<u8> {
    seq![0x45u8, 0x52u8, 0x52u8, 0x20u8, 0x50u8, 0x53u8, 0x59u8, 0x4Eu8, 0x43u8, 0x20u8, 0x6Fu8, 0x6Eu8, 0x20u8, 0x61u8, 0x20u8, 0x72u8, 0x65u8, 0x70u8, 0x6Cu8, 0x69u8, 0x63u8, 0x61u8]
}

fn build_err_psync_msg() -> (r: Vec<u8>)
    ensures
        r@ == err_psync_msg(),
{
    let out: Vec<u8> = vec![0x45u8, 0x52u8, 0x52u8, 0x20u8, 0x50u8, 0x53u8, 0x59u8, 0x4Eu8, 0x43u8, 0x20u8, 0x6Fu8, 0x6Eu8, 0x20u8, 0x61u8, 0x20u8, 0x72u8, 0x65u8, 0x70u8, 0x6Cu8, 0x69u8, 0x63u8, 0x61u8];
    proof {
        assert(out@ =~= err_psync_msg());
    }
    out
}

/// The bytes of `"REPLICATION"`.
pub open spec fn kw_replication() -> Seq<u8> {
    seq![0x52u8, 0x45u8, 0x50u8, 0x4Cu8, 0x49u8, 0x43u8, 0x41u8, 0x54u8, 0x49u8, 0x4Fu8, 0x4Eu8]
}

fn is_kw_replication(a: &[u8]) -> (r: bool)
    ensures
        r == (a@ == kw_replication()),
{
    let k: Vec<u8> = vec![0x52u8, 0x45u8, 0x50u8, 0x4Cu8, 0x49u8, 0x43u8, 0x41u8, 0x54u8, 0x49u8, 0x4Fu8, 0x4Eu8];
    proof {
        assert(k@ =~= kw_replication());
    }
    crate::service::bytes_equal(a, k.as_slice())
}

/// The bytes of `"LISTENING-PORT"`.
pub open spec fn kw_listening_port() -> Seq<u8> {
    seq![0x4Cu8, 0x49u8, 0x53u8, 0x54u8, 0x45u8, 0x4Eu8, 0x49u8, 0x4Eu8, 0x47u8, 0x2Du8, 0x50u8, 0x4Fu8, 0x52u8, 0x54u8]
}

fn is_kw_listening_port(a: &[u8]) -> (r: bool)
    ensures
        r == (a@ == kw_listening_port()),
{
    let k: Vec<u8> = vec![0x4Cu8, 0x49u8, 0x53u8, 0x54u8, 0x45u8, 0x4Eu8, 0x49u8, 0x4Eu8, 0x47u8, 0x2Du8, 0x50u8, 0x4Fu8, 0x52u8, 0x54u8];
    proof {
        assert(k@ =~= kw_listening_port());
    }
    crate::service::bytes_equal(a, k.as_slice())
}


/// Two byte strings are equal.
pub fn bytes_equal(a: &[u8], b: &[u8]) -> (r: bool)
    ensures
        r == (a@ == b@),
{
    if a.len() != b.len() {
        assert(a@ != b@);
        return false;
    }
    let n = a.len();
    let mut i: usize = 0;
    while i < n
        invariant
            i <= n,
            n == a@.len() == b@.len(),
            forall|k: int| 0 <= k < i ==> a@[k] == b@[k],
        decreases n - i,
    {
        if a[i] != b[i] {
            return false;
        }
        i = i + 1;
    }
    proof {
        assert(a@ =~= b@);
    }
    true
}

/// The error reply each command error earns.
pub open spec fn spec_error_reply(e: CommandErrorModel) -> Seq<u8> {
    match e {
        CommandErrorModel::NotCommand => spec_encode(FrameModel::Error(err_notcommand_msg())),
        CommandErrorModel::Unknown(n) => spec_encode(
            FrameModel::Error(err_unknown_head() + n + seq![0x27u8]),
        ),
        CommandErrorModel::WrongArity => spec_encode(FrameModel::Error(err_arity_msg())),
        CommandErrorModel::Syntax => spec_encode(FrameModel::Error(err_syntax_msg())),
    }
}

/// Build the error reply.
fn error_reply(e: &CommandError) -> (r: Vec<u8>)
    ensures
        r@ == spec_error_reply(error_model(*e)),
{
    match e {
        CommandError::NotCommand => encode(&RespDataTypes::SimpleError(build_err_notcommand_msg())),
        CommandError::Unknown(n) => {
            let mut msg = build_err_unknown_head();
            let mut nc = crate::database::copy_bytes(n.as_slice());
            msg.append(&mut nc);
            msg.push(0x27);
            proof {
                assert(msg@ =~= err_unknown_head() + n@ + seq![0x27u8]);
            }
            encode(&RespDataTypes::SimpleError(msg))
        },
        CommandError::WrongArity => encode(&RespDataTypes::SimpleError(build_err_arity_msg())),
        CommandError::Syntax => encode(&RespDataTypes::SimpleError(build_err_syntax_msg())),
    }
}

/// Removing a run of keys: the keyspace left over, and how many of them
/// were present when their turn came.
pub open spec fn del_from(m: DbModel, ks: Seq<Seq<u8>>, i: int) -> (DbModel, int)
    decreases ks.len() - i,
{
    if i < 0 || i >= ks.len() {
        (m, 0)
    } else {
        let c: int = if m.contains_key(ks[i]) {
            1
        } else {
            0
        };
        let r = del_from(m.remove(ks[i]), ks, i + 1);
        (r.0, c + r.1)
    }
}

/// How one command rewrites the keyspace at time `now`: SET upserts,
/// GET lazily expires, DEL removes, everything else reads only.
pub open spec fn cmd_effect(m: DbModel, c: CommandModel, now: u64) -> DbModel {
    match c {
        CommandModel::SetCmd(k, v, e) => m.insert(k, (v, e)),
        CommandModel::Get(k) => if m.contains_key(k) && !record_live(m[k], now) {
            m.remove(k)
        } else {
            m
        },
        CommandModel::Del(ks) => del_from(m, ks, 0).0,
        _ => m,
    }
}

/// SET and DEL are the write commands; they alone are fanned out.
pub open spec fn is_write_cmd(c: CommandModel) -> bool {
    c is SetCmd || c is Del
}

/// How one input buffer rewrites the keyspace: the effect of its first
/// frame's command, if it holds a whole well-formed command.
pub open spec fn frame_effect(m: DbModel, input: Seq<u8>, now: u64) -> DbModel {
    match spec_decode(input) {
        SpecDec::Frame(f, used) => match spec_parse_command(f, now) {
            Ok(c) => cmd_effect(m, c, now),
            Err(_) => m,
        },
        _ => m,
    }
}

/// How the replication state moves for one processed frame.
pub open spec fn repl_after(
    pre: Replica,
    post: Replica,
    is_write: bool,
    from_primary: bool,
    used: int,
) -> bool {
    if from_primary {
        match pre {
            Replica::Master { .. } => post == pre,
            Replica::Slave { id, master_id, master_offset, port, master_address, connected } => {
                &&& post matches Replica::Slave {
                    id: id2,
                    master_id: mid2,
                    master_offset: off2,
                    port: port2,
                    master_address: addr2,
                    connected: conn2,
                }
                &&& id2 == id
                &&& mid2 == master_id
                &&& port2 == port
                &&& addr2 == master_address
                &&& conn2 == connected
                &&& off2 == offset_after(master_offset, used)
            },
        }
    } else if is_write {
        match pre {
            Replica::Slave { .. } => post == pre,
            Replica::Master { id, port, slaves, replication_offset } => {
                &&& post matches Replica::Master {
                    id: id2,
                    port: port2,
                    slaves: slaves2,
                    replication_offset: off2,
                }
                &&& id2 == id
                &&& port2 == port
                &&& slaves2@ == slaves@
                &&& off2 == offset_after(replication_offset, used)
            },
        }
    } else {
        post == pre
    }
}

/// The fan-out a processed frame owes: on a primary, a write goes to
/// every follower byte-identically and in follower order; nothing else
/// is sent.
pub open spec fn sends_after(
    pre: Replica,
    sends: Seq<(usize, Vec<u8>)>,
    bytes: Seq<u8>,
    is_write: bool,
    from_primary: bool,
) -> bool {
    if !from_primary && is_write {
        match pre {
            Replica::Slave { .. } => sends.len() == 0,
            Replica::Master { slaves, .. } => sends.len() == slaves@.len() && (forall|i: int|
                0 <= i < sends.len() ==> (#[trigger] sends[i]).0 == slaves@[i].token
                    && sends[i].1@ == bytes),
        }
    } else {
        sends.len() == 0
    }
}

/// The reply owed to the client: none at all on the primary's stream.
pub open spec fn reply_is(r: Option<Vec<u8>>, from_primary: bool, bytes: Seq<u8>) -> bool {
    if from_primary {
        r is None
    } else {
        r matches Some(b) && b@ == bytes
    }
}

/// An unordered listing of exactly the keys of `m` that `p` matches.
pub open spec fn keys_listing(m: DbModel, p: Seq<u8>, ks: Seq<Seq<u8>>) -> bool {
    &&& (forall|i: int| 0 <= i < ks.len() ==> m.contains_key(#[trigger] ks[i]) && glob_match(
        p,
        ks[i],
    ))
    &&& (forall|k: Seq<u8>| m.contains_key(k) && glob_match(p, k) ==> exists|i: int|
        0 <= i < ks.len() && #[trigger] ks[i] == k)
    &&& (forall|i: int, j: int| 0 <= i < j < ks.len() ==> #[trigger] ks[i] != #[trigger] ks[j])
}

/// The CONFIG GET pairs for a run of attribute names, or nothing if one
/// is unknown.
pub open spec fn config_pairs(c: &crate::config::Configuration, args: Seq<Seq<u8>>, i: int) -> Option<
    Seq<Seq<u8>>,
>
    decreases args.len() - i,
{
    if i < 0 || i >= args.len() {
        Some(Seq::empty())
    } else {
        match crate::config::spec_config_get(c, args[i]) {
            None => None,
            Some(v) => match config_pairs(c, args, i + 1) {
                None => None,
                Some(rest) => Some(seq![args[i], v] + rest),
            },
        }
    }
}

/// A sequence of byte strings as an array of bulk-string frames.
pub open spec fn bulks_of(ks: Seq<Seq<u8>>) -> Seq<FrameModel> {
    ks.map_values(|k: Seq<u8>| FrameModel::Bulk(k))
}

/// Everything one call of `execute_command` did.
pub struct Outcome {
    /// Bytes of `input` consumed: one whole frame, or none.
    pub consumed: usize,
    /// The reply owed to this connection, if any.
    pub reply: Option<Vec<u8>>,
    /// The snapshot transfer frame to send right after the reply (PSYNC).
    pub snapshot: Option<Vec<u8>>,
    /// Register this connection as a follower (PSYNC).
    pub register_follower: bool,
    /// The listening port a REPLCONF just advertised.
    pub follower_port: Option<u16>,
    /// Fan-out: send-token and exact bytes for each follower, in order.
    pub sends: Vec<(usize, Vec<u8>)>,
    /// The decoder lost the frame boundary; close this connection.
    pub disconnect: bool,
}

/// An outcome with nothing to do besides consuming `consumed` bytes.
pub open spec fn quiet_outcome(o: Outcome) -> bool {
    &&& o.snapshot is None
    &&& !o.register_follower
    &&& o.follower_port is None
    &&& o.sends@.len() == 0
    &&& !o.disconnect
}

/// The command engine.
pub struct RedisService {
    selected_db: u32,
    state: ServerState,
    dbs: Vec<Database>,
    snapshot: Vec<u8>,
}

impl RedisService {
    /// The keyspace number commands address; always 0 here.
    pub closed spec fn spec_selected(&self) -> u32 {
        self.selected_db
    }

    /// Identity, configuration and replication role.
    pub closed spec fn spec_state(&self) -> ServerState {
        self.state
    }

    /// The databases, by number.
    pub closed spec fn all_dbs(&self) -> crate::rdb::DbsModel {
        dbs_map(self.dbs@)
    }

    /// The keyspace commands run against.
    pub closed spec fn keyspace(&self) -> DbModel {
        dbs_map(self.dbs@)[self.selected_db as int]
    }

    /// The raw snapshot payload sent to a new follower.
    pub closed spec fn snapshot_bytes(&self) -> Seq<u8> {
        self.snapshot@
    }

    /// Database numbers are distinct, every keyspace is well formed and
    /// the selected one exists.
    pub closed spec fn wf(&self) -> bool {
        &&& unique_ids(self.dbs@)
        &&& (forall|i: int| 0 <= i < self.dbs@.len() ==> (#[trigger] self.dbs@[i]).wf())
        &&& dbs_map(self.dbs@).contains_key(self.selected_db as int)
    }

    /// Load the keyspaces from the snapshot and take the engine state:
    /// database 0 is selected; a snapshot file's raw bytes (or the
    /// canonical minimal snapshot when there is none) become the payload
    /// for new followers.
    pub fn new(state: ServerState, rdb: &RDB, now: u64) -> (r: Result<RedisService, RdbError>)
        ensures
            match r {
                Ok(s) => {
                    &&& s.wf()
                    &&& spec_load(rdb@, now) == Ok::<_, (int, RdbReason)>(s.all_dbs())
                    &&& s.spec_selected() == 0
                    &&& s.spec_state() == state
                    &&& s.snapshot_bytes() == (match rdb@ {
                        Some(b) => if b.len() > 0 {
                            b
                        } else {
                            spec_canonical_snapshot()
                        },
                        None => spec_canonical_snapshot(),
                    })
                },
                Err(e) => spec_load(rdb@, now) == Err::<crate::rdb::DbsModel, _>(
                    crate::rdb::rdb_err_model(e),
                ),
            },
    {
        let dbs = match rdb.load(now) {
            Ok(d) => d,
            Err(e) => {
                return Err(e);
            },
        };
        let snapshot = match rdb.data() {
            Some(v) => if v.len() > 0 {
                crate::database::copy_bytes(v.as_slice())
            } else {
                canonical_snapshot()
            },
            None => canonical_snapshot(),
        };
        Ok(RedisService { selected_db: 0, state, dbs, snapshot })
    }

    /// Index of the selected keyspace.
    fn sel_idx(&self) -> (r: usize)
        requires
            self.wf(),
        ensures
            r < self.dbs@.len(),
            self.dbs@[r as int].spec_id() == self.selected_db,
    {
        match find_db(&self.dbs, self.selected_db) {
            Some(i) => i,
            None => {
                proof {
                    crate::rdb::lemma_dbs_map_char(self.dbs@);
                    let w = choose|w: int|
                        0 <= w < self.dbs@.len() && (#[trigger] self.dbs@[w]).spec_id()
                            == self.selected_db as int;
                    assert(false);
                }
                0
            },
        }
    }

    /// Upsert into the selected keyspace.
    fn ks_insert(&mut self, key: Vec<u8>, value: Vec<u8>, exp: Option<u64>)
        requires
            old(self).wf(),
        ensures
            final(self).wf(),
            final(self).spec_selected() == old(self).spec_selected(),
            final(self).spec_state() == old(self).spec_state(),
            final(self).snapshot_bytes() == old(self).snapshot_bytes(),
            final(self).keyspace() == old(self).keyspace().insert(key@, (value@, exp)),
            final(self).all_dbs() == old(self).all_dbs().insert(
                old(self).spec_selected() as int,
                final(self).keyspace(),
            ),
    {
        let idx = self.sel_idx();
        let ghost s0 = self.dbs@;
        let mut db = self.dbs.remove(idx);
        db.insert(key, value, exp);
        self.dbs.insert(idx, db);
        proof {
            assert(self.dbs@.len() == s0.len());
            assert(forall|j: int| 0 <= j < s0.len() && j != idx ==> self.dbs@[j] == s0[j]);
            lemma_dbs_update(s0, self.dbs@, idx as int, self.selected_db as int);
        }
    }

    /// Remove from the selected keyspace.
    fn ks_remove(&mut self, key: &[u8])
        requires
            old(self).wf(),
        ensures
            final(self).wf(),
            final(self).spec_selected() == old(self).spec_selected(),
            final(self).spec_state() == old(self).spec_state(),
            final(self).snapshot_bytes() == old(self).snapshot_bytes(),
            final(self).keyspace() == old(self).keyspace().remove(key@),
            final(self).all_dbs() == old(self).all_dbs().insert(
                old(self).spec_selected() as int,
                final(self).keyspace(),
            ),
    {
        let idx = self.sel_idx();
        let ghost s0 = self.dbs@;
        let mut db = self.dbs.remove(idx);
        db.remove(key);
        self.dbs.insert(idx, db);
        proof {
            assert(self.dbs@.len() == s0.len());
            assert(forall|j: int| 0 <= j < s0.len() && j != idx ==> self.dbs@[j] == s0[j]);
            lemma_dbs_update(s0, self.dbs@, idx as int, self.selected_db as int);
        }
    }

    /// Look up in the selected keyspace with lazy expiry.
    fn ks_get(&mut self, key: &[u8], now: u64) -> (r: Option<Record>)
        requires
            old(self).wf(),
        ensures
            final(self).wf(),
            final(self).spec_selected() == old(self).spec_selected(),
            final(self).spec_state() == old(self).spec_state(),
            final(self).snapshot_bytes() == old(self).snapshot_bytes(),
            final(self).all_dbs() == old(self).all_dbs().insert(
                old(self).spec_selected() as int,
                final(self).keyspace(),
            ),
            match r {
                Some(rec) => old(self).keyspace().contains_key(key@)
                    && crate::database::record_model(rec) == old(self).keyspace()[key@]
                    && record_live(old(self).keyspace()[key@], now) && final(self).keyspace()
                    == old(self).keyspace(),
                None => (!old(self).keyspace().contains_key(key@) || !record_live(
                    old(self).keyspace()[key@],
                    now,
                )) && final(self).keyspace() == old(self).keyspace().remove(key@),
            },
    {
        let idx = self.sel_idx();
        let ghost s0 = self.dbs@;
        let mut db = self.dbs.remove(idx);
        let r = db.get(key, now);
        self.dbs.insert(idx, db);
        proof {
            assert(self.dbs@.len() == s0.len());
            assert(forall|j: int| 0 <= j < s0.len() && j != idx ==> self.dbs@[j] == s0[j]);
            lemma_dbs_update(s0, self.dbs@, idx as int, self.selected_db as int);
        }
        r
    }


    /// Whether the selected keyspace holds `key`, expired or not.
    fn ks_contains(&self, key: &[u8]) -> (r: bool)
        requires
            self.wf(),
        ensures
            r == self.keyspace().contains_key(key@),
    {
        let idx = self.sel_idx();
        proof {
            crate::rdb::lemma_dbs_map_char(self.dbs@);
        }
        self.dbs[idx].contains(key)
    }

    /// All keys of the selected keyspace: the `*` listing.
    fn ks_keys_star(&self) -> (r: Vec<Vec<u8>>)
        requires
            self.wf(),
        ensures
            keys_listing(self.keyspace(), seq![0x2Au8], crate::command::views_of(r@)),
    {
        let idx = self.sel_idx();
        proof {
            crate::rdb::lemma_dbs_map_char(self.dbs@);
        }
        let r = self.dbs[idx].keys();
        proof {
            let ks = crate::command::views_of(r@);
            assert forall|i: int| 0 <= i < ks.len() implies self.keyspace().contains_key(
                #[trigger] ks[i],
            ) && glob_match(seq![0x2Au8], ks[i]) by {
                assert(ks[i] == r@[i]@);
                lemma_star_matches_all(ks[i]);
            }
            assert forall|k: Seq<u8>| self.keyspace().contains_key(k) && glob_match(
                seq![0x2Au8],
                k,
            ) implies exists|i: int| 0 <= i < ks.len() && #[trigger] ks[i] == k by {
                let i = choose|i: int| 0 <= i < r@.len() && (#[trigger] r@[i])@ == k;
                assert(ks[i] == k);
            }
        }
        r
    }

    /// Register a follower session, keyed by its advertised port.
    pub fn register_follower(&mut self, peer_port: u16, token: usize)
        requires
            old(self).wf(),
        ensures
            final(self).wf(),
            final(self).spec_selected() == old(self).spec_selected(),
            final(self).keyspace() == old(self).keyspace(),
            final(self).all_dbs() == old(self).all_dbs(),
            final(self).snapshot_bytes() == old(self).snapshot_bytes(),
            final(self).spec_state().id == old(self).spec_state().id,
            final(self).spec_state().config == old(self).spec_state().config,
            match old(self).spec_state().replication {
                Replica::Slave { .. } => final(self).spec_state().replication == old(
                    self,
                ).spec_state().replication,
                Replica::Master { id, port, slaves, replication_offset } => {
                    &&& final(self).spec_state().replication matches Replica::Master {
                        id: id2,
                        port: port2,
                        slaves: slaves2,
                        replication_offset: off2,
                    }
                    &&& id2 == id
                    &&& port2 == port
                    &&& off2 == replication_offset
                    &&& (if crate::replication::has_follower_port(slaves@, peer_port) {
                        slaves2@ == slaves@
                    } else {
                        slaves2@.len() == slaves@.len() + 1 && slaves2@.take(slaves@.len() as int)
                            == slaves@ && slaves2@.last().port == peer_port
                            && slaves2@.last().token == token
                            && slaves2@.last().acked_offset == -1
                    })
                },
            },
    {
        self.state.register_replica(peer_port, token)
    }

    /// Evict the follower behind a failed send token.
    pub fn evict_follower(&mut self, token: usize)
        requires
            old(self).wf(),
        ensures
            final(self).wf(),
            final(self).spec_selected() == old(self).spec_selected(),
            final(self).keyspace() == old(self).keyspace(),
            final(self).all_dbs() == old(self).all_dbs(),
            final(self).snapshot_bytes() == old(self).snapshot_bytes(),
            final(self).spec_state().id == old(self).spec_state().id,
            final(self).spec_state().config == old(self).spec_state().config,
            match old(self).spec_state().replication {
                Replica::Slave { .. } => final(self).spec_state().replication == old(
                    self,
                ).spec_state().replication,
                Replica::Master { id, port, slaves, replication_offset } => {
                    &&& final(self).spec_state().replication matches Replica::Master {
                        id: id2,
                        port: port2,
                        slaves: slaves2,
                        replication_offset: off2,
                    }
                    &&& id2 == id
                    &&& port2 == port
                    &&& off2 == replication_offset
                    &&& slaves2@ == crate::replication::drop_token(slaves@, token)
                },
            },
    {
        self.state.remove_follower(token)
    }

    /// Replace the keyspaces with a snapshot received from the primary
    /// (the payload of the transfer frame after FULLRESYNC). On a
    /// corrupt snapshot nothing changes.
    pub fn apply_snapshot(&mut self, bytes: &[u8], now: u64) -> (r: Result<(), RdbError>)
        requires
            old(self).wf(),
        ensures
            final(self).wf(),
            final(self).spec_state() == old(self).spec_state(),
            final(self).snapshot_bytes() == old(self).snapshot_bytes(),
            match r {
                Ok(_) => {
                    &&& spec_load(Some(bytes@), now) == Ok::<_, (int, RdbReason)>(
                        final(self).all_dbs(),
                    )
                    &&& final(self).spec_selected() == 0
                },
                Err(e) => spec_load(Some(bytes@), now) == Err::<crate::rdb::DbsModel, _>(
                    crate::rdb::rdb_err_model(e),
                ) && *final(self) == *old(self),
            },
    {
        let rdb = RDB::new(Some(crate::database::copy_bytes(bytes)));
        match rdb.load(now) {
            Ok(dbs) => {
                self.dbs = dbs;
                self.selected_db = 0;
                Ok(())
            },
            Err(e) => Err(e),
        }
    }

    /// Learn the primary's id and offset from FULLRESYNC, on a replica.
    pub fn adopt_master(&mut self, master_id: Vec<u8>, offset: i64)
        requires
            old(self).wf(),
        ensures
            final(self).wf(),
            final(self).spec_selected() == old(self).spec_selected(),
            final(self).keyspace() == old(self).keyspace(),
            final(self).all_dbs() == old(self).all_dbs(),
            final(self).snapshot_bytes() == old(self).snapshot_bytes(),
            final(self).spec_state().id == old(self).spec_state().id,
            final(self).spec_state().config == old(self).spec_state().config,
            match old(self).spec_state().replication {
                Replica::Master { .. } => final(self).spec_state().replication == old(
                    self,
                ).spec_state().replication,
                Replica::Slave { id, master_id: _, master_offset: _, port, master_address, connected: _ } => {
                    &&& final(self).spec_state().replication matches Replica::Slave {
                        id: id2,
                        master_id: mid2,
                        master_offset: off2,
                        port: port2,
                        master_address: addr2,
                        connected: conn2,
                    }
                    &&& id2 == id
                    &&& mid2@ == master_id@
                    &&& off2 == offset
                    &&& port2 == port
                    &&& addr2 == master_address
                    &&& conn2 == true
                },
            },
    {
        self.state.replication.adopt_master(master_id, offset)
    }

    /// The INFO replication report of this server.
    pub fn replication_info(&self) -> (r: Vec<u8>)
        ensures
            r@ == spec_replication_info(&self.spec_state().replication),
    {
        self.state.get_replication_status()
    }

    /// Keys of the selected keyspace that the pattern matches.
    fn ks_keys_matching(&self, pattern: &[u8]) -> (r: Vec<Vec<u8>>)
        requires
            self.wf(),
        ensures
            keys_listing(self.keyspace(), pattern@, crate::command::views_of(r@)),
    {
        let idx = self.sel_idx();
        proof {
            crate::rdb::lemma_dbs_map_char(self.dbs@);
        }
        let r = self.dbs[idx].keys_from_pattren(pattern);
        proof {
            let ks = crate::command::views_of(r@);
            assert forall|i: int| 0 <= i < ks.len() implies self.keyspace().contains_key(
                #[trigger] ks[i],
            ) && glob_match(pattern@, ks[i]) by {
                assert(ks[i] == r@[i]@);
            }
            assert forall|k: Seq<u8>| self.keyspace().contains_key(k) && glob_match(pattern@, k)
                implies exists|i: int| 0 <= i < ks.len() && #[trigger] ks[i] == k by {
                let i = choose|i: int| 0 <= i < r@.len() && (#[trigger] r@[i])@ == k;
                assert(ks[i] == k);
            }
        }
        r
    }
}

/// The whole behaviour of `execute_command`: what is consumed, how the
/// keyspace and the replication state move, and exactly which reply and
/// side work each input earns.
pub open spec fn execute_post(
    pre: RedisService,
    post: RedisService,
    input: Seq<u8>,
    now: u64,
    from_primary: bool,
    o: Outcome,
) -> bool {
    &&& post.spec_selected() == pre.spec_selected()
    &&& post.spec_state().id == pre.spec_state().id
    &&& post.spec_state().config == pre.spec_state().config
    &&& post.snapshot_bytes() == pre.snapshot_bytes()
    &&& post.wf()
    &&& post.all_dbs() == pre.all_dbs().insert(pre.spec_selected() as int, post.keyspace())
    &&& match spec_decode(input) {
        SpecDec::Incomplete => {
            &&& o.consumed == 0
            &&& post == pre
            &&& o.reply is None
            &&& quiet_outcome(o)
        },
        SpecDec::Malformed => {
            &&& o.consumed == 0
            &&& post == pre
            &&& (o.reply matches Some(b) && b@ == spec_encode(
                FrameModel::Error(err_protocol_msg()),
            ))
            &&& o.snapshot is None
            &&& !o.register_follower
            &&& o.follower_port is None
            &&& o.sends@.len() == 0
            &&& o.disconnect
        },
        SpecDec::Frame(f, used) => {
            &&& o.consumed == used
            &&& post.keyspace() == frame_effect(pre.keyspace(), input, now)
            &&& !o.disconnect
            &&& match spec_parse_command(f, now) {
                Err(e) => {
                    &&& repl_after(
                        pre.spec_state().replication,
                        post.spec_state().replication,
                        false,
                        from_primary,
                        used,
                    )
                    &&& reply_is(o.reply, from_primary, spec_error_reply(e))
                    &&& quiet_outcome(o)
                },
                Ok(c) => {
                    &&& repl_after(
                        pre.spec_state().replication,
                        post.spec_state().replication,
                        is_write_cmd(c),
                        from_primary,
                        used,
                    )
                    &&& sends_after(
                        pre.spec_state().replication,
                        o.sends@,
                        input.take(used),
                        is_write_cmd(c),
                        from_primary,
                    )
                    &&& match c {
                        CommandModel::Ping => reply_is(
                            o.reply,
                            from_primary,
                            spec_encode(FrameModel::Simple(pong_word())),
                        ) && o.snapshot is None && !o.register_follower && o.follower_port
                            is None,
                        CommandModel::Echo(m) => reply_is(
                            o.reply,
                            from_primary,
                            spec_encode(FrameModel::Bulk(m)),
                        ) && o.snapshot is None && !o.register_follower && o.follower_port
                            is None,
                        CommandModel::SetCmd(_, _, _) => reply_is(
                            o.reply,
                            from_primary,
                            spec_encode(FrameModel::Simple(ok_word())),
                        ) && o.snapshot is None && !o.register_follower && o.follower_port
                            is None,
                        CommandModel::Get(k) => reply_is(
                            o.reply,
                            from_primary,
                            if pre.keyspace().contains_key(k) && record_live(
                                pre.keyspace()[k],
                                now,
                            ) {
                                spec_encode(FrameModel::Bulk(pre.keyspace()[k].0))
                            } else {
                                spec_encode(FrameModel::Null)
                            },
                        ) && o.snapshot is None && !o.register_follower && o.follower_port
                            is None,
                        CommandModel::Del(ks) => reply_is(
                            o.reply,
                            from_primary,
                            spec_encode(FrameModel::Int(del_from(pre.keyspace(), ks, 0).1)),
                        ) && o.snapshot is None && !o.register_follower && o.follower_port
                            is None,
                        CommandModel::Keys(p) => (if from_primary {
                            o.reply is None
                        } else {
                            o.reply matches Some(b) && exists|ks: Seq<Seq<u8>>|
                                keys_listing(pre.keyspace(), p, ks) && b@ == spec_encode(
                                    FrameModel::Arr(bulks_of(ks)),
                                )
                        }) && o.snapshot is None && !o.register_follower && o.follower_port
                            is None,
                        CommandModel::Config(args) => reply_is(
                            o.reply,
                            from_primary,
                            ({
                                let sub = upper_seq(args[0]);
                                if sub == kw_get() {
                                    match config_pairs(&pre.spec_state().config, args, 1) {
                                        Some(pairs) => spec_encode(
                                            FrameModel::Arr(bulks_of(pairs)),
                                        ),
                                        None => spec_encode(
                                            FrameModel::Error(err_config_msg()),
                                        ),
                                    }
                                } else {
                                    spec_encode(FrameModel::Error(err_config_msg()))
                                }
                            }),
                        ) && o.snapshot is None && !o.register_follower && o.follower_port
                            is None,
                        CommandModel::Info(sec) => reply_is(
                            o.reply,
                            from_primary,
                            (match sec {
                                Some(x) => if upper_seq(x) == kw_replication() {
                                    spec_encode(
                                        FrameModel::Bulk(
                                            spec_replication_info(
                                                &pre.spec_state().replication,
                                            ),
                                        ),
                                    )
                                } else {
                                    spec_encode(FrameModel::Error(err_info_msg()))
                                },
                                None => spec_encode(FrameModel::Error(err_info_msg())),
                            }),
                        ) && o.snapshot is None && !o.register_follower && o.follower_port
                            is None,
                        CommandModel::Replconf(a, b) => reply_is(
                            o.reply,
                            from_primary,
                            spec_encode(FrameModel::Simple(ok_word())),
                        ) && o.snapshot is None && !o.register_follower && (o.follower_port
                            == (if upper_seq(a) == kw_listening_port() {
                            match parse_dec(b) {
                                Some(v) => if 0 <= v <= u16::MAX {
                                    Some(v as u16)
                                } else {
                                    None::<u16>
                                },
                                None => None::<u16>,
                            }
                        } else {
                            None::<u16>
                        })),
                        CommandModel::Psync(_, _) => (match pre.spec_state().replication {
                            Replica::Master { id, replication_offset, .. } => {
                                &&& reply_is(
                                    o.reply,
                                    from_primary,
                                    spec_encode(
                                        FrameModel::Simple(
                                            fullresync_line(id@, replication_offset as int),
                                        ),
                                    ),
                                )
                                &&& (o.snapshot matches Some(sb) && sb@ == spec_snapshot_frame(
                                    pre.snapshot_bytes(),
                                ))
                                &&& o.register_follower
                            },
                            Replica::Slave { .. } => {
                                &&& reply_is(
                                    o.reply,
                                    from_primary,
                                    spec_encode(FrameModel::Error(err_psync_msg())),
                                )
                                &&& o.snapshot is None
                                &&& !o.register_follower
                            },
                        }) && o.follower_port is None,
                    }
                },
            }
        },
    }
}


/// What the dispatcher hands back for one parsed command.
struct CmdOut {
    reply: Vec<u8>,
    snapshot: Option<Vec<u8>>,
    register_follower: bool,
    follower_port: Option<u16>,
    is_w: bool,
}

/// The reply and side work one parsed command earns, before the
/// replication tail runs.
#[verifier::opaque]
spec fn command_post(pre: RedisService, c: CommandModel, now: u64, r: CmdOut) -> bool {
    &&& r.is_w == is_write_cmd(c)
    &&& match c {
        CommandModel::Ping => r.reply@ == spec_encode(FrameModel::Simple(pong_word()))
            && r.snapshot is None && !r.register_follower && r.follower_port is None,
        CommandModel::Echo(m) => r.reply@ == spec_encode(FrameModel::Bulk(m)) && r.snapshot
            is None && !r.register_follower && r.follower_port is None,
        CommandModel::SetCmd(_, _, _) => r.reply@ == spec_encode(FrameModel::Simple(ok_word()))
            && r.snapshot is None && !r.register_follower && r.follower_port is None,
        CommandModel::Get(k) => r.reply@ == (if pre.keyspace().contains_key(k) && record_live(
            pre.keyspace()[k],
            now,
        ) {
            spec_encode(FrameModel::Bulk(pre.keyspace()[k].0))
        } else {
            spec_encode(FrameModel::Null)
        }) && r.snapshot is None && !r.register_follower && r.follower_port is None,
        CommandModel::Del(ks) => r.reply@ == spec_encode(
            FrameModel::Int(del_from(pre.keyspace(), ks, 0).1),
        ) && r.snapshot is None && !r.register_follower && r.follower_port is None,
        CommandModel::Keys(p) => (exists|ks: Seq<Seq<u8>>|
            keys_listing(pre.keyspace(), p, ks) && r.reply@ == spec_encode(
                FrameModel::Arr(bulks_of(ks)),
            )) && r.snapshot is None && !r.register_follower && r.follower_port is None,
        CommandModel::Config(args) => r.reply@ == ({
            let sub = upper_seq(args[0]);
            if sub == kw_get() {
                match config_pairs(&pre.spec_state().config, args, 1) {
                    Some(pairs) => spec_encode(FrameModel::Arr(bulks_of(pairs))),
                    None => spec_encode(FrameModel::Error(err_config_msg())),
                }
            } else {
                spec_encode(FrameModel::Error(err_config_msg()))
            }
        }) && r.snapshot is None && !r.register_follower && r.follower_port is None,
        CommandModel::Info(sec) => r.reply@ == (match sec {
            Some(x) => if upper_seq(x) == kw_replication() {
                spec_encode(
                    FrameModel::Bulk(spec_replication_info(&pre.spec_state().replication)),
                )
            } else {
                spec_encode(FrameModel::Error(err_info_msg()))
            },
            None => spec_encode(FrameModel::Error(err_info_msg())),
        }) && r.snapshot is None && !r.register_follower && r.follower_port is None,
        CommandModel::Replconf(a, b) => r.reply@ == spec_encode(FrameModel::Simple(ok_word()))
            && r.snapshot is None && !r.register_follower && (r.follower_port == (
        if upper_seq(a) == kw_listening_port() {
            match parse_dec(b) {
                Some(v) => if 0 <= v <= u16::MAX {
                    Some(v as u16)
                } else {
                    None::<u16>
                },
                None => None::<u16>,
            }
        } else {
            None::<u16>
        })),
        CommandModel::Psync(_, _) => (match pre.spec_state().replication {
            Replica::Master { id, replication_offset, .. } => {
                &&& r.reply@ == spec_encode(
                    FrameModel::Simple(fullresync_line(id@, replication_offset as int)),
                )
                &&& (r.snapshot matches Some(sb) && sb@ == spec_snapshot_frame(
                    pre.snapshot_bytes(),
                ))
                &&& r.register_follower
            },
            Replica::Slave { .. } => {
                &&& r.reply@ == spec_encode(FrameModel::Error(err_psync_msg()))
                &&& r.snapshot is None
                &&& !r.register_follower
            },
        }) && r.follower_port is None,
    }
}

fn build_pong() -> (r: Vec<u8>)
    ensures
        r@ == pong_word(),
{
    let out: Vec<u8> = vec![0x50u8, 0x4Fu8, 0x4Eu8, 0x47u8];
    proof {
        assert(out@ =~= pong_word());
    }
    out
}

fn build_ok() -> (r: Vec<u8>)
    ensures
        r@ == ok_word(),
{
    let out: Vec<u8> = vec![0x4Fu8, 0x4Bu8];
    proof {
        assert(out@ =~= ok_word());
    }
    out
}

impl RedisService {
    /// Dispatch one frame from `input` at time `now`. `from_primary`
    /// marks the replica's link from its primary: commands on it run
    /// without a reply and advance the applied offset.
    ///
    /// Exactly one whole frame is consumed, or none; the keyspace moves
    /// by the command's effect; on a primary a write is fanned out
    /// byte-identically to every follower; the reply, snapshot,
    /// registration and advertised-port findings are pinned by
    /// [`execute_post`].
    /// Run one parsed command against the keyspace and compute its
    /// reply and side work; the replication tail is the caller's.
    #[verifier::rlimit(100)]
    #[verifier::spinoff_prover]
    #[verifier::loop_isolation(false)]
    fn run_command(&mut self, cmd: Commands, now: u64) -> (r: CmdOut)
        requires
            old(self).wf(),
            command_model(cmd) matches CommandModel::Config(a) ==> a.len() >= 1,
            command_model(cmd) matches CommandModel::Del(ks) ==> ks.len() < i64::MAX,
        ensures
            final(self).wf(),
            final(self).spec_selected() == old(self).spec_selected(),
            final(self).spec_state() == old(self).spec_state(),
            final(self).snapshot_bytes() == old(self).snapshot_bytes(),
            final(self).keyspace() == cmd_effect(
                old(self).keyspace(),
                command_model(cmd),
                now,
            ),
            final(self).all_dbs() == old(self).all_dbs().insert(
                old(self).spec_selected() as int,
                final(self).keyspace(),
            ),
            command_post(*old(self), command_model(cmd), now, r),
    {
        let ghost pre = *self;
        proof {
            assert(self.all_dbs().insert(self.spec_selected() as int, self.keyspace())
                =~= self.all_dbs());
        }
        let ghost cm = command_model(cmd);
        match cmd {
            Commands::Ping => {
                let reply = encode(&RespDataTypes::SimpleString(build_pong()));
                {
                    let out = CmdOut { reply, snapshot: None, register_follower: false, follower_port: None, is_w: false };
                    proof {
                        reveal(command_post);
                        assert(command_post(pre, cm, now, out));
                    }
                    out
                }
            },
            Commands::Echo(m) => {
                let reply = encode(&RespDataTypes::BulkString(m));
                {
                    let out = CmdOut { reply, snapshot: None, register_follower: false, follower_port: None, is_w: false };
                    proof {
                        reveal(command_post);
                        assert(command_post(pre, cm, now, out));
                    }
                    out
                }
            },
            Commands::SetCmd(k, v, e) => {
                self.ks_insert(k, v, e);
                let reply = encode(&RespDataTypes::SimpleString(build_ok()));
                {
                    let out = CmdOut { reply, snapshot: None, register_follower: false, follower_port: None, is_w: true };
                    proof {
                        reveal(command_post);
                        assert(command_post(pre, cm, now, out));
                    }
                    out
                }
            },
            Commands::Get(k) => {
                let got = self.ks_get(k.as_slice(), now);
                let reply = match got {
                    Some((payload, _)) => encode(&RespDataTypes::BulkString(payload)),
                    None => {
                        proof {
                            if !pre.keyspace().contains_key(k@) {
                                assert(pre.keyspace().remove(k@) =~= pre.keyspace());
                            }
                        }
                        encode(&RespDataTypes::Null)
                    },
                };
                proof {
                    assert(self.keyspace() == cmd_effect(pre.keyspace(), cm, now));
                }
                {
                    let out = CmdOut { reply, snapshot: None, register_follower: false, follower_port: None, is_w: false };
                    proof {
                        reveal(command_post);
                        assert(command_post(pre, cm, now, out));
                    }
                    out
                }
            },
            Commands::Del(keys) => {
                let ghost ks = crate::command::views_of(keys@);
                let n = keys.len();
                let mut count: u64 = 0;
                let mut i: usize = 0;
                while i < n
                    invariant
                        i <= n,
                        n == keys@.len(),
                        count <= i,
                        self.wf(),
                        ks == crate::command::views_of(keys@),
                        self.spec_selected() == pre.spec_selected(),
                        self.spec_state() == pre.spec_state(),
                        self.snapshot_bytes() == pre.snapshot_bytes(),
                        self.all_dbs() == pre.all_dbs().insert(
                            pre.spec_selected() as int,
                            self.keyspace(),
                        ),
                        del_from(pre.keyspace(), ks, 0) == (
                            del_from(self.keyspace(), ks, i as int).0,
                            count + del_from(self.keyspace(), ks, i as int).1,
                        ),
                    decreases n - i,
                {
                    let present = self.ks_contains(keys[i].as_slice());
                    proof {
                        assert(ks[i as int] == keys@[i as int]@);
                    }
                    if present {
                        count = count + 1;
                    }
                    self.ks_remove(keys[i].as_slice());
                    i = i + 1;
                }
                proof {
                    assert(del_from(self.keyspace(), ks, n as int).1 == 0);
                    assert(count == del_from(pre.keyspace(), ks, 0).1);
                    assert(self.keyspace() == cmd_effect(pre.keyspace(), cm, now));
                    assert(count <= n < i64::MAX) by {
                        assert(n <= usize::MAX);
                        assert(count <= n);
                    }
                }
                let reply = encode(&RespDataTypes::Integer(count as i64));
                {
                    let out = CmdOut { reply, snapshot: None, register_follower: false, follower_port: None, is_w: true };
                    proof {
                        reveal(command_post);
                        assert(command_post(pre, cm, now, out));
                    }
                    out
                }
            },
            Commands::Keys(p) => {
                let star = p.len() == 1 && p[0] == 0x2A;
                let keyvec = if star {
                    proof {
                        assert(p@ =~= seq![0x2Au8]);
                    }
                    self.ks_keys_star()
                } else {
                    self.ks_keys_matching(p.as_slice())
                };
                let ghost ksw = crate::command::views_of(keyvec@);
                let m = keyvec.len();
                let mut items: Vec<RespDataTypes> = Vec::new();
                let mut i: usize = 0;
                proof {
                    assert(frame_models(items@) =~= Seq::<FrameModel>::empty());
                    assert(bulks_of(ksw.take(0)) =~= Seq::<FrameModel>::empty());
                }
                while i < m
                    invariant
                        i <= m,
                        m == keyvec@.len(),
                        ksw == crate::command::views_of(keyvec@),
                        frame_models(items@) =~= bulks_of(ksw.take(i as int)),
                    decreases m - i,
                {
                    let ghost items0 = items@;
                    items.push(
                        RespDataTypes::BulkString(
                            crate::database::copy_bytes(keyvec[i].as_slice()),
                        ),
                    );
                    proof {
                        crate::resp::lemma_frame_models_push(items0, items@.last());
                        assert(frame_model(items@.last()) == FrameModel::Bulk(ksw[i as int]));
                        assert(bulks_of(ksw.take(i + 1)) =~= bulks_of(ksw.take(i as int)).push(
                            FrameModel::Bulk(ksw[i as int]),
                        ));
                    }
                    i = i + 1;
                }
                proof {
                    assert(ksw.take(m as int) =~= ksw);
                }
                let f = RespDataTypes::Array(items);
                let reply = encode(&f);
                {
                    let out = CmdOut { reply, snapshot: None, register_follower: false, follower_port: None, is_w: false };
                    proof {
                        reveal(command_post);
                        assert(keys_listing(pre.keyspace(), cm->Keys_0, ksw));
                        assert(out.reply@ == spec_encode(FrameModel::Arr(bulks_of(ksw))));
                        assert(command_post(pre, cm, now, out));
                    }
                    out
                }
            },
            Commands::Config(args) => {
                let sub = crate::command::upper_bytes(args[0].as_slice());
                let ghost argm = crate::command::views_of(args@);
                if crate::command::eq_kw3(sub.as_slice(), 0x47, 0x45, 0x54) {
                    proof {
                        assert(upper_seq(argm[0]) =~= kw_get());
                    }
                    let n = args.len();
                    let mut items: Vec<RespDataTypes> = Vec::new();
                    let mut i: usize = 1;
                    let mut failed = false;
                    let ghost cfg = pre.spec_state().config;
                    proof {
                        assert(frame_models(items@) =~= Seq::<FrameModel>::empty());
                        assert(crate::command::views_of_frames(frame_models(items@))
                            =~= Seq::<Seq<u8>>::empty());
                    }
                    while i < n && !failed
                        invariant
                            1 <= i <= n,
                            n == args@.len(),
                            argm == crate::command::views_of(args@),
                            cfg == pre.spec_state().config,
                            *self == pre,
                            !failed ==> (match config_pairs(&cfg, argm, i as int) {
                                Some(rest) => config_pairs(&cfg, argm, 1) == Some(
                                    crate::command::views_of_frames(frame_models(items@)) + rest,
                                ),
                                None => config_pairs(&cfg, argm, 1) is None,
                            }),
                            !failed ==> frame_models(items@) =~= bulks_of(
                                crate::command::views_of_frames(frame_models(items@)),
                            ),
                            failed ==> config_pairs(&cfg, argm, 1) is None,
                        decreases n - i,
                    {
                        match self.state.get_from_config(args[i].as_slice()) {
                            None => {
                                failed = true;
                                proof {
                                    assert(argm[i as int] == args@[i as int]@);
                                }
                            },
                            Some(v) => {
                                let ghost items0 = items@;
                                let ghost vv = v@;
                                items.push(
                                    RespDataTypes::BulkString(
                                        crate::database::copy_bytes(args[i].as_slice()),
                                    ),
                                );
                                let ghost items1 = items@;
                                items.push(RespDataTypes::BulkString(v));
                                proof {
                                    crate::resp::lemma_frame_models_push(items0, items1.last());
                                    crate::resp::lemma_frame_models_push(items1, items@.last());
                                    assert(argm[i as int] == args@[i as int]@);
                                    assert(frame_models(items@) =~= frame_models(items0).push(
                                        FrameModel::Bulk(argm[i as int]),
                                    ).push(FrameModel::Bulk(vv)));
                                    assert(crate::command::views_of_frames(frame_models(items@))
                                        =~= crate::command::views_of_frames(frame_models(items0))
                                        + seq![argm[i as int], vv]);
                                    assert(frame_models(items@) =~= bulks_of(
                                        crate::command::views_of_frames(frame_models(items@)),
                                    ));
                                }
                            },
                        }
                        i = i + 1;
                    }
                    if failed {
                        let reply = encode(&RespDataTypes::SimpleError(build_err_config_msg()));
                        {
                        let out = CmdOut { reply, snapshot: None, register_follower: false, follower_port: None, is_w: false };
                        proof {
                            reveal(command_post);
                            assert(command_post(pre, cm, now, out));
                        }
                        return out;
                    }
                    } else {
                        proof {
                            assert(config_pairs(&cfg, argm, n as int) == Some(
                                Seq::<Seq<u8>>::empty(),
                            ));
                            assert(crate::command::views_of_frames(frame_models(items@))
                                + Seq::<Seq<u8>>::empty() =~= crate::command::views_of_frames(
                                frame_models(items@),
                            ));
                        }
                        let f = RespDataTypes::Array(items);
                        let reply = encode(&f);
                        {
                        let out = CmdOut { reply, snapshot: None, register_follower: false, follower_port: None, is_w: false };
                        proof {
                            reveal(command_post);
                            assert(command_post(pre, cm, now, out));
                        }
                        return out;
                    }
                    }
                } else {
                    let reply = encode(&RespDataTypes::SimpleError(build_err_config_msg()));
                    {
                        let out = CmdOut { reply, snapshot: None, register_follower: false, follower_port: None, is_w: false };
                        proof {
                            reveal(command_post);
                            assert(command_post(pre, cm, now, out));
                        }
                        return out;
                    }
                }
            },
            Commands::Info(sec) => {
                let reply = match sec {
                    Some(x) => {
                        let u = crate::command::upper_bytes(x.as_slice());
                        if is_kw_replication(u.as_slice()) {
                            encode(&RespDataTypes::BulkString(self.state.get_replication_status()))
                        } else {
                            encode(&RespDataTypes::SimpleError(build_err_info_msg()))
                        }
                    },
                    None => encode(&RespDataTypes::SimpleError(build_err_info_msg())),
                };
                {
                    let out = CmdOut { reply, snapshot: None, register_follower: false, follower_port: None, is_w: false };
                    proof {
                        reveal(command_post);
                        assert(command_post(pre, cm, now, out));
                    }
                    out
                }
            },
            Commands::REPLCONF(a, b) => {
                let u = crate::command::upper_bytes(a.as_slice());
                let mut follower_port: Option<u16> = None;
                if is_kw_listening_port(u.as_slice()) {
                    match parse_line_u64(b.as_slice()) {
                        LineU64::Val(v) => {
                            if v <= 65535 {
                                follower_port = Some(v as u16);
                            }
                        },
                        _ => {},
                    }
                }
                let reply = encode(&RespDataTypes::SimpleString(build_ok()));
                {
                    let out = CmdOut { reply, snapshot: None, register_follower: false, follower_port, is_w: false };
                    proof {
                        reveal(command_post);
                        assert(command_post(pre, cm, now, out));
                    }
                    out
                }
            },
            Commands::PSYNC(_, _) => {
                match self.state.psync() {
                    Ok(fr) => {
                        let reply = encode(&fr);
                        let snapshot = Some(encode_snapshot_frame(self.snapshot.as_slice()));
                        {
                    let out = CmdOut { reply, snapshot, register_follower: true, follower_port: None, is_w: false };
                    proof {
                        reveal(command_post);
                        assert(command_post(pre, cm, now, out));
                    }
                    out
                }
                    },
                    Err(_) => {
                        let reply = encode(&RespDataTypes::SimpleError(build_err_psync_msg()));
                        {
                    let out = CmdOut { reply, snapshot: None, register_follower: false, follower_port: None, is_w: false };
                    proof {
                        reveal(command_post);
                        assert(command_post(pre, cm, now, out));
                    }
                    out
                }
                    },
                }
            },
        }
    }

    /// Dispatch one frame from `input` at time `now`. `from_primary`
    /// marks the replica's link from its primary: commands on it run
    /// without a reply and advance the applied offset.
    ///
    /// Exactly one whole frame is consumed, or none; the keyspace moves
    /// by the command's effect; on a primary a write is fanned out
    /// byte-identically to every follower; the reply, snapshot,
    /// registration and advertised-port findings are pinned by
    /// [`execute_post`].
    #[verifier::rlimit(100)]
    #[verifier::spinoff_prover]
    pub fn execute_command(&mut self, input: &[u8], now: u64, from_primary: bool) -> (o: Outcome)
        requires
            old(self).wf(),
        ensures
            final(self).wf(),
            execute_post(*old(self), *final(self), input@, now, from_primary, o),
    {
        proof {
            lemma_spec_decode_bounds(input@);
            assert(self.all_dbs().insert(self.spec_selected() as int, self.keyspace())
                =~= self.all_dbs());
        }
        let ghost pre = *self;
        let dec = decode(input);
        let (frame, used) = match dec {
            DecodeResult::Incomplete => {
                return Outcome {
                    consumed: 0,
                    reply: None,
                    snapshot: None,
                    register_follower: false,
                    follower_port: None,
                    sends: Vec::new(),
                    disconnect: false,
                };
            },
            DecodeResult::Malformed => {
                let rb = encode(&RespDataTypes::SimpleError(build_err_protocol_msg()));
                return Outcome {
                    consumed: 0,
                    reply: Some(rb),
                    snapshot: None,
                    register_follower: false,
                    follower_port: None,
                    sends: Vec::new(),
                    disconnect: true,
                };
            },
            DecodeResult::Frame(f, u) => (f, u),
        };
        let ghost fm = frame@;
        let parsed = Commands::from_frame(&frame, now);
        let mut reply: Option<Vec<u8>> = None;
        let mut snapshot: Option<Vec<u8>> = None;
        let mut register_follower = false;
        let mut follower_port: Option<u16> = None;
        let mut is_w = false;
        match parsed {
            Err(e) => {
                reply = Some(error_reply(&e));
            },
            Ok(cmd) => {
                proof {
                    lemma_spec_decode_arr_len(input@);
                    match fm {
                        FrameModel::Arr(items) => {
                            lemma_args_from_len(items, 1);
                        },
                        _ => {},
                    }
                }
                let out = self.run_command(cmd, now);
                reply = Some(out.reply);
                snapshot = out.snapshot;
                register_follower = out.register_follower;
                follower_port = out.follower_port;
                is_w = out.is_w;
            },
        }
        proof {
            reveal(command_post);
        }
        let mut sends: Vec<(usize, Vec<u8>)> = Vec::new();
        if from_primary {
            self.state.replication.note_applied(used);
            reply = None;
        } else if is_w {
            sends = self.state.replicate_command(vstd::slice::slice_subrange(input, 0, used));
        }
        Outcome {
            consumed: used,
            reply,
            snapshot,
            register_follower,
            follower_port,
            sends,
            disconnect: false,
        }
    }
}

/// A run of frames applied in order to a keyspace.
pub open spec fn apply_frames(m: DbModel, frames: Seq<Seq<u8>>, now: u64) -> DbModel
    decreases frames.len(),
{
    if frames.len() == 0 {
        m
    } else {
        apply_frames(frame_effect(m, frames[0], now), frames.drop_first(), now)
    }
}

/// The replication offset after a run of whole frames: it advances by
/// each frame's byte length.
pub open spec fn offset_after_frames(off: i64, frames: Seq<Seq<u8>>) -> i64
    decreases frames.len(),
{
    if frames.len() == 0 {
        off
    } else {
        offset_after_frames(offset_after(off, frames[0].len() as int), frames.drop_first())
    }
}

/// Replication ordering. A primary fans every write frame out
/// byte-identically and in its own serialization order (see
/// `ServerState::replicate_command` and `execute_post`), and advances
/// its offset by each frame's length; a follower applies the stream it
/// receives in order, moving its keyspace by the same `frame_effect`
/// and its offset by the same lengths (`execute_post` with
/// `from_primary`). So a follower that starts from the primary's
/// snapshot and receives its write stream ends with the primary's
/// keyspace and the primary's offset: the application of equal frames
/// to equal starting points is equal.
pub proof fn lemma_replication_ordering(
    mp: DbModel,
    mf: DbModel,
    offp: i64,
    offf: i64,
    frames: Seq<Seq<u8>>,
    now: u64,
)
    requires
        mp == mf,
        offp == offf,
    ensures
        apply_frames(mp, frames, now) == apply_frames(mf, frames, now),
        offset_after_frames(offp, frames) == offset_after_frames(offf, frames),
{
}

} // verus!
