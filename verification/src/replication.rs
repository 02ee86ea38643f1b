//! The replication role and its state machines.
//!
//! A primary holds a set of follower handles and fans every write out to
//! them byte-identically; a replica drives the `PING`/`REPLCONF`/`PSYNC`
//! handshake as a pure step function from state and event to state and
//! action, so the surrounding process only performs the I/O.

use vstd::prelude::*;

use crate::num::{dec_i64, dec_u64, dec_usize, parse_dec, parse_line_int, spec_dec_i, spec_dec_u,
    LineInt};
use crate::resp::{crlf, frame_model, FrameModel, RespDataTypes};
use crate::database::copy_bytes;
use crate::util::gen_id;

verus! {

/// The two replication roles.
#[derive(Debug, Clone, PartialEq, Eq, Structural)]
pub enum Role {
    Master,
    Slave,
}

/// A registered follower session on a primary.
pub struct FollowerHandle {
    /// Identifier minted for the follower.
    pub id: Vec<u8>,
    /// The listening port the follower advertised; followers are keyed
    /// by it.
    pub port: u16,
    /// Last acknowledged replication offset; starts at -1.
    pub acked_offset: i64,
    /// The send-capability token the surrounding process mapped to this
    /// follower's connection.
    pub token: usize,
}

/// The replication state of this server.
pub enum Replica {
    Master {
        id: Vec<u8>,
        port: u16,
        slaves: Vec<FollowerHandle>,
        replication_offset: i64,
    },
    Slave {
        id: Vec<u8>,
        master_id: Vec<u8>,
        master_offset: i64,
        port: u16,
        master_address: Vec<u8>,
        connected: bool,
    },
}

/// Errors of the replication role.
#[derive(Debug, PartialEq, Eq)]
pub enum ReplicaError {
    /// The operation belongs to the other role.
    WrongRole,
}

/// A follower with this advertised port is already registered.
pub open spec fn has_follower_port(slaves: Seq<FollowerHandle>, port: u16) -> bool {
    exists|i: int| 0 <= i < slaves.len() && (#[trigger] slaves[i]).port == port
}

/// Offsets advance by the replicated byte count, saturating at the
/// counter's top.
pub open spec fn offset_after(off: i64, n: int) -> i64 {
    if off + n <= i64::MAX {
        (off + n) as i64
    } else {
        i64::MAX
    }
}

/// The report heading and role line of a primary, up to the follower count.
pub open spec fn info_head_master() -> Seq<u8> {
    seq![0x23u8, 0x20u8, 0x52u8, 0x65u8, 0x70u8, 0x6Cu8, 0x69u8, 0x63u8, 0x61u8, 0x74u8, 0x69u8, 0x6Fu8, 0x6Eu8, 0x0Au8, 0x72u8, 0x6Fu8, 0x6Cu8, 0x65u8, 0x3Au8, 0x6Du8, 0x61u8, 0x73u8, 0x74u8, 0x65u8, 0x72u8, 0x0Au8, 0x63u8, 0x6Fu8, 0x6Eu8, 0x6Eu8, 0x65u8, 0x63u8, 0x74u8, 0x65u8, 0x64u8, 0x5Fu8, 0x73u8, 0x6Cu8, 0x61u8, 0x76u8, 0x65u8, 0x73u8, 0x3Au8]
}

fn push_info_head_master(out: &mut Vec<u8>)
    ensures
        final(out)@ == old(out)@ + info_head_master(),
{
    let mut part: Vec<u8> = vec![0x23u8, 0x20u8, 0x52u8, 0x65u8, 0x70u8, 0x6Cu8, 0x69u8, 0x63u8, 0x61u8, 0x74u8, 0x69u8, 0x6Fu8, 0x6Eu8, 0x0Au8, 0x72u8, 0x6Fu8, 0x6Cu8, 0x65u8, 0x3Au8, 0x6Du8, 0x61u8, 0x73u8, 0x74u8, 0x65u8, 0x72u8, 0x0Au8, 0x63u8, 0x6Fu8, 0x6Eu8, 0x6Eu8, 0x65u8, 0x63u8, 0x74u8, 0x65u8, 0x64u8, 0x5Fu8, 0x73u8, 0x6Cu8, 0x61u8, 0x76u8, 0x65u8, 0x73u8, 0x3Au8];
    out.append(&mut part);
    assert(out@ =~= old(out)@ + info_head_master());
}

/// The `master_replid:` line lead.
pub open spec fn info_replid() -> Seq<u8> {
    seq![0x0Au8, 0x6Du8, 0x61u8, 0x73u8, 0x74u8, 0x65u8, 0x72u8, 0x5Fu8, 0x72u8, 0x65u8, 0x70u8, 0x6Cu8, 0x69u8, 0x64u8, 0x3Au8]
}

fn push_info_replid(out: &mut Vec<u8>)
    ensures
        final(out)@ == old(out)@ + info_replid(),
{
    let mut part: Vec<u8> = vec![0x0Au8, 0x6Du8, 0x61u8, 0x73u8, 0x74u8, 0x65u8, 0x72u8, 0x5Fu8, 0x72u8, 0x65u8, 0x70u8, 0x6Cu8, 0x69u8, 0x64u8, 0x3Au8];
    out.append(&mut part);
    assert(out@ =~= old(out)@ + info_replid());
}

/// The `master_repl_offset:` line lead.
pub open spec fn info_offset() -> Seq<u8> {
    seq![0x0Au8, 0x6Du8, 0x61u8, 0x73u8, 0x74u8, 0x65u8, 0x72u8, 0x5Fu8, 0x72u8, 0x65u8, 0x70u8, 0x6Cu8, 0x5Fu8, 0x6Fu8, 0x66u8, 0x66u8, 0x73u8, 0x65u8, 0x74u8, 0x3Au8]
}

fn push_info_offset(out: &mut Vec<u8>)
    ensures
        final(out)@ == old(out)@ + info_offset(),
{
    let mut part: Vec<u8> = vec![0x0Au8, 0x6Du8, 0x61u8, 0x73u8, 0x74u8, 0x65u8, 0x72u8, 0x5Fu8, 0x72u8, 0x65u8, 0x70u8, 0x6Cu8, 0x5Fu8, 0x6Fu8, 0x66u8, 0x66u8, 0x73u8, 0x65u8, 0x74u8, 0x3Au8];
    out.append(&mut part);
    assert(out@ =~= old(out)@ + info_offset());
}

/// The fixed tail of the report: second offset and backlog lines.
pub open spec fn info_tail() -> Seq<u8> {
    seq![0x0Au8, 0x73u8, 0x65u8, 0x63u8, 0x6Fu8, 0x6Eu8, 0x64u8, 0x5Fu8, 0x72u8, 0x65u8, 0x70u8, 0x6Cu8, 0x5Fu8, 0x6Fu8, 0x66u8, 0x66u8, 0x73u8, 0x65u8, 0x74u8, 0x3Au8, 0x2Du8, 0x31u8, 0x0Au8, 0x72u8, 0x65u8, 0x70u8, 0x6Cu8, 0x5Fu8, 0x62u8, 0x61u8, 0x63u8, 0x6Bu8, 0x6Cu8, 0x6Fu8, 0x67u8, 0x5Fu8, 0x61u8, 0x63u8, 0x74u8, 0x69u8, 0x76u8, 0x65u8, 0x3Au8, 0x30u8, 0x0Au8, 0x72u8, 0x65u8, 0x70u8, 0x6Cu8, 0x5Fu8, 0x62u8, 0x61u8, 0x63u8, 0x6Bu8, 0x6Cu8, 0x6Fu8, 0x67u8, 0x5Fu8, 0x73u8, 0x69u8, 0x7Au8, 0x65u8, 0x3Au8, 0x31u8, 0x30u8, 0x34u8, 0x38u8, 0x35u8, 0x37u8, 0x36u8, 0x0Au8, 0x72u8, 0x65u8, 0x70u8, 0x6Cu8, 0x5Fu8, 0x62u8, 0x61u8, 0x63u8, 0x6Bu8, 0x6Cu8, 0x6Fu8, 0x67u8, 0x5Fu8, 0x66u8, 0x69u8, 0x72u8, 0x73u8, 0x74u8, 0x5Fu8, 0x62u8, 0x79u8, 0x74u8, 0x65u8, 0x5Fu8, 0x6Fu8, 0x66u8, 0x66u8, 0x73u8, 0x65u8, 0x74u8, 0x3Au8, 0x30u8, 0x0Au8, 0x72u8, 0x65u8, 0x70u8, 0x6Cu8, 0x5Fu8, 0x62u8, 0x61u8, 0x63u8, 0x6Bu8, 0x6Cu8, 0x6Fu8, 0x67u8, 0x5Fu8, 0x68u8, 0x69u8, 0x73u8, 0x74u8, 0x6Cu8, 0x65u8, 0x6Eu8, 0x3Au8, 0x30u8, 0x0Au8]
}

fn push_info_tail(out: &mut Vec<u8>)
    ensures
        final(out)@ == old(out)@ + info_tail(),
{
    let mut part: Vec<u8> = vec![0x0Au8, 0x73u8, 0x65u8, 0x63u8, 0x6Fu8, 0x6Eu8, 0x64u8, 0x5Fu8, 0x72u8, 0x65u8, 0x70u8, 0x6Cu8, 0x5Fu8, 0x6Fu8, 0x66u8, 0x66u8, 0x73u8, 0x65u8, 0x74u8, 0x3Au8, 0x2Du8, 0x31u8, 0x0Au8, 0x72u8, 0x65u8, 0x70u8, 0x6Cu8, 0x5Fu8, 0x62u8, 0x61u8, 0x63u8, 0x6Bu8, 0x6Cu8, 0x6Fu8, 0x67u8, 0x5Fu8, 0x61u8, 0x63u8, 0x74u8, 0x69u8, 0x76u8, 0x65u8, 0x3Au8, 0x30u8, 0x0Au8, 0x72u8, 0x65u8, 0x70u8, 0x6Cu8, 0x5Fu8, 0x62u8, 0x61u8, 0x63u8, 0x6Bu8, 0x6Cu8, 0x6Fu8, 0x67u8, 0x5Fu8, 0x73u8, 0x69u8, 0x7Au8, 0x65u8, 0x3Au8, 0x31u8, 0x30u8, 0x34u8, 0x38u8, 0x35u8, 0x37u8, 0x36u8, 0x0Au8, 0x72u8, 0x65u8, 0x70u8, 0x6Cu8, 0x5Fu8, 0x62u8, 0x61u8, 0x63u8, 0x6Bu8, 0x6Cu8, 0x6Fu8, 0x67u8, 0x5Fu8, 0x66u8, 0x69u8, 0x72u8, 0x73u8, 0x74u8, 0x5Fu8, 0x62u8, 0x79u8, 0x74u8, 0x65u8, 0x5Fu8, 0x6Fu8, 0x66u8, 0x66u8, 0x73u8, 0x65u8, 0x74u8, 0x3Au8, 0x30u8, 0x0Au8, 0x72u8, 0x65u8, 0x70u8, 0x6Cu8, 0x5Fu8, 0x62u8, 0x61u8, 0x63u8, 0x6Bu8, 0x6Cu8, 0x6Fu8, 0x67u8, 0x5Fu8, 0x68u8, 0x69u8, 0x73u8, 0x74u8, 0x6Cu8, 0x65u8, 0x6Eu8, 0x3Au8, 0x30u8, 0x0Au8];
    out.append(&mut part);
    assert(out@ =~= old(out)@ + info_tail());
}

/// The report heading and role line of a replica, up to the primary's id.
pub open spec fn info_head_slave() -> Seq<u8> {
    seq![0x23u8, 0x20u8, 0x52u8, 0x65u8, 0x70u8, 0x6Cu8, 0x69u8, 0x63u8, 0x61u8, 0x74u8, 0x69u8, 0x6Fu8, 0x6Eu8, 0x0Au8, 0x72u8, 0x6Fu8, 0x6Cu8, 0x65u8, 0x3Au8, 0x73u8, 0x6Cu8, 0x61u8, 0x76u8, 0x65u8, 0x0Au8, 0x6Du8, 0x61u8, 0x73u8, 0x74u8, 0x65u8, 0x72u8, 0x5Fu8, 0x72u8, 0x65u8, 0x70u8, 0x6Cu8, 0x69u8, 0x64u8, 0x3Au8]
}

fn push_info_head_slave(out: &mut Vec<u8>)
    ensures
        final(out)@ == old(out)@ + info_head_slave(),
{
    let mut part: Vec<u8> = vec![0x23u8, 0x20u8, 0x52u8, 0x65u8, 0x70u8, 0x6Cu8, 0x69u8, 0x63u8, 0x61u8, 0x74u8, 0x69u8, 0x6Fu8, 0x6Eu8, 0x0Au8, 0x72u8, 0x6Fu8, 0x6Cu8, 0x65u8, 0x3Au8, 0x73u8, 0x6Cu8, 0x61u8, 0x76u8, 0x65u8, 0x0Au8, 0x6Du8, 0x61u8, 0x73u8, 0x74u8, 0x65u8, 0x72u8, 0x5Fu8, 0x72u8, 0x65u8, 0x70u8, 0x6Cu8, 0x69u8, 0x64u8, 0x3Au8];
    out.append(&mut part);
    assert(out@ =~= old(out)@ + info_head_slave());
}

/// The first handshake message: `PING` as a one-element array.
pub open spec fn msg_ping() -> Seq<u8> {
    seq![0x2Au8, 0x31u8, 0x0Du8, 0x0Au8, 0x24u8, 0x34u8, 0x0Du8, 0x0Au8, 0x50u8, 0x49u8, 0x4Eu8, 0x47u8, 0x0Du8, 0x0Au8]
}

fn push_msg_ping(out: &mut Vec<u8>)
    ensures
        final(out)@ == old(out)@ + msg_ping(),
{
    let mut part: Vec<u8> = vec![0x2Au8, 0x31u8, 0x0Du8, 0x0Au8, 0x24u8, 0x34u8, 0x0Du8, 0x0Au8, 0x50u8, 0x49u8, 0x4Eu8, 0x47u8, 0x0Du8, 0x0Au8];
    out.append(&mut part);
    assert(out@ =~= old(out)@ + msg_ping());
}

/// The second handshake message up to its port length prefix.
pub open spec fn msg_replconf_port_head() -> Seq<u8> {
    seq![0x2Au8, 0x33u8, 0x0Du8, 0x0Au8, 0x24u8, 0x38u8, 0x0Du8, 0x0Au8, 0x52u8, 0x45u8, 0x50u8, 0x4Cu8, 0x43u8, 0x4Fu8, 0x4Eu8, 0x46u8, 0x0Du8, 0x0Au8, 0x24u8, 0x31u8, 0x34u8, 0x0Du8, 0x0Au8, 0x6Cu8, 0x69u8, 0x73u8, 0x74u8, 0x65u8, 0x6Eu8, 0x69u8, 0x6Eu8, 0x67u8, 0x2Du8, 0x70u8, 0x6Fu8, 0x72u8, 0x74u8, 0x0Du8, 0x0Au8, 0x24u8]
}

fn push_msg_replconf_port_head(out: &mut Vec<u8>)
    ensures
        final(out)@ == old(out)@ + msg_replconf_port_head(),
{
    let mut part: Vec<u8> = vec![0x2Au8, 0x33u8, 0x0Du8, 0x0Au8, 0x24u8, 0x38u8, 0x0Du8, 0x0Au8, 0x52u8, 0x45u8, 0x50u8, 0x4Cu8, 0x43u8, 0x4Fu8, 0x4Eu8, 0x46u8, 0x0Du8, 0x0Au8, 0x24u8, 0x31u8, 0x34u8, 0x0Du8, 0x0Au8, 0x6Cu8, 0x69u8, 0x73u8, 0x74u8, 0x65u8, 0x6Eu8, 0x69u8, 0x6Eu8, 0x67u8, 0x2Du8, 0x70u8, 0x6Fu8, 0x72u8, 0x74u8, 0x0Du8, 0x0Au8, 0x24u8];
    out.append(&mut part);
    assert(out@ =~= old(out)@ + msg_replconf_port_head());
}

/// The third handshake message: `REPLCONF capa psync2`.
pub open spec fn msg_replconf_capa() -> Seq<u8> {
    seq![0x2Au8, 0x33u8, 0x0Du8, 0x0Au8, 0x24u8, 0x38u8, 0x0Du8, 0x0Au8, 0x52u8, 0x45u8, 0x50u8, 0x4Cu8, 0x43u8, 0x4Fu8, 0x4Eu8, 0x46u8, 0x0Du8, 0x0Au8, 0x24u8, 0x34u8, 0x0Du8, 0x0Au8, 0x63u8, 0x61u8, 0x70u8, 0x61u8, 0x0Du8, 0x0Au8, 0x24u8, 0x36u8, 0x0Du8, 0x0Au8, 0x70u8, 0x73u8, 0x79u8, 0x6Eu8, 0x63u8, 0x32u8, 0x0Du8, 0x0Au8]
}

fn push_msg_replconf_capa(out: &mut Vec<u8>)
    ensures
        final(out)@ == old(out)@ + msg_replconf_capa(),
{
    let mut part: Vec<u8> = vec![0x2Au8, 0x33u8, 0x0Du8, 0x0Au8, 0x24u8, 0x38u8, 0x0Du8, 0x0Au8, 0x52u8, 0x45u8, 0x50u8, 0x4Cu8, 0x43u8, 0x4Fu8, 0x4Eu8, 0x46u8, 0x0Du8, 0x0Au8, 0x24u8, 0x34u8, 0x0Du8, 0x0Au8, 0x63u8, 0x61u8, 0x70u8, 0x61u8, 0x0Du8, 0x0Au8, 0x24u8, 0x36u8, 0x0Du8, 0x0Au8, 0x70u8, 0x73u8, 0x79u8, 0x6Eu8, 0x63u8, 0x32u8, 0x0Du8, 0x0Au8];
    out.append(&mut part);
    assert(out@ =~= old(out)@ + msg_replconf_capa());
}

/// The fourth handshake message: `PSYNC ? -1`.
pub open spec fn msg_psync() -> Seq<u8> {
    seq![0x2Au8, 0x33u8, 0x0Du8, 0x0Au8, 0x24u8, 0x35u8, 0x0Du8, 0x0Au8, 0x50u8, 0x53u8, 0x59u8, 0x4Eu8, 0x43u8, 0x0Du8, 0x0Au8, 0x24u8, 0x31u8, 0x0Du8, 0x0Au8, 0x3Fu8, 0x0Du8, 0x0Au8, 0x24u8, 0x32u8, 0x0Du8, 0x0Au8, 0x2Du8, 0x31u8, 0x0Du8, 0x0Au8]
}

fn push_msg_psync(out: &mut Vec<u8>)
    ensures
        final(out)@ == old(out)@ + msg_psync(),
{
    let mut part: Vec<u8> = vec![0x2Au8, 0x33u8, 0x0Du8, 0x0Au8, 0x24u8, 0x35u8, 0x0Du8, 0x0Au8, 0x50u8, 0x53u8, 0x59u8, 0x4Eu8, 0x43u8, 0x0Du8, 0x0Au8, 0x24u8, 0x31u8, 0x0Du8, 0x0Au8, 0x3Fu8, 0x0Du8, 0x0Au8, 0x24u8, 0x32u8, 0x0Du8, 0x0Au8, 0x2Du8, 0x31u8, 0x0Du8, 0x0Au8];
    out.append(&mut part);
    assert(out@ =~= old(out)@ + msg_psync());
}

/// The word `FULLRESYNC` and its following space.
pub open spec fn fullresync_head() -> Seq<u8> {
    seq![0x46u8, 0x55u8, 0x4Cu8, 0x4Cu8, 0x52u8, 0x45u8, 0x53u8, 0x59u8, 0x4Eu8, 0x43u8, 0x20u8]
}


/// The bytes of `PONG`.
pub open spec fn pong_word() -> Seq<u8> {
    seq![0x50u8, 0x4Fu8, 0x4Eu8, 0x47u8]
}


/// The bytes of `OK`.
pub open spec fn ok_word() -> Seq<u8> {
    seq![0x4Fu8, 0x4Bu8]
}



fn push_fullresync_head(out: &mut Vec<u8>)
    ensures
        final(out)@ == old(out)@ + fullresync_head(),
{
    let mut part: Vec<u8> = vec![0x46u8, 0x55u8, 0x4Cu8, 0x4Cu8, 0x52u8, 0x45u8, 0x53u8, 0x59u8, 0x4Eu8, 0x43u8, 0x20u8];
    out.append(&mut part);
    assert(out@ =~= old(out)@ + fullresync_head());
}

/// `FULLRESYNC <id> <offset>`: the primary's reply to an initial PSYNC.
pub open spec fn fullresync_line(id: Seq<u8>, off: int) -> Seq<u8> {
    fullresync_head() + id + seq![0x20u8] + spec_dec_i(off)
}

/// The exact second handshake message for a given listening port.
pub open spec fn msg_replconf_port(port: u16) -> Seq<u8> {
    msg_replconf_port_head() + spec_dec_u(spec_dec_u(port as nat).len()) + crlf() + spec_dec_u(
        port as nat,
    ) + crlf()
}

/// The follower sequence with every handle bearing `token` dropped.
pub open spec fn drop_token(s: Seq<FollowerHandle>, token: usize) -> Seq<FollowerHandle>
    decreases s.len(),
{
    if s.len() == 0 {
        Seq::empty()
    } else if s[0].token == token {
        drop_token(s.drop_first(), token)
    } else {
        seq![s[0]] + drop_token(s.drop_first(), token)
    }
}

/// Whether some follower advertises this port.
fn has_port(slaves: &Vec<FollowerHandle>, port: u16) -> (r: bool)
    ensures
        r == has_follower_port(slaves@, port),
{
    let n = slaves.len();
    let mut i: usize = 0;
    while i < n
        invariant
            i <= n,
            n == slaves@.len(),
            forall|k: int| 0 <= k < i ==> (#[trigger] slaves@[k]).port != port,
        decreases n - i,
    {
        if slaves[i].port == port {
            return true;
        }
        i = i + 1;
    }
    false
}

impl Replica {
    /// A primary or a replica for the given port; a replica must name
    /// its primary's address.
    pub fn new(port: u16, role: Role, master_address: Option<Vec<u8>>) -> (r: Replica)
        requires
            role == Role::Slave ==> master_address is Some,
        ensures
            role == Role::Master ==> is_fresh_master(r),
            role == Role::Slave ==> is_fresh_slave(r, port, master_address->Some_0@),
    {
        match role {
            Role::Master => Self::new_master(),
            Role::Slave => {
                let addr = match master_address {
                    Some(a) => a,
                    None => {
                        proof {
                            assert(false);
                        }
                        Vec::new()
                    },
                };
                Self::new_slave(port, Some(addr))
            },
        }
    }

    /// A fresh primary: a new 40-character identifier, no followers,
    /// offset zero.
    pub fn new_master() -> (r: Replica)
        ensures
            is_fresh_master(r),
    {
        Replica::Master { id: gen_id(), port: 6379, slaves: Vec::new(), replication_offset: 0 }
    }

    /// A fresh replica of the primary at `master_address`: offset -1,
    /// primary id still unknown (`?`).
    pub fn new_slave(port: u16, master_address: Option<Vec<u8>>) -> (r: Replica)
        requires
            master_address is Some,
        ensures
            is_fresh_slave(r, port, master_address->Some_0@),
    {
        let addr = match master_address {
            Some(a) => a,
            None => {
                proof {
                    assert(false);
                }
                Vec::new()
            },
        };
        let mut unknown: Vec<u8> = Vec::new();
        unknown.push(0x3F);
        Replica::Slave {
            id: gen_id(),
            master_id: unknown,
            master_offset: -1,
            port,
            master_address: addr,
            connected: false,
        }
    }

    /// Begin the handshake: only a replica has one to run; it starts in
    /// `Init`.
    pub fn init(&self) -> (r: Result<HandshakeState, ReplicaError>)
        ensures
            self is Master ==> r == Err::<HandshakeState, _>(ReplicaError::WrongRole),
            self is Slave ==> r == Ok::<_, ReplicaError>(HandshakeState::Init),
    {
        match self {
            Replica::Master { .. } => Err(ReplicaError::WrongRole),
            Replica::Slave { .. } => Ok(HandshakeState::Init),
        }
    }

    /// Register a follower session keyed by its advertised listening
    /// port; registering a port twice is a no-op, and a replica ignores
    /// the call.
    pub fn register_replica(&mut self, peer_port: u16, token: usize)
        ensures
            match *old(self) {
                Replica::Slave { .. } => *final(self) == *old(self),
                Replica::Master { id, port, slaves, replication_offset } => {
                    &&& *final(self) matches Replica::Master {
                        id: id2,
                        port: port2,
                        slaves: slaves2,
                        replication_offset: off2,
                    }
                    &&& id2 == id
                    &&& port2 == port
                    &&& off2 == replication_offset
                    &&& (if has_follower_port(slaves@, peer_port) {
                        slaves2@ == slaves@
                    } else {
                        slaves2@.len() == slaves@.len() + 1 && slaves2@.take(slaves@.len() as int)
                            == slaves@ && slaves2@.last().port == peer_port
                            && slaves2@.last().token == token
                            && slaves2@.last().acked_offset == -1
                    })
                },
            },
    {
        match self {
            Replica::Slave { .. } => {},
            Replica::Master { slaves, .. } => {
                let found = has_port(slaves, peer_port);
                if !found {
                    let ghost s0 = slaves@;
                    slaves.push(FollowerHandle { id: gen_id(), port: peer_port, acked_offset: -1, token });
                    proof {
                        assert(slaves@.take(s0.len() as int) =~= s0);
                    }
                }
            },
        }
    }

    /// Fan a replicated command out: on a primary, advance the offset by
    /// the command's byte length and hand back one send per follower
    /// carrying exactly the bytes received; a replica sends nothing.
    pub fn replicate_command(&mut self, command: &[u8]) -> (sends: Vec<(usize, Vec<u8>)>)
        ensures
            match *old(self) {
                Replica::Slave { .. } => *final(self) == *old(self) && sends@.len() == 0,
                Replica::Master { id, port, slaves, replication_offset } => {
                    &&& *final(self) matches Replica::Master {
                        id: id2,
                        port: port2,
                        slaves: slaves2,
                        replication_offset: off2,
                    }
                    &&& id2 == id
                    &&& port2 == port
                    &&& slaves2@ == slaves@
                    &&& off2 == offset_after(replication_offset, command@.len() as int)
                    &&& sends@.len() == slaves@.len()
                    &&& (forall|i: int| 0 <= i < sends@.len() ==> (#[trigger] sends@[i]).0
                        == slaves@[i].token && sends@[i].1@ == command@)
                },
            },
    {
        match self {
            Replica::Slave { .. } => Vec::new(),
            Replica::Master { slaves, replication_offset, .. } => {
                let add = command.len();
                let sum: i128 = (*replication_offset as i128) + (add as i128);
                let new_off: i64 = if sum > i64::MAX as i128 {
                    i64::MAX
                } else {
                    sum as i64
                };
                *replication_offset = new_off;
                let n = slaves.len();
                let mut sends: Vec<(usize, Vec<u8>)> = Vec::new();
                let mut i: usize = 0;
                while i < n
                    invariant
                        i <= n,
                        n == slaves@.len(),
                        sends@.len() == i,
                        forall|k: int| 0 <= k < i ==> (#[trigger] sends@[k]).0
                            == slaves@[k].token && sends@[k].1@ == command@,
                    decreases n - i,
                {
                    sends.push((slaves[i].token, copy_bytes(command)));
                    i = i + 1;
                }
                sends
            },
        }
    }

    /// Drop the followers holding this send token: a follower whose
    /// write side failed is evicted.
    pub fn remove_follower(&mut self, token: usize)
        ensures
            match *old(self) {
                Replica::Slave { .. } => *final(self) == *old(self),
                Replica::Master { id, port, slaves, replication_offset } => {
                    &&& *final(self) matches Replica::Master {
                        id: id2,
                        port: port2,
                        slaves: slaves2,
                        replication_offset: off2,
                    }
                    &&& id2 == id
                    &&& port2 == port
                    &&& off2 == replication_offset
                    &&& slaves2@ == drop_token(slaves@, token)
                },
            },
    {
        match self {
            Replica::Slave { .. } => {},
            Replica::Master { slaves, .. } => {
                let ghost s0 = slaves@;
                let mut i = slaves.len();
                proof {
                    assert(s0.skip(s0.len() as int) =~= Seq::<FollowerHandle>::empty());
                    assert(slaves@ =~= s0.take(i as int) + drop_token(
                        s0.skip(i as int),
                        token,
                    ));
                }
                while i > 0
                    invariant
                        i <= s0.len(),
                        slaves@ =~= s0.take(i as int) + drop_token(s0.skip(i as int), token),
                    decreases i,
                {
                    i = i - 1;
                    proof {
                        assert(s0.skip(i as int) =~= seq![s0[i as int]] + s0.skip(i + 1));
                        assert(s0.skip(i as int)[0] == s0[i as int]);
                        assert(s0.skip(i as int).drop_first() =~= s0.skip(i + 1));
                        assert(slaves@[i as int] == s0[i as int]) by {
                            assert(s0.take(i + 1)[i as int] == s0[i as int]);
                        }
                    }
                    if slaves[i].token == token {
                        slaves.remove(i);
                        proof {
                            assert(slaves@ =~= s0.take(i as int) + drop_token(
                                s0.skip(i as int),
                                token,
                            ));
                        }
                    } else {
                        proof {
                            assert(slaves@ =~= s0.take(i as int) + drop_token(
                                s0.skip(i as int),
                                token,
                            ));
                        }
                    }
                }
                proof {
                    assert(s0.take(0int) =~= Seq::<FollowerHandle>::empty());
                    assert(slaves@ =~= drop_token(s0, token));
                }
            },
        }
    }

    /// Learn the primary's id and offset from its FULLRESYNC reply; a
    /// primary learns nothing.
    pub fn adopt_master(&mut self, new_master_id: Vec<u8>, offset: i64)
        ensures
            match *old(self) {
                Replica::Master { .. } => *final(self) == *old(self),
                Replica::Slave { id, master_id, master_offset, port, master_address, connected } => {
                    &&& *final(self) matches Replica::Slave {
                        id: id2,
                        master_id: mid2,
                        master_offset: off2,
                        port: port2,
                        master_address: addr2,
                        connected: conn2,
                    }
                    &&& id2 == id
                    &&& mid2@ == new_master_id@
                    &&& off2 == offset
                    &&& port2 == port
                    &&& addr2 == master_address
                    &&& conn2 == true
                },
            },
    {
        match self {
            Replica::Master { .. } => {},
            Replica::Slave { master_id, master_offset, connected, .. } => {
                *master_id = new_master_id;
                *master_offset = offset;
                *connected = true;
            },
        }
    }

    /// Record `n` applied bytes from the primary's stream: a replica's
    /// offset advances by what it applies; a primary is unaffected.
    pub fn note_applied(&mut self, n: usize)
        ensures
            match *old(self) {
                Replica::Master { .. } => *final(self) == *old(self),
                Replica::Slave { id, master_id, master_offset, port, master_address, connected } => {
                    &&& *final(self) matches Replica::Slave {
                        id: id2,
                        master_id: mid2,
                        master_offset: off2,
                        port: port2,
                        master_address: addr2,
                        connected: conn2,
                    }
                    &&& id2 == id
                    &&& mid2 == master_id
                    &&& port2 == port
                    &&& addr2 == master_address
                    &&& conn2 == connected
                    &&& off2 == offset_after(master_offset, n as int)
                },
            },
    {
        match self {
            Replica::Master { .. } => {},
            Replica::Slave { master_offset, .. } => {
                let sum: i128 = (*master_offset as i128) + (n as i128);
                *master_offset = if sum > i64::MAX as i128 {
                    i64::MAX
                } else {
                    sum as i64
                };
            },
        }
    }

    /// The primary's answer to an initial `PSYNC ? -1`: the
    /// `FULLRESYNC <id> <offset>` simple string. A replica answers no
    /// PSYNC.
    pub fn psync(&mut self) -> (r: Result<RespDataTypes, ReplicaError>)
        ensures
            *final(self) == *old(self),
            match *old(self) {
                Replica::Master { id, replication_offset, .. } => r matches Ok(f) && frame_model(
                    f,
                ) == FrameModel::Simple(fullresync_line(id@, replication_offset as int)),
                Replica::Slave { .. } => r == Err::<RespDataTypes, _>(ReplicaError::WrongRole),
            },
    {
        match self {
            Replica::Master { id, replication_offset, .. } => {
                let mut line: Vec<u8> = Vec::new();
                push_fullresync_head(&mut line);
                let mut idc = copy_bytes(id.as_slice());
                line.append(&mut idc);
                line.push(0x20);
                let mut off = dec_i64(*replication_offset);
                line.append(&mut off);
                proof {
                    assert(line@ =~= fullresync_line(id@, *replication_offset as int));
                }
                Ok(RespDataTypes::SimpleString(line))
            },
            Replica::Slave { .. } => Err(ReplicaError::WrongRole),
        }
    }

    /// The INFO replication report, newline-delimited `key:value`.
    pub fn get_replication_status(&self) -> (r: Vec<u8>)
        ensures
            r@ == spec_replication_info(self),
    {
        match self {
            Replica::Master { id, slaves, replication_offset, .. } => {
                let mut out: Vec<u8> = Vec::new();
                push_info_head_master(&mut out);
                let mut n = dec_u64(slaves.len() as u64);
                out.append(&mut n);
                push_info_replid(&mut out);
                let mut idc = copy_bytes(id.as_slice());
                out.append(&mut idc);
                push_info_offset(&mut out);
                let mut off = dec_i64(*replication_offset);
                out.append(&mut off);
                push_info_tail(&mut out);
                proof {
                    assert(out@ =~= spec_replication_info(self));
                }
                out
            },
            Replica::Slave { master_id, master_offset, .. } => {
                let mut out: Vec<u8> = Vec::new();
                push_info_head_slave(&mut out);
                let mut idc = copy_bytes(master_id.as_slice());
                out.append(&mut idc);
                push_info_offset(&mut out);
                let mut off = dec_i64(*master_offset);
                out.append(&mut off);
                push_info_tail(&mut out);
                proof {
                    assert(out@ =~= spec_replication_info(self));
                }
                out
            },
        }
    }
}

/// What the INFO replication report says for each role.
pub open spec fn spec_replication_info(r: &Replica) -> Seq<u8> {
    match r {
        Replica::Master { id, slaves, replication_offset, .. } => info_head_master() + spec_dec_u(
            slaves@.len(),
        ) + info_replid() + id@ + info_offset() + spec_dec_i(*replication_offset as int)
            + info_tail(),
        Replica::Slave { master_id, master_offset, .. } => info_head_slave() + master_id@
            + info_offset() + spec_dec_i(*master_offset as int) + info_tail(),
    }
}

/// A fresh primary.
pub open spec fn is_fresh_master(r: Replica) -> bool {
    &&& r matches Replica::Master { id, port, slaves, replication_offset }
    &&& id@.len() == 40
    &&& (forall|i: int| 0 <= i < 40 ==> crate::util::is_alnum(#[trigger] id@[i]))
    &&& port == 6379
    &&& slaves@.len() == 0
    &&& replication_offset == 0
}

/// A fresh replica of the given primary.
pub open spec fn is_fresh_slave(r: Replica, p: u16, addr: Seq<u8>) -> bool {
    &&& r matches Replica::Slave {
        id,
        master_id,
        master_offset,
        port,
        master_address,
        connected,
    }
    &&& id@.len() == 40
    &&& (forall|i: int| 0 <= i < 40 ==> crate::util::is_alnum(#[trigger] id@[i]))
    &&& master_id@ == seq![0x3Fu8]
    &&& master_offset == -1
    &&& port == p
    &&& master_address@ == addr
    &&& connected == false
}

/// The replica-side handshake states.
#[derive(Debug, PartialEq, Eq)]
pub enum HandshakeState {
    Init,
    SentPing,
    SentReplConf1,
    SentReplConf2,
    SentPsync,
    /// Primary id and offset learned from FULLRESYNC; the snapshot is
    /// still on the wire.
    AwaitingSnapshot(Vec<u8>, i64),
    Synced(Vec<u8>, i64),
    Disconnected,
}

/// Model of a handshake state.
pub enum HsModel {
    Init,
    SentPing,
    SentReplConf1,
    SentReplConf2,
    SentPsync,
    AwaitingSnapshot(Seq<u8>, int),
    Synced(Seq<u8>, int),
    Disconnected,
}

pub open spec fn hs_model(s: HandshakeState) -> HsModel {
    match s {
        HandshakeState::Init => HsModel::Init,
        HandshakeState::SentPing => HsModel::SentPing,
        HandshakeState::SentReplConf1 => HsModel::SentReplConf1,
        HandshakeState::SentReplConf2 => HsModel::SentReplConf2,
        HandshakeState::SentPsync => HsModel::SentPsync,
        HandshakeState::AwaitingSnapshot(id, off) => HsModel::AwaitingSnapshot(id@, off as int),
        HandshakeState::Synced(id, off) => HsModel::Synced(id@, off as int),
        HandshakeState::Disconnected => HsModel::Disconnected,
    }
}

/// What the surrounding process observed for the replica.
#[derive(Debug)]
pub enum HandshakeEvent {
    /// The TCP link to the primary is up.
    Connected,
    /// One decoded reply frame from the primary.
    Reply(RespDataTypes),
    /// The raw snapshot payload after FULLRESYNC.
    SnapshotBytes(Vec<u8>),
    /// The link failed.
    Failed,
}

pub enum HeModel {
    Connected,
    Reply(FrameModel),
    SnapshotBytes(Seq<u8>),
    Failed,
}

pub open spec fn he_model(e: HandshakeEvent) -> HeModel {
    match e {
        HandshakeEvent::Connected => HeModel::Connected,
        HandshakeEvent::Reply(f) => HeModel::Reply(frame_model(f)),
        HandshakeEvent::SnapshotBytes(b) => HeModel::SnapshotBytes(b@),
        HandshakeEvent::Failed => HeModel::Failed,
    }
}

/// What the surrounding process must do next for the replica.
#[derive(Debug)]
pub enum HandshakeAction {
    /// Write these bytes to the primary.
    Send(Vec<u8>),
    /// Replace the keyspace with this snapshot.
    ApplySnapshot(Vec<u8>),
    /// Nothing.
    Idle,
}

pub enum HaModel {
    Send(Seq<u8>),
    ApplySnapshot(Seq<u8>),
    Idle,
}

pub open spec fn ha_model(a: HandshakeAction) -> HaModel {
    match a {
        HandshakeAction::Send(b) => HaModel::Send(b@),
        HandshakeAction::ApplySnapshot(b) => HaModel::ApplySnapshot(b@),
        HandshakeAction::Idle => HaModel::Idle,
    }
}

/// Position of the first `byte` at or after `from`.
pub open spec fn find_byte(s: Seq<u8>, from: int, byte: u8) -> Option<int>
    decreases s.len() - from,
{
    if from >= s.len() {
        None
    } else if s[from] == byte {
        Some(from)
    } else {
        find_byte(s, from + 1, byte)
    }
}

proof fn lemma_find_byte_char(s: Seq<u8>, from: int, byte: u8)
    ensures
        match find_byte(s, from, byte) {
            Some(j) => from <= j < s.len() && s[j] == byte && (forall|k: int|
                from <= k < j ==> s[k] != byte),
            None => forall|k: int| from <= k < s.len() ==> s[k] != byte,
        },
    decreases s.len() - from,
{
    if from >= s.len() {
    } else if s[from] == byte {
    } else {
        lemma_find_byte_char(s, from + 1, byte);
    }
}

/// What a `FULLRESYNC <id> <offset>` line denotes: the primary id (no
/// spaces) and the offset, if the line has exactly that shape.
pub open spec fn spec_parse_fullresync(s: Seq<u8>) -> Option<(Seq<u8>, i64)> {
    if s.len() < 11 || s.take(11) != fullresync_head() {
        None
    } else {
        match find_byte(s, 11, 0x20) {
            None => None,
            Some(p) => {
                if p == 11 {
                    None
                } else {
                    match parse_dec(s.skip(p + 1)) {
                        Some(v) => if i64::MIN <= v <= i64::MAX {
                            Some((s.subrange(11, p), v as i64))
                        } else {
                            None
                        },
                        None => None,
                    }
                }
            },
        }
    }
}

/// Parse a FULLRESYNC line.
fn parse_fullresync(s: &[u8]) -> (r: Option<(Vec<u8>, i64)>)
    ensures
        match r {
            Some((id, off)) => spec_parse_fullresync(s@) == Some((id@, off)),
            None => spec_parse_fullresync(s@) is None,
        },
{
    let n = s.len();
    if n < 11 {
        return None;
    }
    let head_ok = s[0] == 0x46 && s[1] == 0x55 && s[2] == 0x4C && s[3] == 0x4C && s[4] == 0x52
        && s[5] == 0x45 && s[6] == 0x53 && s[7] == 0x59 && s[8] == 0x4E && s[9] == 0x43 && s[10]
        == 0x20;
    proof {
        if head_ok {
            assert(s@.take(11) =~= fullresync_head());
        } else {
            assert(s@.take(11) != fullresync_head()) by {
                if s@.take(11) == fullresync_head() {
                    assert(s@[0] == 0x46 && s@[1] == 0x55 && s@[2] == 0x4C && s@[3] == 0x4C
                        && s@[4] == 0x52 && s@[5] == 0x45 && s@[6] == 0x53 && s@[7] == 0x59
                        && s@[8] == 0x4E && s@[9] == 0x43 && s@[10] == 0x20) by {
                        assert(forall|k: int| 0 <= k < 11 ==> s@.take(11)[k] == s@[k]);
                    }
                }
            }
        }
    }
    if !head_ok {
        return None;
    }
    let mut p: usize = 11;
    while p < n && s[p] != 0x20
        invariant
            11 <= p <= n,
            n == s@.len(),
            find_byte(s@, 11, 0x20) == find_byte(s@, p as int, 0x20),
        decreases n - p,
    {
        p = p + 1;
    }
    if p >= n {
        proof {
            assert(find_byte(s@, p as int, 0x20) is None);
        }
        return None;
    }
    proof {
        assert(find_byte(s@, 11, 0x20) == Some(p as int));
    }
    if p == 11 {
        return None;
    }
    match parse_line_int(vstd::slice::slice_subrange(s, p + 1, n)) {
        LineInt::Val(v) => {
            proof {
                assert(s@.subrange(p + 1, n as int) =~= s@.skip(p + 1));
            }
            let id = copy_bytes(vstd::slice::slice_subrange(s, 11, p));
            Some((id, v))
        },
        _ => {
            proof {
                assert(s@.subrange(p + 1, n as int) =~= s@.skip(p + 1));
            }
            None
        },
    }
}

/// The replica handshake, one transition: from a state and an observed
/// event to the next state and the action to perform.
pub open spec fn spec_handshake_step(s: HsModel, e: HeModel, port: u16) -> (HsModel, HaModel) {
    match e {
        HeModel::Failed => (HsModel::Disconnected, HaModel::Idle),
        HeModel::Connected => {
            if s is Init {
                (HsModel::SentPing, HaModel::Send(msg_ping()))
            } else {
                (HsModel::Disconnected, HaModel::Idle)
            }
        },
        HeModel::Reply(f) => match s {
            HsModel::SentPing => {
                if f == FrameModel::Simple(pong_word()) {
                    (HsModel::SentReplConf1, HaModel::Send(msg_replconf_port(port)))
                } else {
                    (HsModel::Disconnected, HaModel::Idle)
                }
            },
            HsModel::SentReplConf1 => {
                if f == FrameModel::Simple(ok_word()) {
                    (HsModel::SentReplConf2, HaModel::Send(msg_replconf_capa()))
                } else {
                    (HsModel::Disconnected, HaModel::Idle)
                }
            },
            HsModel::SentReplConf2 => {
                if f == FrameModel::Simple(ok_word()) {
                    (HsModel::SentPsync, HaModel::Send(msg_psync()))
                } else {
                    (HsModel::Disconnected, HaModel::Idle)
                }
            },
            HsModel::SentPsync => match f {
                FrameModel::Simple(line) => match spec_parse_fullresync(line) {
                    Some((id, off)) => (HsModel::AwaitingSnapshot(id, off as int), HaModel::Idle),
                    None => (HsModel::Disconnected, HaModel::Idle),
                },
                _ => (HsModel::Disconnected, HaModel::Idle),
            },
            _ => (HsModel::Disconnected, HaModel::Idle),
        },
        HeModel::SnapshotBytes(b) => match s {
            HsModel::AwaitingSnapshot(id, off) => (HsModel::Synced(id, off), HaModel::ApplySnapshot(b)),
            _ => (HsModel::Disconnected, HaModel::Idle),
        },
    }
}

/// Drive the replica handshake one step; `port` is this replica's
/// listening port, advertised in the second message.
pub fn handshake_step(state: HandshakeState, event: HandshakeEvent, port: u16) -> (r: (
    HandshakeState,
    HandshakeAction,
))
    ensures
        (hs_model(r.0), ha_model(r.1)) == spec_handshake_step(
            hs_model(state),
            he_model(event),
            port,
        ),
{
    match event {
        HandshakeEvent::Failed => (HandshakeState::Disconnected, HandshakeAction::Idle),
        HandshakeEvent::Connected => match state {
            HandshakeState::Init => {
                let mut msg: Vec<u8> = Vec::new();
                push_msg_ping(&mut msg);
                (HandshakeState::SentPing, HandshakeAction::Send(msg))
            },
            _ => (HandshakeState::Disconnected, HandshakeAction::Idle),
        },
        HandshakeEvent::Reply(f) => match state {
            HandshakeState::SentPing => {
                let ok = match &f {
                    RespDataTypes::SimpleString(s) => is_pong(s.as_slice()),
                    _ => false,
                };
                if ok {
                    let msg = build_replconf_port(port);
                    (HandshakeState::SentReplConf1, HandshakeAction::Send(msg))
                } else {
                    (HandshakeState::Disconnected, HandshakeAction::Idle)
                }
            },
            HandshakeState::SentReplConf1 => {
                let ok = match &f {
                    RespDataTypes::SimpleString(s) => is_ok_word(s.as_slice()),
                    _ => false,
                };
                if ok {
                    let mut msg: Vec<u8> = Vec::new();
                    push_msg_replconf_capa(&mut msg);
                    (HandshakeState::SentReplConf2, HandshakeAction::Send(msg))
                } else {
                    (HandshakeState::Disconnected, HandshakeAction::Idle)
                }
            },
            HandshakeState::SentReplConf2 => {
                let ok = match &f {
                    RespDataTypes::SimpleString(s) => is_ok_word(s.as_slice()),
                    _ => false,
                };
                if ok {
                    let mut msg: Vec<u8> = Vec::new();
                    push_msg_psync(&mut msg);
                    (HandshakeState::SentPsync, HandshakeAction::Send(msg))
                } else {
                    (HandshakeState::Disconnected, HandshakeAction::Idle)
                }
            },
            HandshakeState::SentPsync => match f {
                RespDataTypes::SimpleString(line) => match parse_fullresync(line.as_slice()) {
                    Some((id, off)) => (
                        HandshakeState::AwaitingSnapshot(id, off),
                        HandshakeAction::Idle,
                    ),
                    None => (HandshakeState::Disconnected, HandshakeAction::Idle),
                },
                _ => (HandshakeState::Disconnected, HandshakeAction::Idle),
            },
            _ => (HandshakeState::Disconnected, HandshakeAction::Idle),
        },
        HandshakeEvent::SnapshotBytes(b) => match state {
            HandshakeState::AwaitingSnapshot(id, off) => (
                HandshakeState::Synced(id, off),
                HandshakeAction::ApplySnapshot(b),
            ),
            _ => (HandshakeState::Disconnected, HandshakeAction::Idle),
        },
    }
}

/// The second handshake message, carrying this replica's port.
fn build_replconf_port(port: u16) -> (r: Vec<u8>)
    ensures
        r@ == msg_replconf_port(port),
{
    let mut out: Vec<u8> = Vec::new();
    push_msg_replconf_port_head(&mut out);
    let digits = dec_u64(port as u64);
    let mut dl = dec_usize(digits.len());
    out.append(&mut dl);
    out.push(13);
    out.push(10);
    let mut d = digits;
    out.append(&mut d);
    out.push(13);
    out.push(10);
    proof {
        assert(out@ =~= msg_replconf_port(port));
    }
    out
}

fn is_pong(s: &[u8]) -> (r: bool)
    ensures
        r == (s@ == pong_word()),
{
    let r = s.len() == 4 && s[0] == 0x50 && s[1] == 0x4F && s[2] == 0x4E && s[3] == 0x47;
    proof {
        if r {
            assert(s@ =~= pong_word());
        } else {
            assert(!(s@ =~= pong_word()));
        }
    }
    r
}

fn is_ok_word(s: &[u8]) -> (r: bool)
    ensures
        r == (s@ == ok_word()),
{
    let r = s.len() == 2 && s[0] == 0x4F && s[1] == 0x4B;
    proof {
        if r {
            assert(s@ =~= ok_word());
        } else {
            assert(!(s@ =~= ok_word()));
        }
    }
    r
}

/// The happy run of the handshake: the events a live primary answers.
pub open spec fn happy_events(id: Seq<u8>, off: int, snap: Seq<u8>) -> Seq<HeModel> {
    seq![
        HeModel::Connected,
        HeModel::Reply(FrameModel::Simple(pong_word())),
        HeModel::Reply(FrameModel::Simple(ok_word())),
        HeModel::Reply(FrameModel::Simple(ok_word())),
        HeModel::Reply(FrameModel::Simple(fullresync_line(id, off))),
        HeModel::SnapshotBytes(snap),
    ]
}

/// Run the handshake over a sequence of events.
pub open spec fn spec_handshake_run(s: HsModel, events: Seq<HeModel>, port: u16) -> (
    HsModel,
    Seq<HaModel>,
)
    decreases events.len(),
{
    if events.len() == 0 {
        (s, Seq::empty())
    } else {
        let (s2, a) = spec_handshake_step(s, events[0], port);
        let (s3, rest) = spec_handshake_run(s2, events.drop_first(), port);
        (s3, seq![a] + rest)
    }
}

/// Idempotent handshake: starting (or restarting) from `Init`, the run
/// over a primary's happy replies always sends exactly the four
/// handshake messages in order, applies the snapshot once, and ends
/// `Synced` with the advertised id and offset. A restarted replica runs
/// the same function from the same state, so it repeats precisely this.
pub proof fn lemma_handshake_idempotent(id: Seq<u8>, off: i64, snap: Seq<u8>, port: u16)
    requires
        id.len() >= 1,
        forall|i: int| 0 <= i < id.len() ==> #[trigger] id[i] != 0x20,
    ensures
        spec_handshake_run(HsModel::Init, happy_events(id, off as int, snap), port) == (
            HsModel::Synced(id, off as int),
            seq![
                HaModel::Send(msg_ping()),
                HaModel::Send(msg_replconf_port(port)),
                HaModel::Send(msg_replconf_capa()),
                HaModel::Send(msg_psync()),
                HaModel::Idle,
                HaModel::ApplySnapshot(snap),
            ],
        ),
{
    let line = fullresync_line(id, off as int);
    lemma_parse_fullresync_of_line(id, off);
    let evs = happy_events(id, off as int, snap);
    let e1 = evs.drop_first();
    let e2 = e1.drop_first();
    let e3 = e2.drop_first();
    let e4 = e3.drop_first();
    let e5 = e4.drop_first();
    let e6 = e5.drop_first();
    assert(e6 =~= Seq::<HeModel>::empty());
    assert(evs[0] == HeModel::Connected);
    assert(e1[0] == HeModel::Reply(FrameModel::Simple(pong_word())));
    assert(e2[0] == HeModel::Reply(FrameModel::Simple(ok_word())));
    assert(e3[0] == HeModel::Reply(FrameModel::Simple(ok_word())));
    assert(e4[0] == HeModel::Reply(FrameModel::Simple(line)));
    assert(e5[0] == HeModel::SnapshotBytes(snap));
    let r6 = spec_handshake_run(HsModel::Synced(id, off as int), e6, port);
    let r5 = spec_handshake_run(HsModel::AwaitingSnapshot(id, off as int), e5, port);
    let r4 = spec_handshake_run(HsModel::SentPsync, e4, port);
    let r3 = spec_handshake_run(HsModel::SentReplConf2, e3, port);
    let r2 = spec_handshake_run(HsModel::SentReplConf1, e2, port);
    let r1 = spec_handshake_run(HsModel::SentPing, e1, port);
    let r0 = spec_handshake_run(HsModel::Init, evs, port);
    assert(r6 == (HsModel::Synced(id, off as int), Seq::<HaModel>::empty()));
    assert(r5.1 =~= seq![HaModel::ApplySnapshot(snap)]);
    assert(r4.1 =~= seq![HaModel::Idle, HaModel::ApplySnapshot(snap)]);
    assert(r3.1 =~= seq![HaModel::Send(msg_psync()), HaModel::Idle, HaModel::ApplySnapshot(snap)]);
    assert(r2.1 =~= seq![
        HaModel::Send(msg_replconf_capa()),
        HaModel::Send(msg_psync()),
        HaModel::Idle,
        HaModel::ApplySnapshot(snap),
    ]);
    assert(r1.1 =~= seq![
        HaModel::Send(msg_replconf_port(port)),
        HaModel::Send(msg_replconf_capa()),
        HaModel::Send(msg_psync()),
        HaModel::Idle,
        HaModel::ApplySnapshot(snap),
    ]);
    assert(r0.1 =~= seq![
        HaModel::Send(msg_ping()),
        HaModel::Send(msg_replconf_port(port)),
        HaModel::Send(msg_replconf_capa()),
        HaModel::Send(msg_psync()),
        HaModel::Idle,
        HaModel::ApplySnapshot(snap),
    ]);
    assert(r0.0 == HsModel::Synced(id, off as int));
}

/// A well-shaped FULLRESYNC line parses back to its id and offset.
pub proof fn lemma_parse_fullresync_of_line(id: Seq<u8>, off: i64)
    requires
        id.len() >= 1,
        forall|i: int| 0 <= i < id.len() ==> #[trigger] id[i] != 0x20,
    ensures
        spec_parse_fullresync(fullresync_line(id, off as int)) == Some((id, off)),
{
    let s = fullresync_line(id, off as int);
    crate::num::lemma_dec_i_bytes(off as int);
    crate::num::lemma_parse_dec_of_dec_i(off as int);
    let p = 11 + id.len() as int;
    assert(s.take(11) =~= fullresync_head());
    assert(s[p] == 0x20);
    assert forall|k: int| 11 <= k < p implies s[k] != 0x20 by {
        assert(s[k] == id[k - 11]);
    }
    lemma_find_byte_at(s, 11, p, 0x20);
    assert(s.skip(p + 1) =~= spec_dec_i(off as int));
    assert(s.subrange(11, p) =~= id);
}

proof fn lemma_find_byte_at(s: Seq<u8>, from: int, j: int, byte: u8)
    requires
        from <= j < s.len(),
        s[j] == byte,
        forall|k: int| from <= k < j ==> #[trigger] s[k] != byte,
    ensures
        find_byte(s, from, byte) == Some(j),
    decreases j - from,
{
    if from < j {
        lemma_find_byte_at(s, from + 1, j, byte);
    }
}

} // verus!
