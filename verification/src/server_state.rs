//! The server's shared state: its identity, replication role and
//! configuration, with the keyspaces held by the service.

use vstd::prelude::*;

use crate::config::{CmdOptions, Configuration, spec_config_get};
use crate::num::spec_dec_u;
use crate::replication::{
    is_fresh_master, is_fresh_slave, offset_after, drop_token, has_follower_port, HandshakeState,
    Replica, ReplicaError, Role, spec_replication_info,
};
use crate::resp::{frame_model, FrameModel, RespDataTypes};

verus! {

/// Identity, replication role and configuration of the server.
pub struct ServerState {
    pub id: Vec<u8>,
    pub replication: Replica,
    pub config: Configuration,
}

impl ServerState {
    /// Assemble the state from a configuration; a replica configuration
    /// carries its primary's address.
    pub fn new(config: Configuration) -> (r: ServerState)
        requires
            config.replication_role == Role::Slave ==> config.master_address is Some,
        ensures
            r.id@.len() == 0,
            r.config == config,
            config.replication_role == Role::Master ==> is_fresh_master(r.replication),
            config.replication_role == Role::Slave ==> is_fresh_slave(
                r.replication,
                config.port,
                config.master_address->Some_0@,
            ),
    {
        let addr = config.get_master_address();
        let role = match &config.replication_role {
            Role::Master => Role::Master,
            Role::Slave => Role::Slave,
        };
        let replication = Replica::new(config.port, role, addr);
        ServerState { id: Vec::new(), replication, config }
    }

    /// Assemble the state straight from command-line options.
    pub fn from_options(options: CmdOptions) -> (r: ServerState)
        ensures
            r.id@.len() == 0,
            options.replicatof is None ==> is_fresh_master(r.replication),
            options.replicatof is Some ==> is_fresh_slave(
                r.replication,
                options.port,
                options.replicatof->Some_0@,
            ),
            r.config.port == options.port,
            r.config.host@ == options.host@,
            r.config.dir@ == options.dir@,
            r.config.filename@ == options.filename@,
    {
        let config = Configuration::from_options(options);
        Self::new(config)
    }

    /// `host:port` this server binds.
    pub fn get_address(&self) -> (r: Vec<u8>)
        ensures
            r@ == self.config.host@ + seq![0x3Au8] + spec_dec_u(self.config.port as nat),
    {
        self.config.get_address()
    }

    /// Path of the snapshot file, as bytes.
    pub fn get_rdb_path(&self) -> (r: Vec<u8>)
        ensures
            r@ == self.config.dir@ + seq![0x2Fu8] + self.config.filename@,
    {
        self.config.get_rdb_path()
    }

    /// A configuration attribute by name.
    pub fn get_from_config(&self, attr: &[u8]) -> (r: Option<Vec<u8>>)
        ensures
            match r {
                Some(v) => spec_config_get(&self.config, attr@) == Some(v@),
                None => spec_config_get(&self.config, attr@) is None,
            },
    {
        self.config.get(attr)
    }

    /// The INFO replication report.
    pub fn get_replication_status(&self) -> (r: Vec<u8>)
        ensures
            r@ == spec_replication_info(&self.replication),
    {
        self.replication.get_replication_status()
    }

    /// Begin the replica handshake, if this server is a replica.
    pub fn init_replica(&mut self) -> (r: Result<HandshakeState, ReplicaError>)
        ensures
            *final(self) == *old(self),
            old(self).replication is Master ==> r == Err::<HandshakeState, _>(
                ReplicaError::WrongRole,
            ),
            old(self).replication is Slave ==> r == Ok::<_, ReplicaError>(HandshakeState::Init),
    {
        self.replication.init()
    }

    /// The FULLRESYNC reply to a PSYNC, on a primary.
    pub fn psync(&mut self) -> (r: Result<RespDataTypes, ReplicaError>)
        ensures
            *final(self) == *old(self),
            match old(self).replication {
                Replica::Master { id, replication_offset, .. } => r matches Ok(f) && frame_model(
                    f,
                ) == FrameModel::Simple(crate::replication::fullresync_line(
                    id@,
                    replication_offset as int,
                )),
                Replica::Slave { .. } => r == Err::<RespDataTypes, _>(ReplicaError::WrongRole),
            },
    {
        self.replication.psync()
    }

    /// Register a follower keyed by its advertised port.
    pub fn register_replica(&mut self, peer_port: u16, token: usize)
        ensures
            final(self).id == old(self).id,
            final(self).config == old(self).config,
            match old(self).replication {
                Replica::Slave { .. } => final(self).replication == old(self).replication,
                Replica::Master { id, port, slaves, replication_offset } => {
                    &&& final(self).replication matches Replica::Master {
                        id: id2,
                        port: port2,
                        slaves: slaves2,
                        replication_offset: off2,
                    }
                    &&& id2 == id
                    &&& port2 == port
                    &&& off2 == replication_offset
                    &&& (if has_follower_port(slaves@, peer_port) {
                        slaves2@ == slaves@
                    } else {
                        slaves2@.len() == slaves@.len() + 1 && slaves2@.take(slaves@.len() as int)
                            == slaves@ && slaves2@.last().port == peer_port
                            && slaves2@.last().token == token
                            && slaves2@.last().acked_offset == -1
                    })
                },
            },
    {
        self.replication.register_replica(peer_port, token)
    }

    /// Fan a write command out to every follower, byte-identically.
    pub fn replicate_command(&mut self, command: &[u8]) -> (sends: Vec<(usize, Vec<u8>)>)
        ensures
            final(self).id == old(self).id,
            final(self).config == old(self).config,
            match old(self).replication {
                Replica::Slave { .. } => final(self).replication == old(self).replication
                    && sends@.len() == 0,
                Replica::Master { id, port, slaves, replication_offset } => {
                    &&& final(self).replication matches Replica::Master {
                        id: id2,
                        port: port2,
                        slaves: slaves2,
                        replication_offset: off2,
                    }
                    &&& id2 == id
                    &&& port2 == port
                    &&& slaves2@ == slaves@
                    &&& off2 == offset_after(replication_offset, command@.len() as int)
                    &&& sends@.len() == slaves@.len()
                    &&& (forall|i: int| 0 <= i < sends@.len() ==> (#[trigger] sends@[i]).0
                        == slaves@[i].token && sends@[i].1@ == command@)
                },
            },
    {
        self.replication.replicate_command(command)
    }

    /// Evict the follower behind a failed send token.
    pub fn remove_follower(&mut self, token: usize)
        ensures
            final(self).id == old(self).id,
            final(self).config == old(self).config,
            match old(self).replication {
                Replica::Slave { .. } => final(self).replication == old(self).replication,
                Replica::Master { id, port, slaves, replication_offset } => {
                    &&& final(self).replication matches Replica::Master {
                        id: id2,
                        port: port2,
                        slaves: slaves2,
                        replication_offset: off2,
                    }
                    &&& id2 == id
                    &&& port2 == port
                    &&& off2 == replication_offset
                    &&& slaves2@ == drop_token(slaves@, token)
                },
            },
    {
        self.replication.remove_follower(token)
    }
}

} // verus!
