use redis_lite::replication::{
    handshake_step, HandshakeAction, HandshakeEvent, HandshakeState, Replica, Role,
};
use redis_lite::resp::RespDataTypes;

fn simple(s: &[u8]) -> RespDataTypes {
    RespDataTypes::SimpleString(s.to_vec())
}

fn send_of(a: HandshakeAction) -> Vec<u8> {
    match a {
        HandshakeAction::Send(b) => b,
        other => panic!("expected a send, got {:?}", other),
    }
}

fn happy_run(port: u16) -> (HandshakeState, Vec<Vec<u8>>) {
    let mut sends = Vec::new();
    let (s, a) = handshake_step(HandshakeState::Init, HandshakeEvent::Connected, port);
    sends.push(send_of(a));
    let (s, a) = handshake_step(s, HandshakeEvent::Reply(simple(b"PONG")), port);
    sends.push(send_of(a));
    let (s, a) = handshake_step(s, HandshakeEvent::Reply(simple(b"OK")), port);
    sends.push(send_of(a));
    let (s, a) = handshake_step(s, HandshakeEvent::Reply(simple(b"OK")), port);
    sends.push(send_of(a));
    let (s, a) = handshake_step(
        s,
        HandshakeEvent::Reply(simple(b"FULLRESYNC 0123456789012345678901234567890123456789 0")),
        port,
    );
    assert!(matches!(a, HandshakeAction::Idle));
    let (s, a) = handshake_step(s, HandshakeEvent::SnapshotBytes(b"snap".to_vec()), port);
    match a {
        HandshakeAction::ApplySnapshot(b) => assert_eq!(b, b"snap".to_vec()),
        other => panic!("expected the snapshot, got {:?}", other),
    }
    (s, sends)
}

#[test]
fn handshake_sends_the_four_messages_in_order() {
    let (state, sends) = happy_run(6380);
    // the exact bytes the protocol prescribes
    assert_eq!(sends[0], b"*1\r\n$4\r\nPING\r\n".to_vec());
    assert_eq!(
        sends[1],
        b"*3\r\n$8\r\nREPLCONF\r\n$14\r\nlistening-port\r\n$4\r\n6380\r\n".to_vec()
    );
    assert_eq!(sends[2], b"*3\r\n$8\r\nREPLCONF\r\n$4\r\ncapa\r\n$6\r\npsync2\r\n".to_vec());
    assert_eq!(sends[3], b"*3\r\n$5\r\nPSYNC\r\n$1\r\n?\r\n$2\r\n-1\r\n".to_vec());
    match state {
        HandshakeState::Synced(id, off) => {
            assert_eq!(id, b"0123456789012345678901234567890123456789".to_vec());
            assert_eq!(off, 0);
        },
        other => panic!("expected Synced, got {:?}", other),
    }
}

#[test]
fn restarting_the_handshake_repeats_it_exactly() {
    let (s1, sends1) = happy_run(6380);
    let (s2, sends2) = happy_run(6380);
    assert_eq!(sends1, sends2);
    assert!(matches!(s1, HandshakeState::Synced(_, _)));
    assert!(matches!(s2, HandshakeState::Synced(_, _)));
}

#[test]
fn a_bad_reply_disconnects() {
    let (s, _) = handshake_step(HandshakeState::Init, HandshakeEvent::Connected, 6380);
    let (s, a) = handshake_step(s, HandshakeEvent::Reply(simple(b"NOPE")), 6380);
    assert!(matches!(s, HandshakeState::Disconnected));
    assert!(matches!(a, HandshakeAction::Idle));
    let (s, _) = handshake_step(
        HandshakeState::SentPsync,
        HandshakeEvent::Reply(simple(b"FULLRESYNC")),
        6380,
    );
    assert!(matches!(s, HandshakeState::Disconnected));
    let (s, _) = handshake_step(HandshakeState::SentPing, HandshakeEvent::Failed, 6380);
    assert!(matches!(s, HandshakeState::Disconnected));
}

#[test]
fn roles_keep_to_their_own_operations() {
    let mut master = Replica::new(6379, Role::Master, None);
    assert!(master.init().is_err());
    let fullresync = master.psync().expect("a primary answers PSYNC");
    match fullresync {
        RespDataTypes::SimpleString(line) => {
            assert!(line.starts_with(b"FULLRESYNC "));
            assert!(line.ends_with(b" 0"));
        },
        other => panic!("{:?}", other),
    }
    let mut slave = Replica::new(6380, Role::Slave, Some(b"127.0.0.1:6379".to_vec()));
    assert_eq!(slave.init().expect("a replica starts its handshake"), HandshakeState::Init);
    assert!(slave.psync().is_err());
    // a replica registers no followers and fans nothing out
    slave.register_replica(6381, 1);
    assert!(slave.replicate_command(b"SET x 1").is_empty());
}

#[test]
fn fan_out_is_byte_identical_and_ordered() {
    let mut master = Replica::new_master();
    master.register_replica(6380, 10);
    master.register_replica(6381, 11);
    let frame = b"*3\r\n$3\r\nSET\r\n$1\r\nk\r\n$1\r\nv\r\n";
    let sends = master.replicate_command(frame);
    assert_eq!(sends.len(), 2);
    assert_eq!(sends[0].0, 10);
    assert_eq!(sends[1].0, 11);
    assert_eq!(sends[0].1, frame.to_vec());
    assert_eq!(sends[1].1, frame.to_vec());
    let info = String::from_utf8(master.get_replication_status()).unwrap();
    assert!(info.contains(&format!("master_repl_offset:{}", frame.len())));
    // eviction removes exactly the failed follower
    master.remove_follower(10);
    let sends = master.replicate_command(frame);
    assert_eq!(sends.len(), 1);
    assert_eq!(sends[0].0, 11);
}

#[test]
fn info_report_of_a_replica() {
    let mut slave = Replica::new_slave(6380, Some(b"127.0.0.1:6379".to_vec()));
    slave.adopt_master(b"abc".to_vec(), 42);
    let info = String::from_utf8(slave.get_replication_status()).unwrap();
    assert!(info.contains("role:slave"));
    assert!(info.contains("master_replid:abc"));
    assert!(info.contains("master_repl_offset:42"));
}
