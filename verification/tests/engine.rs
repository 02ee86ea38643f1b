use redis_lite::config::CmdOptions;
use redis_lite::rdb::RDB;
use redis_lite::resp::{decode, encode, DecodeResult, RespDataTypes};
use redis_lite::server_state::ServerState;
use redis_lite::service::{Outcome, RedisService};

fn bulk(s: &[u8]) -> RespDataTypes {
    RespDataTypes::BulkString(s.to_vec())
}

fn cmd(parts: &[&[u8]]) -> Vec<u8> {
    let items: Vec<RespDataTypes> = parts.iter().map(|p| bulk(p)).collect();
    encode(&RespDataTypes::Array(items))
}

fn master_service() -> RedisService {
    let options = CmdOptions {
        dir: b"/tmp/redis-files".to_vec(),
        filename: b"dump.rdb".to_vec(),
        host: b"127.0.0.1".to_vec(),
        port: 6379,
        replicatof: None,
    };
    let state = ServerState::from_options(options);
    RedisService::new(state, &RDB::new(None), 0).expect("fresh service")
}

fn replica_service() -> RedisService {
    let options = CmdOptions {
        dir: b"/tmp/redis-files".to_vec(),
        filename: b"dump.rdb".to_vec(),
        host: b"127.0.0.1".to_vec(),
        port: 6380,
        replicatof: Some(b"127.0.0.1:6379".to_vec()),
    };
    let state = ServerState::from_options(options);
    RedisService::new(state, &RDB::new(None), 0).expect("fresh service")
}

fn run(s: &mut RedisService, input: &[u8], now: u64) -> Outcome {
    let o = s.execute_command(input, now, false);
    assert_eq!(o.consumed, input.len());
    assert!(!o.disconnect);
    o
}

fn reply_of(o: &Outcome) -> &[u8] {
    o.reply.as_deref().expect("a reply")
}

#[test]
fn ping_and_echo() {
    let mut s = master_service();
    let o = run(&mut s, &cmd(&[b"PING"]), 0);
    assert_eq!(reply_of(&o), b"+PONG\r\n");
    let o = run(&mut s, &cmd(&[b"ECHO", b"hello"]), 0);
    assert_eq!(reply_of(&o), b"$5\r\nhello\r\n");
    // the exact wire form of S1
    assert_eq!(cmd(&[b"PING"]), b"*1\r\n$4\r\nPING\r\n".to_vec());
    assert_eq!(cmd(&[b"ECHO", b"hello"]), b"*2\r\n$4\r\nECHO\r\n$5\r\nhello\r\n".to_vec());
}

#[test]
fn set_then_get() {
    let mut s = master_service();
    let o = run(&mut s, &cmd(&[b"SET", b"foo", b"bar"]), 0);
    assert_eq!(reply_of(&o), b"+OK\r\n");
    let o = run(&mut s, &cmd(&[b"GET", b"foo"]), 0);
    assert_eq!(reply_of(&o), b"$3\r\nbar\r\n");
    let o = run(&mut s, &cmd(&[b"GET", b"missing"]), 0);
    assert_eq!(reply_of(&o), b"$-1\r\n");
}

#[test]
fn set_overwrites() {
    let mut s = master_service();
    run(&mut s, &cmd(&[b"SET", b"k", b"one"]), 0);
    run(&mut s, &cmd(&[b"SET", b"k", b"two"]), 0);
    let o = run(&mut s, &cmd(&[b"GET", b"k"]), 0);
    assert_eq!(reply_of(&o), b"$3\r\ntwo\r\n");
}

#[test]
fn ttl_expiry_is_lazy_and_total() {
    // SET k v PX 50, wait past it: GET turns Null and the key leaves
    let mut s = master_service();
    run(&mut s, &cmd(&[b"SET", b"k", b"v", b"PX", b"50"]), 1000);
    let o = run(&mut s, &cmd(&[b"GET", b"k"]), 1100);
    assert_eq!(reply_of(&o), b"$-1\r\n");
    let o = run(&mut s, &cmd(&[b"KEYS", b"*"]), 1100);
    assert_eq!(reply_of(&o), b"*0\r\n");
}

#[test]
fn px_zero_expires_at_once() {
    let mut s = master_service();
    run(&mut s, &cmd(&[b"SET", b"k", b"v", b"PX", b"0"]), 500);
    let o = run(&mut s, &cmd(&[b"GET", b"k"]), 500);
    assert_eq!(reply_of(&o), b"$-1\r\n");
    let o = run(&mut s, &cmd(&[b"KEYS", b"*"]), 500);
    assert_eq!(reply_of(&o), b"*0\r\n");
}

#[test]
fn expired_key_is_removed_exactly_once() {
    // repeated GETs on the expired key all answer Null; the second
    // removal is a no-op, not a fault
    let mut s = master_service();
    run(&mut s, &cmd(&[b"SET", b"k", b"v", b"PX", b"10"]), 0);
    for _ in 0..4 {
        let o = run(&mut s, &cmd(&[b"GET", b"k"]), 100);
        assert_eq!(reply_of(&o), b"$-1\r\n");
    }
}

#[test]
fn ex_seconds_expiry() {
    let mut s = master_service();
    run(&mut s, &cmd(&[b"SET", b"k", b"v", b"EX", b"2"]), 0);
    let o = run(&mut s, &cmd(&[b"GET", b"k"]), 1999);
    assert_eq!(reply_of(&o), b"$1\r\nv\r\n");
    let o = run(&mut s, &cmd(&[b"GET", b"k"]), 2000);
    assert_eq!(reply_of(&o), b"$-1\r\n");
}

#[test]
fn set_with_bad_duration_is_a_syntax_error() {
    let mut s = master_service();
    let o = run(&mut s, &cmd(&[b"SET", b"k", b"v", b"PX", b"soon"]), 0);
    assert_eq!(reply_of(&o), b"-ERR syntax\r\n");
    let o = run(&mut s, &cmd(&[b"SET", b"k", b"v", b"QX", b"10"]), 0);
    assert_eq!(reply_of(&o), b"-ERR syntax\r\n");
}

fn keys_reply_as_set(reply: &[u8]) -> Vec<Vec<u8>> {
    let mut out: Vec<Vec<u8>> = match decode(reply) {
        DecodeResult::Frame(RespDataTypes::Array(items), _) => items
            .into_iter()
            .map(|f| match f {
                RespDataTypes::BulkString(b) => b,
                other => panic!("expected a bulk string, got {:?}", other),
            })
            .collect(),
        other => panic!("expected an array reply, got {:?}", other),
    };
    out.sort();
    out
}

#[test]
fn keys_glob() {
    let mut s = master_service();
    run(&mut s, &cmd(&[b"SET", b"foo", b"1"]), 0);
    run(&mut s, &cmd(&[b"SET", b"foobar", b"2"]), 0);
    run(&mut s, &cmd(&[b"SET", b"bar", b"3"]), 0);
    let o = run(&mut s, &cmd(&[b"KEYS", b"*"]), 0);
    let all = keys_reply_as_set(reply_of(&o));
    assert_eq!(all, vec![b"bar".to_vec(), b"foo".to_vec(), b"foobar".to_vec()]);
    let o = run(&mut s, &cmd(&[b"KEYS", b"foo*"]), 0);
    let foos = keys_reply_as_set(reply_of(&o));
    assert_eq!(foos, vec![b"foo".to_vec(), b"foobar".to_vec()]);
}

#[test]
fn del_counts_removed_keys() {
    let mut s = master_service();
    run(&mut s, &cmd(&[b"SET", b"a", b"1"]), 0);
    run(&mut s, &cmd(&[b"SET", b"b", b"2"]), 0);
    let o = run(&mut s, &cmd(&[b"DEL", b"a", b"b", b"c"]), 0);
    assert_eq!(reply_of(&o), b":2\r\n");
    let o = run(&mut s, &cmd(&[b"GET", b"a"]), 0);
    assert_eq!(reply_of(&o), b"$-1\r\n");
}

#[test]
fn config_get() {
    let mut s = master_service();
    let o = run(&mut s, &cmd(&[b"CONFIG", b"GET", b"dir"]), 0);
    assert_eq!(reply_of(&o), b"*2\r\n$3\r\ndir\r\n$16\r\n/tmp/redis-files\r\n".to_vec());
    let o = run(&mut s, &cmd(&[b"CONFIG", b"GET", b"port"]), 0);
    assert_eq!(reply_of(&o), b"*2\r\n$4\r\nport\r\n$4\r\n6379\r\n".to_vec());
    let o = run(&mut s, &cmd(&[b"CONFIG", b"GET", b"nope"]), 0);
    assert!(reply_of(&o).starts_with(b"-ERR"));
}

#[test]
fn info_replication_on_master() {
    let mut s = master_service();
    let o = run(&mut s, &cmd(&[b"INFO", b"replication"]), 0);
    let reply = reply_of(&o).to_vec();
    let text = String::from_utf8(reply).expect("ascii report");
    assert!(text.contains("role:master"));
    assert!(text.contains("master_repl_offset:0"));
    let replid_line = text
        .lines()
        .find(|l| l.starts_with("master_replid:"))
        .expect("a replid line");
    let id = &replid_line["master_replid:".len()..];
    assert_eq!(id.len(), 40);
    assert!(id.bytes().all(|b| b.is_ascii_alphanumeric()));
    // only the replication section exists; anything else is refused
    let o = run(&mut s, &cmd(&[b"INFO", b"keyspace"]), 0);
    assert!(reply_of(&o).starts_with(b"-ERR"));
}

#[test]
fn unknown_command_names_itself() {
    let mut s = master_service();
    let o = run(&mut s, &cmd(&[b"NOPE", b"x"]), 0);
    assert_eq!(reply_of(&o), b"-ERR unknown command 'NOPE'\r\n");
}

#[test]
fn a_frame_that_is_no_command_is_refused() {
    let mut s = master_service();
    // a simple string is a valid frame but no command array
    let o = s.execute_command(b"+hello\r\n", 0, false);
    assert_eq!(o.consumed, 8);
    assert!(!o.disconnect);
    assert_eq!(
        o.reply.as_deref().unwrap(),
        b"-ERR Protocol error: expected array of bulk strings\r\n"
    );
}

#[test]
fn missing_arguments_are_an_arity_error() {
    let mut s = master_service();
    let o = run(&mut s, &cmd(&[b"GET"]), 0);
    assert_eq!(reply_of(&o), b"-ERR wrong number of arguments\r\n");
    let o = run(&mut s, &cmd(&[b"SET", b"only-key"]), 0);
    assert_eq!(reply_of(&o), b"-ERR wrong number of arguments\r\n");
    let o = run(&mut s, &cmd(&[b"REPLCONF", b"just-one"]), 0);
    assert_eq!(reply_of(&o), b"-ERR wrong number of arguments\r\n");
}

#[test]
fn incomplete_input_consumes_nothing() {
    let mut s = master_service();
    let o = s.execute_command(b"*2\r\n$3\r\nGET", 0, false);
    assert_eq!(o.consumed, 0);
    assert!(o.reply.is_none());
    assert!(!o.disconnect);
}

#[test]
fn malformed_input_disconnects() {
    let mut s = master_service();
    let o = s.execute_command(b"!bogus\r\n", 0, false);
    assert_eq!(o.consumed, 0);
    assert!(o.disconnect);
    assert!(reply_of(&o).starts_with(b"-ERR Protocol error"));
}

#[test]
fn replconf_records_the_listening_port() {
    let mut s = master_service();
    let o = run(&mut s, &cmd(&[b"REPLCONF", b"listening-port", b"6380"]), 0);
    assert_eq!(reply_of(&o), b"+OK\r\n");
    assert_eq!(o.follower_port, Some(6380));
    let o = run(&mut s, &cmd(&[b"REPLCONF", b"capa", b"psync2"]), 0);
    assert_eq!(reply_of(&o), b"+OK\r\n");
    assert_eq!(o.follower_port, None);
}

#[test]
fn psync_on_master_sends_fullresync_and_snapshot() {
    let mut s = master_service();
    let o = run(&mut s, &cmd(&[b"PSYNC", b"?", b"-1"]), 0);
    let reply = reply_of(&o);
    assert!(reply.starts_with(b"+FULLRESYNC "));
    assert!(reply.ends_with(b" 0\r\n"));
    assert!(o.register_follower);
    let snap = o.snapshot.expect("snapshot frame");
    assert!(snap.starts_with(b"$88\r\n"));
    // $88\r\n then the 88 canonical bytes, no trailing CRLF
    assert_eq!(snap.len(), 5 + 88);
}

#[test]
fn writes_fan_out_byte_identically() {
    let mut s = master_service();
    s.register_follower(6380, 7);
    s.register_follower(6381, 8);
    let input = cmd(&[b"SET", b"k1", b"v1"]);
    let o = run(&mut s, &input, 0);
    assert_eq!(o.sends.len(), 2);
    assert_eq!(o.sends[0].0, 7);
    assert_eq!(o.sends[1].0, 8);
    assert_eq!(o.sends[0].1, input);
    assert_eq!(o.sends[1].1, input);
    // a read fans nothing out
    let o = run(&mut s, &cmd(&[b"GET", b"k1"]), 0);
    assert_eq!(o.sends.len(), 0);
    // registering the same port twice keeps one follower
    s.register_follower(6380, 9);
    let o = run(&mut s, &cmd(&[b"SET", b"k2", b"v2"]), 0);
    assert_eq!(o.sends.len(), 2);
}

#[test]
fn replication_reaches_the_same_keyspace_and_offset() {
    // a primary executes a run of SETs; a follower applies exactly the
    // fanned-out bytes: keyspaces and offsets agree afterwards
    let mut primary = master_service();
    primary.register_follower(6380, 1);
    let mut follower = replica_service();
    // the handshake would learn the primary's id and offset (0) from
    // FULLRESYNC before the stream starts
    follower.adopt_master(b"0123456789012345678901234567890123456789".to_vec(), 0);
    let writes: Vec<Vec<u8>> = vec![
        cmd(&[b"SET", b"k1", b"v1"]),
        cmd(&[b"SET", b"k2", b"v2"]),
        cmd(&[b"SET", b"k1", b"v9"]),
        cmd(&[b"DEL", b"k2"]),
    ];
    let mut forwarded: Vec<Vec<u8>> = Vec::new();
    for w in &writes {
        let o = run(&mut primary, w, 0);
        for (_token, bytes) in o.sends {
            forwarded.push(bytes);
        }
    }
    assert_eq!(forwarded, writes);
    for f in &forwarded {
        let o = follower.execute_command(f, 0, true);
        assert_eq!(o.consumed, f.len());
        assert!(o.reply.is_none(), "no reply goes back upstream");
    }
    for (key, expect) in [(b"k1".as_slice(), b"$2\r\nv9\r\n".as_slice()), (b"k2", b"$-1\r\n")] {
        let o = run(&mut primary, &cmd(&[b"GET", key]), 0);
        let p = reply_of(&o).to_vec();
        assert_eq!(p, expect.to_vec());
        let o = follower.execute_command(&cmd(&[b"GET", key]), 0, false);
        let f = o.reply.expect("a reply");
        assert_eq!(f, expect.to_vec());
    }
    let total: usize = writes.iter().map(|w| w.len()).sum();
    let primary_info = String::from_utf8(primary.replication_info()).unwrap();
    assert!(primary_info.contains(&format!("master_repl_offset:{}", total)));
    let follower_info = String::from_utf8(follower.replication_info()).unwrap();
    assert!(follower_info.contains(&format!("master_repl_offset:{}", total)));
}

#[test]
fn eviction_drops_a_follower() {
    let mut s = master_service();
    s.register_follower(6380, 7);
    s.register_follower(6381, 8);
    s.evict_follower(7);
    let o = run(&mut s, &cmd(&[b"SET", b"k", b"v"]), 0);
    assert_eq!(o.sends.len(), 1);
    assert_eq!(o.sends[0].0, 8);
}
