use redis_lite::config::{valid_replicaof, CmdOptions, Configuration};
use redis_lite::glob::matches_glob;
use redis_lite::num::{dec_i64, dec_u64};
use redis_lite::replication::Role;
use redis_lite::util::gen_id;

#[test]
fn replicaof_values_are_normalised() {
    assert_eq!(valid_replicaof(b"127.0.0.1 6379").unwrap(), b"127.0.0.1:6379".to_vec());
    assert_eq!(valid_replicaof(b"  127.0.0.1 6379  ").unwrap(), b"127.0.0.1:6379".to_vec());
    assert!(valid_replicaof(b"").is_err());
}

fn options(replicatof: Option<Vec<u8>>) -> CmdOptions {
    CmdOptions {
        dir: b"/tmp/redis-files".to_vec(),
        filename: b"dump.rdb".to_vec(),
        host: b"127.0.0.1".to_vec(),
        port: 6380,
        replicatof,
    }
}

#[test]
fn configuration_from_options() {
    let c = Configuration::from_options(options(None));
    assert_eq!(c.replication_role, Role::Master);
    assert_eq!(c.get_address(), b"127.0.0.1:6380".to_vec());
    assert_eq!(c.get_rdb_path(), b"/tmp/redis-files/dump.rdb".to_vec());
    assert_eq!(c.get(b"port"), Some(b"6380".to_vec()));
    assert_eq!(c.get(b"host"), Some(b"127.0.0.1".to_vec()));
    assert_eq!(c.get(b"dir"), Some(b"/tmp/redis-files".to_vec()));
    assert_eq!(c.get(b"filename"), Some(b"dump.rdb".to_vec()));
    assert_eq!(c.get(b"other"), None);
    assert_eq!(c.get_master_address(), None);

    let c = Configuration::from_options(options(Some(b"10.0.0.1:6379".to_vec())));
    assert_eq!(c.replication_role, Role::Slave);
    assert_eq!(c.get_master_address(), Some(b"10.0.0.1:6379".to_vec()));
}

#[test]
fn glob_patterns() {
    assert!(matches_glob(b"*", b""));
    assert!(matches_glob(b"*", b"anything"));
    assert!(matches_glob(b"foo*", b"foo"));
    assert!(matches_glob(b"foo*", b"foobar"));
    assert!(!matches_glob(b"foo*", b"bar"));
    assert!(matches_glob(b"*bar", b"foobar"));
    assert!(matches_glob(b"f?o", b"foo"));
    assert!(!matches_glob(b"f?o", b"fooo"));
    assert!(matches_glob(b"a*b*c", b"a-long-b-tail-c"));
    assert!(!matches_glob(b"a*b*c", b"a-long-b-tail"));
}

#[test]
fn identifiers_are_forty_alphanumerics() {
    let a = gen_id();
    let b = gen_id();
    assert_eq!(a.len(), 40);
    assert_eq!(b.len(), 40);
    assert!(a.iter().all(|c| c.is_ascii_alphanumeric()));
    // two draws almost surely differ; equality would mean a broken source
    assert_ne!(a, b);
}

#[test]
fn decimal_renderings() {
    assert_eq!(dec_u64(0), b"0".to_vec());
    assert_eq!(dec_u64(12345), b"12345".to_vec());
    assert_eq!(dec_u64(u64::MAX), b"18446744073709551615".to_vec());
    assert_eq!(dec_i64(-1), b"-1".to_vec());
    assert_eq!(dec_i64(i64::MIN), b"-9223372036854775808".to_vec());
}
