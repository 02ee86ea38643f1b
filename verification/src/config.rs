//! Startup options and the server configuration.
//!
//! Values are byte strings (the wire carries bytes); the listening port
//! is numeric. The surrounding process parses the command line and
//! hands the plain values in.

use vstd::prelude::*;

use crate::database::copy_bytes;
use crate::num::{dec_u64, spec_dec_u};
use crate::replication::Role;

verus! {

/// The command-line options, as plain values.
#[derive(Debug)]
pub struct CmdOptions {
    /// RDB directory.
    pub dir: Vec<u8>,
    /// RDB filename.
    pub filename: Vec<u8>,
    /// Bind host.
    pub host: Vec<u8>,
    /// Bind port.
    pub port: u16,
    /// `host:port` of the primary to follow, if any.
    pub replicatof: Option<Vec<u8>>,
}

/// ASCII whitespace, as trimmed from option values.
pub open spec fn is_space(b: u8) -> bool {
    b == 0x20 || b == 0x09 || b == 0x0A || b == 0x0D
}

/// First non-whitespace position at or after `i`.
pub open spec fn skip_ws(s: Seq<u8>, i: int) -> int
    decreases s.len() - i,
{
    if i < 0 || i >= s.len() {
        s.len() as int
    } else if is_space(s[i]) {
        skip_ws(s, i + 1)
    } else {
        i
    }
}

/// Position after the last non-whitespace byte before `i`.
pub open spec fn rskip_ws(s: Seq<u8>, i: int) -> int
    decreases i,
{
    if i <= 0 || i > s.len() {
        0
    } else if is_space(s[i - 1]) {
        rskip_ws(s, i - 1)
    } else {
        i
    }
}

proof fn lemma_rskip_ws_le(s: Seq<u8>, i: int)
    requires
        0 <= i,
    ensures
        0 <= rskip_ws(s, i) <= i,
    decreases i,
{
    if i <= 0 || i > s.len() {
    } else if is_space(s[i - 1]) {
        lemma_rskip_ws_le(s, i - 1);
    }
}

/// `s` with leading and trailing ASCII whitespace removed.
pub open spec fn trim_bytes(s: Seq<u8>) -> Seq<u8> {
    let a = skip_ws(s, 0);
    let b = rskip_ws(s, s.len() as int);
    if a <= b {
        s.subrange(a, b)
    } else {
        Seq::empty()
    }
}

/// Every space turned into a colon.
pub open spec fn spaces_to_colons(s: Seq<u8>) -> Seq<u8> {
    s.map_values(|b: u8| if b == 0x20 { 0x3Au8 } else { b })
}

/// What a well-formed `--replicaof` value becomes: trimmed, with the
/// space between host and port turned into a colon.
pub open spec fn spec_replicaof(s: Seq<u8>) -> Seq<u8> {
    spaces_to_colons(trim_bytes(s))
}

/// The complaint an empty `--replicaof` value earns: `"empty"`.
pub open spec fn replicaof_empty_msg() -> Seq<u8> {
    seq![0x65u8, 0x6Du8, 0x70u8, 0x74u8, 0x79u8]
}

/// Validate and normalise a `--replicaof` value: an empty value is
/// refused; otherwise the value is trimmed and its spaces become
/// colons, yielding `host:port`.
pub fn valid_replicaof(value: &[u8]) -> (r: Result<Vec<u8>, Vec<u8>>)
    ensures
        value@.len() == 0 ==> (r matches Err(m) && m@ == replicaof_empty_msg()),
        value@.len() > 0 ==> r == Ok::<_, Vec<u8>>(r->Ok_0) && r->Ok_0@ == spec_replicaof(value@),
{
    if value.len() == 0 {
        let msg: Vec<u8> = vec![0x65u8, 0x6Du8, 0x70u8, 0x74u8, 0x79u8];
        proof {
            assert(msg@ =~= replicaof_empty_msg());
        }
        return Err(msg);
    }
    let n = value.len();
    let mut a: usize = 0;
    while a < n && (value[a] == 0x20 || value[a] == 0x09 || value[a] == 0x0A || value[a] == 0x0D)
        invariant
            a <= n,
            n == value@.len(),
            skip_ws(value@, 0) == skip_ws(value@, a as int),
        decreases n - a,
    {
        a = a + 1;
    }
    if a >= n {
        // nothing but whitespace: the trimmed value is empty
        proof {
            assert(skip_ws(value@, 0) == n);
            lemma_rskip_ws_le(value@, n as int);
            let bb = rskip_ws(value@, n as int);
            if bb == n {
                assert(value@.subrange(n as int, n as int) =~= Seq::<u8>::empty());
            }
            assert(trim_bytes(value@) =~= Seq::<u8>::empty());
            assert(spec_replicaof(value@) =~= Seq::<u8>::empty());
        }
        let out: Vec<u8> = Vec::new();
        proof {
            assert(out@ =~= spec_replicaof(value@));
        }
        return Ok(out);
    }
    proof {
        assert(skip_ws(value@, a as int) == a);
    }
    let mut b: usize = n;
    while b > a && (value[b - 1] == 0x20 || value[b - 1] == 0x09 || value[b - 1] == 0x0A
        || value[b - 1] == 0x0D)
        invariant
            a < b <= n || b == n,
            a < n,
            n == value@.len(),
            !is_space(value@[a as int]),
            a < b,
            rskip_ws(value@, n as int) == rskip_ws(value@, b as int),
        decreases b,
    {
        proof {
            assert(b - 1 > a || b - 1 == a);
            if b - 1 == a {
                assert(is_space(value@[a as int]));
            }
        }
        b = b - 1;
    }
    proof {
        assert(!is_space(value@[b - 1]));
        assert(rskip_ws(value@, b as int) == b);
        assert(trim_bytes(value@) == value@.subrange(a as int, b as int));
    }
    let mut out: Vec<u8> = Vec::new();
    let mut i: usize = a;
    while i < b
        invariant
            a <= i <= b <= n,
            n == value@.len(),
            out@.len() == i - a,
            forall|k: int| 0 <= k < i - a ==> out@[k] == (if value@[a + k] == 0x20 {
                0x3Au8
            } else {
                value@[a + k]
            }),
        decreases b - i,
    {
        let c = value[i];
        if c == 0x20 {
            out.push(0x3A);
        } else {
            out.push(c);
        }
        i = i + 1;
    }
    proof {
        assert(out@ =~= spec_replicaof(value@));
    }
    Ok(out)
}

/// The running configuration.
#[derive(Debug)]
pub struct Configuration {
    pub port: u16,
    pub host: Vec<u8>,
    pub dir: Vec<u8>,
    pub filename: Vec<u8>,
    /// `host:port` of the primary, when running as a replica.
    pub master_address: Option<Vec<u8>>,
    pub replication_role: Role,
}

/// `"port"`, `"host"`, `"dir"`, `"filename"`: the gettable attributes.
pub open spec fn attr_port() -> Seq<u8> {
    seq![0x70u8, 0x6Fu8, 0x72u8, 0x74u8]
}

pub open spec fn attr_host() -> Seq<u8> {
    seq![0x68u8, 0x6Fu8, 0x73u8, 0x74u8]
}

pub open spec fn attr_dir() -> Seq<u8> {
    seq![0x64u8, 0x69u8, 0x72u8]
}

pub open spec fn attr_filename() -> Seq<u8> {
    seq![0x66u8, 0x69u8, 0x6Cu8, 0x65u8, 0x6Eu8, 0x61u8, 0x6Du8, 0x65u8]
}

/// The value `CONFIG GET` reports for an attribute name, if any.
pub open spec fn spec_config_get(c: &Configuration, attr: Seq<u8>) -> Option<Seq<u8>> {
    if attr == attr_port() {
        Some(spec_dec_u(c.port as nat))
    } else if attr == attr_host() {
        Some(c.host@)
    } else if attr == attr_dir() {
        Some(c.dir@)
    } else if attr == attr_filename() {
        Some(c.filename@)
    } else {
        None
    }
}

impl Configuration {
    /// Build the configuration from the command-line options: a replica
    /// exactly when `--replicaof` was given.
    pub fn from_options(value: CmdOptions) -> (r: Configuration)
        ensures
            r.port == value.port,
            r.host@ == value.host@,
            r.dir@ == value.dir@,
            r.filename@ == value.filename@,
            value.replicatof is Some ==> (r.master_address matches Some(a) && a@
                == value.replicatof->Some_0@ && r.replication_role == Role::Slave),
            value.replicatof is None ==> r.master_address is None && r.replication_role
                == Role::Master,
    {
        let role = match &value.replicatof {
            Some(_) => Role::Slave,
            None => Role::Master,
        };
        Configuration {
            port: value.port,
            host: value.host,
            dir: value.dir,
            filename: value.filename,
            master_address: value.replicatof,
            replication_role: role,
        }
    }

    /// `host:port` as bytes.
    pub fn get_address(&self) -> (r: Vec<u8>)
        ensures
            r@ == self.host@ + seq![0x3Au8] + spec_dec_u(self.port as nat),
    {
        let mut out = copy_bytes(self.host.as_slice());
        out.push(0x3A);
        let mut p = dec_u64(self.port as u64);
        out.append(&mut p);
        proof {
            assert(out@ =~= self.host@ + seq![0x3Au8] + spec_dec_u(self.port as nat));
        }
        out
    }

    /// `dir/filename` as bytes.
    pub fn get_rdb_path(&self) -> (r: Vec<u8>)
        ensures
            r@ == self.dir@ + seq![0x2Fu8] + self.filename@,
    {
        let mut out = copy_bytes(self.dir.as_slice());
        out.push(0x2F);
        let mut f = copy_bytes(self.filename.as_slice());
        out.append(&mut f);
        proof {
            assert(out@ =~= self.dir@ + seq![0x2Fu8] + self.filename@);
        }
        out
    }

    /// Look an attribute up by name.
    pub fn get(&self, attr: &[u8]) -> (r: Option<Vec<u8>>)
        ensures
            match r {
                Some(v) => spec_config_get(self, attr@) == Some(v@),
                None => spec_config_get(self, attr@) is None,
            },
    {
        if eq4(attr, 0x70, 0x6F, 0x72, 0x74) {
            Some(dec_u64(self.port as u64))
        } else if eq4(attr, 0x68, 0x6F, 0x73, 0x74) {
            Some(copy_bytes(self.host.as_slice()))
        } else if eq3(attr, 0x64, 0x69, 0x72) {
            Some(copy_bytes(self.dir.as_slice()))
        } else if eq8(attr, 0x66, 0x69, 0x6C, 0x65, 0x6E, 0x61, 0x6D, 0x65) {
            Some(copy_bytes(self.filename.as_slice()))
        } else {
            None
        }
    }

    /// The primary's address, when running as a replica.
    pub fn get_master_address(&self) -> (r: Option<Vec<u8>>)
        ensures
            match r {
                Some(v) => self.master_address matches Some(a) && v@ == a@,
                None => self.master_address is None,
            },
    {
        match &self.master_address {
            Some(a) => Some(copy_bytes(a.as_slice())),
            None => None,
        }
    }
}

fn eq3(a: &[u8], b0: u8, b1: u8, b2: u8) -> (r: bool)
    ensures
        r == (a@ =~= seq![b0, b1, b2]),
{
    let r = a.len() == 3 && a[0] == b0 && a[1] == b1 && a[2] == b2;
    proof {
        if r {
            assert(a@ =~= seq![b0, b1, b2]);
        } else {
            assert(!(a@ =~= seq![b0, b1, b2]));
        }
    }
    r
}

fn eq4(a: &[u8], b0: u8, b1: u8, b2: u8, b3: u8) -> (r: bool)
    ensures
        r == (a@ =~= seq![b0, b1, b2, b3]),
{
    let r = a.len() == 4 && a[0] == b0 && a[1] == b1 && a[2] == b2 && a[3] == b3;
    proof {
        if r {
            assert(a@ =~= seq![b0, b1, b2, b3]);
        } else {
            assert(!(a@ =~= seq![b0, b1, b2, b3]));
        }
    }
    r
}

fn eq8(a: &[u8], b0: u8, b1: u8, b2: u8, b3: u8, b4: u8, b5: u8, b6: u8, b7: u8) -> (r: bool)
    ensures
        r == (a@ =~= seq![b0, b1, b2, b3, b4, b5, b6, b7]),
{
    let r = a.len() == 8 && a[0] == b0 && a[1] == b1 && a[2] == b2 && a[3] == b3 && a[4] == b4
        && a[5] == b5 && a[6] == b6 && a[7] == b7;
    proof {
        if r {
            assert(a@ =~= seq![b0, b1, b2, b3, b4, b5, b6, b7]);
        } else {
            assert(!(a@ =~= seq![b0, b1, b2, b3, b4, b5, b6, b7]));
        }
    }
    r
}

} // verus!
