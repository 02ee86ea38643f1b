//! Turning a decoded RESP frame into a command.
//!
//! A client command is an array of bulk strings whose first element is a
//! case-insensitive name; [`spec_parse_command`] is the mathematical
//! parser and [`Commands::from_frame`] is proved to agree with it.

use vstd::prelude::*;

use crate::num::{dec_i64, parse_dec, parse_line_u64, spec_dec_i, LineU64};
use crate::resp::{frame_models, lemma_frame_models_index, FrameModel, RespDataTypes};
use crate::database::copy_bytes;

verus! {

/// A parsed client command.
#[derive(Debug)]
pub enum Commands {
    Ping,
    Echo(Vec<u8>),
    /// key, value, optional absolute expiry in ms since the epoch.
    SetCmd(Vec<u8>, Vec<u8>, Option<u64>),
    Get(Vec<u8>),
    Del(Vec<Vec<u8>>),
    Config(Vec<Vec<u8>>),
    Keys(Vec<u8>),
    Info(Option<Vec<u8>>),
    REPLCONF(Vec<u8>, Vec<u8>),
    PSYNC(Vec<u8>, Vec<u8>),
}

/// Mathematical model of a command.
pub enum CommandModel {
    Ping,
    Echo(Seq<u8>),
    SetCmd(Seq<u8>, Seq<u8>, Option<u64>),
    Get(Seq<u8>),
    Del(Seq<Seq<u8>>),
    Config(Seq<Seq<u8>>),
    Keys(Seq<u8>),
    Info(Option<Seq<u8>>),
    Replconf(Seq<u8>, Seq<u8>),
    Psync(Seq<u8>, Seq<u8>),
}

/// Why a frame is not a command.
#[derive(Debug, PartialEq, Eq)]
pub enum CommandError {
    /// The frame is not an array headed by a bulk-string name.
    NotCommand,
    /// The name is no command; carries the name as sent.
    Unknown(Vec<u8>),
    /// The command is missing arguments or has stray ones.
    WrongArity,
    /// An option or number in the arguments is malformed.
    Syntax,
}

/// Model of a command error.
pub enum CommandErrorModel {
    NotCommand,
    Unknown(Seq<u8>),
    WrongArity,
    Syntax,
}

pub open spec fn views_of(v: Seq<Vec<u8>>) -> Seq<Seq<u8>> {
    v.map_values(|x: Vec<u8>| x@)
}

pub open spec fn command_model(c: Commands) -> CommandModel {
    match c {
        Commands::Ping => CommandModel::Ping,
        Commands::Echo(m) => CommandModel::Echo(m@),
        Commands::SetCmd(k, v, e) => CommandModel::SetCmd(k@, v@, e),
        Commands::Get(k) => CommandModel::Get(k@),
        Commands::Del(ks) => CommandModel::Del(views_of(ks@)),
        Commands::Config(a) => CommandModel::Config(views_of(a@)),
        Commands::Keys(p) => CommandModel::Keys(p@),
        Commands::Info(s) => CommandModel::Info(match s {
            Some(x) => Some(x@),
            None => None,
        }),
        Commands::REPLCONF(a, b) => CommandModel::Replconf(a@, b@),
        Commands::PSYNC(a, b) => CommandModel::Psync(a@, b@),
    }
}

pub open spec fn error_model(e: CommandError) -> CommandErrorModel {
    match e {
        CommandError::NotCommand => CommandErrorModel::NotCommand,
        CommandError::Unknown(n) => CommandErrorModel::Unknown(n@),
        CommandError::WrongArity => CommandErrorModel::WrongArity,
        CommandError::Syntax => CommandErrorModel::Syntax,
    }
}

/// Uppercase one ASCII byte.
pub open spec fn upper(b: u8) -> u8 {
    if 0x61 <= b <= 0x7A {
        (b - 0x20) as u8
    } else {
        b
    }
}

pub open spec fn upper_seq(s: Seq<u8>) -> Seq<u8> {
    s.map_values(|b: u8| upper(b))
}

/// The argument a frame element contributes: a bulk string as is, an
/// integer as its decimal rendering, anything else nothing.
pub open spec fn frame_arg(m: FrameModel) -> Option<Seq<u8>> {
    match m {
        FrameModel::Bulk(b) => Some(b),
        FrameModel::Int(v) => Some(spec_dec_i(v)),
        _ => None,
    }
}

/// The arguments from element `i` on, or `None` on a non-argument element.
pub open spec fn args_from(items: Seq<FrameModel>, i: int) -> Option<Seq<Seq<u8>>>
    decreases items.len() - i,
{
    if i < 0 || i >= items.len() {
        Some(Seq::empty())
    } else {
        match frame_arg(items[i]) {
            None => None,
            Some(a) => match args_from(items, i + 1) {
                None => None,
                Some(rest) => Some(seq![a] + rest),
            },
        }
    }
}

/// Saturating u64 addition.
pub open spec fn sat_add(a: u64, b: u64) -> u64 {
    if a + b <= u64::MAX {
        (a + b) as u64
    } else {
        u64::MAX
    }
}

/// Saturating conversion of a duration to milliseconds.
pub open spec fn sat_ms(n: u64, unit_is_sec: bool) -> u64 {
    if unit_is_sec {
        if n * 1000 <= u64::MAX {
            (n * 1000) as u64
        } else {
            u64::MAX
        }
    } else {
        n
    }
}

pub open spec fn kw_ping() -> Seq<u8> { seq![0x50u8, 0x49u8, 0x4Eu8, 0x47u8] }
pub open spec fn kw_echo() -> Seq<u8> { seq![0x45u8, 0x43u8, 0x48u8, 0x4Fu8] }
pub open spec fn kw_set() -> Seq<u8> { seq![0x53u8, 0x45u8, 0x54u8] }
pub open spec fn kw_get() -> Seq<u8> { seq![0x47u8, 0x45u8, 0x54u8] }
pub open spec fn kw_del() -> Seq<u8> { seq![0x44u8, 0x45u8, 0x4Cu8] }
pub open spec fn kw_keys() -> Seq<u8> { seq![0x4Bu8, 0x45u8, 0x59u8, 0x53u8] }
pub open spec fn kw_config() -> Seq<u8> { seq![0x43u8, 0x4Fu8, 0x4Eu8, 0x46u8, 0x49u8, 0x47u8] }
pub open spec fn kw_info() -> Seq<u8> { seq![0x49u8, 0x4Eu8, 0x46u8, 0x4Fu8] }
pub open spec fn kw_replconf() -> Seq<u8> {
    seq![0x52u8, 0x45u8, 0x50u8, 0x4Cu8, 0x43u8, 0x4Fu8, 0x4Eu8, 0x46u8]
}
pub open spec fn kw_psync() -> Seq<u8> { seq![0x50u8, 0x53u8, 0x59u8, 0x4Eu8, 0x43u8] }
pub open spec fn kw_px() -> Seq<u8> { seq![0x50u8, 0x58u8] }
pub open spec fn kw_ex() -> Seq<u8> { seq![0x45u8, 0x58u8] }

/// What the SET options denote: no expiry for a bare key/value pair, an
/// absolute expiry for `PX`/`EX` with a number, a syntax error otherwise.
pub open spec fn spec_set_expiry(args: Seq<Seq<u8>>, now: u64) -> Result<Option<u64>, ()> {
    if args.len() == 2 {
        Ok(None)
    } else if args.len() == 4 {
        let unit = upper_seq(args[2]);
        if unit == kw_px() || unit == kw_ex() {
            match parse_dec(args[3]) {
                Some(n) => if n < 0 {
                    Err(())
                } else {
                    let cap = if n > u64::MAX { u64::MAX } else { n as u64 };
                    Ok(Some(sat_add(now, sat_ms(cap, unit == kw_ex()))))
                },
                None => Err(()),
            }
        } else {
            Err(())
        }
    } else {
        Err(())
    }
}

/// The mathematical command parser: which command, if any, the frame
/// denotes at time `now`, and the exact error otherwise.
pub open spec fn spec_parse_command(m: FrameModel, now: u64) -> Result<
    CommandModel,
    CommandErrorModel,
> {
    match m {
        FrameModel::Arr(items) => {
            if items.len() == 0 {
                Err(CommandErrorModel::NotCommand)
            } else {
                match items[0] {
                    FrameModel::Bulk(name) => {
                        let u = upper_seq(name);
                        match args_from(items, 1) {
                            None => Err(CommandErrorModel::WrongArity),
                            Some(args) => {
                                if u == kw_ping() {
                                    Ok(CommandModel::Ping)
                                } else if u == kw_echo() {
                                    if args.len() >= 1 {
                                        Ok(CommandModel::Echo(args[0]))
                                    } else {
                                        Err(CommandErrorModel::WrongArity)
                                    }
                                } else if u == kw_get() {
                                    if args.len() >= 1 {
                                        Ok(CommandModel::Get(args[0]))
                                    } else {
                                        Err(CommandErrorModel::WrongArity)
                                    }
                                } else if u == kw_keys() {
                                    if args.len() >= 1 {
                                        Ok(CommandModel::Keys(args[0]))
                                    } else {
                                        Err(CommandErrorModel::WrongArity)
                                    }
                                } else if u == kw_set() {
                                    if args.len() < 2 {
                                        Err(CommandErrorModel::WrongArity)
                                    } else {
                                        match spec_set_expiry(args, now) {
                                            Ok(e) => Ok(CommandModel::SetCmd(args[0], args[1], e)),
                                            Err(_) => Err(CommandErrorModel::Syntax),
                                        }
                                    }
                                } else if u == kw_del() {
                                    if args.len() >= 1 {
                                        Ok(CommandModel::Del(args))
                                    } else {
                                        Err(CommandErrorModel::WrongArity)
                                    }
                                } else if u == kw_config() {
                                    if args.len() >= 1 {
                                        Ok(CommandModel::Config(args))
                                    } else {
                                        Err(CommandErrorModel::WrongArity)
                                    }
                                } else if u == kw_info() {
                                    Ok(CommandModel::Info(if args.len() >= 1 {
                                        Some(args[0])
                                    } else {
                                        None
                                    }))
                                } else if u == kw_replconf() {
                                    if args.len() == 2 {
                                        Ok(CommandModel::Replconf(args[0], args[1]))
                                    } else {
                                        Err(CommandErrorModel::WrongArity)
                                    }
                                } else if u == kw_psync() {
                                    if args.len() == 2 {
                                        Ok(CommandModel::Psync(args[0], args[1]))
                                    } else {
                                        Err(CommandErrorModel::WrongArity)
                                    }
                                } else {
                                    Err(CommandErrorModel::Unknown(name))
                                }
                            },
                        }
                    },
                    _ => Err(CommandErrorModel::NotCommand),
                }
            }
        },
        _ => Err(CommandErrorModel::NotCommand),
    }
}

/// How an executable parse outcome reflects the mathematical one.
pub open spec fn parse_result_matches(
    r: Result<Commands, CommandError>,
    s: Result<CommandModel, CommandErrorModel>,
) -> bool {
    match r {
        Ok(c) => s == Ok::<CommandModel, CommandErrorModel>(command_model(c)),
        Err(e) => s == Err::<CommandModel, CommandErrorModel>(error_model(e)),
    }
}

/// Uppercase a byte string, ASCII-wise.
pub(crate) fn upper_bytes(b: &[u8]) -> (r: Vec<u8>)
    ensures
        r@ == upper_seq(b@),
{
    let n = b.len();
    let mut out: Vec<u8> = Vec::new();
    let mut i: usize = 0;
    while i < n
        invariant
            i <= n,
            n == b@.len(),
            out@.len() == i,
            forall|k: int| 0 <= k < i ==> out@[k] == upper(b@[k]),
        decreases n - i,
    {
        let c = b[i];
        if 0x61 <= c && c <= 0x7A {
            out.push(c - 0x20);
        } else {
            out.push(c);
        }
        i = i + 1;
    }
    proof {
        assert(out@ =~= upper_seq(b@));
    }
    out
}

/// Collect the arguments from element `i` on.
fn collect_args(items: &Vec<RespDataTypes>, i: usize) -> (r: Option<Vec<Vec<u8>>>)
    requires
        i <= items@.len(),
    ensures
        match r {
            Some(v) => args_from(frame_models(items@), i as int) == Some(views_of(v@)),
            None => args_from(frame_models(items@), i as int) is None,
        },
    decreases items@.len() - i,
{
    proof {
        crate::resp::lemma_frame_models_len(items@);
    }
    if i >= items.len() {
        let out: Vec<Vec<u8>> = Vec::new();
        proof {
            assert(views_of(out@) =~= Seq::<Seq<u8>>::empty());
        }
        Some(out)
    } else {
        proof {
            lemma_frame_models_index(items@, i as int);
        }
        let a: Vec<u8> = match &items[i] {
            RespDataTypes::BulkString(b) => copy_bytes(b.as_slice()),
            RespDataTypes::Integer(v) => dec_i64(*v),
            _ => {
                return None;
            },
        };
        match collect_args(items, i + 1) {
            None => None,
            Some(rest) => {
                let mut out: Vec<Vec<u8>> = Vec::new();
                out.push(a);
                let mut tail = rest;
                out.append(&mut tail);
                proof {
                    assert(views_of(out@) =~= seq![out@[0]@] + views_of(out@.skip(1)));
                    assert(out@.skip(1) =~= old_of_rest(out@));
                }
                Some(out)
            },
        }
    }
}

/// The tail of a one-plus-rest vector.
pub open spec fn old_of_rest(v: Seq<Vec<u8>>) -> Seq<Vec<u8>> {
    v.skip(1)
}

impl Commands {
    /// Parse a decoded frame into a command at time `now_ms`, exactly as
    /// [`spec_parse_command`] says.
    pub fn from_frame(frame: &RespDataTypes, now_ms: u64) -> (r: Result<Commands, CommandError>)
        ensures
            parse_result_matches(r, spec_parse_command(frame@, now_ms)),
    {
        let items = match frame {
            RespDataTypes::Array(items) => items,
            _ => {
                return Err(CommandError::NotCommand);
            },
        };
        proof {
            crate::resp::lemma_frame_models_len(items@);
        }
        if items.len() == 0 {
            return Err(CommandError::NotCommand);
        }
        proof {
            lemma_frame_models_index(items@, 0);
        }
        let name: &Vec<u8> = match &items[0] {
            RespDataTypes::BulkString(b) => b,
            _ => {
                return Err(CommandError::NotCommand);
            },
        };
        let u = upper_bytes(name.as_slice());
        let args = match collect_args(items, 1) {
            Some(a) => a,
            None => {
                return Err(CommandError::WrongArity);
            },
        };
        let ghost argm = views_of(args@);
        let up = u.as_slice();
        if eq_kw(up, 0x50, 0x49, 0x4E, 0x47) {
            proof { assert(upper_seq(name@) =~= kw_ping()); }
            Ok(Commands::Ping)
        } else if eq_kw(up, 0x45, 0x43, 0x48, 0x4F) {
            proof { assert(upper_seq(name@) =~= kw_echo()); }
            if args.len() >= 1 {
                Ok(Commands::Echo(take_first(args)))
            } else {
                Err(CommandError::WrongArity)
            }
        } else if eq_kw3(up, 0x47, 0x45, 0x54) {
            proof { assert(upper_seq(name@) =~= kw_get()); }
            if args.len() >= 1 {
                Ok(Commands::Get(take_first(args)))
            } else {
                Err(CommandError::WrongArity)
            }
        } else if eq_kw(up, 0x4B, 0x45, 0x59, 0x53) {
            proof { assert(upper_seq(name@) =~= kw_keys()); }
            if args.len() >= 1 {
                Ok(Commands::Keys(take_first(args)))
            } else {
                Err(CommandError::WrongArity)
            }
        } else if eq_kw3(up, 0x53, 0x45, 0x54) {
            proof { assert(upper_seq(name@) =~= kw_set()); }
            if args.len() < 2 {
                Err(CommandError::WrongArity)
            } else {
                match set_expiry(&args, now_ms) {
                    Ok(e) => {
                        let mut rest = args;
                        let key = rest.remove(0);
                        let value = rest.remove(0);
                        proof {
                            assert(key@ == argm[0] && value@ == argm[1]);
                        }
                        Ok(Commands::SetCmd(key, value, e))
                    },
                    Err(_) => Err(CommandError::Syntax),
                }
            }
        } else if eq_kw3(up, 0x44, 0x45, 0x4C) {
            proof { assert(upper_seq(name@) =~= kw_del()); }
            if args.len() >= 1 {
                Ok(Commands::Del(args))
            } else {
                Err(CommandError::WrongArity)
            }
        } else if eq_kw6(up, 0x43, 0x4F, 0x4E, 0x46, 0x49, 0x47) {
            proof { assert(upper_seq(name@) =~= kw_config()); }
            if args.len() >= 1 {
                Ok(Commands::Config(args))
            } else {
                Err(CommandError::WrongArity)
            }
        } else if eq_kw(up, 0x49, 0x4E, 0x46, 0x4F) {
            proof { assert(upper_seq(name@) =~= kw_info()); }
            if args.len() >= 1 {
                Ok(Commands::Info(Some(take_first(args))))
            } else {
                Ok(Commands::Info(None))
            }
        } else if eq_kw8(up, 0x52, 0x45, 0x50, 0x4C, 0x43, 0x4F, 0x4E, 0x46) {
            proof { assert(upper_seq(name@) =~= kw_replconf()); }
            if args.len() == 2 {
                let mut rest = args;
                let a = rest.remove(0);
                let b = rest.remove(0);
                Ok(Commands::REPLCONF(a, b))
            } else {
                Err(CommandError::WrongArity)
            }
        } else if eq_kw5(up, 0x50, 0x53, 0x59, 0x4E, 0x43) {
            proof { assert(upper_seq(name@) =~= kw_psync()); }
            if args.len() == 2 {
                let mut rest = args;
                let a = rest.remove(0);
                let b = rest.remove(0);
                Ok(Commands::PSYNC(a, b))
            } else {
                Err(CommandError::WrongArity)
            }
        } else {
            Err(CommandError::Unknown(copy_bytes(name.as_slice())))
        }
    }
}

/// First element of a non-empty argument vector, by value.
fn take_first(args: Vec<Vec<u8>>) -> (r: Vec<u8>)
    requires
        args@.len() >= 1,
    ensures
        r@ == views_of(args@)[0],
{
    let mut a = args;
    a.remove(0)
}

/// Decide the SET expiry options, exactly as [`spec_set_expiry`] says.
fn set_expiry(args: &Vec<Vec<u8>>, now: u64) -> (r: Result<Option<u64>, ()>)
    requires
        args@.len() >= 2,
    ensures
        r == spec_set_expiry(views_of(args@), now),
{
    let ghost argm = views_of(args@);
    if args.len() == 2 {
        Ok(None)
    } else if args.len() == 4 {
        let unit = upper_bytes(args[2].as_slice());
        let is_px = eq_kw2(unit.as_slice(), 0x50, 0x58);
        let is_ex = eq_kw2(unit.as_slice(), 0x45, 0x58);
        proof {
            assert(unit@ == upper_seq(argm[2]));
        }
        if is_px || is_ex {
            match parse_line_u64(args[3].as_slice()) {
                LineU64::Val(n) => {
                    let ms = if is_ex {
                        match n.checked_mul(1000) {
                            Some(m) => m,
                            None => u64::MAX,
                        }
                    } else {
                        n
                    };
                    let at = match now.checked_add(ms) {
                        Some(t) => t,
                        None => u64::MAX,
                    };
                    Ok(Some(at))
                },
                LineU64::Big => {
                    // A duration beyond u64::MAX saturates outright.
                    Ok(Some(u64::MAX))
                },
                LineU64::Neg => Err(()),
                LineU64::Invalid => Err(()),
            }
        } else {
            Err(())
        }
    } else {
        Err(())
    }
}

fn eq_kw2(a: &[u8], b0: u8, b1: u8) -> (r: bool)
    ensures
        r == (a@ =~= seq![b0, b1]),
{
    let r = a.len() == 2 && a[0] == b0 && a[1] == b1;
    proof {
        if r {
            assert(a@ =~= seq![b0, b1]);
        } else {
            assert(!(a@ =~= seq![b0, b1]));
        }
    }
    r
}

pub(crate) fn eq_kw3(a: &[u8], b0: u8, b1: u8, b2: u8) -> (r: bool)
    ensures
        r == (a@ =~= seq![b0, b1, b2]),
{
    let r = a.len() == 3 && a[0] == b0 && a[1] == b1 && a[2] == b2;
    proof {
        if r {
            assert(a@ =~= seq![b0, b1, b2]);
        } else {
            assert(!(a@ =~= seq![b0, b1, b2]));
        }
    }
    r
}

fn eq_kw(a: &[u8], b0: u8, b1: u8, b2: u8, b3: u8) -> (r: bool)
    ensures
        r == (a@ =~= seq![b0, b1, b2, b3]),
{
    let r = a.len() == 4 && a[0] == b0 && a[1] == b1 && a[2] == b2 && a[3] == b3;
    proof {
        if r {
            assert(a@ =~= seq![b0, b1, b2, b3]);
        } else {
            assert(!(a@ =~= seq![b0, b1, b2, b3]));
        }
    }
    r
}

fn eq_kw5(a: &[u8], b0: u8, b1: u8, b2: u8, b3: u8, b4: u8) -> (r: bool)
    ensures
        r == (a@ =~= seq![b0, b1, b2, b3, b4]),
{
    let r = a.len() == 5 && a[0] == b0 && a[1] == b1 && a[2] == b2 && a[3] == b3 && a[4] == b4;
    proof {
        if r {
            assert(a@ =~= seq![b0, b1, b2, b3, b4]);
        } else {
            assert(!(a@ =~= seq![b0, b1, b2, b3, b4]));
        }
    }
    r
}

fn eq_kw6(a: &[u8], b0: u8, b1: u8, b2: u8, b3: u8, b4: u8, b5: u8) -> (r: bool)
    ensures
        r == (a@ =~= seq![b0, b1, b2, b3, b4, b5]),
{
    let r = a.len() == 6 && a[0] == b0 && a[1] == b1 && a[2] == b2 && a[3] == b3 && a[4] == b4
        && a[5] == b5;
    proof {
        if r {
            assert(a@ =~= seq![b0, b1, b2, b3, b4, b5]);
        } else {
            assert(!(a@ =~= seq![b0, b1, b2, b3, b4, b5]));
        }
    }
    r
}

fn eq_kw8(a: &[u8], b0: u8, b1: u8, b2: u8, b3: u8, b4: u8, b5: u8, b6: u8, b7: u8) -> (r: bool)
    ensures
        r == (a@ =~= seq![b0, b1, b2, b3, b4, b5, b6, b7]),
{
    let r = a.len() == 8 && a[0] == b0 && a[1] == b1 && a[2] == b2 && a[3] == b3 && a[4] == b4
        && a[5] == b5 && a[6] == b6 && a[7] == b7;
    proof {
        if r {
            assert(a@ =~= seq![b0, b1, b2, b3, b4, b5, b6, b7]);
        } else {
            assert(!(a@ =~= seq![b0, b1, b2, b3, b4, b5, b6, b7]));
        }
    }
    r
}

/// When every element is an argument, there are exactly as many
/// arguments as elements.
pub proof fn lemma_args_from_len(items: Seq<FrameModel>, i: int)
    requires
        0 <= i <= items.len(),
    ensures
        args_from(items, i) matches Some(a) ==> a.len() == items.len() - i,
    decreases items.len() - i,
{
    if i < items.len() {
        lemma_args_from_len(items, i + 1);
    }
}

/// The byte strings inside a run of bulk-string frames.
pub open spec fn views_of_frames(ms: Seq<FrameModel>) -> Seq<Seq<u8>> {
    ms.map_values(
        |m: FrameModel| match m {
            FrameModel::Bulk(b) => b,
            _ => Seq::empty(),
        },
    )
}

} // verus!
