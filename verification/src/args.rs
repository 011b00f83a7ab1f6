//! Command-line arguments: the command word, flags with a value, the RPC
//! endpoint, and the request of the `link` command.

use vstd::prelude::*;
use crate::text::{chars_of, parse_i8, parse_i8_spec, parse_u64, parse_u64_spec, same_text, text_or};

verus! {

/// The peer that the node talks to unless told otherwise.
pub const DEFAULT_RPC: &'static str = "https://cyb.ai/spacepussy-test";

/// The texts of a list of arguments.
pub open spec fn texts(args: Seq<String>) -> Seq<Seq<char>> {
    args.map_values(|a: String| a@)
}

// ── the command word ────────────────────────────────────────────────────────

#[derive(Clone, Copy, Debug, PartialEq, Eq)]
pub enum Command {
    /// `cyber`, `cyber status`: the local cell.
    Status,
    /// `cyber sync`: pull, replay, verify.
    Sync,
    /// `cyber link <from> <to>`: cast a signal.
    Link,
    /// `cyber network`, `cyber net`.
    Network,
    /// `cyber help`, `--help`, `-h`, `?`.
    Help,
    /// `cyber version`, `--version`, `-V`.
    Version,
    /// A command of the cosmos go-cyber daemon, which this program is not.
    Foreign,
    /// Anything else.
    Unknown,
}

pub open spec fn command_spec(w: Seq<char>) -> Command {
    if w == ""@ || w == "status"@ {
        Command::Status
    } else if w == "sync"@ {
        Command::Sync
    } else if w == "link"@ {
        Command::Link
    } else if w == "network"@ || w == "net"@ {
        Command::Network
    } else if w == "help"@ || w == "--help"@ || w == "-h"@ || w == "?"@ {
        Command::Help
    } else if w == "version"@ || w == "--version"@ || w == "-V"@ {
        Command::Version
    } else if w == "query"@ || w == "tx"@ || w == "keys"@ || w == "start"@ || w
        == "tendermint"@ {
        Command::Foreign
    } else {
        Command::Unknown
    }
}

/// Every command word names its command: `status` (or no word) the local
/// cell, `sync`, `link`, `network` or `net`, each of `help`, `--help`, `-h`
/// and `?` the help, each of `version`, `--version` and `-V` the version,
/// and the go-cyber words `query`, `tx`, `keys`, `start` and `tendermint`
/// the refusal.
pub proof fn law_command_words()
    ensures
        command_spec(""@) == Command::Status,
        command_spec("status"@) == Command::Status,
        command_spec("sync"@) == Command::Sync,
        command_spec("link"@) == Command::Link,
        command_spec("network"@) == Command::Network,
        command_spec("net"@) == Command::Network,
        command_spec("help"@) == Command::Help,
        command_spec("--help"@) == Command::Help,
        command_spec("-h"@) == Command::Help,
        command_spec("?"@) == Command::Help,
        command_spec("version"@) == Command::Version,
        command_spec("--version"@) == Command::Version,
        command_spec("-V"@) == Command::Version,
        command_spec("query"@) == Command::Foreign,
        command_spec("tx"@) == Command::Foreign,
        command_spec("keys"@) == Command::Foreign,
        command_spec("start"@) == Command::Foreign,
        command_spec("tendermint"@) == Command::Foreign,
{
    reveal_strlit("");
    reveal_strlit("status");
    reveal_strlit("sync");
    reveal_strlit("link");
    reveal_strlit("network");
    reveal_strlit("net");
    reveal_strlit("help");
    reveal_strlit("--help");
    reveal_strlit("-h");
    reveal_strlit("?");
    reveal_strlit("version");
    reveal_strlit("--version");
    reveal_strlit("-V");
    reveal_strlit("query");
    reveal_strlit("tx");
    reveal_strlit("keys");
    reveal_strlit("start");
    reveal_strlit("tendermint");
    assert("sync"@.len() != ""@.len());
    assert("sync"@.len() != "status"@.len());
    assert("link"@.len() != ""@.len());
    assert("link"@.len() != "status"@.len());
    assert("link"@[0] != "sync"@[0]);
    assert("network"@.len() != ""@.len());
    assert("network"@.len() != "status"@.len());
    assert("network"@.len() != "sync"@.len());
    assert("network"@.len() != "link"@.len());
    assert("net"@.len() != ""@.len());
    assert("net"@.len() != "status"@.len());
    assert("net"@.len() != "sync"@.len());
    assert("net"@.len() != "link"@.len());
    assert("help"@.len() != ""@.len());
    assert("help"@.len() != "status"@.len());
    assert("help"@[0] != "sync"@[0]);
    assert("help"@[0] != "link"@[0]);
    assert("help"@.len() != "network"@.len());
    assert("help"@.len() != "net"@.len());
    assert("--help"@.len() != ""@.len());
    assert("--help"@[0] != "status"@[0]);
    assert("--help"@.len() != "sync"@.len());
    assert("--help"@.len() != "link"@.len());
    assert("--help"@.len() != "network"@.len());
    assert("--help"@.len() != "net"@.len());
    assert("-h"@.len() != ""@.len());
    assert("-h"@.len() != "status"@.len());
    assert("-h"@.len() != "sync"@.len());
    assert("-h"@.len() != "link"@.len());
    assert("-h"@.len() != "network"@.len());
    assert("-h"@.len() != "net"@.len());
    assert("?"@.len() != ""@.len());
    assert("?"@.len() != "status"@.len());
    assert("?"@.len() != "sync"@.len());
    assert("?"@.len() != "link"@.len());
    assert("?"@.len() != "network"@.len());
    assert("?"@.len() != "net"@.len());
    assert("version"@.len() != ""@.len());
    assert("version"@.len() != "status"@.len());
    assert("version"@.len() != "sync"@.len());
    assert("version"@.len() != "link"@.len());
    assert("version"@[0] != "network"@[0]);
    assert("version"@.len() != "net"@.len());
    assert("version"@.len() != "help"@.len());
    assert("version"@.len() != "--help"@.len());
    assert("version"@.len() != "-h"@.len());
    assert("version"@.len() != "?"@.len());
    assert("--version"@.len() != ""@.len());
    assert("--version"@.len() != "status"@.len());
    assert("--version"@.len() != "sync"@.len());
    assert("--version"@.len() != "link"@.len());
    assert("--version"@.len() != "network"@.len());
    assert("--version"@.len() != "net"@.len());
    assert("--version"@.len() != "help"@.len());
    assert("--version"@.len() != "--help"@.len());
    assert("--version"@.len() != "-h"@.len());
    assert("--version"@.len() != "?"@.len());
    assert("-V"@.len() != ""@.len());
    assert("-V"@.len() != "status"@.len());
    assert("-V"@.len() != "sync"@.len());
    assert("-V"@.len() != "link"@.len());
    assert("-V"@.len() != "network"@.len());
    assert("-V"@.len() != "net"@.len());
    assert("-V"@.len() != "help"@.len());
    assert("-V"@.len() != "--help"@.len());
    assert("-V"@[1] != "-h"@[1]);
    assert("-V"@.len() != "?"@.len());
    assert("query"@.len() != ""@.len());
    assert("query"@.len() != "status"@.len());
    assert("query"@.len() != "sync"@.len());
    assert("query"@.len() != "link"@.len());
    assert("query"@.len() != "network"@.len());
    assert("query"@.len() != "net"@.len());
    assert("query"@.len() != "help"@.len());
    assert("query"@.len() != "--help"@.len());
    assert("query"@.len() != "-h"@.len());
    assert("query"@.len() != "?"@.len());
    assert("query"@.len() != "version"@.len());
    assert("query"@.len() != "--version"@.len());
    assert("query"@.len() != "-V"@.len());
    assert("tx"@.len() != ""@.len());
    assert("tx"@.len() != "status"@.len());
    assert("tx"@.len() != "sync"@.len());
    assert("tx"@.len() != "link"@.len());
    assert("tx"@.len() != "network"@.len());
    assert("tx"@.len() != "net"@.len());
    assert("tx"@.len() != "help"@.len());
    assert("tx"@.len() != "--help"@.len());
    assert("tx"@[0] != "-h"@[0]);
    assert("tx"@.len() != "?"@.len());
    assert("tx"@.len() != "version"@.len());
    assert("tx"@.len() != "--version"@.len());
    assert("tx"@[0] != "-V"@[0]);
    assert("keys"@.len() != ""@.len());
    assert("keys"@.len() != "status"@.len());
    assert("keys"@[0] != "sync"@[0]);
    assert("keys"@[0] != "link"@[0]);
    assert("keys"@.len() != "network"@.len());
    assert("keys"@.len() != "net"@.len());
    assert("keys"@[0] != "help"@[0]);
    assert("keys"@.len() != "--help"@.len());
    assert("keys"@.len() != "-h"@.len());
    assert("keys"@.len() != "?"@.len());
    assert("keys"@.len() != "version"@.len());
    assert("keys"@.len() != "--version"@.len());
    assert("keys"@.len() != "-V"@.len());
    assert("start"@.len() != ""@.len());
    assert("start"@.len() != "status"@.len());
    assert("start"@.len() != "sync"@.len());
    assert("start"@.len() != "link"@.len());
    assert("start"@.len() != "network"@.len());
    assert("start"@.len() != "net"@.len());
    assert("start"@.len() != "help"@.len());
    assert("start"@.len() != "--help"@.len());
    assert("start"@.len() != "-h"@.len());
    assert("start"@.len() != "?"@.len());
    assert("start"@.len() != "version"@.len());
    assert("start"@.len() != "--version"@.len());
    assert("start"@.len() != "-V"@.len());
    assert("tendermint"@.len() != ""@.len());
    assert("tendermint"@.len() != "status"@.len());
    assert("tendermint"@.len() != "sync"@.len());
    assert("tendermint"@.len() != "link"@.len());
    assert("tendermint"@.len() != "network"@.len());
    assert("tendermint"@.len() != "net"@.len());
    assert("tendermint"@.len() != "help"@.len());
    assert("tendermint"@.len() != "--help"@.len());
    assert("tendermint"@.len() != "-h"@.len());
    assert("tendermint"@.len() != "?"@.len());
    assert("tendermint"@.len() != "version"@.len());
    assert("tendermint"@.len() != "--version"@.len());
    assert("tendermint"@.len() != "-V"@.len());
}

/// The command that the first argument names.
pub fn command_of(w: &str) -> (c: Command)
    ensures
        c == command_spec(w@),
{
    if same_text(w, "") || same_text(w, "status") {
        Command::Status
    } else if same_text(w, "sync") {
        Command::Sync
    } else if same_text(w, "link") {
        Command::Link
    } else if same_text(w, "network") || same_text(w, "net") {
        Command::Network
    } else if same_text(w, "help") || same_text(w, "--help") || same_text(w, "-h") || same_text(
        w,
        "?",
    ) {
        Command::Help
    } else if same_text(w, "version") || same_text(w, "--version") || same_text(w, "-V") {
        Command::Version
    } else if same_text(w, "query") || same_text(w, "tx") || same_text(w, "keys") || same_text(
        w,
        "start",
    ) || same_text(w, "tendermint") {
        Command::Foreign
    } else {
        Command::Unknown
    }
}

// ── flags ───────────────────────────────────────────────────────────────────

/// Index of the first argument at or after `i` equal to `name`, or the
/// number of arguments.
pub open spec fn first_index_of(args: Seq<Seq<char>>, name: Seq<char>, i: int) -> int
    decreases args.len() - i,
{
    if i >= args.len() {
        args.len() as int
    } else if args[i] == name {
        i
    } else {
        first_index_of(args, name, i + 1)
    }
}

/// The argument after the first occurrence of `name`, if both are there.
pub open spec fn flag_value_spec(args: Seq<Seq<char>>, name: Seq<char>) -> Option<Seq<char>> {
    let i = first_index_of(args, name, 0);
    if i + 1 < args.len() {
        Some(args[i + 1])
    } else {
        None
    }
}

pub fn flag_value(args: &[String], name: &str) -> (r: Option<String>)
    ensures
        match r {
            Some(v) => flag_value_spec(texts(args@), name@) == Some(v@),
            None => flag_value_spec(texts(args@), name@) is None,
        },
{
    let ghost a = texts(args@);
    let n = args.len();
    let mut i: usize = 0;
    while i < n && !same_text(args[i].as_str(), name)
        invariant
            i <= n == args@.len(),
            a == texts(args@),
            first_index_of(a, name@, 0) == first_index_of(a, name@, i as int),
        decreases n - i,
    {
        i += 1;
    }
    if n > 0 && i < n - 1 {
        Some(args[i + 1].clone())
    } else {
        None
    }
}

// ── the RPC endpoint ────────────────────────────────────────────────────────

/// The network names of the cosmos bootloader, which is not this chain.
pub open spec fn is_bootloader_name(name: Seq<char>) -> bool {
    ||| name == "space-pussy"@
    ||| name == "spacepussy"@
    ||| name == "pussy"@
    ||| name == "sp"@
    ||| name == "bostrom"@
    ||| name == "boot"@
}

/// The endpoint chosen by the arguments from `i` on, given the one chosen
/// so far: `--rpc URL` sets it (the last one wins), `--network NAME` and
/// `-n NAME` are refused with `Err(NAME)` when they name the bootloader,
/// and each flag's value is not read as a flag itself.
pub open spec fn rpc_scan(args: Seq<Seq<char>>, i: int, rpc: Seq<char>) -> Result<
    Seq<char>,
    Seq<char>,
>
    decreases args.len() + 2 - i,
{
    if i < 0 || i >= args.len() {
        Ok(rpc)
    } else if args[i] == "--rpc"@ {
        rpc_scan(
            args,
            i + 2,
            if i + 1 < args.len() {
                args[i + 1]
            } else {
                rpc
            },
        )
    } else if args[i] == "--network"@ || args[i] == "-n"@ {
        let name = if i + 1 < args.len() {
            args[i + 1]
        } else {
            ""@
        };
        if is_bootloader_name(name) {
            Err(name)
        } else {
            rpc_scan(args, i + 2, rpc)
        }
    } else {
        rpc_scan(args, i + 1, rpc)
    }
}

pub open spec fn rpc_from_args_spec(args: Seq<Seq<char>>) -> Result<Seq<char>, Seq<char>> {
    rpc_scan(args, 0, DEFAULT_RPC@)
}

fn is_bootloader(name: &str) -> (r: bool)
    ensures
        r == is_bootloader_name(name@),
{
    same_text(name, "space-pussy") || same_text(name, "spacepussy") || same_text(name, "pussy")
        || same_text(name, "sp") || same_text(name, "bostrom") || same_text(name, "boot")
}

/// The endpoint that the arguments choose (see `rpc_scan`); `Err` carries
/// the refused bootloader network name.
pub fn rpc_from_args(args: &[String]) -> (r: Result<String, String>)
    ensures
        match r {
            Ok(u) => rpc_from_args_spec(texts(args@)) == Ok::<Seq<char>, Seq<char>>(u@),
            Err(name) => rpc_from_args_spec(texts(args@)) == Err::<Seq<char>, Seq<char>>(name@),
        },
{
    let ghost a = texts(args@);
    let n = args.len();
    let mut rpc = DEFAULT_RPC.to_owned();
    let mut i: usize = 0;
    while i < n
        invariant
            i <= n == args@.len(),
            a == texts(args@),
            rpc_from_args_spec(a) == rpc_scan(a, i as int, rpc@),
        decreases n - i,
    {
        assert(a[i as int] == args@[i as int]@);
        assert(i + 1 < n ==> a[i + 1] == args@[i + 1]@);
        if same_text(args[i].as_str(), "--rpc") {
            if i < n - 1 {
                rpc = args[i + 1].clone();
                i = i + 2;
            } else {
                assert(rpc_scan(a, i + 2, rpc@) == rpc_scan(a, n as int, rpc@));
                i = n;
            }
        } else if same_text(args[i].as_str(), "--network") || same_text(args[i].as_str(), "-n") {
            let last = i >= n - 1;
            let name: &str = if last {
                ""
            } else {
                args[i + 1].as_str()
            };
            if is_bootloader(name) {
                return Err(name.to_owned());
            }
            if last {
                assert(rpc_scan(a, i + 2, rpc@) == rpc_scan(a, n as int, rpc@));
                i = n;
            } else {
                i = i + 2;
            }
        } else {
            i += 1;
        }
    }
    Ok(rpc)
}

// ── the link request ────────────────────────────────────────────────────────

pub open spec fn starts_with_dash(a: Seq<char>) -> bool {
    a.len() > 0 && a[0] == '-'
}

/// The arguments that are not flags: those that do not start with `-`.
pub open spec fn positional(args: Seq<Seq<char>>) -> Seq<Seq<char>>
    decreases args.len(),
{
    if args.len() == 0 {
        Seq::empty()
    } else if starts_with_dash(args.last()) {
        positional(args.drop_last())
    } else {
        positional(args.drop_last()).push(args.last())
    }
}

/// What `cyber link` was asked to do.
pub struct LinkRequest {
    pub from: String,
    pub to: String,
    pub neuron: String,
    pub amount: u64,
    pub valence: i8,
}

pub struct LinkRequestView {
    pub from: Seq<char>,
    pub to: Seq<char>,
    pub neuron: Seq<char>,
    pub amount: u64,
    pub valence: i8,
}

impl View for LinkRequest {
    type V = LinkRequestView;

    open spec fn view(&self) -> LinkRequestView {
        LinkRequestView {
            from: self.from@,
            to: self.to@,
            neuron: self.neuron@,
            amount: self.amount,
            valence: self.valence,
        }
    }
}

/// The number under a flag, or `default` when the flag is missing or its
/// value is not such a number.
pub open spec fn amount_flag(args: Seq<Seq<char>>, default: u64) -> u64 {
    match flag_value_spec(args, "--amount"@) {
        Some(v) => match parse_u64_spec(v) {
            Some(n) => n,
            None => default,
        },
        None => default,
    }
}

pub open spec fn valence_flag(args: Seq<Seq<char>>) -> i8 {
    match flag_value_spec(args, "--valence"@) {
        Some(v) => match parse_i8_spec(v) {
            Some(n) => n,
            None => 0,
        },
        None => 0,
    }
}

/// The link request: the first two positional arguments are the source and
/// target labels; `--neuron` defaults to `01`, `--amount` to 1 and
/// `--valence` to 0. Fewer than two positional arguments is a usage error.
pub open spec fn link_request_spec(args: Seq<Seq<char>>) -> Option<LinkRequestView> {
    let pos = positional(args);
    if pos.len() < 2 {
        None
    } else {
        Some(
            LinkRequestView {
                from: pos[0],
                to: pos[1],
                neuron: text_or(flag_value_spec(args, "--neuron"@), "01"@),
                amount: amount_flag(args, 1),
                valence: valence_flag(args),
            },
        )
    }
}

/// The positional arguments (see `positional`).
pub fn positional_args(args: &[String]) -> (r: Vec<String>)
    ensures
        texts(r@) == positional(texts(args@)),
{
    let ghost a = texts(args@);
    let mut out: Vec<String> = Vec::new();
    let mut i: usize = 0;
    while i < args.len()
        invariant
            i <= args@.len(),
            a == texts(args@),
            texts(out@) == positional(a.subrange(0, i as int)),
        decreases args@.len() - i,
    {
        let ghost prev = a.subrange(0, i as int);
        assert(a.subrange(0, i + 1).drop_last() =~= prev);
        let cs = chars_of(args[i].as_str());
        if !(cs.len() > 0 && cs[0] == '-') {
            out.push(args[i].clone());
            assert(texts(out@) =~= positional(a.subrange(0, i + 1)));
        }
        i += 1;
    }
    assert(a.subrange(0, args@.len() as int) =~= a);
    out
}

pub fn link_request(args: &[String]) -> (r: Option<LinkRequest>)
    ensures
        match r {
            Some(q) => link_request_spec(texts(args@)) == Some(q@),
            None => link_request_spec(texts(args@)) is None,
        },
{
    let pos = positional_args(args);
    if pos.len() < 2 {
        return None;
    }
    assert(texts(pos@)[0] == pos@[0]@);
    assert(texts(pos@)[1] == pos@[1]@);
    let neuron = match flag_value(args, "--neuron") {
        Some(v) => v,
        None => "01".to_owned(),
    };
    let amount = match flag_value(args, "--amount") {
        Some(v) => match parse_u64(v.as_str()) {
            Some(n) => n,
            None => 1,
        },
        None => 1,
    };
    let valence = match flag_value(args, "--valence") {
        Some(v) => match parse_i8(v.as_str()) {
            Some(n) => n,
            None => 0,
        },
        None => 0,
    };
    Some(
        LinkRequest {
            from: pos[0].clone(),
            to: pos[1].clone(),
            neuron,
            amount,
            valence,
        },
    )
}

} // verus!
