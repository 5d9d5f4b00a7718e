//! The configuration of the relay: its forwarding rules, its defaults, and
//! where the configuration file is looked for.

use vstd::prelude::*;
use vstd::string::StringExecFns;
use crate::decimal::{decimal_text, push_decimal};
use crate::events::opt_text;

verus! {

/// One forwarding rule: connections to `local_port` are forwarded to
/// `remote_address:remote_port`.
#[derive(Debug)]
pub struct ConfigConnect {
    /// The name of the rule, for the records.
    pub name: String,
    pub local_port: u16,
    pub remote_port: u16,
    /// An IP address or a host name.
    pub remote_address: String,
    /// How long a direction may stay without a byte, in seconds.
    pub idle_timeout_seconds: Option<u64>,
}

/// The whole configuration.
#[derive(Debug)]
pub struct Config {
    pub connect_list: Vec<ConfigConnect>,
    /// The path of the database; without it nothing is recorded.
    pub database_path: Option<String>,
    /// How long rows may wait for their batch, in seconds.
    pub db_buffer_time_sec: Option<u64>,
    /// The number of rows at which a batch is written at once.
    pub max_buffer_count: Option<usize>,
    /// The address of the statistics server; without it none is started.
    pub http_listen: Option<String>,
}

/// The idle timeout of a rule that names none, in seconds.
pub const DEFAULT_IDLE_TIMEOUT_SECONDS: u64 = 10;

/// The time that rows may wait for their batch where the configuration
/// names none, in seconds.
pub const DEFAULT_BUFFER_TIME_SECONDS: u64 = 5;

/// The size of a full batch where the configuration names none.
pub const DEFAULT_MAX_BUFFER_COUNT: usize = 1000;

/// The argument that is followed by the path of the configuration file.
pub open spec fn config_flag() -> Seq<char> {
    "--config"@
}

/// The name of the configuration file where no argument names it.
pub open spec fn default_config_name() -> Seq<char> {
    "rs-port-forward.config.json"@
}

/// The directory of the configuration file on a system that is not Windows.
pub open spec fn default_config_dir() -> Seq<char> {
    "/etc/"@
}

/// The arguments of a program, each read as a sequence of characters.
pub open spec fn arg_views(args: Seq<String>) -> Seq<Seq<char>> {
    args.map_values(|a: String| a@)
}

/// The place of the first `--config` among the arguments, or their number
/// where there is none.
pub open spec fn first_flag(args: Seq<Seq<char>>) -> int
    decreases args.len(),
{
    if args.len() == 0 {
        0
    } else if args[0] == config_flag() {
        0
    } else {
        1 + first_flag(args.drop_first())
    }
}

/// The path that the arguments give for the configuration file: the
/// argument behind the first `--config`, if one stands there.
pub open spec fn config_file_of(args: Seq<Seq<char>>) -> Option<Seq<char>> {
    let at = first_flag(args);
    if at + 1 < args.len() {
        Some(args[at + 1])
    } else {
        None
    }
}

/// `first_flag` is the least place that holds `--config`: no earlier
/// argument is the flag, and the argument there is, unless there is none.
pub proof fn law_first_flag_is_least(args: Seq<Seq<char>>)
    ensures
        0 <= first_flag(args) <= args.len(),
        first_flag(args) < args.len() ==> args[first_flag(args)] == config_flag(),
        forall|i: int| 0 <= i < first_flag(args) ==> #[trigger] args[i] != config_flag(),
    decreases args.len(),
{
    if args.len() > 0 && args[0] != config_flag() {
        let rest = args.drop_first();
        law_first_flag_is_least(rest);
        assert forall|i: int| 0 <= i < first_flag(args) implies #[trigger] args[i]
            != config_flag() by {
            if i > 0 {
                assert(args[i] == rest[i - 1]);
            }
        }
    }
}

/// Where `--config` stands at none of the first `n` places, the first one
/// stands where it does among the arguments from place `n` on.
proof fn lemma_first_flag_after(args: Seq<Seq<char>>, n: int)
    requires
        0 <= n <= args.len(),
        forall|i: int| 0 <= i < n ==> #[trigger] args[i] != config_flag(),
    ensures
        first_flag(args) == n + first_flag(args.skip(n)),
    decreases n,
{
    if n == 0 {
        assert(args.skip(0) =~= args);
    } else {
        let rest = args.drop_first();
        assert(args[0] != config_flag());
        assert forall|i: int| 0 <= i < n - 1 implies #[trigger] rest[i] != config_flag() by {
            assert(rest[i] == args[i + 1]);
        }
        lemma_first_flag_after(rest, n - 1);
        assert(rest.skip(n - 1) =~= args.skip(n));
    }
}

/// The path of the configuration file that the arguments name: the argument
/// behind the first `--config`. There is none where `--config` is missing or
/// is the last argument.
pub fn get_config_file(args: &[String]) -> (path: Option<String>)
    ensures
        opt_text(path) == config_file_of(arg_views(args@)),
{
    let ghost given = arg_views(args@);
    let flag = "--config".to_owned();
    let mut i: usize = 0;
    while i < args.len()
        invariant
            i <= args@.len(),
            given == arg_views(args@),
            flag@ == config_flag(),
            forall|k: int| 0 <= k < i ==> #[trigger] given[k] != config_flag(),
        decreases args@.len() - i,
    {
        if args[i] == flag {
            proof {
                assert(given[i as int] == args@[i as int]@);
                lemma_first_flag_after(given, i as int);
                assert(given.skip(i as int)[0] == given[i as int]);
            }
            if i + 1 < args.len() {
                assert(given[i + 1] == args@[i + 1]@);
                return Some(args[i + 1].clone());
            }
            return None;
        }
        assert(given[i as int] == args@[i as int]@);
        i += 1;
    }
    proof {
        lemma_first_flag_after(given, i as int);
        assert(given.skip(i as int) =~= Seq::<Seq<char>>::empty());
    }
    None
}

/// The path of the configuration file: the one that the arguments name, as
/// it stands; else the default name, in `/etc/` unless the system is Windows.
pub open spec fn config_path_of(args: Seq<Seq<char>>, windows: bool) -> Seq<char> {
    match config_file_of(args) {
        Some(path) => path,
        None => if windows {
            default_config_name()
        } else {
            default_config_dir() + default_config_name()
        },
    }
}

/// The path from which the configuration is loaded.
pub fn config_file_path(args: &[String], windows: bool) -> (path: String)
    ensures
        path@ == config_path_of(arg_views(args@), windows),
{
    match get_config_file(args) {
        Some(path) => path,
        None => {
            if windows {
                "rs-port-forward.config.json".to_owned()
            } else {
                "/etc/".to_owned().concat("rs-port-forward.config.json")
            }
        },
    }
}

/// The empty text.
pub fn empty_string() -> (s: String)
    ensures
        s@ == Seq::<char>::empty(),
{
    String::new()
}

/// The given number, or the default where none is given.
pub open spec fn or_default(given: Option<u64>, default: u64) -> u64 {
    match given {
        Some(n) => n,
        None => default,
    }
}

/// A rule with its texts read as sequences of characters.
pub struct ConfigConnectView {
    pub name: Seq<char>,
    pub local_port: u16,
    pub remote_port: u16,
    pub remote_address: Seq<char>,
    pub idle_timeout_seconds: Option<u64>,
}

impl View for ConfigConnect {
    type V = ConfigConnectView;

    open spec fn view(&self) -> ConfigConnectView {
        ConfigConnectView {
            name: self.name@,
            local_port: self.local_port,
            remote_port: self.remote_port,
            remote_address: self.remote_address@,
            idle_timeout_seconds: self.idle_timeout_seconds,
        }
    }
}

impl ConfigConnectView {
    /// The address on which the listener of the rule binds: every interface,
    /// at the local port.
    pub open spec fn bind_address(self) -> Seq<char> {
        "0.0.0.0:"@ + decimal_text(self.local_port as nat)
    }

    /// The address that a relay of the rule dials.
    pub open spec fn remote_target(self) -> Seq<char> {
        self.remote_address + ":"@ + decimal_text(self.remote_port as nat)
    }

    /// The line that presents the rule at the given place of the list.
    pub open spec fn summary(self, place: nat) -> Seq<char> {
        decimal_text(place) + " | Connection: "@ + self.name + " >> local_port: "@ + decimal_text(
            self.local_port as nat,
        ) + ", remote host:  "@ + self.remote_address + ", remote port: "@ + decimal_text(
            self.remote_port as nat,
        )
    }
}

impl ConfigConnect {
    /// How long a direction of a connection may stay without a byte, in
    /// seconds: what the rule names, else ten seconds.
    pub fn idle_timeout(&self) -> (seconds: u64)
        ensures
            seconds == or_default(self.idle_timeout_seconds, DEFAULT_IDLE_TIMEOUT_SECONDS),
    {
        match self.idle_timeout_seconds {
            Some(n) => n,
            None => DEFAULT_IDLE_TIMEOUT_SECONDS,
        }
    }

    /// The address on which the listener of the rule binds.
    pub fn bind_address(&self) -> (address: String)
        ensures
            address@ == self@.bind_address(),
    {
        let mut address = "0.0.0.0:".to_owned();
        push_decimal(&mut address, self.local_port as u64);
        address
    }

    /// The address that a relay of the rule dials.
    pub fn remote_target(&self) -> (address: String)
        ensures
            address@ == self@.remote_target(),
    {
        let mut address = self.remote_address.clone();
        address.append(":");
        push_decimal(&mut address, self.remote_port as u64);
        address
    }

    /// The line that presents the rule at the given place of the list.
    pub fn summary(&self, place: usize) -> (line: String)
        ensures
            line@ == self@.summary(place as nat),
    {
        let mut line = String::new();
        push_decimal(&mut line, place as u64);
        line.append(" | Connection: ");
        line.append(self.name.as_str());
        line.append(" >> local_port: ");
        push_decimal(&mut line, self.local_port as u64);
        line.append(", remote host:  ");
        line.append(self.remote_address.as_str());
        line.append(", remote port: ");
        push_decimal(&mut line, self.remote_port as u64);
        assert(line@ =~= self@.summary(place as nat));
        line
    }
}

/// The heading of the list of rules.
pub open spec fn summary_heading() -> Seq<char> {
    "Connection list:"@
}

/// The lines that present the rules: the heading, then one line for each
/// rule, numbered from one.
pub open spec fn summary_of(rules: Seq<ConfigConnect>) -> Seq<Seq<char>> {
    seq![summary_heading()] + Seq::new(rules.len(), |i: int| rules[i]@.summary((i + 1) as nat))
}

/// Lines read as sequences of characters.
pub open spec fn line_views(lines: Seq<String>) -> Seq<Seq<char>> {
    lines.map_values(|l: String| l@)
}

impl Config {
    /// How long rows may wait for their batch, in seconds: what the
    /// configuration names, else five seconds.
    pub fn buffer_time(&self) -> (seconds: u64)
        ensures
            seconds == or_default(self.db_buffer_time_sec, DEFAULT_BUFFER_TIME_SECONDS),
    {
        match self.db_buffer_time_sec {
            Some(n) => n,
            None => DEFAULT_BUFFER_TIME_SECONDS,
        }
    }

    /// The number of rows at which a batch is written at once: what the
    /// configuration names, else a thousand.
    pub fn max_buffer(&self) -> (count: usize)
        ensures
            count == match self.max_buffer_count {
                Some(n) => n,
                None => DEFAULT_MAX_BUFFER_COUNT,
            },
    {
        match self.max_buffer_count {
            Some(n) => n,
            None => DEFAULT_MAX_BUFFER_COUNT,
        }
    }

    /// The lines that present the rules at the start of the program.
    pub fn summary(&self) -> (lines: Vec<String>)
        ensures
            line_views(lines@) == summary_of(self.connect_list@),
    {
        let mut lines: Vec<String> = Vec::new();
        lines.push("Connection list:".to_owned());
        let mut i: usize = 0;
        while i < self.connect_list.len()
            invariant
                i <= self.connect_list@.len(),
                lines@.len() == i + 1,
                lines@[0]@ == summary_heading(),
                forall|k: int|
                    0 <= k < i ==> (#[trigger] lines@[k + 1])@ == self.connect_list@[k]@.summary(
                        (k + 1) as nat,
                    ),
            decreases self.connect_list@.len() - i,
        {
            lines.push(self.connect_list[i].summary(i + 1));
            i += 1;
        }
        assert(line_views(lines@) =~= summary_of(self.connect_list@));
        lines
    }
}

} // verus!
