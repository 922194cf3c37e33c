//! What the environment and the command line ask for.
use vstd::prelude::*;

use crate::text::{
    chars_of, find_last, last_value, list_has, opt_text, parse_unsigned, parsed_unsigned,
    same_text, starts_with, string_of, text_starts_with, texts, the_last_value_counts,
};

verus! {

pub const DEFAULT_HOST: &'static str = "127.0.0.1";

pub const BRIDGE_PORT_FIRST: u16 = 1337;

pub const BRIDGE_PORT_LAST: u16 = 1347;

pub const BRIDGE_HYPERV_FIRST: u16 = 60000;

pub const BRIDGE_HYPERV_LAST: u16 = 60020;

pub const WEBSOCKET_PORT_FIRST: u16 = 6463;

pub const WEBSOCKET_PORT_LAST: u16 = 6472;

pub const WEBSOCKET_HYPERV_FIRST: u16 = 60100;

pub const WEBSOCKET_HYPERV_LAST: u16 = 60120;

/// The settings of one run.
#[derive(Debug, Clone)]
pub struct RuntimeConfig {
    pub debug: bool,
    pub bridge_enabled: bool,
    pub steam_enabled: bool,
    pub process_scanning_enabled: bool,
    pub state_file_enabled: bool,
    pub parent_monitor_enabled: bool,
    pub bridge_host: String,
    pub bridge_ports: Vec<u16>,
    pub websocket_host: String,
    pub websocket_ports: Vec<u16>,
    pub data_dir: Option<String>,
    pub ignore_list_file: Option<String>,
    pub list_database: bool,
    pub list_detected: bool,
    pub update_db: bool,
    pub validate_fixes: bool,
}

/// Why the settings could not be read.
#[derive(Debug)]
pub enum ConfigError {
    /// The variable or the option `name` has `value`, which is no port.
    InvalidPort { name: String, value: String },
}

/// What a run is for.
#[derive(Debug, Clone, Copy, PartialEq, Eq, Structural)]
pub enum RunMode {
    ListDatabase,
    ListDetected,
    UpdateDatabase,
    ValidateFixes,
    Serve,
}

/// The ports from `first` to `last`, both included.
pub open spec fn port_range(first: u16, last: u16) -> Seq<u16> {
    if first <= last {
        Seq::new((last - first + 1) as nat, |i: int| (first + i) as u16)
    } else {
        Seq::empty()
    }
}

/// The ports that the bridge tries when none is asked for.
pub open spec fn default_bridge_ports() -> Seq<u16> {
    port_range(BRIDGE_PORT_FIRST, BRIDGE_PORT_LAST) + port_range(
        BRIDGE_HYPERV_FIRST,
        BRIDGE_HYPERV_LAST,
    )
}

/// The ports that the RPC server tries.
pub open spec fn default_websocket_ports() -> Seq<u16> {
    port_range(WEBSOCKET_PORT_FIRST, WEBSOCKET_PORT_LAST) + port_range(
        WEBSOCKET_HYPERV_FIRST,
        WEBSOCKET_HYPERV_LAST,
    )
}

/// Whether one of `args` is `name`.
pub open spec fn has_arg(args: Seq<String>, name: Seq<char>) -> bool {
    texts(args).contains(name)
}

/// The value that `args` give to the option `name`, as the argument behind it
/// or behind an equals sign: the last one where it is given twice.
pub open spec fn option_value(args: Seq<Seq<char>>, name: Seq<char>) -> Option<Seq<char>>
    decreases args.len(),
{
    if args.len() == 0 {
        None
    } else if starts_with(args.last(), name + "="@) {
        Some(args.last().skip((name + "="@).len() as int))
    } else if args.len() > 1 && args[args.len() - 2] == name {
        Some(args.last())
    } else {
        option_value(args.drop_last(), name)
    }
}

/// The setting that the option `name` or else the variable `variable` gives:
/// where it was found, and its value.
pub open spec fn setting(
    vars: Seq<(String, String)>,
    args: Seq<String>,
    name: Seq<char>,
    variable: Seq<char>,
) -> Option<(Seq<char>, Seq<char>)> {
    match (option_value(texts(args), name), last_value(vars, variable)) {
        (Some(value), _) => Some((name, value)),
        (None, Some(value)) => Some((variable, value)),
        (None, None) => None,
    }
}

/// The port that is asked for, and where.
pub open spec fn bridge_port_setting(
    vars: Seq<(String, String)>,
    args: Seq<String>,
) -> Option<(Seq<char>, Seq<char>)> {
    setting(vars, args, "--bridge-port"@, "ARRPC_BRIDGE_PORT"@)
}

/// The host in the variable `name`, or the default one.
pub open spec fn host_of(vars: Seq<(String, String)>, name: Seq<char>) -> Seq<char> {
    match last_value(vars, name) {
        Some(host) => host,
        None => DEFAULT_HOST@,
    }
}

/// The port that `value` spells, if it does.
pub open spec fn port_of(value: Seq<char>) -> Option<nat> {
    parsed_unsigned(value, u16::MAX as nat)
}

/// The ports that the bridge tries; none where what is asked for is no port.
pub open spec fn bridge_ports_of(vars: Seq<(String, String)>, args: Seq<String>) -> Option<
    Seq<u16>,
> {
    match bridge_port_setting(vars, args) {
        Some((_, value)) => match port_of(value) {
            Some(port) => Some(seq![port as u16]),
            None => None,
        },
        None => Some(default_bridge_ports()),
    }
}

/// `config` is what `vars` and `args` ask for.
pub open spec fn is_config_of(
    config: RuntimeConfig,
    vars: Seq<(String, String)>,
    args: Seq<String>,
) -> bool {
    &&& config.debug == (last_value(vars, "ARRPC_DEBUG"@) is Some || has_arg(args, "--debug"@)
        || has_arg(args, "-d"@))
    &&& config.bridge_enabled == (last_value(vars, "ARRPC_NO_BRIDGE"@) is None)
    &&& config.steam_enabled == (last_value(vars, "ARRPC_NO_STEAM"@) is None)
    &&& config.process_scanning_enabled == (last_value(vars, "ARRPC_NO_PROCESS_SCANNING"@) is None
        && !has_arg(args, "--no-process-scanning"@))
    &&& config.state_file_enabled == (last_value(vars, "ARRPC_STATE_FILE"@) is Some)
    &&& config.parent_monitor_enabled == (last_value(vars, "ARRPC_PARENT_MONITOR"@) is Some)
    &&& config.bridge_host@ == host_of(vars, "ARRPC_BRIDGE_HOST"@)
    &&& bridge_ports_of(vars, args) == Some(config.bridge_ports@)
    &&& config.websocket_host@ == host_of(vars, "ARRPC_WEBSOCKET_HOST"@)
    &&& config.websocket_ports@ == default_websocket_ports()
    &&& opt_text(config.data_dir) == match setting(
        vars,
        args,
        "--data-dir"@,
        "ARRPC_DATA_DIR"@,
    ) {
        Some((_, dir)) => Some(dir),
        None => None,
    }
    &&& opt_text(config.ignore_list_file) == last_value(vars, "ARRPC_IGNORE_LIST_FILE"@)
    &&& config.list_database == has_arg(args, "--list-database"@)
    &&& config.list_detected == has_arg(args, "--list-detected"@)
    &&& config.update_db == (has_arg(args, "--update-db"@) || has_arg(args, "update-db"@))
    &&& config.validate_fixes == (has_arg(args, "--validate-fixes"@) || has_arg(
        args,
        "validate-fixes"@,
    ))
}

fn push_ports(ports: &mut Vec<u16>, first: u16, last: u16)
    requires
        first <= last < u16::MAX,
    ensures
        final(ports)@ == old(ports)@ + port_range(first, last),
{
    let ghost start = ports@;
    let mut port: u16 = first;
    while port <= last
        invariant
            first <= last < u16::MAX,
            first <= port <= last + 1,
            ports@ == start + port_range(first, last).take(port - first),
        decreases last + 1 - port,
    {
        assert(port_range(first, last).take(port - first + 1) =~= port_range(first, last).take(
            port - first,
        ).push(port));
        ports.push(port);
        port += 1;
    }
    assert(port_range(first, last).take(port - first) =~= port_range(first, last));
}

/// The ports that the bridge tries when none is asked for.
pub fn bridge_ports() -> (r: Vec<u16>)
    ensures
        r@ == default_bridge_ports(),
{
    let mut ports: Vec<u16> = Vec::new();
    push_ports(&mut ports, BRIDGE_PORT_FIRST, BRIDGE_PORT_LAST);
    push_ports(&mut ports, BRIDGE_HYPERV_FIRST, BRIDGE_HYPERV_LAST);
    assert(ports@ =~= default_bridge_ports());
    ports
}

/// The ports that the RPC server tries.
pub fn websocket_ports() -> (r: Vec<u16>)
    ensures
        r@ == default_websocket_ports(),
{
    let mut ports: Vec<u16> = Vec::new();
    push_ports(&mut ports, WEBSOCKET_PORT_FIRST, WEBSOCKET_PORT_LAST);
    push_ports(&mut ports, WEBSOCKET_HYPERV_FIRST, WEBSOCKET_HYPERV_LAST);
    assert(ports@ =~= default_websocket_ports());
    ports
}

fn host(vars: &Vec<(String, String)>, name: &str) -> (r: String)
    ensures
        r@ == host_of(vars@, name@),
{
    match find_last(vars, name) {
        Some(host) => host,
        None => DEFAULT_HOST.to_string(),
    }
}

fn find_option(args: &Vec<String>, name: &str) -> (r: Option<String>)
    ensures
        opt_text(r) == option_value(texts(args@), name@),
{
    let mut prefix = name.to_string();
    prefix.append("=");
    let ghost all = texts(args@);
    let mut i: usize = args.len();
    assert(all.take(i as int) =~= all);
    while i > 0
        invariant
            i <= args@.len(),
            all == texts(args@),
            prefix@ == name@ + "="@,
            option_value(all, name@) == option_value(all.take(i as int), name@),
        decreases i,
    {
        let ghost list = all.take(i as int);
        assert(list.drop_last() =~= all.take(i - 1));
        assert(list.last() == args@[i - 1]@);
        if text_starts_with(args[i - 1].as_str(), prefix.as_str()) {
            let text = chars_of(args[i - 1].as_str());
            let start: usize = chars_of(prefix.as_str()).len();
            let value = &text.as_slice()[start..text.len()];
            assert(value@ =~= list.last().skip(prefix@.len() as int));
            return Some(string_of(value));
        }
        if i > 1 {
            assert(list[i - 2] == args@[i - 2]@);
            if same_text(args[i - 2].as_str(), name) {
                return Some(args[i - 1].clone());
            }
        }
        i -= 1;
    }
    None
}

fn find_setting(
    vars: &Vec<(String, String)>,
    args: &Vec<String>,
    name: &str,
    variable: &str,
) -> (r: Option<(String, String)>)
    ensures
        match setting(vars@, args@, name@, variable@) {
            Some((found, value)) => r matches Some((n, v)) && n@ == found && v@ == value,
            None => r is None,
        },
{
    match find_option(args, name) {
        Some(value) => Some((name.to_string(), value)),
        None => match find_last(vars, variable) {
            Some(value) => Some((variable.to_string(), value)),
            None => None,
        },
    }
}

/// The port that `value`, found under `name`, spells.
pub fn parse_port(name: &str, value: &str) -> (r: Result<u16, ConfigError>)
    ensures
        match port_of(value@) {
            Some(port) => r matches Ok(p) && p == port,
            None => r matches Err(ConfigError::InvalidPort { name: n, value: v }) && n@ == name@
                && v@ == value@,
        },
{
    match parse_unsigned(chars_of(value).as_slice(), u16::MAX as u64) {
        Some(port) => Ok(port as u16),
        None => Err(
            ConfigError::InvalidPort { name: name.to_string(), value: value.to_string() },
        ),
    }
}

/// The outcome of reading the settings: they are what is asked for, unless what is
/// asked for as a port is none.
pub open spec fn is_parse_outcome(
    r: Result<RuntimeConfig, ConfigError>,
    vars: Seq<(String, String)>,
    args: Seq<String>,
) -> bool {
    match bridge_ports_of(vars, args) {
        Some(_) => r matches Ok(config) && is_config_of(config, vars, args),
        None => r matches Err(ConfigError::InvalidPort { name, value }) && Some((name@, value@))
            == bridge_port_setting(vars, args),
    }
}

/// What a run is for, by the tools that were asked for.
pub open spec fn mode_of(
    list_database: bool,
    list_detected: bool,
    update_db: bool,
    validate_fixes: bool,
) -> RunMode {
    if list_database {
        RunMode::ListDatabase
    } else if list_detected {
        RunMode::ListDetected
    } else if update_db {
        RunMode::UpdateDatabase
    } else if validate_fixes {
        RunMode::ValidateFixes
    } else {
        RunMode::Serve
    }
}

impl RuntimeConfig {
    /// The settings that environment variables and command line arguments ask for.
    pub fn parse(vars: Vec<(String, String)>, args: Vec<String>) -> (r: Result<
        RuntimeConfig,
        ConfigError,
    >)
        ensures
            is_parse_outcome(r, vars@, args@),
    {
        let asked = find_setting(&vars, &args, "--bridge-port", "ARRPC_BRIDGE_PORT");
        let ports: Vec<u16> = match &asked {
            Some((name, value)) => match parse_port(name.as_str(), value.as_str()) {
                Ok(port) => {
                    let mut ports: Vec<u16> = Vec::new();
                    ports.push(port);
                    assert(ports@ =~= seq![port]);
                    ports
                },
                Err(error) => {
                    return Err(error);
                },
            },
            None => bridge_ports(),
        };
        Ok(
            RuntimeConfig {
                debug: find_last(&vars, "ARRPC_DEBUG").is_some() || list_has(&args, "--debug")
                    || list_has(&args, "-d"),
                bridge_enabled: find_last(&vars, "ARRPC_NO_BRIDGE").is_none(),
                steam_enabled: find_last(&vars, "ARRPC_NO_STEAM").is_none(),
                process_scanning_enabled: find_last(&vars, "ARRPC_NO_PROCESS_SCANNING").is_none()
                    && !list_has(&args, "--no-process-scanning"),
                state_file_enabled: find_last(&vars, "ARRPC_STATE_FILE").is_some(),
                parent_monitor_enabled: find_last(&vars, "ARRPC_PARENT_MONITOR").is_some(),
                bridge_host: host(&vars, "ARRPC_BRIDGE_HOST"),
                bridge_ports: ports,
                websocket_host: host(&vars, "ARRPC_WEBSOCKET_HOST"),
                websocket_ports: websocket_ports(),
                data_dir: match find_setting(&vars, &args, "--data-dir", "ARRPC_DATA_DIR") {
                    Some((_, dir)) => Some(dir),
                    None => None,
                },
                ignore_list_file: find_last(&vars, "ARRPC_IGNORE_LIST_FILE"),
                list_database: list_has(&args, "--list-database"),
                list_detected: list_has(&args, "--list-detected"),
                update_db: list_has(&args, "--update-db") || list_has(&args, "update-db"),
                validate_fixes: list_has(&args, "--validate-fixes") || list_has(
                    &args,
                    "validate-fixes",
                ),
            },
        )
    }

    /// What the run is for: the first of the tools that was asked for, else serving.
    pub fn mode(&self) -> (r: RunMode)
        ensures
            r == mode_of(
                self.list_database,
                self.list_detected,
                self.update_db,
                self.validate_fixes,
            ),
    {
        if self.list_database {
            RunMode::ListDatabase
        } else if self.list_detected {
            RunMode::ListDetected
        } else if self.update_db {
            RunMode::UpdateDatabase
        } else if self.validate_fixes {
            RunMode::ValidateFixes
        } else {
            RunMode::Serve
        }
    }
}

impl ConfigError {
    /// The error in words.
    pub fn message(&self) -> (r: String)
        ensures
            r@ == match *self {
                ConfigError::InvalidPort { name, value } => "invalid "@ + name@ + ": "@ + value@,
            },
    {
        match self {
            ConfigError::InvalidPort { name, value } => {
                let mut out = "invalid ".to_string();
                out.append(name.as_str());
                out.append(": ");
                out.append(value.as_str());
                out
            },
        }
    }
}

// ---------------------------------------------------------------------------
// Laws
// ---------------------------------------------------------------------------
/// The variable `name` is set, to whatever value.
pub open spec fn is_set(vars: Seq<(String, String)>, name: Seq<char>) -> bool {
    exists|i: int| 0 <= i < vars.len() && (#[trigger] vars[i]).0@ == name
}

/// `name` is one of the arguments.
pub open spec fn is_given(args: Seq<String>, name: Seq<char>) -> bool {
    exists|i: int| 0 <= i < args.len() && (#[trigger] args[i])@ == name
}

proof fn lemma_is_set(vars: Seq<(String, String)>, name: Seq<char>)
    ensures
        last_value(vars, name) is Some <==> is_set(vars, name),
{
    the_last_value_counts(vars, name);
}

proof fn lemma_is_given(args: Seq<String>, name: Seq<char>)
    ensures
        has_arg(args, name) <==> is_given(args, name),
{
    let list = texts(args);
    if has_arg(args, name) {
        let i = choose|i: int| 0 <= i < list.len() && list[i] == name;
        assert(args[i]@ == name);
    }
    if is_given(args, name) {
        let i = choose|i: int| 0 <= i < args.len() && (#[trigger] args[i])@ == name;
        assert(list[i] == name);
    }
}

/// Each switch is turned by its variables and arguments and by nothing else: the
/// log, the state file and the watch over the parent are off until one asks for
/// them, the bridge, Steam and the scans are on until one forbids them.
pub proof fn switches_are_turned_by_their_names(
    config: RuntimeConfig,
    vars: Seq<(String, String)>,
    args: Seq<String>,
)
    requires
        is_config_of(config, vars, args),
    ensures
        config.debug <==> is_set(vars, "ARRPC_DEBUG"@) || is_given(args, "--debug"@) || is_given(
            args,
            "-d"@,
        ),
        config.state_file_enabled <==> is_set(vars, "ARRPC_STATE_FILE"@),
        config.parent_monitor_enabled <==> is_set(vars, "ARRPC_PARENT_MONITOR"@),
        !config.bridge_enabled <==> is_set(vars, "ARRPC_NO_BRIDGE"@),
        !config.steam_enabled <==> is_set(vars, "ARRPC_NO_STEAM"@),
        !config.process_scanning_enabled <==> is_set(vars, "ARRPC_NO_PROCESS_SCANNING"@)
            || is_given(args, "--no-process-scanning"@),
{
    lemma_is_set(vars, "ARRPC_DEBUG"@);
    lemma_is_set(vars, "ARRPC_STATE_FILE"@);
    lemma_is_set(vars, "ARRPC_PARENT_MONITOR"@);
    lemma_is_set(vars, "ARRPC_NO_BRIDGE"@);
    lemma_is_set(vars, "ARRPC_NO_STEAM"@);
    lemma_is_set(vars, "ARRPC_NO_PROCESS_SCANNING"@);
    lemma_is_given(args, "--debug"@);
    lemma_is_given(args, "-d"@);
    lemma_is_given(args, "--no-process-scanning"@);
}

/// Each tool is asked for by its own names, and by no other.
pub proof fn tools_are_asked_for_by_their_names(
    config: RuntimeConfig,
    vars: Seq<(String, String)>,
    args: Seq<String>,
)
    requires
        is_config_of(config, vars, args),
    ensures
        config.list_database <==> is_given(args, "--list-database"@),
        config.list_detected <==> is_given(args, "--list-detected"@),
        config.update_db <==> is_given(args, "--update-db"@) || is_given(args, "update-db"@),
        config.validate_fixes <==> is_given(args, "--validate-fixes"@) || is_given(
            args,
            "validate-fixes"@,
        ),
{
    lemma_is_given(args, "--list-database"@);
    lemma_is_given(args, "--list-detected"@);
    lemma_is_given(args, "--update-db"@);
    lemma_is_given(args, "update-db"@);
    lemma_is_given(args, "--validate-fixes"@);
    lemma_is_given(args, "validate-fixes"@);
}

/// Hosts and files are those of their variables, the last value of each; without
/// one the host is this machine and there is no file.
pub proof fn hosts_and_files_come_from_variables(
    config: RuntimeConfig,
    vars: Seq<(String, String)>,
    args: Seq<String>,
    i: int,
)
    requires
        is_config_of(config, vars, args),
    ensures
        !is_set(vars, "ARRPC_BRIDGE_HOST"@) ==> config.bridge_host@ == "127.0.0.1"@,
        !is_set(vars, "ARRPC_WEBSOCKET_HOST"@) ==> config.websocket_host@ == "127.0.0.1"@,
        !is_set(vars, "ARRPC_IGNORE_LIST_FILE"@) ==> config.ignore_list_file is None,
        is_last_of_its_name(vars, i) ==> {
            let (name, value) = (vars[i].0@, vars[i].1@);
            &&& name == "ARRPC_BRIDGE_HOST"@ ==> config.bridge_host@ == value
            &&& name == "ARRPC_WEBSOCKET_HOST"@ ==> config.websocket_host@ == value
            &&& name == "ARRPC_IGNORE_LIST_FILE"@ ==> config.ignore_list_file is Some
                && config.ignore_list_file->0@ == value
        },
{
    the_last_value_counts(vars, "ARRPC_BRIDGE_HOST"@);
    the_last_value_counts(vars, "ARRPC_WEBSOCKET_HOST"@);
    the_last_value_counts(vars, "ARRPC_IGNORE_LIST_FILE"@);
    if is_last_of_its_name(vars, i) {
        lemma_last_of_its_name(vars, i);
    }
}

/// The variable at `i` is not set again behind it.
pub open spec fn is_last_of_its_name(vars: Seq<(String, String)>, i: int) -> bool {
    &&& 0 <= i < vars.len()
    &&& forall|j: int| i < j < vars.len() ==> (#[trigger] vars[j]).0@ != vars[i].0@
}

proof fn lemma_last_of_its_name(vars: Seq<(String, String)>, i: int)
    requires
        is_last_of_its_name(vars, i),
    ensures
        last_value(vars, vars[i].0@) == Some(vars[i].1@),
{
    let name = vars[i].0@;
    the_last_value_counts(vars, name);
    let value = last_value(vars, name)->0;
    let k = choose|k: int|
        0 <= k < vars.len() && (#[trigger] vars[k]).0@ == name && vars[k].1@ == value && (forall|
            j: int,
        |
            k < j < vars.len() ==> (#[trigger] vars[j]).0@ != name);
    if k < i {
        assert(vars[i].0@ != name);
    } else if i < k {
        assert(vars[k].0@ != name);
    }
}

/// The value of an option is the one that stands last: the argument behind its
/// name, or what follows its name and an equals sign. Another argument changes
/// nothing.
pub proof fn the_last_option_counts(
    args: Seq<Seq<char>>,
    name: Seq<char>,
    value: Seq<char>,
    other: Seq<char>,
)
    ensures
        option_value(Seq::empty(), name) is None,
        option_value(args.push(name + seq!['='] + value), name) == Some(value),
        !starts_with(value, name + seq!['=']) ==> option_value(args.push(name).push(value), name)
            == Some(value),
        !starts_with(other, name + seq!['=']) && (args.len() == 0 || args.last() != name)
            ==> option_value(args.push(other), name) == option_value(args, name),
{
    reveal_strlit("=");
    assert("="@ =~= seq!['=']);
    let whole = name + seq!['='] + value;
    let head = name + seq!['='];
    assert(whole.subrange(0, head.len() as int) =~= head);
    assert(whole.skip(head.len() as int) =~= value);
    assert(args.push(other).drop_last() =~= args);
    if args.len() > 0 {
        assert(args.push(other)[args.len() - 1] == args.last());
    }
}

/// The bridge tries the port that is asked for and no other. An option is asked
/// before a variable, and what is no port is no setting at all.
pub proof fn the_port_that_is_asked_for_is_tried(
    vars: Seq<(String, String)>,
    args: Seq<String>,
)
    ensures
        ({
            let option = option_value(texts(args), "--bridge-port"@);
            let variable = last_value(vars, "ARRPC_BRIDGE_PORT"@);
            let asked = if option is Some {
                option
            } else {
                variable
            };
            &&& asked is Some && parsed_unsigned(asked->0, 65535) is Some ==> {
                let ports = bridge_ports_of(vars, args);
                &&& ports is Some
                &&& ports->0.len() == 1
                &&& ports->0[0] == parsed_unsigned(asked->0, 65535)->0
            }
            &&& asked is Some && parsed_unsigned(asked->0, 65535) is None ==> {
                &&& bridge_ports_of(vars, args) is None
                &&& bridge_port_setting(vars, args) == Some(
                    (
                        if option is Some {
                            "--bridge-port"@
                        } else {
                            "ARRPC_BRIDGE_PORT"@
                        },
                        asked->0,
                    ),
                )
            }
            &&& asked is None ==> bridge_ports_of(vars, args) == Some(default_bridge_ports())
        }),
{
    let option = option_value(texts(args), "--bridge-port"@);
    let variable = last_value(vars, "ARRPC_BRIDGE_PORT"@);
    let asked = if option is Some {
        option
    } else {
        variable
    };
    if asked is Some {
        assert(port_of(asked->0) == parsed_unsigned(asked->0, 65535));
    }
}

/// The data is looked for where an option says, else where a variable says, and
/// else where the program has it.
pub proof fn the_data_directory_is_asked_for(
    config: RuntimeConfig,
    vars: Seq<(String, String)>,
    args: Seq<String>,
)
    requires
        is_config_of(config, vars, args),
    ensures
        ({
            let option = option_value(texts(args), "--data-dir"@);
            let variable = last_value(vars, "ARRPC_DATA_DIR"@);
            &&& option is Some ==> opt_text(config.data_dir) == option
            &&& option is None ==> opt_text(config.data_dir) == variable
        }),
{
}

/// The settings are refused only where the option, or without it the variable, for
/// the port of the bridge is no port, and then by its name and value.
pub proof fn only_bad_ports_are_refused(
    r: Result<RuntimeConfig, ConfigError>,
    vars: Seq<(String, String)>,
    args: Seq<String>,
)
    requires
        is_parse_outcome(r, vars, args),
    ensures
        ({
            let option = option_value(texts(args), "--bridge-port"@);
            let variable = last_value(vars, "ARRPC_BRIDGE_PORT"@);
            let asked = if option is Some {
                option
            } else {
                variable
            };
            &&& r is Err <==> asked is Some && parsed_unsigned(asked->0, 65535) is None
            &&& r is Ok ==> is_config_of(r->Ok_0, vars, args)
            &&& r is Ok && asked is Some ==> r->Ok_0.bridge_ports@.len() == 1
                && r->Ok_0.bridge_ports@[0] == parsed_unsigned(asked->0, 65535)->0
            &&& r is Ok && asked is None ==> r->Ok_0.bridge_ports@ == default_bridge_ports()
            &&& (r matches Err(ConfigError::InvalidPort { name, value }) ==> Some(value@) == asked
                && name@ == (if option is Some {
                "--bridge-port"@
            } else {
                "ARRPC_BRIDGE_PORT"@
            }))
        }),
{
    the_port_that_is_asked_for_is_tried(vars, args);
}

/// A run is for the tool that was asked for, for the first of several in the order
/// of listing the database, listing the games, updating and checking, and serves
/// where none was asked for.
pub proof fn runs_are_for_the_first_tool(
    list_database: bool,
    list_detected: bool,
    update_db: bool,
    validate_fixes: bool,
)
    ensures
        ({
            let mode = mode_of(list_database, list_detected, update_db, validate_fixes);
            &&& mode == RunMode::ListDatabase <==> list_database
            &&& mode == RunMode::ListDetected <==> list_detected && !list_database
            &&& mode == RunMode::UpdateDatabase <==> update_db && !list_detected && !list_database
            &&& mode == RunMode::ValidateFixes <==> validate_fixes && !update_db && !list_detected
                && !list_database
            &&& mode == RunMode::Serve <==> !validate_fixes && !update_db && !list_detected
                && !list_database
        }),
{
}

/// Without a setting the bridge tries the ports from 1337 to 1347 and then those
/// from 60000 to 60020, and the RPC server those from 6463 to 6472 and then those
/// from 60100 to 60120, upwards.
pub proof fn default_ports_are_tried_upwards(i: int)
    ensures
        default_bridge_ports().len() == 32,
        0 <= i < 11 ==> default_bridge_ports()[i] == 1337 + i,
        11 <= i < 32 ==> default_bridge_ports()[i] == 60000 + i - 11,
        default_websocket_ports().len() == 31,
        0 <= i < 10 ==> default_websocket_ports()[i] == 6463 + i,
        10 <= i < 31 ==> default_websocket_ports()[i] == 60100 + i - 10,
{
}

} // verus!
