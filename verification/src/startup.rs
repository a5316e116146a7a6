//! What the program needs before it can serve: its two arguments, the
//! address to bind, the routes, and the settings of the watcher.

use vstd::prelude::*;
use vstd::string::*;

verus! {

/// The route of the long-poll endpoint.
pub const POLL_ROUTE: &'static str = "/poll/v2rayU/pac/proxy.js";

/// The route of the health endpoint.
pub const HEALTH_ROUTE: &'static str = "/health";

/// How the one watch target is watched.
#[derive(Debug, Clone, Copy, PartialEq, Eq)]
pub struct WatchSettings {
    /// Seconds between two scans of the target.
    pub poll_interval_secs: u64,
    /// Whether a file counts as changed only if its content differs.
    pub compare_contents: bool,
    /// Whether everything below the target is watched too.
    pub recursive: bool,
}

impl WatchSettings {
    /// The settings of the bridge: a scan every second, contents compared,
    /// the whole tree below the target.
    pub fn standard() -> (settings: WatchSettings)
        ensures
            settings == (WatchSettings {
                poll_interval_secs: 1,
                compare_contents: true,
                recursive: true,
            }),
    {
        WatchSettings { poll_interval_secs: 1, compare_contents: true, recursive: true }
    }
}

/// What a run of the program is started with.
#[derive(Debug, Clone, PartialEq, Eq)]
pub struct Startup {
    /// The path to watch.
    pub watch_target: String,
    /// The address on which the server listens.
    pub bind_address: String,
    /// How the target is watched.
    pub settings: WatchSettings,
}

/// The refusal to start without a path and a port.
#[derive(Debug, Clone, PartialEq, Eq)]
pub struct UsageError {
    /// The line to show to the user.
    pub message: String,
}

/// The loopback address with the given port.
pub open spec fn loopback_address(port: Seq<char>) -> Seq<char> {
    "127.0.0.1:"@ + port
}

/// The usage line for a program of the given name.
pub open spec fn usage_line(program: Seq<char>) -> Seq<char> {
    "Usage: "@ + program + " <file_path> <port>"@
}

/// The name under which the program was called: the first argument, or
/// nothing where there is none.
pub open spec fn program_name(args: Seq<String>) -> Seq<char> {
    if args.len() > 0 {
        args[0]@
    } else {
        Seq::empty()
    }
}

/// The address to bind: the loopback interface and the given port.
pub fn bind_address(port: &str) -> (address: String)
    ensures
        address@ == loopback_address(port@),
{
    let mut address = String::from_str("127.0.0.1:");
    address.append(port);
    address
}

/// Reads the program's arguments: its name, the path to watch, the port.
/// Arguments behind the third are ignored. With fewer than three there is
/// nothing to start, and the usage line is returned instead.
pub fn parse_startup(args: &Vec<String>) -> (parsed: Result<Startup, UsageError>)
    ensures
        args.len() >= 3 <==> parsed is Ok,
        parsed matches Ok(startup) ==> {
            &&& startup.watch_target@ == args[1]@
            &&& startup.bind_address@ == loopback_address(args[2]@)
            &&& startup.settings == WatchSettings {
                poll_interval_secs: 1,
                compare_contents: true,
                recursive: true,
            }
        },
        parsed matches Err(error) ==> error.message@ == usage_line(program_name(args@)),
{
    if args.len() < 3 {
        let mut message = String::from_str("Usage: ");
        if args.len() > 0 {
            message.append(args[0].as_str());
        }
        message.append(" <file_path> <port>");
        assert(message@ =~= usage_line(program_name(args@)));
        return Err(UsageError { message });
    }
    Ok(
        Startup {
            watch_target: args[1].clone(),
            bind_address: bind_address(args[2].as_str()),
            settings: WatchSettings::standard(),
        },
    )
}

} // verus!
