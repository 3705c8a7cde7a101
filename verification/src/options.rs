//! Command-line arguments of the gateway and of version apps.

use vstd::prelude::*;

use crate::error::HyperError;
use crate::text::{owned, push_str, starts_with, text_eq, text_starts_with, views};

verus! {

/// Configuration file used when none is given.
pub const DEFAULT_CONFIG_PATH: &'static str = "hypergate.toml";

/// State file used when none is given.
pub const DEFAULT_STATE_PATH: &'static str = "hypergate.state.json";

/// What the gateway process does.
#[derive(Clone, Copy, PartialEq, Eq, Structural)]
pub enum GatewayMode {
    /// Run the proxy and the management services.
    Start,
    /// Validate the configuration and exit.
    Check,
    /// Print help and exit.
    Help,
}

/// Gateway command-line options.
pub struct GatewayOptions {
    /// What to do.
    pub mode: GatewayMode,
    /// Configuration file path.
    pub config_path: String,
    /// State file path.
    pub state_path: String,
}

/// The flags after the mode word: `--config <path>` anywhere, `--state <path>`
/// only when starting; the last occurrence wins.
pub open spec fn parse_flags(args: Seq<Seq<char>>, mode: GatewayMode, config: Seq<char>, state: Seq<char>) -> Result<(Seq<char>, Seq<char>), Seq<char>>
    decreases args.len(),
{
    if args.len() == 0 {
        Ok((config, state))
    } else if args[0] == "--config"@ {
        if args.len() < 2 {
            Err("--config requires a path"@)
        } else {
            parse_flags(args.skip(2), mode, args[1], state)
        }
    } else if args[0] == "--state"@ && mode == GatewayMode::Start {
        if args.len() < 2 {
            Err("--state requires a path"@)
        } else {
            parse_flags(args.skip(2), mode, config, args[1])
        }
    } else {
        Err("unknown argument: "@ + args[0])
    }
}

/// The mode the first argument selects and the arguments left for flags; a
/// leading flag means `start`.
pub open spec fn parse_mode(args: Seq<Seq<char>>) -> Result<(GatewayMode, Seq<Seq<char>>), Seq<char>> {
    if args.len() == 0 {
        Ok((GatewayMode::Start, args))
    } else if args[0] == "start"@ {
        Ok((GatewayMode::Start, args.skip(1)))
    } else if args[0] == "check"@ {
        Ok((GatewayMode::Check, args.skip(1)))
    } else if args[0] == "help"@ || args[0] == "-h"@ || args[0] == "--help"@ {
        Ok((GatewayMode::Help, args.skip(1)))
    } else if starts_with(args[0], "-"@) {
        Ok((GatewayMode::Start, args))
    } else {
        Err("expected start, check, or help"@)
    }
}

/// What the gateway's arguments select: mode, configuration path and state
/// path, or the error text.
pub open spec fn gateway_options(args: Seq<Seq<char>>) -> Result<(GatewayMode, Seq<char>, Seq<char>), Seq<char>> {
    match parse_mode(args) {
        Err(e) => Err(e),
        Ok((mode, rest)) => match parse_flags(rest, mode, DEFAULT_CONFIG_PATH@, DEFAULT_STATE_PATH@) {
            Err(e) => Err(e),
            Ok((c, s)) => Ok((mode, c, s)),
        },
    }
}

impl GatewayOptions {
    /// Parses the gateway's arguments (without the program name).
    pub fn parse(args: Vec<String>) -> (r: Result<GatewayOptions, HyperError>)
        ensures
            match gateway_options(views(args@)) {
                Ok((m, c, s)) => r matches Ok(o) && o.mode == m && o.config_path@ == c && o.state_path@ == s,
                Err(msg) => r matches Err(e) && e.message@ == msg,
            },
    {
        let ghost all = views(args@);
        let mut mode = GatewayMode::Start;
        let mut i: usize = 0;
        if args.len() > 0 {
            let first = args[0].as_str();
            if text_eq(first, "start") {
                i = 1;
            } else if text_eq(first, "check") {
                mode = GatewayMode::Check;
                i = 1;
            } else if text_eq(first, "help") || text_eq(first, "-h") || text_eq(first, "--help") {
                mode = GatewayMode::Help;
                i = 1;
            } else if text_starts_with(first, "-") {
            } else {
                return Err(HyperError::new("expected start, check, or help"));
            }
        }
        assert(all.skip(0) =~= all);
        assert(parse_mode(all) == Ok::<(GatewayMode, Seq<Seq<char>>), Seq<char>>((mode, all.skip(i as int))));
        let mut config = owned(DEFAULT_CONFIG_PATH);
        let mut state = owned(DEFAULT_STATE_PATH);
        while i < args.len()
            invariant
                i <= args@.len(),
                all == views(args@),
                match parse_mode(all) {
                    Ok((m, rest)) => m == mode && parse_flags(rest, mode, DEFAULT_CONFIG_PATH@, DEFAULT_STATE_PATH@) == parse_flags(all.skip(i as int), mode, config@, state@),
                    Err(_) => false,
                },
            decreases args.len() - i,
        {
            let argument = args[i].as_str();
            let ghost rest = all.skip(i as int);
            assert(rest[0] == all[i as int]);
            if text_eq(argument, "--config") {
                if i + 1 >= args.len() {
                    return Err(HyperError::new("--config requires a path"));
                }
                assert(rest.skip(2) =~= all.skip(i + 2));
                config = args[i + 1].clone();
                i = i + 2;
            } else if text_eq(argument, "--state") && mode == GatewayMode::Start {
                if i + 1 >= args.len() {
                    return Err(HyperError::new("--state requires a path"));
                }
                assert(rest.skip(2) =~= all.skip(i + 2));
                state = args[i + 1].clone();
                i = i + 2;
            } else {
                let mut m = owned("unknown argument: ");
                push_str(&mut m, argument);
                return Err(HyperError::from_message(m));
            }
        }
        assert(all.skip(i as int) =~= Seq::<Seq<char>>::empty());
        Ok(GatewayOptions { mode, config_path: config, state_path: state })
    }

    /// The help text: one line per usage.
    pub fn help_lines() -> (r: Vec<&'static str>)
        ensures
            r@.len() == 3,
            r@[0]@ == "HyperGate gateway"@,
            r@[1]@ == "  hypergate start [--config <path>] [--state <path>]"@,
            r@[2]@ == "  hypergate check [--config <path>]"@,
    {
        let mut r: Vec<&'static str> = Vec::new();
        r.push("HyperGate gateway");
        r.push("  hypergate start [--config <path>] [--state <path>]");
        r.push("  hypergate check [--config <path>]");
        r
    }
}

/// The listen address a version app's arguments give (the last
/// `--listen <addr>` wins), or the error text.
pub open spec fn listen_arg(args: Seq<Seq<char>>, found: Option<Seq<char>>) -> Result<Option<Seq<char>>, Seq<char>>
    decreases args.len(),
{
    if args.len() == 0 {
        Ok(found)
    } else if args[0] == "--listen"@ {
        if args.len() < 2 {
            Err("missing --listen value"@)
        } else {
            listen_arg(args.skip(2), Some(args[1]))
        }
    } else {
        Err("unknown version app argument: "@ + args[0])
    }
}

/// Reads a version app's arguments (without the program name): only
/// `--listen <addr>` is accepted, so a misspelt flag never starts the app on
/// the wrong port.
pub fn version_app_listen(args: Vec<String>) -> (r: Result<Option<String>, HyperError>)
    ensures
        match listen_arg(views(args@), None) {
            Ok(l) => r matches Ok(x) && crate::endpoint::opt_view(x) == l,
            Err(msg) => r matches Err(e) && e.message@ == msg,
        },
{
    let ghost all = views(args@);
    let mut listen: Option<String> = None;
    let mut i: usize = 0;
    assert(all.skip(0) =~= all);
    while i < args.len()
        invariant
            i <= args@.len(),
            all == views(args@),
            listen_arg(all, None) == listen_arg(all.skip(i as int), crate::endpoint::opt_view(listen)),
        decreases args.len() - i,
    {
        let arg = args[i].as_str();
        let ghost rest = all.skip(i as int);
        assert(rest[0] == all[i as int]);
        if text_eq(arg, "--listen") {
            if i + 1 >= args.len() {
                return Err(HyperError::new("missing --listen value"));
            }
            assert(rest.skip(2) =~= all.skip(i + 2));
            listen = Some(args[i + 1].clone());
            i = i + 2;
        } else {
            let mut m = owned("unknown version app argument: ");
            push_str(&mut m, arg);
            return Err(HyperError::from_message(m));
        }
    }
    assert(all.skip(i as int) =~= Seq::<Seq<char>>::empty());
    Ok(listen)
}

/// The error text for an unparsable `--listen` value.
pub fn invalid_listen_message(error: &str) -> (r: HyperError)
    ensures
        r.message@ == "invalid --listen value: "@ + error@,
{
    let mut m = owned("invalid --listen value: ");
    push_str(&mut m, error);
    HyperError::from_message(m)
}

} // verus!
