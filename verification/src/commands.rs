//! The gateway's console commands, the version-app console's default
//! commands, and the views those commands print.

use vstd::prelude::*;

use crate::command::{CommandOutput, path_of, CommandArguments, CommandRegistry, CompletionKind, CompletionProvider, RegisteredCommand, CommandScope};
use crate::config::ConfigValidator;
use crate::console::ConsoleOptions;
use crate::error::HyperError;
use crate::table::{fields_view, panel_text, render_panel, tables_view, Table, TableView};
use crate::text::{owned, push_str, starts_with, text_starts_with, views, words};

verus! {

/// The handlers of the gateway's console commands.
#[derive(Clone, Copy, PartialEq, Eq, Structural)]
pub enum GatewayHandler {
    /// Help scoped to `show`.
    ShowHelp,
    /// Gateway status.
    Status,
    /// Version endpoints and live requests.
    Versions,
    /// Show the configuration.
    ConfigShow,
    /// Validate the configuration.
    ConfigCheck,
    /// Reload the configuration.
    Reload,
    /// Help scoped to `version`.
    VersionHelp,
    /// Move new traffic to a version.
    Switch,
    /// Drain a version.
    Drain,
    /// Stop an idle version.
    Stop,
    /// Switch back to the previous active version.
    Rollback,
    /// The command tree.
    Help,
    /// How to stop the process.
    Exit,
}

/// Whether `c` is registered as given (words of `path`, and the rest).
pub open spec fn registered_as<H>(c: RegisteredCommand<H>, path: Seq<char>, usage: Seq<char>, description: Seq<char>, completion: CompletionKind, arguments: CommandArguments, handler: H) -> bool {
    &&& path_of(c) == words(path)
    &&& c.usage@ == usage
    &&& c.description@ == description
    &&& c.scope == CommandScope::Console
    &&& c.completion == completion
    &&& c.arguments == arguments
    &&& c.visible
    &&& c.handler == handler
}

fn command<H>(path: &str, usage: &str, description: &str, completion: CompletionKind, arguments: CommandArguments, handler: H) -> (c: RegisteredCommand<H>)
    ensures
        registered_as(c, path@, usage@, description@, completion, arguments, handler),
{
    RegisteredCommand {
        path: crate::text::split_whitespace_text(path),
        usage: owned(usage),
        description: owned(description),
        scope: CommandScope::Console,
        completion,
        arguments,
        visible: true,
        handler,
    }
}

/// The gateway's console commands, in registration order.
pub fn gateway_commands() -> (r: Vec<RegisteredCommand<GatewayHandler>>)
    ensures
        r@.len() == 13,
        registered_as(r@[0], "show"@, "show"@, "inspect runtime"@, CompletionKind::NoCompletion, CommandArguments::NoArguments, GatewayHandler::ShowHelp),
        registered_as(r@[1], "show status"@, "show status"@, "gateway status"@, CompletionKind::NoCompletion, CommandArguments::NoArguments, GatewayHandler::Status),
        registered_as(r@[2], "show versions"@, "show versions"@, "version endpoints and live requests"@, CompletionKind::NoCompletion, CommandArguments::NoArguments, GatewayHandler::Versions),
        registered_as(r@[3], "config"@, "config"@, "show config"@, CompletionKind::NoCompletion, CommandArguments::NoArguments, GatewayHandler::ConfigShow),
        registered_as(r@[4], "config check"@, "config check"@, "validate config"@, CompletionKind::NoCompletion, CommandArguments::NoArguments, GatewayHandler::ConfigCheck),
        registered_as(r@[5], "config reload"@, "config reload"@, "reload config"@, CompletionKind::NoCompletion, CommandArguments::NoArguments, GatewayHandler::Reload),
        registered_as(r@[6], "version"@, "version"@, "version lifecycle"@, CompletionKind::NoCompletion, CommandArguments::NoArguments, GatewayHandler::VersionHelp),
        registered_as(r@[7], "version switch"@, "version switch <version>"@, "move new traffic"@, CompletionKind::Version, CommandArguments::Any, GatewayHandler::Switch),
        registered_as(r@[8], "version drain"@, "version drain <version>"@, "stop accepting new traffic"@, CompletionKind::Version, CommandArguments::Any, GatewayHandler::Drain),
        registered_as(r@[9], "version stop"@, "version stop <version>"@, "stop an idle version"@, CompletionKind::Version, CommandArguments::Any, GatewayHandler::Stop),
        registered_as(r@[10], "version rollback"@, "version rollback"@, "switch back to previous active"@, CompletionKind::NoCompletion, CommandArguments::NoArguments, GatewayHandler::Rollback),
        registered_as(r@[11], "help"@, "help [path]"@, "show command tree"@, CompletionKind::NoCompletion, CommandArguments::Any, GatewayHandler::Help),
        registered_as(r@[12], "exit"@, "exit"@, "show stop hint"@, CompletionKind::NoCompletion, CommandArguments::NoArguments, GatewayHandler::Exit),
{
    let none = CompletionKind::NoCompletion;
    let version = CompletionKind::Version;
    let fixed = CommandArguments::NoArguments;
    let any = CommandArguments::Any;
    let mut r: Vec<RegisteredCommand<GatewayHandler>> = Vec::new();
    r.push(command("show", "show", "inspect runtime", none, fixed, GatewayHandler::ShowHelp));
    r.push(command("show status", "show status", "gateway status", none, fixed, GatewayHandler::Status));
    r.push(command("show versions", "show versions", "version endpoints and live requests", none, fixed, GatewayHandler::Versions));
    r.push(command("config", "config", "show config", none, fixed, GatewayHandler::ConfigShow));
    r.push(command("config check", "config check", "validate config", none, fixed, GatewayHandler::ConfigCheck));
    r.push(command("config reload", "config reload", "reload config", none, fixed, GatewayHandler::Reload));
    r.push(command("version", "version", "version lifecycle", none, fixed, GatewayHandler::VersionHelp));
    r.push(command("version switch", "version switch <version>", "move new traffic", version, any, GatewayHandler::Switch));
    r.push(command("version drain", "version drain <version>", "stop accepting new traffic", version, any, GatewayHandler::Drain));
    r.push(command("version stop", "version stop <version>", "stop an idle version", version, any, GatewayHandler::Stop));
    r.push(command("version rollback", "version rollback", "switch back to previous active", none, fixed, GatewayHandler::Rollback));
    r.push(command("help", "help [path]", "show command tree", none, any, GatewayHandler::Help));
    r.push(command("exit", "exit", "show stop hint", none, fixed, GatewayHandler::Exit));
    r
}

/// The single argument of a command, refusing extra ones.
pub fn single_arg(args: &Vec<String>, missing: &str) -> (r: Result<String, HyperError>)
    ensures
        args@.len() > 1 ==> (r matches Err(e) && e.message@ == "too many arguments"@),
        args@.len() == 0 ==> (r matches Err(e) && e.message@ == missing@),
        args@.len() == 1 ==> (r matches Ok(a) && a@ == args@[0]@),
{
    if args.len() > 1 {
        return Err(HyperError::new("too many arguments"));
    }
    if args.len() == 0 {
        return Err(HyperError::new(missing));
    }
    Ok(args[0].clone())
}

/// Completes version arguments from the configured version ids.
pub struct GatewayCompletionProvider {
    /// The configured version ids.
    pub versions: Vec<String>,
}

impl GatewayCompletionProvider {
    /// The configured ids starting with `prefix`, for version arguments; none otherwise.
    pub fn candidates(&self, kind: CompletionKind, prefix: &str) -> (r: Vec<String>)
        ensures
            kind != CompletionKind::Version ==> r@.len() == 0,
            kind == CompletionKind::Version ==> views(r@) == views(self.versions@).filter(|v: Seq<char>| starts_with(v, prefix@)),
    {
        let mut r: Vec<String> = Vec::new();
        if kind != CompletionKind::Version {
            return r;
        }
        let ghost all = views(self.versions@);
        let mut i: usize = 0;
        assert(all.take(0) =~= Seq::<Seq<char>>::empty());
        proof {
            reveal(Seq::filter);
        }
        while i < self.versions.len()
            invariant
                i <= self.versions@.len(),
                all == views(self.versions@),
                views(r@) == all.take(i as int).filter(|v: Seq<char>| starts_with(v, prefix@)),
            decreases self.versions.len() - i,
        {
            proof {
                reveal(Seq::filter);
                assert(all.take(i + 1).drop_last() =~= all.take(i as int));
            }
            if text_starts_with(self.versions[i].as_str(), prefix) {
                let v = self.versions[i].clone();
                let ghost before = r@;
                r.push(v);
                proof {
                    crate::text::lemma_views_push(before, v);
                }
            }
            i = i + 1;
        }
        assert(all.take(all.len() as int) =~= all);
        r
    }
}

impl CompletionProvider for GatewayCompletionProvider {
    open spec fn offers(&self, kind: CompletionKind, prefix: Seq<char>) -> Seq<Seq<char>> {
        if kind == CompletionKind::Version {
            views(self.versions@).filter(|v: Seq<char>| starts_with(v, prefix))
        } else {
            Seq::empty()
        }
    }

    fn complete(&self, kind: CompletionKind, prefix: &str) -> (r: Vec<String>) {
        self.candidates(kind, prefix)
    }
}

/// Completes no arguments.
pub struct EmptyCompletionProvider;

impl CompletionProvider for EmptyCompletionProvider {
    open spec fn offers(&self, kind: CompletionKind, prefix: Seq<char>) -> Seq<Seq<char>> {
        Seq::empty()
    }

    fn complete(&self, kind: CompletionKind, prefix: &str) -> (r: Vec<String>) {
        Vec::new()
    }
}

// ---------------------------------------------------------------------------
// Version-app console
// ---------------------------------------------------------------------------

/// A version app's console: its commands, the state they run with, the
/// argument completion and the console settings.
pub struct VersionAppConsole<H, S, P> {
    /// Commands (the SDK's defaults and the app's own).
    pub registry: CommandRegistry<H>,
    /// State the commands run with.
    pub state: S,
    /// Argument completion.
    pub completion_provider: P,
    /// Prompt and banner.
    pub options: ConsoleOptions,
}

impl<H, S, P: CompletionProvider> VersionAppConsole<H, S, P> {
    /// A console from its parts.
    pub fn new(registry: CommandRegistry<H>, state: S, completion_provider: P, options: ConsoleOptions) -> (c: Self)
        ensures
            c.registry == registry,
            c.state == state,
            c.completion_provider == completion_provider,
            c.options == options,
    {
        VersionAppConsole { registry, state, completion_provider, options }
    }
}

/// The version-app console's default commands: `show`, `show status`,
/// `help` and `exit`, run by the given handlers.
pub fn default_commands<H>(show_help: H, status: H, help: H, exit: H) -> (r: Vec<RegisteredCommand<H>>)
    ensures
        r@.len() == 4,
        registered_as(r@[0], "show"@, "show"@, "inspect version app"@, CompletionKind::NoCompletion, CommandArguments::NoArguments, show_help),
        registered_as(r@[1], "show status"@, "show status"@, "version app status"@, CompletionKind::NoCompletion, CommandArguments::NoArguments, status),
        registered_as(r@[2], "help"@, "help [path]"@, "show command tree"@, CompletionKind::NoCompletion, CommandArguments::Any, help),
        registered_as(r@[3], "exit"@, "exit"@, "show stop hint"@, CompletionKind::NoCompletion, CommandArguments::NoArguments, exit),
{
    let mut r: Vec<RegisteredCommand<H>> = Vec::new();
    r.push(command("show", "show", "inspect version app", CompletionKind::NoCompletion, CommandArguments::NoArguments, show_help));
    r.push(command("show status", "show status", "version app status", CompletionKind::NoCompletion, CommandArguments::NoArguments, status));
    r.push(command("help", "help [path]", "show command tree", CompletionKind::NoCompletion, CommandArguments::Any, help));
    r.push(command("exit", "exit", "show stop hint", CompletionKind::NoCompletion, CommandArguments::NoArguments, exit));
    r
}

/// Whether a version app's arguments only ask for help.
pub fn should_print_help(args: &Vec<String>) -> (r: bool)
    ensures
        r == (args@.len() == 1 && (args@[0]@ == "-h"@ || args@[0]@ == "--help"@ || args@[0]@ == "help"@)),
{
    args.len() == 1 && (crate::text::text_eq(args[0].as_str(), "-h") || crate::text::text_eq(args[0].as_str(), "--help")
        || crate::text::text_eq(args[0].as_str(), "help"))
}

/// A version app's status panel; `listen` is its listen address as text.
pub fn version_status(app: &str, listen: &str) -> (s: String)
    ensures
        s@ == panel_text("Version Status"@, seq![("app"@, app@), ("listen"@, "http://"@ + listen@)], Seq::empty()),
{
    let mut url = owned("http://");
    push_str(&mut url, listen);
    let fields = vec![(owned("app"), owned(app)), (owned("listen"), url)];
    let tables: Vec<Table> = Vec::new();
    assert(fields_view(fields@) =~= seq![("app"@, app@), ("listen"@, "http://"@ + listen@)]);
    assert(tables_view(tables@) =~= Seq::<TableView>::empty());
    render_panel("Version Status", fields, tables)
}

/// The help text of a version app's command line.
pub fn version_app_help_lines(default_listen: &str) -> (r: Vec<String>)
    ensures
        r@.len() == 4,
        r@[0]@ == "HyperGate version app"@,
        r@[1]@ == "  start with default listen: "@ + default_listen@,
        r@[2]@ == "  override listen: --listen <addr>"@,
        r@[3]@ == "  commands are available in the running console"@,
{
    let mut second = owned("  start with default listen: ");
    push_str(&mut second, default_listen);
    let r = vec![
        owned("HyperGate version app"),
        second,
        owned("  override listen: --listen <addr>"),
        owned("  commands are available in the running console"),
    ];
    r
}

// ---------------------------------------------------------------------------
// Demo app configuration
// ---------------------------------------------------------------------------

/// The demo version app's configuration.
#[derive(Clone)]
pub struct DemoConfig {
    /// Shown name.
    pub name: String,
    /// Greeting text.
    pub greeting: String,
}

/// Checks that the demo configuration names something to greet with.
pub fn validate_demo_config(config: &DemoConfig) -> (r: Result<(), HyperError>)
    ensures
        r is Ok <==> crate::text::trim(config.name@).len() > 0 && crate::text::trim(config.greeting@).len() > 0,
        r matches Err(e) ==> e.message@ == if crate::text::trim(config.name@).len() == 0 {
            "demo config name is empty"@
        } else {
            "demo config greeting is empty"@
        },
{
    if crate::text::trim_text(config.name.as_str()).as_str().unicode_len() == 0 {
        return Err(HyperError::new("demo config name is empty"));
    }
    if crate::text::trim_text(config.greeting.as_str()).as_str().unicode_len() == 0 {
        return Err(HyperError::new("demo config greeting is empty"));
    }
    Ok(())
}

/// Whether the demo configuration names something to greet with.
pub open spec fn demo_config_ok(config: &DemoConfig) -> bool {
    crate::text::trim(config.name@).len() > 0 && crate::text::trim(config.greeting@).len() > 0
}

/// The demo configuration's validator: `validate_demo_config`.
pub struct DemoConfigValidator;

impl ConfigValidator<DemoConfig> for DemoConfigValidator {
    open spec fn accepts(&self, config: &DemoConfig) -> bool {
        demo_config_ok(config)
    }

    open spec fn refusal(&self, config: &DemoConfig) -> Seq<char> {
        if crate::text::trim(config.name@).len() == 0 {
            "demo config name is empty"@
        } else {
            "demo config greeting is empty"@
        }
    }

    fn validate(&self, config: &DemoConfig) -> (r: Result<(), HyperError>) {
        validate_demo_config(config)
    }
}

/// The demo configuration panel at a revision.
pub fn demo_config_panel(revision: u64, config: &DemoConfig) -> (s: String)
    ensures
        s@ == panel_text("Demo Config"@, seq![
            ("revision"@, crate::text::decimal(revision as nat)),
            ("name"@, config.name@),
            ("greeting"@, config.greeting@),
        ], Seq::empty()),
{
    let fields = vec![
        (owned("revision"), crate::text::u64_to_text(revision)),
        (owned("name"), config.name.clone()),
        (owned("greeting"), config.greeting.clone()),
    ];
    let tables: Vec<Table> = Vec::new();
    assert(fields_view(fields@) =~= seq![
        ("revision"@, crate::text::decimal(revision as nat)),
        ("name"@, config.name@),
        ("greeting"@, config.greeting@),
    ]);
    assert(tables_view(tables@) =~= Seq::<TableView>::empty());
    render_panel("Demo Config", fields, tables)
}

/// The handlers of the demo version app's console commands.
#[derive(Clone, Copy, PartialEq, Eq, Structural)]
pub enum DemoHandler {
    /// Help scoped to `show`.
    ShowHelp,
    /// The version app's status.
    Status,
    /// The command tree.
    Help,
    /// How to stop the process.
    Exit,
    /// `app info`: the demo app's name, process and address.
    Info,
    /// `app config`: the demo configuration.
    Config,
    /// `app reload`: reload the demo configuration.
    Reload,
}

/// The demo version app's console commands: the defaults, then `app info`,
/// `app config` and `app reload`.
pub fn demo_commands() -> (r: Vec<RegisteredCommand<DemoHandler>>)
    ensures
        r@.len() == 7,
        registered_as(r@[0], "show"@, "show"@, "inspect version app"@, CompletionKind::NoCompletion, CommandArguments::NoArguments, DemoHandler::ShowHelp),
        registered_as(r@[1], "show status"@, "show status"@, "version app status"@, CompletionKind::NoCompletion, CommandArguments::NoArguments, DemoHandler::Status),
        registered_as(r@[2], "help"@, "help [path]"@, "show command tree"@, CompletionKind::NoCompletion, CommandArguments::Any, DemoHandler::Help),
        registered_as(r@[3], "exit"@, "exit"@, "show stop hint"@, CompletionKind::NoCompletion, CommandArguments::NoArguments, DemoHandler::Exit),
        registered_as(r@[4], "app info"@, "app info"@, "show demo app info"@, CompletionKind::NoCompletion, CommandArguments::NoArguments, DemoHandler::Info),
        registered_as(r@[5], "app config"@, "app config"@, "show demo config"@, CompletionKind::NoCompletion, CommandArguments::NoArguments, DemoHandler::Config),
        registered_as(r@[6], "app reload"@, "app reload"@, "reload demo config"@, CompletionKind::NoCompletion, CommandArguments::NoArguments, DemoHandler::Reload),
{
    let mut r = default_commands(DemoHandler::ShowHelp, DemoHandler::Status, DemoHandler::Help, DemoHandler::Exit);
    let none = CompletionKind::NoCompletion;
    let fixed = CommandArguments::NoArguments;
    r.push(command("app info", "app info", "show demo app info", none, fixed, DemoHandler::Info));
    r.push(command("app config", "app config", "show demo config", none, fixed, DemoHandler::Config));
    r.push(command("app reload", "app reload", "reload demo config", none, fixed, DemoHandler::Reload));
    r
}

/// The output of `app info`: the configured name, the app's process name and
/// its listen address (as text).
pub fn demo_info_output(name: &str, app: &str, listen: &str) -> (o: CommandOutput)
    ensures
        o.summary@ == "app="@ + name@,
        o.rendered@ == panel_text(
            "Demo App"@,
            seq![("name"@, name@), ("app"@, app@), ("listen"@, "http://"@ + listen@)],
            Seq::empty(),
        ),
{
    let mut summary = owned("app=");
    push_str(&mut summary, name);
    let mut url = owned("http://");
    push_str(&mut url, listen);
    let fields = vec![(owned("name"), owned(name)), (owned("app"), owned(app)), (owned("listen"), url)];
    let tables: Vec<Table> = Vec::new();
    assert(fields_view(fields@) =~= seq![("name"@, name@), ("app"@, app@), ("listen"@, "http://"@ + listen@)]);
    assert(tables_view(tables@) =~= Seq::<TableView>::empty());
    CommandOutput { summary, rendered: render_panel("Demo App", fields, tables) }
}

/// The output of `app config` and `app reload`: the revision summary and the
/// configuration panel.
pub fn demo_config_output(revision: u64, config: &DemoConfig) -> (o: CommandOutput)
    ensures
        o.summary@ == "config_revision="@ + crate::text::decimal(revision as nat),
        o.rendered@ == panel_text("Demo Config"@, seq![
            ("revision"@, crate::text::decimal(revision as nat)),
            ("name"@, config.name@),
            ("greeting"@, config.greeting@),
        ], Seq::empty()),
{
    let mut summary = owned("config_revision=");
    push_str(&mut summary, crate::text::u64_to_text(revision).as_str());
    CommandOutput { summary, rendered: demo_config_panel(revision, config) }
}

} // verus!
