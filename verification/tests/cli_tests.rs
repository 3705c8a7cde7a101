use hypergate::command::{
    parse_parts, validate_arguments, CommandArguments, CommandContext, CommandRegistry, CommandScope, CompletionKind,
    RegisteredCommand,
};
use hypergate::commands::{
    default_commands, demo_commands, demo_config_output, demo_config_panel, demo_info_output, DemoHandler, gateway_commands, should_print_help, single_arg, validate_demo_config,
    version_app_help_lines, version_status, DemoConfig, EmptyCompletionProvider, GatewayCompletionProvider, GatewayHandler,
};
use hypergate::console::{completion_start, ConsoleOptions};
use hypergate::help::{command_help, error_output, exit_output, help, scoped_help};
use hypergate::table::{render_panel, render_tables, Align, Table};
use hypergate::theme::{colorize_candidate, colorize_output, colorize_prompt, BOLD, BRIGHT_BLACK, GREEN, RESET};

fn words(text: &str) -> Vec<String> {
    text.split_whitespace().map(str::to_owned).collect()
}

fn command(path: &str, usage: &str, description: &str, arguments: CommandArguments) -> RegisteredCommand<u8> {
    RegisteredCommand {
        path: words(path),
        usage: usage.to_owned(),
        description: description.to_owned(),
        scope: CommandScope::Console,
        completion: CompletionKind::NoCompletion,
        arguments,
        visible: true,
        handler: 0,
    }
}

fn sample_table() -> Table {
    Table {
        title: "Versions".to_owned(),
        columns: vec![hypergate::table::column("Name", Align::Left), hypergate::table::column("Count", Align::Right)],
        rows: vec![vec!["a".to_owned(), "1".to_owned()], vec!["bbb".to_owned(), "22".to_owned()]],
    }
}

const SAMPLE_TABLE: &str = "Versions\n\
┌──────┬───────┐\n\
│ Name │ Count │\n\
├──────┼───────┤\n\
│ a    │     1 │\n\
│ bbb  │    22 │\n\
└──────┴───────┘";

#[test]
fn table_renders_borders_and_alignment() {
    assert_eq!(render_tables(vec![sample_table()]), SAMPLE_TABLE);
    assert_eq!(render_tables(vec![sample_table(), sample_table()]), format!("{SAMPLE_TABLE}\n\n{SAMPLE_TABLE}"));
    assert_eq!(render_tables(Vec::new()), "");
}

#[test]
fn panel_aligns_fields_and_appends_tables() {
    let fields = vec![("active".to_owned(), "v1".to_owned()), ("revision".to_owned(), "3".to_owned())];
    let panel = render_panel("Status", fields, vec![sample_table()]);
    assert_eq!(panel, format!("Status\n  active    v1\n  revision  3\n\n{SAMPLE_TABLE}"));
    assert_eq!(render_panel("Empty", Vec::new(), Vec::new()), "Empty");
    assert_eq!(render_panel("Only", Vec::new(), vec![sample_table()]), format!("Only\n{SAMPLE_TABLE}"));
}

#[test]
fn colorize_styles_each_kind_of_line() {
    assert_eq!(colorize_output("Status\n  state  active", false), "Status\n  state  active");
    assert_eq!(colorize_output("Status", true), format!("{BOLD}Status{RESET}"));
    assert_eq!(colorize_output("  state  active", true), format!("  state  {GREEN}active{RESET}"));
    assert_eq!(colorize_output("  active    v1", true), "  active  v1");
    assert_eq!(colorize_output("┌──┐", true), format!("{BRIGHT_BLACK}┌──┐{RESET}"));
    assert_eq!(colorize_output("│ a │", true), format!("{BRIGHT_BLACK}│{RESET} a {BRIGHT_BLACK}│{RESET}"));
    assert_eq!(colorize_output("a\n   \nb", true), format!("{BOLD}a{RESET}\n\n{BOLD}b{RESET}"));
    assert_eq!(colorize_prompt("hypergate> ", true), format!("{BOLD}hypergate> {RESET}"));
    assert_eq!(colorize_prompt("hypergate> ", false), "hypergate> ");
    assert_eq!(colorize_candidate("v1", true), "v1");
}

fn registry() -> CommandRegistry<u8> {
    CommandRegistry::new(vec![
        command("help", "help", "show help", CommandArguments::Any),
        command("version list", "version list", "list versions", CommandArguments::NoArguments),
        command("version switch", "version switch <version>", "switch", CommandArguments::Any),
    ])
}

#[test]
fn help_tree_lists_commands_under_path() {
    let registry = registry();
    let expected = "Command Console\n\
├─ help              show help\n\
└─ version           \n   \
├─ list              list versions\n   \
└─ switch <version>  switch";
    assert_eq!(command_help(&registry.commands, &Vec::new()), expected);
    let scoped = command_help(&registry.commands, &words("version"));
    assert_eq!(scoped, "Commands: version\n└─ version           \n   ├─ list              list versions\n   └─ switch <version>  switch");
    assert_eq!(registry.help_output(&Vec::new()), expected);
    let context = CommandContext { registry: &registry, state: &() };
    let output = help(&context, &Vec::new()).expect("help");
    assert_eq!(output.summary, "console=help");
    assert_eq!(output.rendered, expected);
    let scoped_output = scoped_help(&context, &words("ignored"), &words("version")).expect("scoped help");
    assert_eq!(scoped_output.rendered, scoped);
}

#[test]
fn error_and_exit_outputs() {
    let error = error_output("boom");
    assert_eq!(error.summary, "error=boom");
    assert_eq!(error.rendered, "Error\n  message  boom");
    let exit = exit_output();
    assert_eq!(exit.summary, "console=quit");
    assert_eq!(exit.rendered, "Console\n  message  press Ctrl+C to stop this process");
}

#[test]
fn dispatch_resolves_longest_path() {
    let registry = registry();
    let dispatch = registry.dispatch("version switch v2", CommandScope::Console).expect("dispatch");
    assert_eq!(dispatch.index, 2);
    assert_eq!(dispatch.args, vec!["v2".to_owned()]);
    assert_eq!(registry.resolve(&words("help me"), CommandScope::Console).expect("resolve"), 0);
    let unknown = registry.dispatch("version frob", CommandScope::Console).err().expect("unknown");
    assert_eq!(unknown.message, "unknown command: version frob");
    let empty = registry.dispatch("   ", CommandScope::Console).err().expect("empty");
    assert_eq!(empty.message, "empty command");
    let extra = registry.dispatch("version list now", CommandScope::Console).err().expect("extra");
    assert_eq!(extra.message, "command does not accept arguments");
}

#[test]
fn parse_and_validate_arguments() {
    assert_eq!(parse_parts("  show   status ").expect("parts"), words("show status"));
    assert_eq!(parse_parts("").err().expect("empty").message, "empty command");
    let fixed = command("exit", "exit", "stop", CommandArguments::NoArguments);
    assert!(validate_arguments(&fixed, &Vec::new()).is_ok());
    assert!(validate_arguments(&fixed, &words("now")).is_err());
}

#[test]
fn completion_offers_next_path_words_and_versions() {
    let registry = CommandRegistry::new(gateway_commands());
    let mut first = registry.complete_with("ver", &Vec::new());
    first.sort();
    assert_eq!(first, vec!["version".to_owned()]);
    let mut second = registry.complete_with("version ", &Vec::new());
    second.sort();
    assert_eq!(second, words("drain rollback stop switch"));
    let provider = GatewayCompletionProvider { versions: words("v1 v2 canary") };
    assert_eq!(registry.complete("version switch v", &provider), words("v1 v2"));
    assert_eq!(registry.complete("version switch ", &EmptyCompletionProvider), Vec::<String>::new());
    let (kind, prefix) = registry.completion_request("version drain ca").expect("request");
    assert!(kind == CompletionKind::Version);
    assert_eq!(prefix, "ca");
    assert!(registry.completion_request("nothing here").is_none());
    assert_eq!(provider.candidates(CompletionKind::NoCompletion, ""), Vec::<String>::new());
}

#[test]
fn completion_start_is_byte_offset_of_last_word() {
    assert_eq!(completion_start("version sw"), 8);
    assert_eq!(completion_start("version"), 0);
    assert_eq!(completion_start(""), 0);
    assert_eq!(completion_start("é x"), 3);
    assert_eq!(completion_start("a "), 2);
}

#[test]
fn gateway_commands_are_registered_in_order() {
    let commands = gateway_commands();
    assert_eq!(commands.len(), 13);
    assert_eq!(commands[7].usage, "version switch <version>");
    assert!(commands[7].handler == GatewayHandler::Switch);
    assert!(commands[7].completion == CompletionKind::Version);
    assert_eq!(commands[12].path, words("exit"));
    let defaults = default_commands(1u8, 2, 3, 4);
    assert_eq!(defaults.len(), 4);
    assert_eq!(defaults[1].description, "version app status");
    assert_eq!(defaults[3].handler, 4);
}

#[test]
fn single_argument_rules() {
    assert_eq!(single_arg(&words("v1"), "version is required").expect("one"), "v1");
    assert_eq!(single_arg(&Vec::new(), "version is required").err().expect("none").message, "version is required");
    assert_eq!(single_arg(&words("a b"), "x").err().expect("two").message, "too many arguments");
}

#[test]
fn version_app_console_texts() {
    assert!(should_print_help(&words("--help")));
    assert!(should_print_help(&words("-h")));
    assert!(!should_print_help(&words("help me")));
    assert_eq!(version_status("demo", "127.0.0.1:9101"), "Version Status\n  app     demo\n  listen  http://127.0.0.1:9101");
    let lines = version_app_help_lines("127.0.0.1:9101");
    assert_eq!(lines[1], "  start with default listen: 127.0.0.1:9101");
    assert_eq!(lines.len(), 4);
    assert_eq!(ConsoleOptions::gateway("banner".to_owned()).prompt, "hypergate> ");
}

#[test]
fn demo_config_rules() {
    let good = DemoConfig { name: "demo".to_owned(), greeting: "hi".to_owned() };
    assert!(validate_demo_config(&good).is_ok());
    let no_name = DemoConfig { name: " ".to_owned(), greeting: "hi".to_owned() };
    assert_eq!(validate_demo_config(&no_name).err().expect("name").message, "demo config name is empty");
    let no_greeting = DemoConfig { name: "demo".to_owned(), greeting: String::new() };
    assert_eq!(validate_demo_config(&no_greeting).err().expect("greeting").message, "demo config greeting is empty");
    assert_eq!(demo_config_panel(3, &good), "Demo Config\n  revision  3\n  name      demo\n  greeting  hi");
}

#[test]
fn version_argument_completion_comes_from_provider() {
    let registry = CommandRegistry::new(gateway_commands());
    let provider = GatewayCompletionProvider { versions: words("v1 v2") };
    assert_eq!(registry.complete("version switch ", &provider), words("v1 v2"));
    assert_eq!(registry.complete("version ", &provider), words("drain rollback stop switch"));
    assert_eq!(registry.complete("", &provider), words("config exit help show version"));
}

#[test]
fn demo_console_commands_and_outputs() {
    let commands = demo_commands();
    assert_eq!(commands.len(), 7);
    assert_eq!(commands[4].path, words("app info"));
    assert!(commands[6].handler == DemoHandler::Reload);
    assert_eq!(commands[5].description, "show demo config");
    let info = demo_info_output("demo", "hypergate-version-v1", "127.0.0.1:9101");
    assert_eq!(info.summary, "app=demo");
    assert_eq!(info.rendered, "Demo App\n  name    demo\n  app     hypergate-version-v1\n  listen  http://127.0.0.1:9101");
    let config = DemoConfig { name: "demo".to_owned(), greeting: "HyperGate".to_owned() };
    let output = demo_config_output(2, &config);
    assert_eq!(output.summary, "config_revision=2");
    assert_eq!(output.rendered, demo_config_panel(2, &config));
}

#[test]
fn colorize_styles_titles_and_status_values() {
    assert_eq!(colorize_output("Title", true), "\x1b[1mTitle\x1b[0m");
    assert_eq!(colorize_output("  result  ok", true), "  result  \x1b[32mok\x1b[0m");
    assert_eq!(colorize_output("Title\n  result  ok", false), "Title\n  result  ok");
}

#[test]
fn scoped_help_matches_help_output() {
    let registry = CommandRegistry::new(gateway_commands());
    let context = CommandContext { registry: &registry, state: &() };
    let scoped = scoped_help(&context, &words("anything here"), &words("version")).expect("scoped help");
    assert_eq!(scoped.summary, "console=help");
    assert_eq!(scoped.rendered, registry.help_output(&words("version")));
}
