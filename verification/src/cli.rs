//! The command line: which command the arguments ask for, the config built
//! from environment variables, and the editor to open the config in.
use vstd::prelude::*;
use crate::config::{Config, ConfigView, AuthSource};
use crate::text::{str_eq, list_items, parse_list, views};
use crate::events::opt_view;

verus! {

/// What the command line asks for.
#[derive(Debug, Clone, PartialEq, Eq)]
pub enum Command {
    /// No arguments: run the overlay.
    Run,
    /// `config path`
    ConfigPath,
    /// `config print`
    ConfigPrint,
    /// `config edit`
    ConfigEdit,
    /// `config validate`
    ConfigValidate,
    /// `config` with no subcommand.
    ConfigMissing,
    /// `config` with an unknown subcommand.
    ConfigUnknown(String),
    /// `--version` or `-V`
    Version,
    /// `--help`, `-h` or `help`
    Help,
    /// An unknown command.
    Unknown(String),
}

/// The value of a [`Command`].
pub enum CommandView {
    Run,
    ConfigPath,
    ConfigPrint,
    ConfigEdit,
    ConfigValidate,
    ConfigMissing,
    ConfigUnknown(Seq<char>),
    Version,
    Help,
    Unknown(Seq<char>),
}

impl View for Command {
    type V = CommandView;

    open spec fn view(&self) -> CommandView {
        match self {
            Command::Run => CommandView::Run,
            Command::ConfigPath => CommandView::ConfigPath,
            Command::ConfigPrint => CommandView::ConfigPrint,
            Command::ConfigEdit => CommandView::ConfigEdit,
            Command::ConfigValidate => CommandView::ConfigValidate,
            Command::ConfigMissing => CommandView::ConfigMissing,
            Command::ConfigUnknown(s) => CommandView::ConfigUnknown(s@),
            Command::Version => CommandView::Version,
            Command::Help => CommandView::Help,
            Command::Unknown(s) => CommandView::Unknown(s@),
        }
    }
}

/// The command the arguments (after the program name) ask for. Only the
/// first argument, and for `config` the second, are read.
pub open spec fn command_of(args: Seq<Seq<char>>) -> CommandView {
    if args.len() == 0 {
        CommandView::Run
    } else if args[0] == "config"@ {
        if args.len() < 2 {
            CommandView::ConfigMissing
        } else if args[1] == "path"@ {
            CommandView::ConfigPath
        } else if args[1] == "print"@ {
            CommandView::ConfigPrint
        } else if args[1] == "validate"@ {
            CommandView::ConfigValidate
        } else if args[1] == "edit"@ {
            CommandView::ConfigEdit
        } else {
            CommandView::ConfigUnknown(args[1])
        }
    } else if args[0] == "--version"@ || args[0] == "-V"@ {
        CommandView::Version
    } else if args[0] == "--help"@ || args[0] == "-h"@ || args[0] == "help"@ {
        CommandView::Help
    } else {
        CommandView::Unknown(args[0])
    }
}

/// Read the command from the arguments.
pub fn parse_command(args: &Vec<String>) -> (r: Command)
    ensures
        r@ == command_of(views(args@)),
{
    let ghost a = views(args@);
    if args.len() == 0 {
        return Command::Run;
    }
    assert(a[0] == args@[0]@);
    let first = args[0].as_str();
    if str_eq(first, "config") {
        if args.len() < 2 {
            return Command::ConfigMissing;
        }
        assert(a[1] == args@[1]@);
        let sub = args[1].as_str();
        if str_eq(sub, "path") {
            Command::ConfigPath
        } else if str_eq(sub, "print") {
            Command::ConfigPrint
        } else if str_eq(sub, "validate") {
            Command::ConfigValidate
        } else if str_eq(sub, "edit") {
            Command::ConfigEdit
        } else {
            Command::ConfigUnknown(String::from_str(sub))
        }
    } else if str_eq(first, "--version") || str_eq(first, "-V") {
        Command::Version
    } else if str_eq(first, "--help") || str_eq(first, "-h") || str_eq(first, "help") {
        Command::Help
    } else {
        Command::Unknown(String::from_str(first))
    }
}

/// The config made from the `GH_MONITOR_*` environment variables (each
/// absent when unset): the PAT (empty when unset), the username, the
/// comma-separated orgs and repos, a 30-second poll interval.
pub open spec fn env_config_of(pat: Option<Seq<char>>, username: Option<Seq<char>>, orgs: Option<Seq<char>>, repos: Option<Seq<char>>) -> ConfigView {
    ConfigView {
        pat: match pat {
            Some(p) => p,
            None => Seq::empty(),
        },
        auth_source: AuthSource::Pat,
        username: username,
        orgs: match orgs {
            Some(o) => list_items(o),
            None => Seq::empty(),
        },
        repos: match repos {
            Some(r) => list_items(r),
            None => Seq::empty(),
        },
        poll_interval_secs: 30,
        notifications_enabled: false,
        window_position: None,
    }
}

/// Build the config from the values of `GH_MONITOR_PAT`,
/// `GH_MONITOR_USERNAME`, `GH_MONITOR_ORGS` and `GH_MONITOR_REPOS`.
pub fn env_config(pat: Option<String>, username: Option<String>, orgs: Option<String>, repos: Option<String>) -> (r: Config)
    ensures
        r@ == env_config_of(opt_view(pat), opt_view(username), opt_view(orgs), opt_view(repos)),
{
    let pat_text = match pat {
        Some(p) => p,
        None => String::new(),
    };
    let org_list = match orgs {
        Some(o) => parse_list(o.as_str()),
        None => Vec::new(),
    };
    let repo_list = match repos {
        Some(r) => parse_list(r.as_str()),
        None => Vec::new(),
    };
    assert(opt_view(orgs) is None ==> views(org_list@) =~= Seq::<Seq<char>>::empty());
    assert(opt_view(repos) is None ==> views(repo_list@) =~= Seq::<Seq<char>>::empty());
    Config {
        pat: pat_text,
        auth_source: AuthSource::Pat,
        username,
        orgs: org_list,
        repos: repo_list,
        poll_interval_secs: 30,
        notifications_enabled: false,
        window_position: None,
    }
}

/// The editor to open the config in: `$VISUAL`, else `$EDITOR`, else
/// `notepad` on Windows and `vi` elsewhere.
pub fn editor_choice(visual: Option<String>, editor: Option<String>, windows: bool) -> (r: String)
    ensures
        r@ == match opt_view(visual) {
            Some(v) => v,
            None => match opt_view(editor) {
                Some(e) => e,
                None => if windows { "notepad"@ } else { "vi"@ },
            },
        },
{
    match visual {
        Some(v) => v,
        None => match editor {
            Some(e) => e,
            None => if windows { String::from_str("notepad") } else { String::from_str("vi") },
        },
    }
}

} // verus!
