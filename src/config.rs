//! Building the command table from its configuration.

use vstd::prelude::*;

use crate::commands::{Availability, Command, Handler, Menu};

verus! {

/// A menu as configured.
#[derive(Debug)]
pub struct MenuConfig {
    pub help_suffix: String,
    pub commands: Vec<CommandConfig>,
}

/// A command as configured: its help label and text, its pattern, and the
/// names of its availability rule and of its handler.
#[derive(Debug)]
pub struct CommandConfig {
    pub arg: String,
    pub help: String,
    pub pattern: String,
    pub available: String,
    pub func: String,
}

/// Why a configuration does not make a command table.
#[derive(Debug, PartialEq, Eq)]
pub enum ConfigError {
    /// A command names an availability rule that does not exist.
    UnknownAvailability(String),
    /// A command names a handler that does not exist.
    UnknownFunction(String),
}

/// The availability rule that a name stands for.
pub open spec fn availability_named(name: Seq<char>) -> Option<Availability> {
    if name == "always"@ {
        Some(Availability::Always)
    } else if name == "in_board"@ {
        Some(Availability::InBoard)
    } else if name == "local"@ {
        Some(Availability::Local)
    } else if name == "sysop"@ {
        Some(Availability::Sysop)
    } else {
        None
    }
}

/// The handler that a name stands for.
pub open spec fn handler_named(name: Seq<char>) -> Option<Handler> {
    if name == "board::author"@ {
        Some(Handler::BoardAuthor)
    } else if name == "board::current"@ {
        Some(Handler::BoardCurrent)
    } else if name == "board::enter"@ {
        Some(Handler::BoardEnter)
    } else if name == "board::lister"@ {
        Some(Handler::BoardLister)
    } else if name == "board::next"@ {
        Some(Handler::BoardNext)
    } else if name == "board::previous"@ {
        Some(Handler::BoardPrevious)
    } else if name == "board::quick"@ {
        Some(Handler::BoardQuick)
    } else if name == "board::write"@ {
        Some(Handler::BoardWrite)
    } else if name == "dm::send"@ {
        Some(Handler::DmSend)
    } else if name == "state::describe"@ {
        Some(Handler::StateDescribe)
    } else if name == "sysop::advertise"@ {
        Some(Handler::SysopAdvertise)
    } else if name == "user::active"@ {
        Some(Handler::UserActive)
    } else if name == "user::bio_read"@ {
        Some(Handler::UserBioRead)
    } else if name == "user::bio_write"@ {
        Some(Handler::UserBioWrite)
    } else if name == "user::seen"@ {
        Some(Handler::UserSeen)
    } else {
        None
    }
}

fn is(name: &String, word: &str) -> (r: bool)
    ensures
        r == (name@ == word@),
{
    *name == word.to_owned()
}

/// The availability rule that a name stands for.
pub fn parse_availability(name: &String) -> (r: Option<Availability>)
    ensures
        r == availability_named(name@),
{
    if is(name, "always") {
        Some(Availability::Always)
    } else if is(name, "in_board") {
        Some(Availability::InBoard)
    } else if is(name, "local") {
        Some(Availability::Local)
    } else if is(name, "sysop") {
        Some(Availability::Sysop)
    } else {
        None
    }
}

/// The handler that a name stands for.
pub fn parse_handler(name: &String) -> (r: Option<Handler>)
    ensures
        r == handler_named(name@),
{
    if is(name, "board::author") {
        Some(Handler::BoardAuthor)
    } else if is(name, "board::current") {
        Some(Handler::BoardCurrent)
    } else if is(name, "board::enter") {
        Some(Handler::BoardEnter)
    } else if is(name, "board::lister") {
        Some(Handler::BoardLister)
    } else if is(name, "board::next") {
        Some(Handler::BoardNext)
    } else if is(name, "board::previous") {
        Some(Handler::BoardPrevious)
    } else if is(name, "board::quick") {
        Some(Handler::BoardQuick)
    } else if is(name, "board::write") {
        Some(Handler::BoardWrite)
    } else if is(name, "dm::send") {
        Some(Handler::DmSend)
    } else if is(name, "state::describe") {
        Some(Handler::StateDescribe)
    } else if is(name, "sysop::advertise") {
        Some(Handler::SysopAdvertise)
    } else if is(name, "user::active") {
        Some(Handler::UserActive)
    } else if is(name, "user::bio_read") {
        Some(Handler::UserBioRead)
    } else if is(name, "user::bio_write") {
        Some(Handler::UserBioWrite)
    } else if is(name, "user::seen") {
        Some(Handler::UserSeen)
    } else {
        None
    }
}

/// The command that a configured command becomes.
pub open spec fn built_command(c: Command, cfg: CommandConfig) -> bool {
    &&& c.arg@ == cfg.arg@
    &&& c.help@ == cfg.help@
    &&& c.pattern@ == cfg.pattern@
    &&& availability_named(cfg.available@) == Some(c.available)
    &&& handler_named(cfg.func@) == Some(c.func)
}

/// The menu that a configured menu becomes.
pub open spec fn built_menu(m: Menu, name: String, cfg: MenuConfig) -> bool {
    &&& m.name@ == name@
    &&& m.help_suffix@ == cfg.help_suffix@
    &&& m.commands@.len() == cfg.commands@.len()
    &&& forall|j: int| 0 <= j < cfg.commands@.len() ==> built_command(#[trigger] m.commands@[j], cfg.commands@[j])
}

/// Whether every command of the configuration names a known rule and handler.
pub open spec fn config_known(cfg: Seq<(String, MenuConfig)>) -> bool {
    forall|i: int, j: int|
        0 <= i < cfg.len() && 0 <= j < cfg[i].1.commands@.len() ==> {
            let c = #[trigger] cfg[i].1.commands@[j];
            availability_named(c.available@) is Some && handler_named(c.func@) is Some
        }
}

/// Build the menus and their commands, in the order configured. A command
/// that names an unknown availability rule or handler is refused.
pub fn command_structure(cfg: &Vec<(String, MenuConfig)>) -> (r: Result<Vec<Menu>, ConfigError>)
    ensures
        r is Ok <==> config_known(cfg@),
        r matches Ok(menus) ==> menus@.len() == cfg@.len() && forall|i: int|
            0 <= i < cfg@.len() ==> built_menu(#[trigger] menus@[i], cfg@[i].0, cfg@[i].1),
        r matches Err(ConfigError::UnknownAvailability(s)) ==> exists|i: int, j: int|
            0 <= i < cfg@.len() && 0 <= j < cfg@[i].1.commands@.len() && (
            #[trigger] cfg@[i].1.commands@[j]).available@ == s@ && availability_named(s@) is None,
        r matches Err(ConfigError::UnknownFunction(s)) ==> exists|i: int, j: int|
            0 <= i < cfg@.len() && 0 <= j < cfg@[i].1.commands@.len() && (
            #[trigger] cfg@[i].1.commands@[j]).func@ == s@ && handler_named(s@) is None,
{
    let mut menus: Vec<Menu> = Vec::new();
    let mut i: usize = 0;
    while i < cfg.len()
        invariant
            i <= cfg.len(),
            menus@.len() == i,
            forall|a: int| 0 <= a < i ==> built_menu(#[trigger] menus@[a], cfg@[a].0, cfg@[a].1),
            forall|a: int, b: int|
                0 <= a < i && 0 <= b < cfg@[a].1.commands@.len() ==> {
                    let c = #[trigger] cfg@[a].1.commands@[b];
                    availability_named(c.available@) is Some && handler_named(c.func@) is Some
                },
        decreases cfg.len() - i,
    {
        let (name, menu_cfg) = &cfg[i];
        let mut commands: Vec<Command> = Vec::new();
        let mut j: usize = 0;
        while j < menu_cfg.commands.len()
            invariant
                i < cfg.len(),
                *menu_cfg == cfg@[i as int].1,
                j <= menu_cfg.commands.len(),
                commands@.len() == j,
                forall|b: int| 0 <= b < j ==> built_command(#[trigger] commands@[b], menu_cfg.commands@[b]),
            decreases menu_cfg.commands.len() - j,
        {
            let c = &menu_cfg.commands[j];
            let available = match parse_availability(&c.available) {
                Some(a) => a,
                None => {
                    return Err(ConfigError::UnknownAvailability(c.available.clone()));
                },
            };
            let func = match parse_handler(&c.func) {
                Some(f) => f,
                None => {
                    return Err(ConfigError::UnknownFunction(c.func.clone()));
                },
            };
            commands.push(
                Command {
                    arg: c.arg.clone(),
                    help: c.help.clone(),
                    pattern: c.pattern.clone(),
                    available,
                    func,
                },
            );
            j = j + 1;
        }
        assert forall|b: int| 0 <= b < cfg@[i as int].1.commands@.len() implies {
            let c = #[trigger] cfg@[i as int].1.commands@[b];
            availability_named(c.available@) is Some && handler_named(c.func@) is Some
        } by {
            assert(built_command(commands@[b], menu_cfg.commands@[b]));
        }
        menus.push(Menu { name: name.clone(), help_suffix: menu_cfg.help_suffix.clone(), commands });
        i = i + 1;
    }
    Ok(menus)
}

} // verus!
