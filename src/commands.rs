//! The command table: menus of commands, each with a pattern, an
//! availability rule and a handler, and the help text built from them.

use vstd::prelude::*;

use crate::text::{concat, string_views};

verus! {

/// To where a reply is sent.
#[derive(Debug, Clone, Copy, PartialEq, Eq, Structural)]
pub enum ReplyDestination {
    Sender,
    Broadcast,
}

/// Where and what to send back to the radio.
#[derive(Debug)]
pub struct Reply {
    pub out: Vec<String>,
    pub destination: ReplyDestination,
}

/// The reply messages that a command returns to the client.
#[derive(Debug)]
pub struct Replies(pub Vec<Reply>);

impl Replies {
    /// One reply of these lines to the sender.
    pub fn from_lines(out: Vec<String>) -> (r: Replies)
        ensures
            r.0@.len() == 1,
            r.0@[0].out@ == out@,
            r.0@[0].destination == ReplyDestination::Sender,
    {
        Replies(vec![Reply { out, destination: ReplyDestination::Sender }])
    }

    /// One reply of one line to the sender.
    pub fn from_text(text: &str) -> (r: Replies)
        ensures
            r.0@.len() == 1,
            r.0@[0].out@.len() == 1,
            r.0@[0].out@[0]@ == text@,
            r.0@[0].destination == ReplyDestination::Sender,
    {
        Replies::from_lines(vec![text.to_owned()])
    }
}

/// What a user may do during one command, computed once per command.
#[derive(Debug, Clone, Copy, PartialEq, Eq, Structural)]
pub struct AvailableState {
    pub in_board: bool,
    pub is_local: bool,
    pub is_sysop: bool,
}

/// Whether `ids` holds `id`.
pub open spec fn listed(ids: Seq<String>, id: Seq<char>) -> bool {
    exists|i: int| 0 <= i < ids.len() && #[trigger] ids[i]@ == id
}

/// The snapshot for a user who is or is not in a board, on a local session or
/// not, whose node id is or is not among the sysops.
pub fn available_state(sysops: &Vec<String>, node_id: &str, in_board: bool, local: bool) -> (r:
    AvailableState)
    ensures
        r.in_board == in_board,
        r.is_local == local,
        r.is_sysop == listed(sysops@, node_id@),
{
    let id = node_id.to_owned();
    let mut found = false;
    let mut i: usize = 0;
    while i < sysops.len()
        invariant
            i <= sysops.len(),
            id@ == node_id@,
            found == exists|k: int| 0 <= k < i && #[trigger] sysops@[k]@ == node_id@,
        decreases sysops.len() - i,
    {
        if sysops[i] == id {
            found = true;
        }
        i = i + 1;
    }
    AvailableState { in_board, is_local: local, is_sysop: found }
}

/// These commands are always available.
pub fn available_always(state: &AvailableState) -> (r: bool)
    ensures
        r,
{
    true
}

/// These commands are available to local users.
pub fn available_locally(state: &AvailableState) -> (r: bool)
    ensures
        r == state.is_local,
{
    state.is_local
}

/// These commands are available to sysops.
pub fn available_to_sysops(state: &AvailableState) -> (r: bool)
    ensures
        r == state.is_sysop,
{
    state.is_sysop
}

/// These commands are available when the user is in a message board.
pub fn available_in_board(state: &AvailableState) -> (r: bool)
    ensures
        r == state.in_board,
{
    state.in_board
}

/// When a command may be used.
#[derive(Debug, Clone, Copy, PartialEq, Eq, Structural)]
pub enum Availability {
    Always,
    InBoard,
    Local,
    Sysop,
}

/// Whether a command with this rule may be used in this state.
pub open spec fn allows(a: Availability, state: AvailableState) -> bool {
    match a {
        Availability::Always => true,
        Availability::InBoard => state.in_board,
        Availability::Local => state.is_local,
        Availability::Sysop => state.is_sysop,
    }
}

impl Availability {
    /// Whether a command with this rule may be used in this state.
    pub fn check(&self, state: &AvailableState) -> (r: bool)
        ensures
            r == allows(*self, *state),
    {
        match self {
            Availability::Always => available_always(state),
            Availability::InBoard => available_in_board(state),
            Availability::Local => available_locally(state),
            Availability::Sysop => available_to_sysops(state),
        }
    }
}

/// The work a command does.
#[derive(Debug, Clone, Copy, PartialEq, Eq, Structural)]
pub enum Handler {
    BoardAuthor,
    BoardCurrent,
    BoardEnter,
    BoardLister,
    BoardNext,
    BoardPrevious,
    BoardQuick,
    BoardWrite,
    DmSend,
    StateDescribe,
    SysopAdvertise,
    UserActive,
    UserBioRead,
    UserBioWrite,
    UserSeen,
}

/// Information about a command a user can execute.
#[derive(Debug)]
pub struct Command {
    /// Help text showing the user what to send.
    pub arg: String,
    /// What the command does.
    pub help: String,
    /// The pattern matching the command and its arguments, as configured.
    pub pattern: String,
    /// When the command may be used.
    pub available: Availability,
    /// What the command does when it runs.
    pub func: Handler,
}

/// A named group of commands.
#[derive(Debug)]
pub struct Menu {
    pub name: String,
    pub help_suffix: String,
    pub commands: Vec<Command>,
}

/// Whether some command of the menu may be used in this state.
pub open spec fn menu_reachable(menu: Menu, state: AvailableState) -> bool {
    exists|j: int| 0 <= j < menu.commands@.len() && allows(#[trigger] menu.commands@[j].available, state)
}

impl Menu {
    /// Are any commands in this menu available to the user?
    pub fn any_available(&self, state: &AvailableState) -> (r: bool)
        ensures
            r == menu_reachable(*self, *state),
    {
        let mut j: usize = 0;
        while j < self.commands.len()
            invariant
                j <= self.commands.len(),
                forall|k: int| 0 <= k < j ==> !allows(#[trigger] self.commands@[k].available, *state),
            decreases self.commands.len() - j,
        {
            if self.commands[j].available.check(state) {
                return true;
            }
            j = j + 1;
        }
        false
    }
}

/// The line of the top-level help that names a menu.
pub open spec fn menu_help_line(menu: Menu) -> Seq<char> {
    "H"@ + menu.help_suffix@ + " : "@ + menu.name@ + " menu"@
}

/// The lines naming the reachable menus among these, in order.
pub open spec fn menu_help_lines(menus: Seq<Menu>, state: AvailableState) -> Seq<Seq<char>>
    decreases menus.len(),
{
    if menus.len() == 0 {
        Seq::empty()
    } else {
        let rest = menu_help_lines(menus.drop_last(), state);
        if menu_reachable(menus.last(), state) {
            rest.push(menu_help_line(menus.last()))
        } else {
            rest
        }
    }
}

/// The top-level help: every reachable menu, then `H` itself.
pub open spec fn toplevel_help(menus: Seq<Menu>, state: AvailableState) -> Seq<Seq<char>> {
    seq!["Help commands:"@, Seq::<char>::empty()] + menu_help_lines(menus, state).push(
        "H : This help"@,
    )
}

/// The line of a menu's help that describes a command.
pub open spec fn command_help_line(command: Command) -> Seq<char> {
    command.arg@ + " : "@ + command.help@
}

/// The lines describing the available commands among these, in order.
pub open spec fn command_help_lines(commands: Seq<Command>, state: AvailableState) -> Seq<Seq<char>>
    decreases commands.len(),
{
    if commands.len() == 0 {
        Seq::empty()
    } else {
        let rest = command_help_lines(commands.drop_last(), state);
        if allows(commands.last().available, state) {
            rest.push(command_help_line(commands.last()))
        } else {
            rest
        }
    }
}

/// A menu's help: its name, then each available command.
pub open spec fn menu_help(menu: Menu, state: AvailableState) -> Seq<Seq<char>> {
    seq!["Help for "@ + menu.name@ + " commands"@, Seq::<char>::empty()] + command_help_lines(
        menu.commands@,
        state,
    )
}

/// Show the user how to get help on all menus available to them right now.
pub fn help_toplevel(state: &AvailableState, menus: &Vec<Menu>) -> (r: Vec<String>)
    ensures
        string_views(r@) == toplevel_help(menus@, *state),
{
    let mut out: Vec<String> = Vec::new();
    out.push("Help commands:".to_owned());
    out.push(String::new());
    let mut i: usize = 0;
    while i < menus.len()
        invariant
            i <= menus.len(),
            string_views(out@) == seq!["Help commands:"@, Seq::<char>::empty()] + menu_help_lines(
                menus@.subrange(0, i as int),
                *state,
            ),
        decreases menus.len() - i,
    {
        let ghost before = string_views(out@);
        assert(menus@.subrange(0, i + 1).drop_last() == menus@.subrange(0, i as int));
        let menu = &menus[i];
        if menu.any_available(state) {
            let a = concat("H", menu.help_suffix.as_str());
            let b = concat(a.as_str(), " : ");
            let c = concat(b.as_str(), menu.name.as_str());
            let line = concat(c.as_str(), " menu");
            out.push(line);
            assert(string_views(out@) =~= before.push(line@));
        }
        i = i + 1;
    }
    assert(menus@.subrange(0, menus.len() as int) == menus@);
    let ghost before = string_views(out@);
    out.push("H : This help".to_owned());
    assert(string_views(out@) =~= before.push("H : This help"@));
    out
}

/// Show the user the commands available to them on this menu.
pub fn help_menu(state: &AvailableState, menu: &Menu) -> (r: Vec<String>)
    ensures
        string_views(r@) == menu_help(*menu, *state),
{
    let a = concat("Help for ", menu.name.as_str());
    let mut out: Vec<String> = vec![concat(a.as_str(), " commands"), String::new()];
    let mut j: usize = 0;
    let ghost head = string_views(out@);
    while j < menu.commands.len()
        invariant
            j <= menu.commands.len(),
            string_views(out@) == head + command_help_lines(menu.commands@.subrange(0, j as int), *state),
        decreases menu.commands.len() - j,
    {
        let ghost before = string_views(out@);
        assert(menu.commands@.subrange(0, j + 1).drop_last() == menu.commands@.subrange(0, j as int));
        let command = &menu.commands[j];
        if command.available.check(state) {
            let b = concat(command.arg.as_str(), " : ");
            let line = concat(b.as_str(), command.help.as_str());
            out.push(line);
            assert(string_views(out@) =~= before.push(line@));
        }
        j = j + 1;
    }
    assert(menu.commands@.subrange(0, menu.commands.len() as int) == menu.commands@);
    assert(head =~= seq!["Help for "@ + menu.name@ + " commands"@, Seq::<char>::empty()]);
    out
}

} // verus!
