//! Dispatch: from one line of user text to the help it asks for, or to the
//! one command that handles it.

use vstd::prelude::*;

use crate::commands::{
    allows, help_menu, help_toplevel, menu_help, menu_reachable, toplevel_help, AvailableState,
    Handler, Menu,
};
use crate::text::{
    chars_of, concat, copy_range, lower_of, lowercase, string_of, string_views, trim_text,
    trimmed,
};

verus! {

/// The reply to a line that no available command matches.
pub const NO_SUCH_COMMAND: &'static str = "That's not an available command here.";

/// The notice before the top-level help when a help menu is not there.
pub const NO_SUCH_HELP: &'static str = "That help section does not exist or is not available.";

/// What the `regex` crate makes of a pattern, compiled without regard to case,
/// searched in a text: `None` where the pattern does not compile or does not
/// match, else each group in order, group 0 being the whole match, `None` for
/// a group that took no part.
pub uninterp spec fn regex_captures(pattern: Seq<char>, text: Seq<char>) -> Option<
    Seq<Option<Seq<char>>>,
>;

/// The views of capture groups.
pub open spec fn group_views(v: Seq<Option<String>>) -> Seq<Option<Seq<char>>> {
    Seq::new(
        v.len(),
        |i: int|
            match v[i] {
                Some(s) => Some(s@),
                None => None,
            },
    )
}

/// Relies on `regex::RegexBuilder::build` with `case_insensitive(true)` and on
/// `regex::Regex::captures`: the groups of the first match, named by
/// `regex_captures`.
#[verifier::external_body]
fn captures_of(pattern: &str, text: &str) -> (r: Option<Vec<Option<String>>>)
    ensures
        r matches Some(v) ==> regex_captures(pattern@, text@) == Some(group_views(v@)),
        r is None ==> regex_captures(pattern@, text@) is None,
{
    let re = regex::RegexBuilder::new(pattern).case_insensitive(true).build().ok()?;
    let caps = re.captures(text)?;
    Some(caps.iter().map(|m| m.map(|m| m.as_str().to_string())).collect())
}

/// A configured pattern, anchored to the whole line and tolerant of
/// surrounding whitespace.
pub open spec fn full_pattern(pattern: Seq<char>) -> Seq<char> {
    "^\\s*"@ + pattern + "\\s*$"@
}

/// Build the pattern that a command's configured pattern is matched with.
pub fn make_pattern(pattern: &str) -> (r: String)
    ensures
        r@ == full_pattern(pattern@),
{
    let a = concat("^\\s*", pattern);
    concat(a.as_str(), "\\s*$")
}

/// The groups that took part, trimmed.
pub open spec fn present_trimmed(groups: Seq<Option<Seq<char>>>) -> Seq<Seq<char>>
    decreases groups.len(),
{
    if groups.len() == 0 {
        Seq::empty()
    } else {
        let rest = present_trimmed(groups.drop_last());
        match groups.last() {
            Some(s) => rest.push(trimmed(s)),
            None => rest,
        }
    }
}

/// A handler's arguments: the capture groups after the whole match that took
/// part, trimmed. Argument 0 is the first capture group.
pub open spec fn args_of(groups: Seq<Option<Seq<char>>>) -> Seq<Seq<char>> {
    if groups.len() == 0 {
        Seq::empty()
    } else {
        present_trimmed(groups.drop_first())
    }
}

/// The arguments a command receives from this text, where it is available
/// and its pattern matches.
pub open spec fn command_args(menus: Seq<Menu>, state: AvailableState, text: Seq<char>, i: int, j: int) -> Option<Seq<Seq<char>>> {
    let c = menus[i].commands@[j];
    if allows(c.available, state) {
        match regex_captures(full_pattern(c.pattern@), text) {
            Some(groups) => Some(args_of(groups)),
            None => None,
        }
    } else {
        None
    }
}

/// Whether the command at `(i, j)` exists in the table.
pub open spec fn in_table(menus: Seq<Menu>, i: int, j: int) -> bool {
    0 <= i < menus.len() && 0 <= j < menus[i].commands@.len()
}

/// Whether command `(a, b)` comes before command `(i, j)`: menus in order,
/// then commands in order.
pub open spec fn before(menus: Seq<Menu>, a: int, b: int, i: int, j: int) -> bool {
    in_table(menus, a, b) && (a < i || (a == i && b < j))
}

/// Whether command `(i, j)` is the first in the table that is available and
/// whose pattern matches the text.
pub open spec fn is_first_match(menus: Seq<Menu>, state: AvailableState, text: Seq<char>, i: int, j: int) -> bool {
    &&& in_table(menus, i, j)
    &&& command_args(menus, state, text, i, j) is Some
    &&& forall|a: int, b: int| #[trigger] before(menus, a, b, i, j) ==> command_args(menus, state, text, a, b) is None
}

/// Whether the line asks for help: trimmed and lowercased, it starts with `h`.
pub open spec fn is_help_request(text: Seq<char>) -> bool {
    let l = lower_of(trimmed(text));
    l.len() > 0 && l[0] == 'h'
}

/// What follows the `h` of a help request.
pub open spec fn help_suffix(text: Seq<char>) -> Seq<char> {
    lower_of(trimmed(text)).drop_first()
}

/// The first menu whose help suffix, lowercased, is `suffix`.
pub open spec fn suffix_menu(menus: Seq<Menu>, suffix: Seq<char>) -> Option<int>
    decreases menus.len(),
{
    if menus.len() == 0 {
        None
    } else {
        match suffix_menu(menus.drop_last(), suffix) {
            Some(i) => Some(i),
            None => if lower_of(menus.last().help_suffix@) == suffix {
                Some(menus.len() - 1)
            } else {
                None
            },
        }
    }
}

/// The reply to a help request: the help of the menu it names where that menu
/// is reachable; else the top-level help, after a notice where a menu was named.
pub open spec fn help_reply(menus: Seq<Menu>, state: AvailableState, text: Seq<char>) -> Seq<Seq<char>> {
    let suffix = help_suffix(text);
    match suffix_menu(menus, suffix) {
        Some(i) if menu_reachable(menus[i], state) => menu_help(menus[i], state),
        _ => if suffix.len() > 0 {
            seq![NO_SUCH_HELP@, Seq::<char>::empty()] + toplevel_help(menus, state)
        } else {
            toplevel_help(menus, state)
        },
    }
}

/// The reply to a line that no available command matches.
pub open spec fn no_command_reply(menus: Seq<Menu>, state: AvailableState) -> Seq<Seq<char>> {
    seq![NO_SUCH_COMMAND@, Seq::<char>::empty()] + toplevel_help(menus, state)
}

/// What to do with one line of input.
#[derive(Debug)]
pub enum Dispatch {
    /// Run the handler of command `command` of menu `menu` with these arguments.
    Run { menu: usize, command: usize, func: Handler, args: Vec<String> },
    /// Send these lines back; no handler runs.
    Reply(Vec<String>),
}

/// What `dispatch` returns for a line: the reply to a help request; else the
/// first available command whose pattern matches, with its arguments; else,
/// where no command matches, the reply that says so.
pub open spec fn dispatch_result(menus: Seq<Menu>, state: AvailableState, text: Seq<char>, r: Dispatch) -> bool {
    if is_help_request(text) {
        r matches Dispatch::Reply(lines) && string_views(lines@) == help_reply(menus, state, text)
    } else {
        match r {
            Dispatch::Run { menu, command, func, args } => {
                &&& is_first_match(menus, state, text, menu as int, command as int)
                &&& func == menus[menu as int].commands@[command as int].func
                &&& command_args(menus, state, text, menu as int, command as int) == Some(
                    string_views(args@),
                )
            },
            Dispatch::Reply(lines) => {
                &&& forall|a: int, b: int| #[trigger] in_table(menus, a, b) ==> command_args(menus, state, text, a, b) is None
                &&& string_views(lines@) == no_command_reply(menus, state)
            },
        }
    }
}

/// At most one command qualifies to run for a line: two commands that are
/// each the first available match are the same command.
pub proof fn lemma_one_command_selected(
    menus: Seq<Menu>,
    state: AvailableState,
    text: Seq<char>,
    i1: int,
    j1: int,
    i2: int,
    j2: int,
)
    requires
        is_first_match(menus, state, text, i1, j1),
        is_first_match(menus, state, text, i2, j2),
    ensures
        i1 == i2 && j1 == j2,
{
    if i1 < i2 || (i1 == i2 && j1 < j2) {
        assert(before(menus, i1, j1, i2, j2));
    } else if i2 < i1 || (i1 == i2 && j2 < j1) {
        assert(before(menus, i2, j2, i1, j1));
    }
}

/// Dispatch is deterministic: for one table, one snapshot and one line, any two
/// results that `dispatch` may return select the same command, with the same
/// handler and arguments, or give the same reply.
pub proof fn lemma_dispatch_deterministic(
    menus: Seq<Menu>,
    state: AvailableState,
    text: Seq<char>,
    r1: Dispatch,
    r2: Dispatch,
)
    requires
        dispatch_result(menus, state, text, r1),
        dispatch_result(menus, state, text, r2),
    ensures
        match (r1, r2) {
            (
                Dispatch::Run { menu: m1, command: c1, func: f1, args: a1 },
                Dispatch::Run { menu: m2, command: c2, func: f2, args: a2 },
            ) => m1 == m2 && c1 == c2 && f1 == f2 && string_views(a1@) == string_views(a2@),
            (Dispatch::Reply(l1), Dispatch::Reply(l2)) => string_views(l1@) == string_views(l2@),
            _ => false,
        },
{
    if !is_help_request(text) {
        match (r1, r2) {
            (Dispatch::Run { menu: m1, command: c1, .. }, Dispatch::Run { menu: m2, command: c2, .. }) => {
                lemma_one_command_selected(menus, state, text, m1 as int, c1 as int, m2 as int, c2 as int);
            },
            (Dispatch::Run { menu: m1, command: c1, .. }, Dispatch::Reply(_)) => {
                assert(in_table(menus, m1 as int, c1 as int));
            },
            (Dispatch::Reply(_), Dispatch::Run { menu: m2, command: c2, .. }) => {
                assert(in_table(menus, m2 as int, c2 as int));
            },
            _ => {},
        }
    }
}

/// Priority: where two available commands both match a line that is not a
/// help request, the later one, in menu order and then command order, is
/// never the one dispatched.
pub proof fn lemma_earlier_command_wins(
    menus: Seq<Menu>,
    state: AvailableState,
    text: Seq<char>,
    a: int,
    b: int,
    i: int,
    j: int,
    r: Dispatch,
)
    requires
        before(menus, a, b, i, j),
        in_table(menus, i, j),
        command_args(menus, state, text, a, b) is Some,
        command_args(menus, state, text, i, j) is Some,
        dispatch_result(menus, state, text, r),
    ensures
        !is_first_match(menus, state, text, i, j),
        !is_help_request(text) ==> (r matches Dispatch::Run { menu, command, .. } && !(menu == i
            && command == j)),
{
    if !is_help_request(text) {
        match r {
            Dispatch::Run { .. } => {},
            Dispatch::Reply(_) => {
                assert(in_table(menus, a, b));
            },
        }
    }
}

proof fn lemma_suffix_menu_prefix(menus: Seq<Menu>, suffix: Seq<char>, n: int)
    requires
        0 <= n <= menus.len(),
        suffix_menu(menus.subrange(0, n), suffix) is Some,
    ensures
        suffix_menu(menus, suffix) == suffix_menu(menus.subrange(0, n), suffix),
    decreases menus.len() - n,
{
    if n < menus.len() {
        let longer = menus.subrange(0, n + 1);
        assert(longer.drop_last() == menus.subrange(0, n));
        lemma_suffix_menu_prefix(menus, suffix, n + 1);
    } else {
        assert(menus.subrange(0, n) == menus);
    }
}

fn args_from(groups: &Vec<Option<String>>) -> (r: Vec<String>)
    ensures
        string_views(r@) == args_of(group_views(groups@)),
{
    let mut out: Vec<String> = Vec::new();
    if groups.len() == 0 {
        return out;
    }
    let ghost g = group_views(groups@);
    let mut k: usize = 1;
    assert(g.drop_first().subrange(0, 0) == Seq::<Option<Seq<char>>>::empty());
    while k < groups.len()
        invariant
            1 <= k <= groups.len(),
            g == group_views(groups@),
            string_views(out@) == present_trimmed(g.drop_first().subrange(0, k - 1)),
        decreases groups.len() - k,
    {
        let ghost prev = string_views(out@);
        let ghost part = g.drop_first().subrange(0, k as int);
        assert(part.drop_last() == g.drop_first().subrange(0, k - 1));
        assert(part.last() == g[k as int]);
        match &groups[k] {
            Some(s) => {
                let t = trim_text(s.as_str());
                out.push(t);
                assert(string_views(out@) =~= prev.push(t@));
            },
            None => {},
        }
        k = k + 1;
    }
    assert(g.drop_first().subrange(0, groups.len() - 1) == g.drop_first());
    out
}

/// Decide what one line of input does. A help request is answered from the
/// table; otherwise the first command, menus in order and then commands in
/// order, that is available in `state` and whose pattern matches is chosen,
/// with its capture groups as arguments; where none is, the reply says so and
/// lists the help.
pub fn dispatch(cmdline: &str, state: &AvailableState, menus: &Vec<Menu>) -> (r: Dispatch)
    ensures
        dispatch_result(menus@, *state, cmdline@, r),
{
    let t = trim_text(cmdline);
    let lower = lowercase(t.as_str());
    let lc = chars_of(lower.as_str());
    if lc.len() > 0 && lc[0] == 'h' {
        let suffix = string_of(&copy_range(&lc, 1, lc.len()));
        assert(is_help_request(cmdline@));
        assert(suffix@ == help_suffix(cmdline@));
        let mut stop = false;
        let mut i: usize = 0;
        while i < menus.len() && !stop
            invariant
                i <= menus.len(),
                is_help_request(cmdline@),
                suffix@ == help_suffix(cmdline@),
                !stop ==> suffix_menu(menus@.subrange(0, i as int), suffix@) is None,
                stop ==> i < menus.len() && suffix_menu(menus@, suffix@) == Some(i as int)
                    && !menu_reachable(menus@[i as int], *state),
            decreases menus.len() - i + (if stop { 0int } else { 1int }),
        {
            let ms = lowercase(menus[i].help_suffix.as_str());
            assert(menus@.subrange(0, i + 1).drop_last() == menus@.subrange(0, i as int));
            if ms == suffix {
                proof {
                    assert(suffix_menu(menus@.subrange(0, i + 1), suffix@) == Some(i as int));
                    lemma_suffix_menu_prefix(menus@, suffix@, i + 1);
                }
                if menus[i].any_available(state) {
                    return Dispatch::Reply(help_menu(state, &menus[i]));
                }
                stop = true;
            } else {
                i = i + 1;
            }
        }
        if !stop {
            assert(menus@.subrange(0, i as int) == menus@);
        }
        assert(match suffix_menu(menus@, suffix@) {
            Some(k) => !menu_reachable(menus@[k], *state),
            None => true,
        });
        let mut out: Vec<String> = Vec::new();
        if lc.len() > 1 {
            out.push(NO_SUCH_HELP.to_owned());
            out.push(String::new());
        }
        let ghost head = string_views(out@);
        let mut top = help_toplevel(state, menus);
        out.append(&mut top);
        proof {
            if suffix@.len() > 0 {
                assert(head =~= seq![NO_SUCH_HELP@, Seq::<char>::empty()]);
            } else {
                assert(head =~= Seq::<Seq<char>>::empty());
            }
        }
        assert(string_views(out@) =~= head + toplevel_help(menus@, *state));
        return Dispatch::Reply(out);
    }
    let mut i: usize = 0;
    while i < menus.len()
        invariant
            i <= menus.len(),
            !is_help_request(cmdline@),
            forall|a: int, b: int| #[trigger] in_table(menus@, a, b) && a < i ==> command_args(menus@, *state, cmdline@, a, b) is None,
        decreases menus.len() - i,
    {
        let menu = &menus[i];
        let mut j: usize = 0;
        while j < menu.commands.len()
            invariant
                i < menus.len(),
                j <= menu.commands.len(),
                *menu == menus@[i as int],
                !is_help_request(cmdline@),
                forall|a: int, b: int| #[trigger] in_table(menus@, a, b) && (a < i || (a == i && b < j)) ==> command_args(menus@, *state, cmdline@, a, b) is None,
            decreases menu.commands.len() - j,
        {
            let command = &menu.commands[j];
            if command.available.check(state) {
                let pattern = make_pattern(command.pattern.as_str());
                match captures_of(pattern.as_str(), cmdline) {
                    Some(groups) => {
                        let args = args_from(&groups);
                        proof {
                            assert forall|a: int, b: int| #[trigger] before(menus@, a, b, i as int, j as int) implies command_args(menus@, *state, cmdline@, a, b) is None by {
                                assert(in_table(menus@, a, b));
                            }
                        }
                        return Dispatch::Run { menu: i, command: j, func: command.func, args };
                    },
                    None => {},
                }
            }
            j = j + 1;
        }
        i = i + 1;
    }
    let mut out: Vec<String> = vec![NO_SUCH_COMMAND.to_owned(), String::new()];
    let ghost head = string_views(out@);
    let mut top = help_toplevel(state, menus);
    out.append(&mut top);
    assert(head =~= seq![NO_SUCH_COMMAND@, Seq::<char>::empty()]);
    assert(string_views(out@) =~= head + toplevel_help(menus@, *state));
    Dispatch::Reply(out)
}

} // verus!
