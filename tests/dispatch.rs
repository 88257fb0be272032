use frozenbbs::client::{dispatch, make_pattern, Dispatch, NO_SUCH_COMMAND, NO_SUCH_HELP};
use frozenbbs::commands::{
    available_state, help_menu, help_toplevel, Availability, AvailableState, Command, Handler,
    Menu, Replies, ReplyDestination,
};
use frozenbbs::config::{command_structure, CommandConfig, ConfigError, MenuConfig};

fn command(arg: &str, help: &str, pattern: &str, available: Availability, func: Handler) -> Command {
    Command {
        arg: arg.to_string(),
        help: help.to_string(),
        pattern: pattern.to_string(),
        available,
        func,
    }
}

fn menus() -> Vec<Menu> {
    vec![
        Menu {
            name: "Board".to_string(),
            help_suffix: "B".to_string(),
            commands: vec![
                command("B", "List boards", "b", Availability::Always, Handler::BoardLister),
                command("Bn", "Enter board n", r"b\s*(\d+)", Availability::Always, Handler::BoardEnter),
                command("N", "Next", "n", Availability::InBoard, Handler::BoardNext),
                command("W msg", "Write", r"w\s+(.+)", Availability::InBoard, Handler::BoardWrite),
            ],
        },
        Menu {
            name: "Reading".to_string(),
            help_suffix: "R".to_string(),
            commands: vec![
                command("N", "Next post", "n", Availability::InBoard, Handler::BoardNext),
                command("P", "Previous post", "p", Availability::InBoard, Handler::BoardPrevious),
            ],
        },
        Menu {
            name: "Sysop".to_string(),
            help_suffix: "S".to_string(),
            commands: vec![command(
                "ADV",
                "Advertise",
                "adv",
                Availability::Sysop,
                Handler::SysopAdvertise,
            )],
        },
        Menu {
            name: "User".to_string(),
            help_suffix: "U".to_string(),
            commands: vec![
                command("?", "Where am I", r"\?", Availability::Always, Handler::StateDescribe),
                command("BIO text", "Set bio", r"bio\s+(.+)", Availability::Always, Handler::UserBioWrite),
                command("BIO", "Read bio", "bio", Availability::Always, Handler::UserBioRead),
            ],
        },
    ]
}

const OUTSIDE: AvailableState = AvailableState { in_board: false, is_local: false, is_sysop: false };
const INSIDE: AvailableState = AvailableState { in_board: true, is_local: false, is_sysop: false };

fn reply(d: Dispatch) -> Vec<String> {
    match d {
        Dispatch::Reply(lines) => lines,
        Dispatch::Run { .. } => panic!("expected a reply, got {d:?}"),
    }
}

fn run(d: Dispatch) -> (usize, usize, Handler, Vec<String>) {
    match d {
        Dispatch::Run { menu, command, func, args } => (menu, command, func, args),
        Dispatch::Reply(lines) => panic!("expected a command, got {lines:?}"),
    }
}

fn toplevel_outside() -> Vec<String> {
    vec![
        "Help commands:".to_string(),
        String::new(),
        "HB : Board menu".to_string(),
        "HU : User menu".to_string(),
        "H : This help".to_string(),
    ]
}

#[test]
fn help_outside_a_board_omits_board_only_menus() {
    let out = reply(dispatch("h", &OUTSIDE, &menus()));
    assert_eq!(out, toplevel_outside());
}

#[test]
fn help_lists_sysop_menu_for_sysops() {
    let state = AvailableState { in_board: true, is_local: false, is_sysop: true };
    let out = help_toplevel(&state, &menus());
    assert_eq!(
        out,
        vec![
            "Help commands:",
            "",
            "HB : Board menu",
            "HR : Reading menu",
            "HS : Sysop menu",
            "HU : User menu",
            "H : This help"
        ]
    );
}

#[test]
fn help_for_a_menu_lists_available_commands() {
    let out = reply(dispatch("  HB ", &INSIDE, &menus()));
    assert_eq!(
        out,
        vec!["Help for Board commands", "", "B : List boards", "Bn : Enter board n", "N : Next", "W msg : Write"]
    );
    let outside = help_menu(&OUTSIDE, &menus()[0]);
    assert_eq!(outside, vec!["Help for Board commands", "", "B : List boards", "Bn : Enter board n"]);
}

#[test]
fn help_for_an_unreachable_menu_falls_back() {
    let out = reply(dispatch("hr", &OUTSIDE, &menus()));
    let mut expected = vec![NO_SUCH_HELP.to_string(), String::new()];
    expected.extend(toplevel_outside());
    assert_eq!(out, expected);
}

#[test]
fn any_line_starting_with_h_asks_for_help() {
    let out = reply(dispatch("hello", &OUTSIDE, &menus()));
    assert_eq!(out[0], NO_SUCH_HELP);
}

#[test]
fn command_arguments_are_the_trimmed_capture_groups() {
    let (menu, command, func, args) = run(dispatch("b 3", &OUTSIDE, &menus()));
    assert_eq!((menu, command, func), (0, 1, Handler::BoardEnter));
    assert_eq!(args, vec!["3"]);
    let (_, _, func, args) = run(dispatch("  W   hello world  ", &INSIDE, &menus()));
    assert_eq!(func, Handler::BoardWrite);
    assert_eq!(args, vec!["hello world"]);
}

#[test]
fn commands_without_groups_get_no_arguments() {
    let (menu, command, func, args) = run(dispatch("BIO", &OUTSIDE, &menus()));
    assert_eq!((menu, command, func), (3, 2, Handler::UserBioRead));
    assert!(args.is_empty());
    let (_, _, func, args) = run(dispatch("bio likes radios", &OUTSIDE, &menus()));
    assert_eq!(func, Handler::UserBioWrite);
    assert_eq!(args, vec!["likes radios"]);
}

#[test]
fn earlier_command_wins() {
    let (menu, command, func, _) = run(dispatch("n", &INSIDE, &menus()));
    assert_eq!((menu, command, func), (0, 2, Handler::BoardNext));
}

#[test]
fn dispatch_is_deterministic() {
    let first = run(dispatch("b 12", &INSIDE, &menus()));
    let second = run(dispatch("b 12", &INSIDE, &menus()));
    assert_eq!(first, second);
}

#[test]
fn unavailable_commands_are_skipped() {
    let out = reply(dispatch("n", &OUTSIDE, &menus()));
    let mut expected = vec![NO_SUCH_COMMAND.to_string(), String::new()];
    expected.extend(toplevel_outside());
    assert_eq!(out, expected);
    let out = reply(dispatch("adv", &INSIDE, &menus()));
    assert_eq!(out[0], NO_SUCH_COMMAND);
}

#[test]
fn patterns_are_whole_line_and_case_insensitive() {
    assert!(matches!(dispatch("P", &INSIDE, &menus()), Dispatch::Run { menu: 1, command: 1, .. }));
    assert!(matches!(dispatch("pp", &INSIDE, &menus()), Dispatch::Reply(_)));
    assert_eq!(make_pattern("b"), r"^\s*b\s*$");
}

#[test]
fn sysops_are_recognized_by_node_id() {
    let sysops = vec!["!00000001".to_string(), "!cafeb33d".to_string()];
    let state = available_state(&sysops, "!cafeb33d", true, false);
    assert_eq!(state, AvailableState { in_board: true, is_local: false, is_sysop: true });
    let state = available_state(&sysops, "!00000002", false, true);
    assert_eq!(state, AvailableState { in_board: false, is_local: true, is_sysop: false });
}

#[test]
fn replies_go_to_the_sender() {
    let r = Replies::from_text("hi");
    assert_eq!(r.0.len(), 1);
    assert_eq!(r.0[0].out, vec!["hi"]);
    assert_eq!(r.0[0].destination, ReplyDestination::Sender);
}

fn command_config(pattern: &str, available: &str, func: &str) -> CommandConfig {
    CommandConfig {
        arg: "X".to_string(),
        help: "Does x".to_string(),
        pattern: pattern.to_string(),
        available: available.to_string(),
        func: func.to_string(),
    }
}

#[test]
fn command_table_is_built_in_configured_order() {
    let cfg = vec![
        (
            "Board".to_string(),
            MenuConfig {
                help_suffix: "B".to_string(),
                commands: vec![
                    command_config("b", "always", "board::lister"),
                    command_config("n", "in_board", "board::next"),
                ],
            },
        ),
        (
            "Sysop".to_string(),
            MenuConfig {
                help_suffix: "S".to_string(),
                commands: vec![command_config("adv", "sysop", "sysop::advertise")],
            },
        ),
    ];
    let menus = command_structure(&cfg).expect("known names");
    assert_eq!(menus.len(), 2);
    assert_eq!(menus[0].name, "Board");
    assert_eq!(menus[0].commands[1].available, Availability::InBoard);
    assert_eq!(menus[0].commands[1].func, Handler::BoardNext);
    assert_eq!(menus[1].commands[0].func, Handler::SysopAdvertise);
}

#[test]
fn unknown_names_are_refused() {
    let cfg = vec![(
        "Board".to_string(),
        MenuConfig { help_suffix: "B".to_string(), commands: vec![command_config("b", "sometimes", "board::lister")] },
    )];
    assert_eq!(
        command_structure(&cfg).unwrap_err(),
        ConfigError::UnknownAvailability("sometimes".to_string())
    );
    let cfg = vec![(
        "Board".to_string(),
        MenuConfig { help_suffix: "B".to_string(), commands: vec![command_config("b", "local", "board::nope")] },
    )];
    assert_eq!(
        command_structure(&cfg).unwrap_err(),
        ConfigError::UnknownFunction("board::nope".to_string())
    );
}
