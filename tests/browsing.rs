use cyberarsenal::browser::{command_matches, contains, ArsenalApp, ChosenCommand, Key, SearchCommands, StatefulList};
use cyberarsenal::catalog::{command_from_row, commands_from_rows, settings_path, CatalogRow};
use cyberarsenal::command::{Command, CommandType};
use cyberarsenal::event::{AppEvent, LevelCode};
use cyberarsenal::text::{replace_first_last_quote, unquote, IntelligentStringBuilder};

fn command(name: &str, exe: &str, types: &str, args: &str) -> Command {
    Command::new(0, name.to_string(), exe.to_string(), types.to_string(), "".to_string(),
        "".to_string(), args.to_string(), vec![])
}

fn app_with(commands: Vec<Command>) -> ArsenalApp {
    let mut app = ArsenalApp::new(3);
    app.search_commands.commands = commands;
    app.search_commands.refresh_list();
    app
}

#[test]
fn search_lowercases_name() {
    let c = command("NmapScan", "NMAP", "network", "-sV");
    assert!(command_matches(&c, "nmapscan"));
    assert!(command_matches(&c, "SCAN"));
    assert!(!command_matches(&c, "ping"));
}

#[test]
fn search_matches_tag_list_as_typed() {
    let c = command("a", "b", "network|crypto", "c");
    assert!(command_matches(&c, "NETWORK, CRYPTO"));
    assert!(command_matches(&c, "[NET"));
    assert!(!command_matches(&c, "WORK,C"));
}

#[test]
fn substring_search() {
    assert!(contains("hello", "ell"));
    assert!(contains("hello", ""));
    assert!(!contains("hello", "hello!"));
    assert!(!contains("", "a"));
    assert!(contains("abab", "bab"));
}

#[test]
fn refresh_filters_and_selects_first() {
    let mut s = SearchCommands::new();
    s.commands = vec![command("ping0", "ping", "network", "<h>"), command("ls", "ls", "sysadmin", "-la")];
    s.refresh_list();
    assert_eq!(s.listful_cmds.items.len(), 2);
    assert_eq!(s.listful_cmds.selected(), Some(0));
    s.search = "PIN".to_string();
    s.refresh_list();
    assert_eq!(s.listful_cmds.items.len(), 1);
    assert_eq!(s.listful_cmds.items[0].name, "ping0");
    s.search = "zzz".to_string();
    s.refresh_list();
    assert_eq!(s.listful_cmds.items.len(), 0);
}

#[test]
fn list_selection_wraps() {
    let mut l = StatefulList::with_items(vec![1, 2, 3]);
    assert_eq!(l.selected(), None);
    l.next();
    assert_eq!(l.selected(), Some(0));
    l.previous();
    assert_eq!(l.selected(), Some(2));
    l.next();
    assert_eq!(l.selected(), Some(0));
    l.next();
    assert_eq!(l.selected(), Some(1));
    let mut empty: StatefulList<u8> = StatefulList::with_items(vec![]);
    empty.next();
    empty.previous();
    assert_eq!(empty.selected(), None);
}

#[test]
fn typing_in_search_then_opening_and_filling() {
    let mut app = app_with(vec![
        command("ls", "ls", "sysadmin", "-la"),
        command("ping0", "ping", "network", "-v <destination|127.0.0.1>"),
    ]);
    for ch in "pin".chars() {
        assert_eq!(app.handle_event_key(Key::Char(ch)), None);
    }
    assert_eq!(app.search_commands.search, "pin");
    assert_eq!(app.search_commands.listful_cmds.items.len(), 1);
    app.handle_event_key(Key::Backspace);
    assert_eq!(app.search_commands.search, "pi");
    assert_eq!(app.handle_event_key(Key::Enter), None);
    assert!(app.chosen_command.is_some());
    assert_eq!(app.handle_event_key(Key::Enter), Some("ping -v 127.0.0.1 ".to_string()));
    app.handle_event_key(Key::Char('x'));
    assert_eq!(app.handle_event_key(Key::Enter), Some("ping -v 127.0.0.1 ".to_string()));
    app.handle_event_key(Key::Down);
    for ch in "8.8.8.8".chars() {
        app.handle_event_key(Key::Char(ch));
    }
    assert_eq!(app.handle_event_key(Key::Enter), Some("ping -v 8.8.8.8 ".to_string()));
    app.handle_event_key(Key::Backspace);
    assert_eq!(app.handle_event_key(Key::Enter), Some("ping -v 8.8.8. ".to_string()));
    assert_eq!(app.search_commands.commands[1].copy_basic(), "ping -v 127.0.0.1 ");
    app.handle_event_key(Key::Esc);
    assert!(app.chosen_command.is_none());
    assert!(!app.quit_app);
    app.handle_event_key(Key::Esc);
    assert!(app.quit_app);
}

#[test]
fn interrupt_quits_while_editing() {
    let mut app = app_with(vec![command("a", "b", "", "<c>")]);
    app.handle_event_key(Key::Enter);
    app.handle_event_key(Key::Other);
    assert!(app.chosen_command.is_some());
    app.handle_event_key(Key::Interrupt);
    assert!(app.quit_app);
}

#[test]
fn arrows_move_in_catalog() {
    let mut app = app_with(vec![command("a", "a", "", ""), command("b", "b", "", "")]);
    app.handle_event_key(Key::Down);
    assert_eq!(app.search_commands.listful_cmds.selected(), Some(1));
    app.handle_event_key(Key::Down);
    assert_eq!(app.search_commands.listful_cmds.selected(), Some(0));
    app.handle_event_key(Key::Up);
    assert_eq!(app.search_commands.listful_cmds.selected(), Some(1));
    app.handle_event_key(Key::Enter);
    assert_eq!(app.chosen_command.as_ref().map(|c| c.command.name.clone()), Some("b".to_string()));
}

#[test]
fn enter_on_empty_list_opens_nothing() {
    let mut app = app_with(vec![]);
    app.handle_event_key(Key::Enter);
    assert!(app.chosen_command.is_none());
}

#[test]
fn chosen_command_lists_placeholders() {
    let c = command("a", "b", "", "x <p> <q|1>");
    let mut chosen = ChosenCommand::from_command(&c);
    assert_eq!(chosen.listful_args.items.len(), 2);
    assert_eq!(chosen.listful_args.items[0].id, 1);
    chosen.type_char('z');
    assert_eq!(chosen.command.copy_basic(), "b x <p> 1 ");
    chosen.listful_args.select(Some(1));
    chosen.type_char('z');
    assert_eq!(chosen.command.copy_basic(), "b x <p> z ");
    assert_eq!(chosen.listful_args.items[1].modified, Some("z".to_string()));
    chosen.erase_char();
    chosen.refresh_list();
    assert_eq!(chosen.listful_args.selected(), Some(1));
    assert_eq!(chosen.command.copy_basic(), "b x <p> 1 ");
}

#[test]
fn events_are_capped() {
    let mut app = ArsenalApp::new(1);
    app.push_event(AppEvent::new("one", LevelCode::INFO));
    app.push_event(AppEvent::new("two", LevelCode::INFO));
    app.push_event(AppEvent::new("three", LevelCode::ERROR));
    let texts: Vec<String> = app.events.iter().map(|e| e.text.clone()).collect();
    assert_eq!(texts, vec!["two".to_string(), "three".to_string()]);
}

#[test]
fn event_is_stamped_now() {
    let e = AppEvent::new("x", LevelCode::WARNING);
    assert!(e.timestamp_millis > 1_600_000_000_000);
    assert_eq!(e.level, LevelCode::WARNING);
}

#[test]
fn level_labels() {
    assert_eq!(LevelCode::INFO.label(), "INFO");
    assert_eq!(LevelCode::TRACE.label(), "DEBUG");
    assert_eq!(LevelCode::CRITICAL.label(), "CRITICAL");
}

#[test]
fn example_command_is_added() {
    let mut app = ArsenalApp::new(10);
    app.load_example_commands();
    let items = &app.search_commands.listful_cmds.items;
    assert_eq!(items.len(), 1);
    assert_eq!(items[0].copy_raw(), "ping -v <destination> ");
    assert_eq!(items[0].cmd_types, vec![CommandType::NETWORK]);
}

#[test]
fn quotes_are_cleaned() {
    assert_eq!(replace_first_last_quote("\"abc\""), "abc");
    assert_eq!(replace_first_last_quote("\""), "");
    assert_eq!(replace_first_last_quote("a\"b"), "a\"b");
    assert_eq!(unquote("\"say \\\"hi\\\"\"".to_string()), "say \"hi\"");
    let mut b = IntelligentStringBuilder::new("\"x\\\"\"".to_string());
    assert_eq!(b.delete_last_quote().build(), "\"x\\\"");
    let mut plain = IntelligentStringBuilder::new("\"x\"".to_string());
    assert_eq!(plain.build(), "\"x\"");
}

#[test]
fn settings_path_choice() {
    assert_eq!(settings_path("a.db".to_string(), None), Some("a.db".to_string()));
    assert_eq!(
        settings_path("".to_string(), Some("/home/u".to_string())),
        Some("/home/u/.config/cyberarsenal/settings.db".to_string())
    );
    assert_eq!(settings_path("".to_string(), Some("".to_string())), None);
    assert_eq!(settings_path("".to_string(), None), None);
}

#[test]
fn rows_become_commands() {
    let row = CatalogRow {
        id: 4,
        name: "scan".to_string(),
        name_exe: "nmap".to_string(),
        short_desc: "s".to_string(),
        details: "d".to_string(),
        args: vec!["-p <port|22> <ip>".to_string(), "ignored".to_string()],
        examples: vec!["nmap -p 22 10.0.0.1".to_string()],
        cmd_types: vec!["network|pentest".to_string()],
    };
    let c = command_from_row(&row);
    assert_eq!(c.id, 4);
    assert_eq!(c.copy_basic(), "nmap -p 22 <ip> ");
    assert_eq!(c.cmd_types, vec![CommandType::NETWORK, CommandType::PENTEST]);
    let empty = CatalogRow { args: vec![], cmd_types: vec![], ..row };
    let all = commands_from_rows(&vec![empty]);
    assert_eq!(all.len(), 1);
    assert_eq!(all[0].copy_raw(), "nmap ");
    assert_eq!(all[0].cmd_types, vec![CommandType::NONE]);
}

#[test]
fn example_command_contents() {
    let mut app = ArsenalApp::new(10);
    app.load_example_commands();
    let c = &app.search_commands.listful_cmds.items[0];
    assert_eq!(c.id, 0);
    assert_eq!(c.short_desc, "Simple ping with verbose on");
    assert_eq!(c.details, "...");
    assert_eq!(c.examples, vec!["ping 127.0.0.1".to_string(), "ping -v 127.0.0.1".to_string()]);
    assert_eq!(c.cmd_args.len(), 2);
    assert_eq!(c.get_input_args()[0].id, 1);
}
