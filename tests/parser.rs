use cyberarsenal::command::{Command, CommandType};
use cyberarsenal::segment::CommandArg;

fn cmd(exe: &str, args: &str) -> Command {
    Command::new(
        7,
        "name".to_string(),
        exe.to_string(),
        "network".to_string(),
        "short".to_string(),
        "details".to_string(),
        args.to_string(),
        vec![],
    )
}

#[test]
fn packed_placeholders_have_no_space_between() {
    let segs = CommandArg::new(0, "<a>/<b>".to_string());
    assert_eq!(segs.len(), 2);
    assert_eq!(segs[0].follow_char, None);
    assert_eq!(segs[1].follow_char, Some(' '));
    assert_eq!(segs[0].value, "<a>");
    assert_eq!(segs[0].post, "/");
    assert_eq!(segs[1].pre, "");
    assert_eq!(segs[1].value, "<b>");
}

#[test]
fn literal_between_placeholders_goes_to_suffix() {
    let segs = CommandArg::new(0, "pre<a>mid<b>post".to_string());
    assert_eq!(segs.len(), 2);
    assert_eq!(segs[0].pre, "pre");
    assert_eq!(segs[0].value, "<a>");
    assert_eq!(segs[0].post, "mid");
    assert_eq!(segs[1].pre, "");
    assert_eq!(segs[1].value, "<b>");
    assert_eq!(segs[1].post, "post");
    assert_eq!(segs[1].follow_char, Some(' '));
}

#[test]
fn short_literal_between_placeholders() {
    let segs = CommandArg::new(3, "a<x>b<y>c".to_string());
    assert_eq!(segs.len(), 2);
    assert_eq!(format!("{}{}{}", segs[0].pre, segs[0].value, segs[0].post), "a<x>b");
    assert_eq!(format!("{}{}{}", segs[1].pre, segs[1].value, segs[1].post), "<y>c");
    assert_eq!(segs[0].id, 3);
    assert_eq!(segs[1].id, 4);
}

#[test]
fn default_value_is_split_off() {
    let segs = CommandArg::new(0, "<port|4444>".to_string());
    assert_eq!(segs.len(), 1);
    assert_eq!(segs[0].value, "<port>");
    assert_eq!(segs[0].default, Some("4444".to_string()));
    assert!(segs[0].is_input);
    assert_eq!(segs[0].copy(), "4444 ");
}

#[test]
fn two_bars_give_an_empty_value() {
    let segs = CommandArg::new(0, "<a|b|c>".to_string());
    assert_eq!(segs.len(), 1);
    assert_eq!(segs[0].value, "");
    assert_eq!(segs[0].default, None);
    assert!(segs[0].is_input);
}

#[test]
fn word_without_placeholder_is_literal() {
    let segs = CommandArg::new(5, "-v".to_string());
    assert_eq!(segs.len(), 1);
    assert_eq!(segs[0].id, 5);
    assert_eq!(segs[0].value, "-v");
    assert!(!segs[0].is_input);
    assert_eq!(segs[0].follow_char, Some(' '));
    assert_eq!(segs[0].copy(), "-v ");
}

#[test]
fn tail_after_placeholder_keeps_space() {
    let segs = CommandArg::new(0, "<host>:80".to_string());
    assert_eq!(segs.len(), 1);
    assert_eq!(segs[0].post, ":80");
    assert_eq!(segs[0].follow_char, Some(' '));
}

#[test]
fn piece_without_placeholder_is_dropped() {
    let segs = CommandArg::new(0, "x>y<a>".to_string());
    assert_eq!(segs.len(), 1);
    assert_eq!(segs[0].pre, "y");
    assert_eq!(segs[0].value, "<a>");
}

#[test]
fn unallowed_character_is_no_placeholder() {
    let segs = CommandArg::new(0, "<a,b>".to_string());
    assert_eq!(segs.len(), 1);
    assert!(!segs[0].is_input);
    assert_eq!(segs[0].value, "<a,b>");
    let empty = CommandArg::new(0, "<>".to_string());
    assert!(!empty[0].is_input);
}

#[test]
fn ping_example_end_to_end() {
    let mut c = cmd("ping", "-v <destination|127.0.0.1>");
    assert_eq!(c.copy_raw(), "ping -v <destination> ");
    assert_eq!(c.copy_basic(), "ping -v 127.0.0.1 ");
    let id = c.get_input_args()[0].id;
    for ch in "8.8.8.8".chars() {
        c.append_char(id, ch);
    }
    assert_eq!(c.copy_basic(), "ping -v 8.8.8.8 ");
}

#[test]
fn resolved_rendering_is_repeatable() {
    let mut c = cmd("nc", "<host> <port|4444>");
    c.append_char(0, 'h');
    let first = c.copy_basic();
    let second = c.copy_basic();
    assert_eq!(first, second);
    assert_eq!(first, "nc h 4444 ");
}

#[test]
fn raw_rendering_round_trips_template() {
    let t = "-p <port> --url http://<host>/<path> -x";
    let c = cmd("curl", t);
    assert_eq!(c.copy_raw(), format!("curl {} ", t));
    let spaced = cmd("curl", "  a   <b>\tc ");
    assert_eq!(spaced.copy_raw(), "curl a <b> c ");
}

#[test]
fn override_wins_then_default_returns() {
    let mut c = cmd("nc", "<port|4444>");
    c.append_char(0, '8');
    assert_eq!(c.copy_basic(), "nc 8 ");
    assert_eq!(c.cmd_args[0].modified, Some("8".to_string()));
    c.pop_char(0);
    assert_eq!(c.cmd_args[0].modified, None);
    assert_eq!(c.copy_basic(), "nc 4444 ");
    let mut d = cmd("nc", "<host>");
    d.append_char(0, 'x');
    d.pop_char(0);
    assert_eq!(d.copy_basic(), "nc <host> ");
    d.pop_char(0);
    assert_eq!(d.cmd_args[0].modified, None);
}

#[test]
fn edits_of_literals_and_unknown_ids_are_ignored() {
    let mut c = cmd("ls", "-la <dir>");
    c.append_char(0, 'z');
    c.append_char(9, 'z');
    c.pop_char(0);
    assert_eq!(c.copy_basic(), "ls -la <dir> ");
    assert_eq!(c.cmd_args[0].modified, None);
}

#[test]
fn ids_increase_across_words() {
    let c = cmd("x", "a<b>/<c> d <e|1>f");
    let ids: Vec<usize> = c.get_all_args().iter().map(|a| a.id).collect();
    assert_eq!(ids, vec![0, 1, 2, 3]);
    let inputs: Vec<usize> = c.get_input_args().iter().map(|a| a.id).collect();
    assert_eq!(inputs, vec![0, 1, 3]);
}

#[test]
fn empty_template_renders_executable_only() {
    let c = cmd("whoami", "");
    assert_eq!(c.cmd_args.len(), 0);
    assert_eq!(c.copy_raw(), "whoami ");
    assert_eq!(c.copy_basic(), "whoami ");
}

#[test]
fn shifted_view_pads_name() {
    let c = Command::new(0, "scan".to_string(), "nmap".to_string(), "".to_string(),
        "".to_string(), "".to_string(), "<ip>".to_string(), vec![]);
    assert_eq!(c.copy_raw_shifted(), "[scan                ] nmap <ip> ");
    let long = Command::new(0, "a-very-long-command-name".to_string(), "x".to_string(),
        "".to_string(), "".to_string(), "".to_string(), "".to_string(), vec![]);
    assert_eq!(long.copy_raw_shifted(), "[a-very-long-command-name] x ");
}

#[test]
fn tags_are_parsed_from_bar_list() {
    let c = Command::new(0, "n".to_string(), "e".to_string(), "network|crypto|bogus".to_string(),
        "".to_string(), "".to_string(), "".to_string(), vec![]);
    assert_eq!(c.cmd_types, vec![CommandType::NETWORK, CommandType::CRYPTO, CommandType::UNKNOWN]);
    let none = Command::new(0, "n".to_string(), "e".to_string(), "".to_string(),
        "".to_string(), "".to_string(), "".to_string(), vec![]);
    assert_eq!(none.cmd_types, vec![CommandType::NONE]);
}

#[test]
fn from_str_names_each_tag() {
    assert_eq!(CommandType::from_str("programming"), CommandType::PROGRAMMING);
    assert_eq!(CommandType::from_str("reverse"), CommandType::REVERSE);
    assert_eq!(CommandType::from_str("forensics"), CommandType::FORENSICS);
    assert_eq!(CommandType::from_str("pentest"), CommandType::PENTEST);
    assert_eq!(CommandType::from_str("crypto"), CommandType::CRYPTO);
    assert_eq!(CommandType::from_str("sysadmin"), CommandType::SYSADMIN);
    assert_eq!(CommandType::from_str("network"), CommandType::NETWORK);
    assert_eq!(CommandType::from_str(""), CommandType::NONE);
    assert_eq!(CommandType::from_str("Network"), CommandType::UNKNOWN);
}

#[test]
fn info_and_short_texts() {
    let c = Command::new(0, "ping0".to_string(), "ping".to_string(), "network|sysadmin".to_string(),
        "Simple ping".to_string(), "...".to_string(), "-v <destination>".to_string(),
        vec!["ping 127.0.0.1".to_string(), "ping -v 127.0.0.1".to_string()]);
    assert_eq!(
        c.info(),
        "Command:ping\nTYPE:NETWORK SYSADMIN\nExplanation:\nSimple ping\nDetails:\n...\nping ping -v <destination> \nExamples:\n > ping 127.0.0.1\n > ping -v 127.0.0.1"
    );
    assert_eq!(
        c.short(),
        "Command:ping\nTYPE:NETWORK SYSADMIN\nExplanation:\nSimple ping\nping ping -v <destination> \n"
    );
}

#[test]
fn segment_labels() {
    let mut c = cmd("nc", "-l <port|4444> <host>");
    assert_eq!(c.cmd_args[0].label(), "-l");
    assert_eq!(c.cmd_args[1].label(), "(1) <port> = 4444");
    assert_eq!(c.cmd_args[2].label(), "(2) <host> = ");
    c.append_char(2, 'h');
    assert_eq!(c.cmd_args[2].label(), "(2) <host> = h");
    let wide = CommandArg::new(123, "a<b>c".to_string());
    assert_eq!(wide[0].label(), "(123) a<b>c = ");
    assert_eq!(wide[0].get_follow_char(), " ");
}

#[test]
fn duplicate_is_independent() {
    let c = cmd("nc", "<host>");
    let mut d = c.duplicate();
    d.append_char(0, 'q');
    assert_eq!(c.copy_basic(), "nc <host> ");
    assert_eq!(d.copy_basic(), "nc q ");
}

#[test]
fn type_names_line() {
    let c = Command::new(0, "n".to_string(), "e".to_string(), "crypto|reverse".to_string(),
        "".to_string(), "".to_string(), "".to_string(), vec![]);
    assert_eq!(c.type_names(), "CRYPTO REVERSE");
}

#[test]
fn raw_rendering_drops_defaults() {
    let c = cmd("nc", "-p <port|4444> x<a|b>y <h>/<p|1>");
    assert_eq!(c.copy_raw(), "nc -p <port> x<a>y <h>/<p> ");
}

#[test]
fn literal_renders_value_only() {
    let mut c = cmd("echo", "hi");
    c.cmd_args[0].pre = "pre".to_string();
    c.cmd_args[0].post = "post".to_string();
    assert_eq!(c.copy_raw(), "echo hi ");
    assert_eq!(c.copy_basic(), "echo hi ");
}
