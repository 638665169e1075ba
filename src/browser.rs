//! Browsing and editing state: the filtered catalog list, the command opened
//! for editing, and how each key changes them.

use vstd::prelude::*;
use crate::command::{
    Command, CommandView, CommandType, command_views, tag_name, join, inputs_of, edit_override,
    appended, popped, resolved_line, tag_of, bar_parts, build, lemma_bar_parts_plain,
};
use crate::segment::{CommandArg, ArgView, arg_views, opt_view};
use crate::text::{chars_of, push_char, pop_last, string_lit};
use crate::event::AppEvent;

verus! {

/// The lower-case form of a text, as `str::to_lowercase` gives it.
pub uninterp spec fn lower_of(s: Seq<char>) -> Seq<char>;

/// Relies on `str::to_lowercase`: Unicode lower-case mapping, a function of
/// the characters alone.
#[verifier::external_body]
fn lowercase(s: &str) -> (r: String)
    ensures
        r@ == lower_of(s@),
{
    s.to_lowercase()
}

/// Whether `needle` occurs in `hay` as a contiguous run.
pub open spec fn is_infix(needle: Seq<char>, hay: Seq<char>) -> bool {
    exists|k: int|
        0 <= k && k + needle.len() <= hay.len() && #[trigger] hay.subrange(k, k + needle.len())
            == needle
}

/// Whether `needle` occurs in `hay`.
pub fn contains(hay: &str, needle: &str) -> (r: bool)
    ensures
        r == is_infix(needle@, hay@),
{
    let h = chars_of(hay);
    let nd = chars_of(needle);
    let n = h.len();
    let m = nd.len();
    if m > n {
        return false;
    }
    if m == 0 {
        assert(hay@.subrange(0int, 0int + needle@.len()) =~= needle@);
        return true;
    }
    let mut k: usize = 0;
    while k < n - m + 1
        invariant
            m >= 1,
            n == h@.len() == hay@.len(),
            m == nd@.len() == needle@.len(),
            h@ == hay@,
            nd@ == needle@,
            m <= n,
            k <= n - m + 1,
            forall|q: int| 0 <= q < k ==> #[trigger] h@.subrange(q, q + m) != nd@,
        decreases n - m + 1 - k,
    {
        let mut j: usize = 0;
        let mut same = true;
        while j < m
            invariant
                n == h@.len(),
                m == nd@.len(),
                k + m <= n,
                j <= m,
                same ==> forall|t: int| 0 <= t < j ==> h@[k + t] == nd@[t],
                !same ==> h@.subrange(k as int, k + m) != nd@,
            decreases m - j,
        {
            if h[k + j] != nd[j] {
                same = false;
                assert(h@.subrange(k as int, k + m)[j as int] != nd@[j as int]);
            }
            j = j + 1;
        }
        if same {
            assert(h@.subrange(k as int, k + m) =~= nd@);
            assert(hay@.subrange(k as int, k + needle@.len()) == needle@);
            return true;
        }
        k = k + 1;
    }
    assert forall|q: int| 0 <= q && q + needle@.len() <= hay@.len() implies #[trigger] hay@.subrange(
        q,
        q + needle@.len(),
    ) != needle@ by {
        assert(h@.subrange(q, q + m) != nd@);
    }
    false
}

/// The tags as a list: `[A, B]`.
pub open spec fn tags_list(ts: Seq<CommandType>) -> Seq<char> {
    "["@ + join(ts.map_values(|t: CommandType| tag_name(t)), ", "@) + "]"@
}

fn push_tags_list(out: &mut String, ts: &Vec<CommandType>)
    ensures
        final(out)@ == old(out)@ + tags_list(ts@),
{
    let ghost start = out@;
    let ghost nv = ts@.map_values(|t: CommandType| tag_name(t));
    out.append("[");
    let mut i: usize = 0;
    while i < ts.len()
        invariant
            i <= ts@.len(),
            nv == ts@.map_values(|t: CommandType| tag_name(t)),
            out@ == start + "["@ + join(nv.subrange(0, i as int), ", "@),
        decreases ts@.len() - i,
    {
        let ghost sub = nv.subrange(0, i + 1);
        assert(sub.drop_last() =~= nv.subrange(0, i as int));
        if i > 0 {
            out.append(", ");
        }
        ts[i].push_name(out);
        i = i + 1;
        assert(out@ =~= start + "["@ + join(sub, ", "@)) by {
            if i == 1 {
                assert(nv.subrange(0, 0) =~= Seq::<Seq<char>>::empty());
            }
        }
    }
    assert(nv.subrange(0, i as int) =~= nv);
    out.append("]");
}

/// Whether a command is kept by a search, given the lower-case forms of its
/// name, executable and template, its tag list and the search text in
/// lower case and as typed. The tag list is matched against the search as typed.
pub open spec fn search_hit(
    name_l: Seq<char>,
    exe_l: Seq<char>,
    args_l: Seq<char>,
    tags: Seq<char>,
    search_l: Seq<char>,
    search: Seq<char>,
) -> bool {
    is_infix(search_l, name_l) || is_infix(search_l, exe_l) || is_infix(search_l, args_l)
        || is_infix(search, tags)
}

/// The search decision on texts already lowered.
pub fn matches_lowered(
    name_l: &str,
    exe_l: &str,
    args_l: &str,
    tags: &str,
    search_l: &str,
    search: &str,
) -> (r: bool)
    ensures
        r == search_hit(name_l@, exe_l@, args_l@, tags@, search_l@, search@),
{
    contains(name_l, search_l) || contains(exe_l, search_l) || contains(args_l, search_l)
        || contains(tags, search)
}

/// Whether `c` is kept by the search `search`.
pub open spec fn command_hit(c: CommandView, search: Seq<char>) -> bool {
    search_hit(
        lower_of(c.name),
        lower_of(c.name_exe),
        lower_of(c.args),
        tags_list(c.cmd_types),
        lower_of(search),
        search,
    )
}

/// Whether `c` is kept by the search `search`: the search, in lower case,
/// occurs in the name, executable or template in lower case, or the search
/// as typed occurs in the tag list.
pub fn command_matches(c: &Command, search: &str) -> (r: bool)
    ensures
        r == command_hit(c@, search@),
{
    let name_l = lowercase(c.name.as_str());
    let exe_l = lowercase(c.name_exe.as_str());
    let args_l = lowercase(c.args.as_str());
    let mut tags = String::new();
    push_tags_list(&mut tags, &c.cmd_types);
    let search_l = lowercase(search);
    matches_lowered(
        name_l.as_str(),
        exe_l.as_str(),
        args_l.as_str(),
        tags.as_str(),
        search_l.as_str(),
        search,
    )
}

/// The commands of `cs` kept by the search, in order.
pub open spec fn hits(cs: Seq<CommandView>, search: Seq<char>) -> Seq<CommandView>
    decreases cs.len(),
{
    if cs.len() == 0 {
        seq![]
    } else if command_hit(cs.last(), search) {
        hits(cs.drop_last(), search).push(cs.last())
    } else {
        hits(cs.drop_last(), search)
    }
}

/// The commands listed for a search: all of them for an empty search.
pub open spec fn filter_commands(cs: Seq<CommandView>, search: Seq<char>) -> Seq<CommandView> {
    if search.len() == 0 {
        cs
    } else {
        hits(cs, search)
    }
}

/// A list with an optional selected position.
pub struct StatefulList<T> {
    pub selected: Option<usize>,
    pub items: Vec<T>,
}

/// The selection after moving down: wraps to the top; unchanged in an empty list.
pub open spec fn next_selection(sel: Option<usize>, len: nat) -> Option<usize> {
    if len == 0 {
        sel
    } else {
        match sel {
            Some(i) => if i >= len - 1 {
                Some(0)
            } else {
                Some((i + 1) as usize)
            },
            None => Some(0),
        }
    }
}

/// The selection after moving up: wraps to the bottom; unchanged in an empty list.
pub open spec fn previous_selection(sel: Option<usize>, len: nat) -> Option<usize> {
    if len == 0 {
        sel
    } else {
        match sel {
            Some(i) => if i == 0 {
                Some((len - 1) as usize)
            } else {
                Some((i - 1) as usize)
            },
            None => Some(0),
        }
    }
}

impl<T> StatefulList<T> {
    /// A list of `items` with nothing selected.
    pub fn with_items(items: Vec<T>) -> (r: Self)
        ensures
            r.items@ == items@,
            r.selected is None,
    {
        StatefulList { selected: None, items }
    }

    /// Moves the selection down by one, wrapping around.
    pub fn next(&mut self)
        ensures
            final(self).items@ == old(self).items@,
            final(self).selected == next_selection(old(self).selected, old(self).items@.len()),
    {
        let len = self.items.len();
        if len == 0 {
            return;
        }
        let i = match self.selected {
            Some(i) => if i >= len - 1 {
                0
            } else {
                i + 1
            },
            None => 0,
        };
        self.selected = Some(i);
    }

    /// Moves the selection up by one, wrapping around.
    pub fn previous(&mut self)
        ensures
            final(self).items@ == old(self).items@,
            final(self).selected == previous_selection(old(self).selected, old(self).items@.len()),
    {
        let len = self.items.len();
        if len == 0 {
            return;
        }
        let i = match self.selected {
            Some(i) => if i == 0 {
                len - 1
            } else {
                i - 1
            },
            None => 0,
        };
        self.selected = Some(i);
    }

    /// Sets the selected position.
    pub fn select(&mut self, s: Option<usize>)
        ensures
            final(self).items@ == old(self).items@,
            final(self).selected == s,
    {
        self.selected = s;
    }

    /// The selected position.
    pub fn selected(&self) -> (r: Option<usize>)
        ensures
            r == self.selected,
    {
        self.selected
    }
}

/// The id of the selected segment of `items`, if the selection points at one.
pub open spec fn selected_id(items: Seq<ArgView>, sel: Option<usize>) -> Option<nat> {
    match sel {
        Some(s) => if s < items.len() {
            Some(items[s as int].id)
        } else {
            None
        },
        None => None,
    }
}

/// A command opened for editing, with the list of its placeholders.
pub struct ChosenCommand {
    pub command: Command,
    pub listful_args: StatefulList<CommandArg>,
}

/// `after` is `before` with the override of the selected placeholder
/// replaced by `f(old override)`, the list rebuilt and the selection kept;
/// or `before` itself when nothing valid is selected.
pub open spec fn edited_chosen(
    before: ChosenCommand,
    after: ChosenCommand,
    m: spec_fn(Option<Seq<char>>) -> Option<Seq<char>>,
) -> bool {
    let segs = before.command@.segs;
    match selected_id(arg_views(before.listful_args.items@), before.listful_args.selected) {
        Some(id) => {
            &&& after.command@ == CommandView {
                segs: edit_override(segs, id as int, m(segs[id as int].modified)),
                ..before.command@
            }
            &&& arg_views(after.listful_args.items@) == inputs_of(after.command@.segs)
            &&& after.listful_args.selected == before.listful_args.selected
        },
        None => after == before,
    }
}

impl ChosenCommand {
    /// Opens a copy of `command` for editing, nothing selected.
    pub fn from_command(command: &Command) -> (r: ChosenCommand)
        ensures
            r.command@ == command@,
            arg_views(r.listful_args.items@) == inputs_of(command@.segs),
            r.listful_args.selected is None,
    {
        ChosenCommand {
            command: command.duplicate(),
            listful_args: StatefulList::with_items(command.get_input_args()),
        }
    }

    /// Rebuilds the placeholder list from the command, keeping the selection.
    pub fn refresh_list(&mut self)
        ensures
            final(self).command == old(self).command,
            arg_views(final(self).listful_args.items@) == inputs_of(old(self).command@.segs),
            final(self).listful_args.selected == old(self).listful_args.selected,
    {
        let id = self.listful_args.selected();
        self.listful_args = StatefulList::with_items(self.command.get_input_args());
        self.listful_args.select(id);
    }

    /// Types `c` into the selected placeholder.
    pub fn type_char(&mut self, c: char)
        ensures
            edited_chosen(*old(self), *final(self), |m: Option<Seq<char>>| appended(m, c)),
    {
        let sel = match self.listful_args.selected {
            Some(s) => s,
            None => return,
        };
        if sel >= self.listful_args.items.len() {
            return;
        }
        let id = self.listful_args.items[sel].id;
        self.command.append_char(id, c);
        self.refresh_list();
    }

    /// Erases the last character typed into the selected placeholder.
    pub fn erase_char(&mut self)
        ensures
            edited_chosen(*old(self), *final(self), |m: Option<Seq<char>>| popped(m)),
    {
        let sel = match self.listful_args.selected {
            Some(s) => s,
            None => return,
        };
        if sel >= self.listful_args.items.len() {
            return;
        }
        let id = self.listful_args.items[sel].id;
        self.command.pop_char(id);
        self.refresh_list();
    }
}

/// The catalog with its search text and the list it currently shows.
pub struct SearchCommands {
    pub search: String,
    pub commands: Vec<Command>,
    pub listful_cmds: StatefulList<Command>,
}

/// `after` shows the commands of `after.commands` kept by `after.search`,
/// with the first one selected.
pub open spec fn refreshed(after: SearchCommands) -> bool {
    &&& command_views(after.listful_cmds.items@) == filter_commands(
        command_views(after.commands@),
        after.search@,
    )
    &&& after.listful_cmds.selected == Some(0usize)
}

impl SearchCommands {
    /// No commands, empty search.
    pub fn new() -> (r: SearchCommands)
        ensures
            r.search@.len() == 0,
            r.commands@.len() == 0,
            r.listful_cmds.items@.len() == 0,
            r.listful_cmds.selected is None,
    {
        SearchCommands {
            search: String::new(),
            commands: Vec::new(),
            listful_cmds: StatefulList::with_items(Vec::new()),
        }
    }

    /// Shows the commands kept by the search (all of them when it is empty)
    /// and selects the first.
    pub fn refresh_list(&mut self)
        ensures
            final(self).search == old(self).search,
            final(self).commands == old(self).commands,
            refreshed(*final(self)),
    {
        let ghost cv = command_views(self.commands@);
        let all = self.search.unicode_len() == 0;
        let mut shown: Vec<Command> = Vec::new();
        let mut i: usize = 0;
        while i < self.commands.len()
            invariant
                i <= self.commands@.len(),
                cv == command_views(self.commands@),
                all == (self.search@.len() == 0),
                command_views(shown@) == filter_commands(cv.subrange(0, i as int), self.search@),
            decreases self.commands@.len() - i,
        {
            assert(cv.subrange(0, i + 1).drop_last() =~= cv.subrange(0, i as int));
            assert(cv.subrange(0, i + 1).last() == cv[i as int]);
            if all || command_matches(&self.commands[i], self.search.as_str()) {
                let ghost before = shown@;
                let c = self.commands[i].duplicate();
                shown.push(c);
                assert(command_views(shown@) =~= command_views(before).push(cv[i as int]));
            }
            i = i + 1;
            assert(all ==> command_views(shown@) =~= cv.subrange(0, i as int));
        }
        assert(cv.subrange(0, i as int) =~= cv);
        self.listful_cmds = StatefulList::with_items(shown);
        self.listful_cmds.select(Some(0));
    }
}

/// A key press, as the application reads it.
#[derive(Debug, Clone, Copy, PartialEq, Eq, Structural)]
pub enum Key {
    /// Control-C.
    Interrupt,
    Char(char),
    Backspace,
    Down,
    Up,
    Esc,
    Enter,
    Other,
}

/// The whole application state.
pub struct ArsenalApp {
    pub max_events: usize,
    pub events: Vec<AppEvent>,
    pub search_commands: SearchCommands,
    pub chosen_command: Option<ChosenCommand>,
    pub quit_app: bool,
}

/// The state after choosing from the list: the selected command opened for
/// editing, or nothing when no command is selected.
pub open spec fn chosen_from(s: SearchCommands, after: Option<ChosenCommand>) -> bool {
    match s.listful_cmds.selected {
        Some(i) if i < s.listful_cmds.items@.len() => match after {
            Some(c) => {
                &&& c.command@ == s.listful_cmds.items@[i as int]@
                &&& arg_views(c.listful_args.items@) == inputs_of(c.command@.segs)
                &&& c.listful_args.selected is None
            },
            None => false,
        },
        _ => after is None,
    }
}

impl ArsenalApp {
    /// An empty application keeping at most about `max_events` log lines.
    pub fn new(max_events: usize) -> (r: ArsenalApp)
        ensures
            r.max_events == max_events,
            r.events@.len() == 0,
            r.search_commands.search@.len() == 0,
            r.search_commands.commands@.len() == 0,
            r.search_commands.listful_cmds.items@.len() == 0,
            r.chosen_command is None,
            !r.quit_app,
    {
        ArsenalApp {
            max_events,
            events: Vec::new(),
            search_commands: SearchCommands::new(),
            chosen_command: None,
            quit_app: false,
        }
    }

    /// Adds a log line, first dropping the oldest one when more than
    /// `max_events` are kept.
    pub fn push_event(&mut self, event: AppEvent)
        ensures
            final(self).events@ == (if old(self).events@.len() > old(self).max_events {
                old(self).events@.drop_first()
            } else {
                old(self).events@
            }).push(event),
            final(self).max_events == old(self).max_events,
            final(self).search_commands == old(self).search_commands,
            final(self).chosen_command == old(self).chosen_command,
            final(self).quit_app == old(self).quit_app,
    {
        if self.events.len() > self.max_events {
            let _ = self.events.remove(0);
        }
        self.events.push(event);
    }

    /// Adds the built-in example command to the shown list.
    pub fn load_example_commands(&mut self)
        ensures
            final(self).search_commands.listful_cmds.items@.len() == old(
                self,
            ).search_commands.listful_cmds.items@.len() + 1,
            final(self).search_commands.listful_cmds.items@.drop_last() == old(
                self,
            ).search_commands.listful_cmds.items@,
            final(self).search_commands.listful_cmds.items@.last().name@ == "ping0"@,
            final(self).search_commands.listful_cmds.items@.last().name_exe@ == "ping"@,
            final(self).search_commands.listful_cmds.items@.last().args@ == "-v <destination>"@,
            final(self).search_commands.listful_cmds.items@.last().id == 0,
            final(self).search_commands.listful_cmds.items@.last().short_desc@
                == "Simple ping with verbose on"@,
            final(self).search_commands.listful_cmds.items@.last().details@ == "..."@,
            final(self).search_commands.listful_cmds.items@.last().cmd_types@ == seq![
                CommandType::NETWORK,
            ],
            arg_views(final(self).search_commands.listful_cmds.items@.last().cmd_args@) == build(
                "-v <destination>"@,
            ),
            final(self).search_commands.listful_cmds.items@.last().examples@.map_values(
                |x: String| x@,
            ) == seq!["ping 127.0.0.1"@, "ping -v 127.0.0.1"@],
            final(self).search_commands.listful_cmds.selected == old(
                self,
            ).search_commands.listful_cmds.selected,
            final(self).search_commands.search == old(self).search_commands.search,
            final(self).search_commands.commands == old(self).search_commands.commands,
            final(self).chosen_command == old(self).chosen_command,
    {
        let mut examples: Vec<String> = Vec::new();
        examples.push(string_lit("ping 127.0.0.1"));
        examples.push(string_lit("ping -v 127.0.0.1"));
        proof {
            reveal_strlit("network");
            reveal_strlit("programming");
            reveal_strlit("reverse");
            reveal_strlit("forensics");
            reveal_strlit("pentest");
            reveal_strlit("crypto");
            reveal_strlit("sysadmin");
            let n = "network"@;
            assert(bar_parts(n) =~= seq![n]) by {
                lemma_bar_parts_plain(n);
            }
            assert(n[0] != "programming"@[0]);
            assert(n[0] != "reverse"@[0]);
            assert(n[0] != "forensics"@[0]);
            assert(n[0] != "pentest"@[0]);
            assert(n[0] != "crypto"@[0]);
            assert(n[0] != "sysadmin"@[0]);
            assert(tag_of(n) == CommandType::NETWORK);
        }
        let ghost ex = examples@;
        let c = Command::new(
            0,
            string_lit("ping0"),
            string_lit("ping"),
            string_lit("network"),
            string_lit("Simple ping with verbose on"),
            string_lit("..."),
            string_lit("-v <destination>"),
            examples,
        );
        assert(c.cmd_types@ =~= seq![CommandType::NETWORK]);
        assert(c.examples@.map_values(|x: String| x@) =~= seq!["ping 127.0.0.1"@, "ping -v 127.0.0.1"@]) by {
            assert(c.examples@ == ex);
        }
        self.search_commands.listful_cmds.items.push(c);
    }

    /// Opens the selected command of the list for editing; closes any
    /// command when nothing valid is selected.
    pub fn set_chosen_command(&mut self)
        ensures
            chosen_from(old(self).search_commands, final(self).chosen_command),
            final(self).max_events == old(self).max_events,
            final(self).search_commands == old(self).search_commands,
            final(self).events == old(self).events,
            final(self).quit_app == old(self).quit_app,
    {
        let selected = match self.search_commands.listful_cmds.selected() {
            Some(s) => s,
            None => {
                self.chosen_command = None;
                return;
            },
        };
        if selected >= self.search_commands.listful_cmds.items.len() {
            self.chosen_command = None;
            return;
        }
        let chosen = ChosenCommand::from_command(&self.search_commands.listful_cmds.items[selected]);
        self.chosen_command = Some(chosen);
    }
}

/// `after` holds the catalog of `before` with search text `search`, refreshed.
pub open spec fn searched(before: SearchCommands, after: SearchCommands, search: Seq<char>) -> bool {
    &&& after.search@ == search
    &&& after.commands == before.commands
    &&& refreshed(after)
}

/// `after` is `before` with its selection moved to `sel`.
pub open spec fn moved<T>(before: StatefulList<T>, after: StatefulList<T>, sel: Option<usize>) -> bool {
    after.items@ == before.items@ && after.selected == sel
}

/// What one key does to the application, and the command line it hands out
/// to be copied, if any.
///
/// While a command is open for editing, characters and backspace edit the
/// selected placeholder, arrows move in its placeholder list, escape closes
/// it and enter hands out its resolved command line. While browsing,
/// characters and backspace edit the search, arrows move in the catalog
/// list, escape quits and enter opens the selected command. Control-C quits.
pub open spec fn key_step(a: ArsenalApp, b: ArsenalApp, key: Key, copied: Option<Seq<char>>) -> bool {
    &&& b.max_events == a.max_events
    &&& b.events == a.events
    &&& match key {
        Key::Interrupt => {
            &&& b.quit_app
            &&& b.search_commands == a.search_commands
            &&& b.chosen_command == a.chosen_command
            &&& copied is None
        },
        Key::Char(x) => {
            &&& copied is None
            &&& b.quit_app == a.quit_app
            &&& match a.chosen_command {
                Some(c) => {
                    &&& b.search_commands == a.search_commands
                    &&& b.chosen_command matches Some(d) && edited_chosen(
                        c,
                        d,
                        |m: Option<Seq<char>>| appended(m, x),
                    )
                },
                None => {
                    &&& b.chosen_command is None
                    &&& searched(a.search_commands, b.search_commands, a.search_commands.search@.push(x))
                },
            }
        },
        Key::Backspace => {
            &&& copied is None
            &&& b.quit_app == a.quit_app
            &&& match a.chosen_command {
                Some(c) => {
                    &&& b.search_commands == a.search_commands
                    &&& b.chosen_command matches Some(d) && edited_chosen(
                        c,
                        d,
                        |m: Option<Seq<char>>| popped(m),
                    )
                },
                None => {
                    &&& b.chosen_command is None
                    &&& searched(
                        a.search_commands,
                        b.search_commands,
                        if a.search_commands.search@.len() > 0 {
                            a.search_commands.search@.drop_last()
                        } else {
                            a.search_commands.search@
                        },
                    )
                },
            }
        },
        Key::Down | Key::Up => {
            &&& copied is None
            &&& b.quit_app == a.quit_app
            &&& match a.chosen_command {
                Some(c) => {
                    let len = c.listful_args.items@.len();
                    let sel = if key is Down {
                        next_selection(c.listful_args.selected, len)
                    } else {
                        previous_selection(c.listful_args.selected, len)
                    };
                    &&& b.search_commands == a.search_commands
                    &&& b.chosen_command matches Some(d) && d.command == c.command && moved(
                        c.listful_args,
                        d.listful_args,
                        sel,
                    )
                },
                None => {
                    let l = a.search_commands.listful_cmds;
                    let sel = if key is Down {
                        next_selection(l.selected, l.items@.len())
                    } else {
                        previous_selection(l.selected, l.items@.len())
                    };
                    &&& b.chosen_command is None
                    &&& b.search_commands.search == a.search_commands.search
                    &&& b.search_commands.commands == a.search_commands.commands
                    &&& moved(l, b.search_commands.listful_cmds, sel)
                },
            }
        },
        Key::Esc => {
            &&& copied is None
            &&& b.search_commands == a.search_commands
            &&& b.chosen_command is None
            &&& b.quit_app == (a.quit_app || a.chosen_command is None)
        },
        Key::Enter => {
            &&& b.quit_app == a.quit_app
            &&& b.search_commands == a.search_commands
            &&& match a.chosen_command {
                Some(c) => {
                    &&& b.chosen_command == a.chosen_command
                    &&& copied == Some(resolved_line(c.command@.name_exe, c.command@.segs))
                },
                None => {
                    &&& chosen_from(a.search_commands, b.chosen_command)
                    &&& copied is None
                },
            }
        },
        Key::Other => {
            &&& b.quit_app == a.quit_app
            &&& b.search_commands == a.search_commands
            &&& b.chosen_command == a.chosen_command
            &&& copied is None
        },
    }
}

impl ArsenalApp {
    /// Applies one key press; returns the command line to copy to the
    /// clipboard when enter is pressed on an open command.
    pub fn handle_event_key(&mut self, key: Key) -> (r: Option<String>)
        ensures
            key_step(*old(self), *final(self), key, opt_view(r)),
    {
        match key {
            Key::Interrupt => {
                self.quit_app = true;
                None
            },
            Key::Char(x) => {
                if self.chosen_command.is_some() {
                    let mut c = self.chosen_command.take().unwrap();
                    c.type_char(x);
                    self.chosen_command = Some(c);
                } else {
                    push_char(&mut self.search_commands.search, x);
                    self.search_commands.refresh_list();
                }
                None
            },
            Key::Backspace => {
                if self.chosen_command.is_some() {
                    let mut c = self.chosen_command.take().unwrap();
                    c.erase_char();
                    self.chosen_command = Some(c);
                } else {
                    let _ = pop_last(&mut self.search_commands.search);
                    self.search_commands.refresh_list();
                }
                None
            },
            Key::Down => {
                if self.chosen_command.is_some() {
                    let mut c = self.chosen_command.take().unwrap();
                    c.listful_args.next();
                    self.chosen_command = Some(c);
                } else {
                    self.search_commands.listful_cmds.next();
                }
                None
            },
            Key::Up => {
                if self.chosen_command.is_some() {
                    let mut c = self.chosen_command.take().unwrap();
                    c.listful_args.previous();
                    self.chosen_command = Some(c);
                } else {
                    self.search_commands.listful_cmds.previous();
                }
                None
            },
            Key::Esc => {
                if self.chosen_command.is_some() {
                    self.chosen_command = None;
                } else {
                    self.quit_app = true;
                }
                None
            },
            Key::Enter => {
                match &self.chosen_command {
                    Some(c) => Some(c.command.copy_basic()),
                    None => {
                        self.set_chosen_command();
                        None
                    },
                }
            },
            Key::Other => None,
        }
    }
}

} // verus!
