//! Catalog commands: tags, construction from a template, overrides and rendering.

use vstd::prelude::*;
use crate::segment::{
    CommandArg, ArgView, arg_views, parse_word, raw_concat, resolved_text, resolved_value,
    plain_word, well_formed_word, strip_defaults, lemma_parse_word_ids, lemma_parse_word_stripped,
    lemma_strip_plain, lemma_raw_concat_append,
};
use crate::text::{chars_of, push_char, pop_last, push_string, str_eq};

verus! {

/// Category tag of a command.
#[allow(non_camel_case_types)]
#[derive(Debug, Clone, Copy, PartialEq, Eq, Structural)]
pub enum CommandType {
    PROGRAMMING,
    PENTEST,
    REVERSE,
    FORENSICS,
    CRYPTO,
    SYSADMIN,
    NETWORK,
    NONE,
    UNKNOWN,
}

/// The tag named by `s`; the empty name is `NONE`, any other unknown name `UNKNOWN`.
pub open spec fn tag_of(s: Seq<char>) -> CommandType {
    if s == "programming"@ {
        CommandType::PROGRAMMING
    } else if s == "reverse"@ {
        CommandType::REVERSE
    } else if s == "forensics"@ {
        CommandType::FORENSICS
    } else if s == "pentest"@ {
        CommandType::PENTEST
    } else if s == "crypto"@ {
        CommandType::CRYPTO
    } else if s == "sysadmin"@ {
        CommandType::SYSADMIN
    } else if s == "network"@ {
        CommandType::NETWORK
    } else if s.len() == 0 {
        CommandType::NONE
    } else {
        CommandType::UNKNOWN
    }
}

/// The upper-case name of a tag.
pub open spec fn tag_name(t: CommandType) -> Seq<char> {
    match t {
        CommandType::PROGRAMMING => "PROGRAMMING"@,
        CommandType::PENTEST => "PENTEST"@,
        CommandType::REVERSE => "REVERSE"@,
        CommandType::FORENSICS => "FORENSICS"@,
        CommandType::CRYPTO => "CRYPTO"@,
        CommandType::SYSADMIN => "SYSADMIN"@,
        CommandType::NETWORK => "NETWORK"@,
        CommandType::NONE => "NONE"@,
        CommandType::UNKNOWN => "UNKNOWN"@,
    }
}

impl CommandType {
    /// The tag named by `s`.
    pub fn from_str(s: &str) -> (r: CommandType)
        ensures
            r == tag_of(s@),
    {
        if str_eq(s, "programming") {
            CommandType::PROGRAMMING
        } else if str_eq(s, "reverse") {
            CommandType::REVERSE
        } else if str_eq(s, "forensics") {
            CommandType::FORENSICS
        } else if str_eq(s, "pentest") {
            CommandType::PENTEST
        } else if str_eq(s, "crypto") {
            CommandType::CRYPTO
        } else if str_eq(s, "sysadmin") {
            CommandType::SYSADMIN
        } else if str_eq(s, "network") {
            CommandType::NETWORK
        } else if s.unicode_len() == 0 {
            CommandType::NONE
        } else {
            CommandType::UNKNOWN
        }
    }

    /// Appends the upper-case name of the tag.
    pub fn push_name(&self, out: &mut String)
        ensures
            final(out)@ == old(out)@ + tag_name(*self),
    {
        match self {
            CommandType::PROGRAMMING => out.append("PROGRAMMING"),
            CommandType::PENTEST => out.append("PENTEST"),
            CommandType::REVERSE => out.append("REVERSE"),
            CommandType::FORENSICS => out.append("FORENSICS"),
            CommandType::CRYPTO => out.append("CRYPTO"),
            CommandType::SYSADMIN => out.append("SYSADMIN"),
            CommandType::NETWORK => out.append("NETWORK"),
            CommandType::NONE => out.append("NONE"),
            CommandType::UNKNOWN => out.append("UNKNOWN"),
        }
    }
}

/// Unicode `White_Space` characters, as `char::is_whitespace` decides.
pub open spec fn is_ws(c: char) -> bool {
    ('\u{9}' <= c && c <= '\u{d}') || c == ' ' || c == '\u{85}' || c == '\u{a0}'
        || c == '\u{1680}' || ('\u{2000}' <= c && c <= '\u{200a}') || c == '\u{2028}'
        || c == '\u{2029}' || c == '\u{202f}' || c == '\u{205f}' || c == '\u{3000}'
}

fn ws_char(c: char) -> (r: bool)
    ensures
        r == is_ws(c),
{
    ('\u{9}' <= c && c <= '\u{d}') || c == ' ' || c == '\u{85}' || c == '\u{a0}'
        || c == '\u{1680}' || ('\u{2000}' <= c && c <= '\u{200a}') || c == '\u{2028}'
        || c == '\u{2029}' || c == '\u{202f}' || c == '\u{205f}' || c == '\u{3000}'
}

/// The maximal runs of non-whitespace characters of `s`, in order.
pub open spec fn words(s: Seq<char>) -> Seq<Seq<char>>
    decreases s.len(),
{
    if s.len() == 0 {
        seq![]
    } else {
        let ws = words(s.drop_last());
        if is_ws(s.last()) {
            ws
        } else if s.len() >= 2 && !is_ws(s[s.len() - 2]) && ws.len() > 0 {
            ws.update(ws.len() - 1, ws.last().push(s.last()))
        } else {
            ws.push(seq![s.last()])
        }
    }
}

/// The pieces of `s` between `|` characters; the empty string gives one empty piece.
pub open spec fn bar_parts(s: Seq<char>) -> Seq<Seq<char>>
    decreases s.len(),
{
    if s.len() == 0 {
        seq![seq![]]
    } else {
        let ps = bar_parts(s.drop_last());
        if s.last() == '|' {
            ps.push(seq![])
        } else {
            ps.update(ps.len() - 1, ps.last().push(s.last()))
        }
    }
}

proof fn lemma_bar_parts_nonempty(s: Seq<char>)
    ensures
        bar_parts(s).len() >= 1,
    decreases s.len(),
{
    if s.len() > 0 {
        lemma_bar_parts_nonempty(s.drop_last());
    }
}

/// A text without `|` is one piece.
pub proof fn lemma_bar_parts_plain(s: Seq<char>)
    requires
        forall|k: int| 0 <= k < s.len() ==> s[k] != '|',
    ensures
        bar_parts(s) == seq![s],
    decreases s.len(),
{
    if s.len() > 0 {
        lemma_bar_parts_plain(s.drop_last());
        assert(bar_parts(s.drop_last()).last().push(s.last()) =~= s);
        assert(bar_parts(s) =~= seq![s]);
    } else {
        assert(s =~= Seq::<char>::empty());
        assert(bar_parts(s) =~= seq![s]);
    }
}

/// The segments of a template made of words `ws`, numbered from 0 in order.
pub open spec fn build_words(ws: Seq<Seq<char>>) -> Seq<ArgView>
    decreases ws.len(),
{
    if ws.len() == 0 {
        seq![]
    } else {
        let prev = build_words(ws.drop_last());
        prev + parse_word(prev.len(), ws.last())
    }
}

/// The segments of a raw argument template.
pub open spec fn build(args: Seq<char>) -> Seq<ArgView> {
    build_words(words(args))
}

/// Concatenation of the resolved texts of `segs`.
pub open spec fn resolved_concat(segs: Seq<ArgView>) -> Seq<char>
    decreases segs.len(),
{
    if segs.len() == 0 {
        seq![]
    } else {
        resolved_concat(segs.drop_last()) + resolved_text(segs.last())
    }
}

/// The words of `s`, split at whitespace.
pub fn split_words(s: &str) -> (r: Vec<String>)
    ensures
        r@.map_values(|x: String| x@) == words(s@),
{
    let c = chars_of(s);
    let n = c.len();
    let mut r: Vec<String> = Vec::new();
    let mut cur = String::new();
    let mut i: usize = 0;
    while i < n
        invariant
            n == c@.len(),
            c@ == s@,
            i <= n,
            i == 0 || is_ws(c@[i - 1]) ==> cur@.len() == 0 && r@.map_values(|x: String| x@)
                == words(c@.subrange(0, i as int)),
            i > 0 && !is_ws(c@[i - 1]) ==> cur@.len() > 0 && r@.map_values(|x: String| x@).push(
                cur@,
            ) == words(c@.subrange(0, i as int)),
        decreases n - i,
    {
        let ch = c[i];
        let ghost prefix = c@.subrange(0, i as int);
        let ghost next = c@.subrange(0, i + 1);
        assert(next.drop_last() =~= prefix);
        assert(i >= 1 ==> next[i - 1] == c@[i - 1]);
        if ws_char(ch) {
            if cur.unicode_len() > 0 {
                let ghost old_r = r@;
                let ghost old_cur = cur@;
                r.push(cur);
                cur = String::new();
                assert(r@.map_values(|x: String| x@) =~= old_r.map_values(|x: String| x@).push(
                    old_cur,
                ));
            }
        } else {
            let ghost old_cur = cur@;
            push_char(&mut cur, ch);
            proof {
                if i > 0 && !is_ws(c@[i - 1]) {
                    let ws = words(prefix);
                    assert(ws.len() > 0);
                    assert(r@.map_values(|x: String| x@).push(cur@) =~= ws.update(
                        ws.len() - 1,
                        ws.last().push(ch),
                    ));
                } else {
                    assert(cur@ =~= seq![ch]);
                    assert(r@.map_values(|x: String| x@).push(cur@) =~= words(prefix).push(
                        seq![ch],
                    ));
                }
            }
        }
        i = i + 1;
    }
    assert(c@.subrange(0, n as int) =~= s@);
    if cur.unicode_len() > 0 {
        let ghost old_r = r@;
        let ghost old_cur = cur@;
        r.push(cur);
        assert(r@.map_values(|x: String| x@) =~= old_r.map_values(|x: String| x@).push(
            old_cur,
        ));
    }
    r
}

/// Total number of characters in `ws`.
pub open spec fn total_len(ws: Seq<Seq<char>>) -> nat
    decreases ws.len(),
{
    if ws.len() == 0 {
        0
    } else {
        total_len(ws.drop_last()) + ws.last().len()
    }
}

proof fn lemma_words_size(s: Seq<char>)
    ensures
        total_len(words(s)) <= s.len(),
        forall|k: int| 0 <= k < words(s).len() ==> #[trigger] words(s)[k].len() > 0,
    decreases s.len(),
{
    if s.len() > 0 {
        let ws = words(s.drop_last());
        lemma_words_size(s.drop_last());
        if !is_ws(s.last()) {
            if s.len() >= 2 && !is_ws(s[s.len() - 2]) && ws.len() > 0 {
                let nw = ws.update(ws.len() - 1, ws.last().push(s.last()));
                assert(nw.drop_last() =~= ws.drop_last());
            } else {
                assert(ws.push(seq![s.last()]).drop_last() =~= ws);
            }
        }
    }
}

/// `parts` with `sep` between each two.
pub open spec fn join(parts: Seq<Seq<char>>, sep: Seq<char>) -> Seq<char>
    decreases parts.len(),
{
    if parts.len() == 0 {
        seq![]
    } else if parts.len() == 1 {
        parts[0]
    } else {
        join(parts.drop_last(), sep) + sep + parts.last()
    }
}

/// The names of the tags, separated by spaces.
pub open spec fn tags_line(ts: Seq<CommandType>) -> Seq<char> {
    join(ts.map_values(|t: CommandType| tag_name(t)), " "@)
}

/// `s` padded on the right with spaces to `width` characters.
pub open spec fn pad_right(s: Seq<char>, width: nat) -> Seq<char> {
    if s.len() >= width {
        s
    } else {
        s + Seq::new((width - s.len()) as nat, |k: int| ' ')
    }
}

/// The placeholder segments of `segs`, in order.
pub open spec fn inputs_of(segs: Seq<ArgView>) -> Seq<ArgView>
    decreases segs.len(),
{
    if segs.len() == 0 {
        seq![]
    } else if segs.last().is_input {
        inputs_of(segs.drop_last()).push(segs.last())
    } else {
        inputs_of(segs.drop_last())
    }
}

/// The override after typing `c`.
pub open spec fn appended(m: Option<Seq<char>>, c: char) -> Option<Seq<char>> {
    match m {
        Some(v) => Some(v.push(c)),
        None => Some(seq![c]),
    }
}

/// The override after erasing its last character; one emptied is unset.
pub open spec fn popped(m: Option<Seq<char>>) -> Option<Seq<char>> {
    match m {
        Some(v) => if v.len() <= 1 {
            None
        } else {
            Some(v.drop_last())
        },
        None => None,
    }
}

/// `segs` with the override of the placeholder at position `id` set to `m`;
/// unchanged where no placeholder stands at `id`.
pub open spec fn edit_override(
    segs: Seq<ArgView>,
    id: int,
    m: Option<Seq<char>>,
) -> Seq<ArgView> {
    if 0 <= id < segs.len() && segs[id].is_input {
        segs.update(id, ArgView { modified: m, ..segs[id] })
    } else {
        segs
    }
}

/// The column width of the name in the browsing view.
pub const NAME_WIDTH: usize = 20;

/// A catalog entry: a named command line with a placeholder template.
#[derive(Debug, Clone)]
pub struct Command {
    pub id: usize,
    /// Catalog key shown in the browsing list.
    pub name: String,
    /// Executable written first on the command line.
    pub name_exe: String,
    pub cmd_types: Vec<CommandType>,
    pub short_desc: String,
    pub details: String,
    /// The unparsed argument template.
    pub args: String,
    /// The segments of `args`, in order.
    pub cmd_args: Vec<CommandArg>,
    pub examples: Vec<String>,
}

/// Mathematical model of a [`Command`].
pub struct CommandView {
    pub id: nat,
    pub name: Seq<char>,
    pub name_exe: Seq<char>,
    pub cmd_types: Seq<CommandType>,
    pub short_desc: Seq<char>,
    pub details: Seq<char>,
    pub args: Seq<char>,
    pub segs: Seq<ArgView>,
    pub examples: Seq<Seq<char>>,
}

impl View for Command {
    type V = CommandView;

    open spec fn view(&self) -> CommandView {
        CommandView {
            id: self.id as nat,
            name: self.name@,
            name_exe: self.name_exe@,
            cmd_types: self.cmd_types@,
            short_desc: self.short_desc@,
            details: self.details@,
            args: self.args@,
            segs: arg_views(self.cmd_args@),
            examples: self.examples@.map_values(|x: String| x@),
        }
    }
}

/// The models of a sequence of commands.
pub open spec fn command_views(v: Seq<Command>) -> Seq<CommandView> {
    v.map_values(|c: Command| c@)
}

pub(crate) fn copy_strings(v: &Vec<String>) -> (r: Vec<String>)
    ensures
        r@.map_values(|x: String| x@) == v@.map_values(|x: String| x@),
{
    let mut r: Vec<String> = Vec::new();
    let mut i: usize = 0;
    while i < v.len()
        invariant
            i <= v@.len(),
            r@.map_values(|x: String| x@) == v@.subrange(0, i as int).map_values(|x: String| x@),
        decreases v@.len() - i,
    {
        let ghost before = r@;
        let x = v[i].clone();
        r.push(x);
        assert(r@.map_values(|x: String| x@) =~= before.map_values(|x: String| x@).push(v@[i as int]@));
        assert(v@.subrange(0, i + 1).map_values(|x: String| x@) =~= v@.subrange(0, i as int).map_values(|x: String| x@).push(v@[i as int]@));
        i = i + 1;
    }
    assert(v@.subrange(0, i as int) =~= v@);
    r
}

fn copy_tags(v: &Vec<CommandType>) -> (r: Vec<CommandType>)
    ensures
        r@ == v@,
{
    let mut r: Vec<CommandType> = Vec::new();
    let mut i: usize = 0;
    while i < v.len()
        invariant
            i <= v@.len(),
            r@ == v@.subrange(0, i as int),
        decreases v@.len() - i,
    {
        r.push(v[i]);
        i = i + 1;
        assert(r@ =~= v@.subrange(0, i as int));
    }
    assert(v@.subrange(0, i as int) =~= v@);
    r
}

fn copy_args(v: &Vec<CommandArg>) -> (r: Vec<CommandArg>)
    ensures
        arg_views(r@) == arg_views(v@),
{
    let mut r: Vec<CommandArg> = Vec::new();
    let mut i: usize = 0;
    while i < v.len()
        invariant
            i <= v@.len(),
            arg_views(r@) == arg_views(v@.subrange(0, i as int)),
        decreases v@.len() - i,
    {
        let ghost before = r@;
        let x = v[i].duplicate();
        r.push(x);
        assert(arg_views(r@) =~= arg_views(before).push(v@[i as int]@));
        assert(arg_views(v@.subrange(0, i + 1)) =~= arg_views(v@.subrange(0, i as int)).push(v@[i as int]@));
        i = i + 1;
    }
    assert(v@.subrange(0, i as int) =~= v@);
    r
}

impl Command {
    /// An independent copy with the same contents, for editing.
    pub fn duplicate(&self) -> (r: Command)
        ensures
            r@ == self@,
    {
        Command {
            id: self.id,
            name: self.name.clone(),
            name_exe: self.name_exe.clone(),
            cmd_types: copy_tags(&self.cmd_types),
            short_desc: self.short_desc.clone(),
            details: self.details.clone(),
            args: self.args.clone(),
            cmd_args: copy_args(&self.cmd_args),
            examples: copy_strings(&self.examples),
        }
    }

    /// Builds a command, parsing `args` word by word into segments numbered
    /// from 0 and `cmd_types` (tags separated by `|`) into tags.
    pub fn new(
        id: usize,
        name: String,
        name_cmd: String,
        cmd_types: String,
        short_desc: String,
        details: String,
        args: String,
        examples: Vec<String>,
    ) -> (r: Command)
        ensures
            r.id == id,
            r.name@ == name@,
            r.name_exe@ == name_cmd@,
            r.cmd_types@ == bar_parts(cmd_types@).map_values(|p: Seq<char>| tag_of(p)),
            r.short_desc@ == short_desc@,
            r.details@ == details@,
            r.args@ == args@,
            arg_views(r.cmd_args@) == build(args@),
            r.examples@ == examples@,
    {
        let n = args.unicode_len();
        let ws = split_words(args.as_str());
        proof {
            lemma_words_size(args@);
        }
        let ghost wv = ws@.map_values(|x: String| x@);
        let mut cmd_args: Vec<CommandArg> = Vec::new();
        let mut k: usize = 0;
        while k < ws.len()
            invariant
                wv == ws@.map_values(|x: String| x@),
                wv == words(args@),
                n == args@.len(),
                total_len(wv) <= n,
                forall|t: int| 0 <= t < wv.len() ==> #[trigger] wv[t].len() > 0,
                k <= ws.len(),
                arg_views(cmd_args@) == build_words(wv.subrange(0, k as int)),
                cmd_args@.len() <= total_len(wv.subrange(0, k as int)),
            decreases ws.len() - k,
        {
            let ghost pre_ws = wv.subrange(0, k as int);
            let ghost next_ws = wv.subrange(0, k + 1);
            assert(next_ws.drop_last() =~= pre_ws);
            assert(next_ws.last() == wv[k as int]);
            proof {
                lemma_total_prefix(wv, k as int + 1);
                crate::segment::lemma_parse_word_len(cmd_args@.len(), wv[k as int]);
            }
            let word = ws[k].clone();
            let mut part = CommandArg::new(cmd_args.len(), word);
            let ghost old_args = cmd_args@;
            let ghost new_part = part@;
            cmd_args.append(&mut part);
            assert(arg_views(cmd_args@) =~= arg_views(old_args) + arg_views(new_part));
            k = k + 1;
        }
        assert(wv.subrange(0, k as int) =~= wv);
        let mut tags: Vec<CommandType> = Vec::new();
        let tc = chars_of(cmd_types.as_str());
        let mut cur = String::new();
        let mut i: usize = 0;
        proof {
            lemma_bar_parts_nonempty(tc@.subrange(0, 0));
            assert(bar_parts(tc@.subrange(0, 0)) =~= seq![seq![]]);
        }
        while i < tc.len()
            invariant
                i <= tc@.len(),
                tc@ == cmd_types@,
                bar_parts(tc@.subrange(0, i as int)) == bar_parts(tc@.subrange(0, i as int)).drop_last().push(cur@),
                tags@ == bar_parts(tc@.subrange(0, i as int)).drop_last().map_values(|p: Seq<char>| tag_of(p)),
            decreases tc@.len() - i,
        {
            let ghost prefix = tc@.subrange(0, i as int);
            let ghost next = tc@.subrange(0, i + 1);
            assert(next.drop_last() =~= prefix);
            proof {
                lemma_bar_parts_nonempty(prefix);
            }
            if tc[i] == '|' {
                let t = CommandType::from_str(cur.as_str());
                let ghost old_tags = tags@;
                tags.push(t);
                cur = String::new();
                assert(bar_parts(next).drop_last() =~= bar_parts(prefix));
                assert(tags@ =~= bar_parts(next).drop_last().map_values(|p: Seq<char>| tag_of(p)));
                assert(bar_parts(next) =~= bar_parts(next).drop_last().push(cur@));
            } else {
                push_char(&mut cur, tc[i]);
                assert(bar_parts(next).drop_last() =~= bar_parts(prefix).drop_last());
                assert(bar_parts(next) =~= bar_parts(next).drop_last().push(cur@));
            }
            i = i + 1;
        }
        let t = CommandType::from_str(cur.as_str());
        let ghost old_tags = tags@;
        tags.push(t);
        assert(tc@.subrange(0, i as int) =~= cmd_types@);
        assert(tags@ =~= bar_parts(cmd_types@).map_values(|p: Seq<char>| tag_of(p))) by {
            let bp = bar_parts(cmd_types@);
            assert(bp =~= bp.drop_last().push(cur@));
            assert(forall|t: int| 0 <= t < bp.len() - 1 ==> #[trigger] bp[t] == bp.drop_last()[t]);
        }
        Command {
            id,
            name,
            name_exe: name_cmd,
            cmd_types: tags,
            short_desc,
            details,
            args,
            cmd_args,
            examples,
        }
    }
}

/// The executable, a space, then the segments as written in the template.
pub open spec fn command_line(exe: Seq<char>, segs: Seq<ArgView>) -> Seq<char> {
    exe + " "@ + raw_concat(segs)
}

/// The executable, a space, then the segments with their placeholders resolved.
pub open spec fn resolved_line(exe: Seq<char>, segs: Seq<ArgView>) -> Seq<char> {
    exe + " "@ + resolved_concat(segs)
}

fn push_joined(out: &mut String, parts: &Vec<String>, sep: &str)
    ensures
        final(out)@ == old(out)@ + join(parts@.map_values(|x: String| x@), sep@),
{
    let ghost start = out@;
    let ghost pv = parts@.map_values(|x: String| x@);
    let mut i: usize = 0;
    while i < parts.len()
        invariant
            i <= parts@.len(),
            pv == parts@.map_values(|x: String| x@),
            out@ == start + join(pv.subrange(0, i as int), sep@),
        decreases parts@.len() - i,
    {
        let ghost sub = pv.subrange(0, i + 1);
        assert(sub.drop_last() =~= pv.subrange(0, i as int));
        if i > 0 {
            out.append(sep);
        }
        push_string(out, &parts[i]);
        i = i + 1;
        assert(out@ =~= start + join(sub, sep@)) by {
            if i == 1 {
                assert(pv.subrange(0, 0) =~= Seq::<Seq<char>>::empty());
            }
        }
    }
    assert(pv.subrange(0, i as int) =~= pv);
}

fn push_tags(out: &mut String, ts: &Vec<CommandType>)
    ensures
        final(out)@ == old(out)@ + tags_line(ts@),
{
    let ghost start = out@;
    let ghost nv = ts@.map_values(|t: CommandType| tag_name(t));
    let mut i: usize = 0;
    while i < ts.len()
        invariant
            i <= ts@.len(),
            nv == ts@.map_values(|t: CommandType| tag_name(t)),
            out@ == start + join(nv.subrange(0, i as int), " "@),
        decreases ts@.len() - i,
    {
        let ghost sub = nv.subrange(0, i + 1);
        assert(sub.drop_last() =~= nv.subrange(0, i as int));
        if i > 0 {
            out.append(" ");
        }
        ts[i].push_name(out);
        i = i + 1;
        assert(out@ =~= start + join(sub, " "@)) by {
            if i == 1 {
                assert(nv.subrange(0, 0) =~= Seq::<Seq<char>>::empty());
            }
        }
    }
    assert(nv.subrange(0, i as int) =~= nv);
}

impl Command {
    fn push_raw_args(&self, out: &mut String)
        ensures
            final(out)@ == old(out)@ + raw_concat(arg_views(self.cmd_args@)),
    {
        let ghost start = out@;
        let ghost av = arg_views(self.cmd_args@);
        let mut i: usize = 0;
        while i < self.cmd_args.len()
            invariant
                i <= self.cmd_args@.len(),
                av == arg_views(self.cmd_args@),
                out@ == start + raw_concat(av.subrange(0, i as int)),
            decreases self.cmd_args@.len() - i,
        {
            assert(av.subrange(0, i + 1).drop_last() =~= av.subrange(0, i as int));
            self.cmd_args[i].push_raw(out);
            i = i + 1;
            assert(out@ =~= start + raw_concat(av.subrange(0, i as int)));
        }
        assert(av.subrange(0, i as int) =~= av);
    }

    fn push_resolved_args(&self, out: &mut String)
        ensures
            final(out)@ == old(out)@ + resolved_concat(arg_views(self.cmd_args@)),
    {
        let ghost start = out@;
        let ghost av = arg_views(self.cmd_args@);
        let mut i: usize = 0;
        while i < self.cmd_args.len()
            invariant
                i <= self.cmd_args@.len(),
                av == arg_views(self.cmd_args@),
                out@ == start + resolved_concat(av.subrange(0, i as int)),
            decreases self.cmd_args@.len() - i,
        {
            assert(av.subrange(0, i + 1).drop_last() =~= av.subrange(0, i as int));
            self.cmd_args[i].push_resolved(out);
            i = i + 1;
            assert(out@ =~= start + resolved_concat(av.subrange(0, i as int)));
        }
        assert(av.subrange(0, i as int) =~= av);
    }

    /// The command line as written in the template: the executable, a space,
    /// then each segment with its placeholder name and its separator.
    pub fn copy_raw(&self) -> (r: String)
        ensures
            r@ == command_line(self.name_exe@, arg_views(self.cmd_args@)),
    {
        let mut r = self.name_exe.clone();
        r.append(" ");
        self.push_raw_args(&mut r);
        r
    }

    /// The browsing line: `[name padded to 20] ` followed by the raw command line.
    pub fn copy_raw_shifted(&self) -> (r: String)
        ensures
            r@ == "["@ + pad_right(self.name@, NAME_WIDTH as nat) + "] "@ + command_line(
                self.name_exe@,
                arg_views(self.cmd_args@),
            ),
    {
        let mut r = String::new();
        r.append("[");
        push_string(&mut r, &self.name);
        let mut k = self.name.unicode_len();
        let ghost padded = r@;
        while k < NAME_WIDTH
            invariant
                self.name@.len() <= k <= NAME_WIDTH || self.name@.len() == k,
                k >= self.name@.len(),
                r@ == padded + Seq::new((k - self.name@.len()) as nat, |t: int| ' '),
            decreases NAME_WIDTH - k,
        {
            push_char(&mut r, ' ');
            k = k + 1;
            assert(r@ =~= padded + Seq::new((k - self.name@.len()) as nat, |t: int| ' '));
        }
        assert(r@ =~= "["@ + pad_right(self.name@, NAME_WIDTH as nat));
        r.append("] ");
        push_string(&mut r, &self.name_exe);
        r.append(" ");
        self.push_raw_args(&mut r);
        r
    }

    /// The command line to copy: the executable, a space, then each segment
    /// with its override, else its default, else its name, and its separator.
    pub fn copy_basic(&self) -> (r: String)
        ensures
            r@ == resolved_line(self.name_exe@, arg_views(self.cmd_args@)),
    {
        let mut r = self.name_exe.clone();
        r.append(" ");
        self.push_resolved_args(&mut r);
        r
    }

    /// The detail pane text of the command.
    pub fn info(&self) -> (r: String)
        ensures
            r@ == "Command:"@ + self.name_exe@ + "\nTYPE:"@ + tags_line(self.cmd_types@)
                + "\nExplanation:\n"@ + self.short_desc@ + "\nDetails:\n"@ + self.details@
                + "\n"@ + self.name_exe@ + " "@ + command_line(
                self.name_exe@,
                arg_views(self.cmd_args@),
            ) + "\nExamples:\n > "@ + join(
                self.examples@.map_values(|x: String| x@),
                "\n > "@,
            ),
    {
        let mut r = String::new();
        r.append("Command:");
        push_string(&mut r, &self.name_exe);
        r.append("\nTYPE:");
        push_tags(&mut r, &self.cmd_types);
        r.append("\nExplanation:\n");
        push_string(&mut r, &self.short_desc);
        r.append("\nDetails:\n");
        push_string(&mut r, &self.details);
        r.append("\n");
        push_string(&mut r, &self.name_exe);
        r.append(" ");
        let line = self.copy_raw();
        push_string(&mut r, &line);
        r.append("\nExamples:\n > ");
        push_joined(&mut r, &self.examples, "\n > ");
        r
    }

    /// The names of the command's tags, separated by spaces.
    pub fn type_names(&self) -> (r: String)
        ensures
            r@ == tags_line(self.cmd_types@),
    {
        let mut r = String::new();
        push_tags(&mut r, &self.cmd_types);
        r
    }

    /// The short summary of the command.
    pub fn short(&self) -> (r: String)
        ensures
            r@ == "Command:"@ + self.name_exe@ + "\nTYPE:"@ + tags_line(self.cmd_types@)
                + "\nExplanation:\n"@ + self.short_desc@ + "\n"@ + self.name_exe@ + " "@
                + command_line(self.name_exe@, arg_views(self.cmd_args@)) + "\n"@,
    {
        let mut r = String::new();
        r.append("Command:");
        push_string(&mut r, &self.name_exe);
        r.append("\nTYPE:");
        push_tags(&mut r, &self.cmd_types);
        r.append("\nExplanation:\n");
        push_string(&mut r, &self.short_desc);
        r.append("\n");
        push_string(&mut r, &self.name_exe);
        r.append(" ");
        let line = self.copy_raw();
        push_string(&mut r, &line);
        r.append("\n");
        r
    }

    /// All segments, in order.
    pub fn get_all_args(&self) -> (r: &Vec<CommandArg>)
        ensures
            r@ == self.cmd_args@,
    {
        &self.cmd_args
    }

    /// Copies of the placeholder segments, in order, with their ids.
    pub fn get_input_args(&self) -> (r: Vec<CommandArg>)
        ensures
            arg_views(r@) == inputs_of(arg_views(self.cmd_args@)),
    {
        let ghost av = arg_views(self.cmd_args@);
        let mut r: Vec<CommandArg> = Vec::new();
        let mut i: usize = 0;
        while i < self.cmd_args.len()
            invariant
                i <= self.cmd_args@.len(),
                av == arg_views(self.cmd_args@),
                arg_views(r@) == inputs_of(av.subrange(0, i as int)),
            decreases self.cmd_args@.len() - i,
        {
            assert(av.subrange(0, i + 1).drop_last() =~= av.subrange(0, i as int));
            if self.cmd_args[i].is_input {
                let ghost before = r@;
                r.push(self.cmd_args[i].duplicate());
                assert(arg_views(r@) =~= arg_views(before).push(av[i as int]));
            }
            i = i + 1;
        }
        assert(av.subrange(0, i as int) =~= av);
        r
    }

    /// Types `c` into placeholder `id`: appended to its override, or
    /// starting one. Nothing happens unless `id` is a placeholder's position.
    pub fn append_char(&mut self, id: usize, c: char)
        ensures
            arg_views(final(self).cmd_args@) == edit_override(
                arg_views(old(self).cmd_args@),
                id as int,
                appended(arg_views(old(self).cmd_args@)[id as int].modified, c),
            ),
            final(self).id == old(self).id,
            final(self).name == old(self).name,
            final(self).name_exe == old(self).name_exe,
            final(self).cmd_types == old(self).cmd_types,
            final(self).short_desc == old(self).short_desc,
            final(self).details == old(self).details,
            final(self).args == old(self).args,
            final(self).examples == old(self).examples,
    {
        if id < self.cmd_args.len() && self.cmd_args[id].is_input {
            let ghost before = arg_views(self.cmd_args@);
            let mut a = self.cmd_args.remove(id);
            let mut m = match a.modified {
                Some(v) => v,
                None => String::new(),
            };
            push_char(&mut m, c);
            a.modified = Some(m);
            self.cmd_args.insert(id, a);
            assert(arg_views(self.cmd_args@) =~= edit_override(
                before,
                id as int,
                appended(before[id as int].modified, c),
            ));
        }
    }

    /// Erases the last character of the override of placeholder `id`; an
    /// override left empty is unset. Nothing happens unless `id` is a
    /// placeholder's position.
    pub fn pop_char(&mut self, id: usize)
        ensures
            arg_views(final(self).cmd_args@) == edit_override(
                arg_views(old(self).cmd_args@),
                id as int,
                popped(arg_views(old(self).cmd_args@)[id as int].modified),
            ),
            final(self).id == old(self).id,
            final(self).name == old(self).name,
            final(self).name_exe == old(self).name_exe,
            final(self).cmd_types == old(self).cmd_types,
            final(self).short_desc == old(self).short_desc,
            final(self).details == old(self).details,
            final(self).args == old(self).args,
            final(self).examples == old(self).examples,
    {
        if id < self.cmd_args.len() && self.cmd_args[id].is_input {
            let ghost before = arg_views(self.cmd_args@);
            let mut a = self.cmd_args.remove(id);
            a.modified = match a.modified {
                Some(v) => {
                    let mut v = v;
                    let _ = pop_last(&mut v);
                    if v.unicode_len() == 0 {
                        None
                    } else {
                        Some(v)
                    }
                },
                None => None,
            };
            self.cmd_args.insert(id, a);
            assert(arg_views(self.cmd_args@) =~= edit_override(
                before,
                id as int,
                popped(before[id as int].modified),
            ));
        }
    }
}

proof fn lemma_total_prefix(ws: Seq<Seq<char>>, k: int)
    requires
        0 <= k <= ws.len(),
    ensures
        total_len(ws.subrange(0, k)) <= total_len(ws),
    decreases ws.len() - k,
{
    if k < ws.len() {
        lemma_total_prefix(ws, k + 1);
        assert(ws.subrange(0, k + 1).drop_last() =~= ws.subrange(0, k));
    } else {
        assert(ws.subrange(0, k) =~= ws);
    }
}

/// Each word of `ws` followed by one space.
pub open spec fn spaced(ws: Seq<Seq<char>>) -> Seq<char>
    decreases ws.len(),
{
    if ws.len() == 0 {
        seq![]
    } else {
        spaced(ws.drop_last()) + ws.last() + " "@
    }
}

/// Segment ids of a built template are their positions: unique and
/// strictly increasing from 0 in parse order.
pub proof fn lemma_build_ids(args: Seq<char>)
    ensures
        forall|i: int| 0 <= i < build(args).len() ==> #[trigger] build(args)[i].id == i,
        forall|i: int, j: int|
            0 <= i < j < build(args).len() ==> #[trigger] build(args)[i].id < #[trigger] build(
                args,
            )[j].id,
{
    lemma_build_words_ids(words(args));
}

proof fn lemma_build_words_ids(ws: Seq<Seq<char>>)
    ensures
        forall|i: int| 0 <= i < build_words(ws).len() ==> #[trigger] build_words(ws)[i].id == i,
    decreases ws.len(),
{
    if ws.len() > 0 {
        let prev = build_words(ws.drop_last());
        lemma_build_words_ids(ws.drop_last());
        lemma_parse_word_ids(prev.len(), ws.last());
        let r = build_words(ws);
        assert forall|i: int| 0 <= i < r.len() implies #[trigger] r[i].id == i by {
            if i >= prev.len() {
                assert(r[i] == parse_word(prev.len(), ws.last())[i - prev.len()]);
            } else {
                assert(r[i] == prev[i]);
            }
        }
    }
}

proof fn lemma_build_words_raw(ws: Seq<Seq<char>>)
    requires
        forall|k: int| 0 <= k < ws.len() ==> well_formed_word(#[trigger] ws[k]),
    ensures
        raw_concat(build_words(ws)) == spaced(ws.map_values(|w: Seq<char>| strip_defaults(w))),
    decreases ws.len(),
{
    if ws.len() > 0 {
        let prev = build_words(ws.drop_last());
        assert forall|k: int| 0 <= k < ws.drop_last().len() implies well_formed_word(
            #[trigger] ws.drop_last()[k],
        ) by {
            assert(ws.drop_last()[k] == ws[k]);
        }
        lemma_build_words_raw(ws.drop_last());
        assert(well_formed_word(ws[ws.len() - 1]));
        lemma_parse_word_stripped(prev.len(), ws.last());
        lemma_raw_concat_append(prev, parse_word(prev.len(), ws.last()));
        let sw = ws.map_values(|w: Seq<char>| strip_defaults(w));
        assert(sw.drop_last() =~= ws.drop_last().map_values(|w: Seq<char>| strip_defaults(w)));
        assert(spaced(sw) =~= spaced(sw.drop_last()) + (strip_defaults(ws.last()) + " "@));
    }
}

/// Words followed each by a space are the words joined by spaces, plus one space.
pub proof fn lemma_spaced_join(ws: Seq<Seq<char>>)
    requires
        ws.len() > 0,
    ensures
        spaced(ws) == join(ws, " "@) + " "@,
    decreases ws.len(),
{
    if ws.len() == 1 {
        assert(ws.drop_last() =~= Seq::<Seq<char>>::empty());
        assert(spaced(ws.drop_last()) == Seq::<char>::empty());
        assert(ws.last() == ws[0]);
        assert(spaced(ws) =~= join(ws, " "@) + " "@);
    } else {
        lemma_spaced_join(ws.drop_last());
        assert(spaced(ws) =~= join(ws, " "@) + " "@);
    }
}

/// Rendering a built template as written gives back its words, each
/// followed by one space, provided no placeholder carries a default and
/// every `>` closes a placeholder. A template whose words are separated by
/// single spaces comes back exactly, followed by one space.
pub proof fn lemma_raw_round_trip(exe: Seq<char>, args: Seq<char>)
    requires
        forall|k: int| 0 <= k < words(args).len() ==> plain_word(#[trigger] words(args)[k]),
    ensures
        command_line(exe, build(args)) == exe + " "@ + spaced(words(args)),
        words(args).len() > 0 ==> command_line(exe, build(args)) == exe + " "@ + join(
            words(args),
            " "@,
        ) + " "@,
        words(args).len() > 0 && args == join(words(args), " "@) ==> command_line(exe, build(args))
            == exe + " "@ + args + " "@,
{
    let ws = words(args);
    assert forall|k: int| 0 <= k < ws.len() implies well_formed_word(#[trigger] ws[k]) by {
        lemma_strip_plain(ws[k]);
    }
    lemma_build_words_raw(ws);
    assert(ws.map_values(|w: Seq<char>| strip_defaults(w)) =~= ws) by {
        assert forall|k: int| 0 <= k < ws.len() implies strip_defaults(ws[k]) == ws[k] by {
            lemma_strip_plain(ws[k]);
        }
    }
    if ws.len() > 0 {
        lemma_spaced_join(ws);
    }
}

/// Rendering a built template as written gives back its words with the
/// default of each placeholder dropped (`<port|4444>` becomes `<port>`),
/// each followed by one space, provided every `>` closes a placeholder with
/// at most one `|`.
pub proof fn lemma_raw_round_trip_stripped(exe: Seq<char>, args: Seq<char>)
    requires
        forall|k: int| 0 <= k < words(args).len() ==> well_formed_word(#[trigger] words(args)[k]),
    ensures
        command_line(exe, build(args)) == exe + " "@ + spaced(
            words(args).map_values(|w: Seq<char>| strip_defaults(w)),
        ),
{
    lemma_build_words_raw(words(args));
}

/// Once a character is typed into a placeholder, its value is the override,
/// whatever its default; once the override is erased to nothing, the value
/// is the default when there is one, else the bracketed name.
pub proof fn lemma_override_precedence(segs: Seq<ArgView>, id: int, c: char)
    requires
        0 <= id < segs.len(),
        segs[id].is_input,
    ensures
        resolved_value(edit_override(segs, id, appended(segs[id].modified, c))[id]) == appended(
            segs[id].modified,
            c,
        )->Some_0,
        segs[id].modified is None || segs[id].modified->Some_0.len() <= 1 ==> resolved_value(
            edit_override(segs, id, popped(segs[id].modified))[id],
        ) == match segs[id].default {
            Some(d) => d,
            None => segs[id].value,
        },
{
}

/// Rendering with placeholders resolved depends on the command's contents
/// alone: two renderings of the same contents are identical.
pub proof fn lemma_resolved_render_pure(a: &Command, b: &Command)
    requires
        a.name_exe@ == b.name_exe@,
        arg_views(a.cmd_args@) == arg_views(b.cmd_args@),
    ensures
        resolved_line(a.name_exe@, arg_views(a.cmd_args@)) == resolved_line(
            b.name_exe@,
            arg_views(b.cmd_args@),
        ),
{
}

} // verus!
