//! Turning catalog rows into commands, and where the catalog is found.

use vstd::prelude::*;
use crate::command::{Command, tag_of, bar_parts, build, copy_strings};
use crate::segment::{arg_views, opt_view};
use crate::text::{chars_of, push_char, unquote, cleaned, str_eq};

verus! {

/// One command as the catalog query returns it: the template and the tag
/// text come as lists, of which the first entry counts.
pub struct CatalogRow {
    pub id: usize,
    pub name: String,
    pub name_exe: String,
    pub short_desc: String,
    pub details: String,
    pub args: Vec<String>,
    pub examples: Vec<String>,
    pub cmd_types: Vec<String>,
}

/// The first text of `v`, or the empty text.
pub open spec fn first_or_empty(v: Seq<String>) -> Seq<char> {
    if v.len() > 0 {
        v[0]@
    } else {
        seq![]
    }
}

/// `c` is the command built from `row`.
pub open spec fn built_from_row(row: CatalogRow, c: Command) -> bool {
    &&& c.id == row.id
    &&& c.name@ == row.name@
    &&& c.name_exe@ == row.name_exe@
    &&& c.cmd_types@ == bar_parts(first_or_empty(row.cmd_types@)).map_values(
        |p: Seq<char>| tag_of(p),
    )
    &&& c.short_desc@ == row.short_desc@
    &&& c.details@ == row.details@
    &&& c.args@ == first_or_empty(row.args@)
    &&& arg_views(c.cmd_args@) == build(c.args@)
    &&& c.examples@.map_values(|x: String| x@) == row.examples@.map_values(|x: String| x@)
}

fn first_text(v: &Vec<String>) -> (r: String)
    ensures
        r@ == first_or_empty(v@),
{
    if v.len() > 0 {
        v[0].clone()
    } else {
        String::new()
    }
}

/// The command described by a catalog row.
pub fn command_from_row(row: &CatalogRow) -> (r: Command)
    ensures
        built_from_row(*row, r),
{
    Command::new(
        row.id,
        row.name.clone(),
        row.name_exe.clone(),
        first_text(&row.cmd_types),
        row.short_desc.clone(),
        row.details.clone(),
        first_text(&row.args),
        copy_strings(&row.examples),
    )
}

/// The commands described by the rows, in order.
pub fn commands_from_rows(rows: &Vec<CatalogRow>) -> (r: Vec<Command>)
    ensures
        r@.len() == rows@.len(),
        forall|i: int| 0 <= i < rows@.len() ==> built_from_row(#[trigger] rows@[i], r@[i]),
{
    let mut r: Vec<Command> = Vec::new();
    let mut i: usize = 0;
    while i < rows.len()
        invariant
            i <= rows@.len(),
            r@.len() == i,
            forall|k: int| 0 <= k < i ==> built_from_row(#[trigger] rows@[k], r@[k]),
        decreases rows@.len() - i,
    {
        let c = command_from_row(&rows[i]);
        r.push(c);
        i = i + 1;
    }
    r
}

/// Where the catalog is read from: the given path, or when none is given,
/// `.config/cyberarsenal/settings.db` under the home directory; nothing when
/// neither is known.
pub open spec fn settings_location(given: Seq<char>, home: Option<Seq<char>>) -> Option<Seq<char>> {
    if given.len() > 0 {
        Some(given)
    } else {
        match home {
            Some(h) => if h.len() > 0 {
                Some(h + "/.config/cyberarsenal/settings.db"@)
            } else {
                None
            },
            None => None,
        }
    }
}

/// Chooses the catalog path from the given one and the home directory.
pub fn settings_path(given: String, home: Option<String>) -> (r: Option<String>)
    ensures
        opt_view(r) == settings_location(given@, opt_view(home)),
{
    if given.unicode_len() > 0 {
        return Some(given);
    }
    match home {
        Some(h) => {
            if h.unicode_len() > 0 {
                let mut p = h;
                p.append("/.config/cyberarsenal/settings.db");
                Some(p)
            } else {
                None
            }
        },
        None => None,
    }
}

/// One key of a command's table in a settings file: the value as TOML
/// text, and for an array the TOML text of each element.
pub struct EntryField {
    pub key: String,
    pub text: String,
    pub items: Option<Vec<String>>,
}

/// One command's table of a settings file, under its key.
pub struct CatalogEntry {
    pub key: String,
    pub fields: Vec<EntryField>,
}

/// A TOML text with its quotes taken off and `\"` unescaped.
pub open spec fn unquoted(s: Seq<char>) -> Seq<char> {
    cleaned(s, true, true, true)
}

/// `s` with every `-` turned into a space.
pub open spec fn dashes_to_spaces(s: Seq<char>) -> Seq<char> {
    s.map_values(|c: char| if c == '-' { ' ' } else { c })
}

/// The unquoted text of the last field named `key`, or `dflt` when there is none.
pub open spec fn field_text(fields: Seq<EntryField>, key: Seq<char>, dflt: Seq<char>) -> Seq<char>
    decreases fields.len(),
{
    if fields.len() == 0 {
        dflt
    } else if fields.last().key@ == key {
        unquoted(fields.last().text@)
    } else {
        field_text(fields.drop_last(), key, dflt)
    }
}

/// The unquoted elements of every array field named `examples`, in order.
pub open spec fn field_examples(fields: Seq<EntryField>) -> Seq<Seq<char>>
    decreases fields.len(),
{
    if fields.len() == 0 {
        seq![]
    } else {
        let prev = field_examples(fields.drop_last());
        let f = fields.last();
        if f.key@ == "examples"@ && f.items is Some {
            prev + f.items->Some_0@.map_values(|x: String| unquoted(x@))
        } else {
            prev
        }
    }
}

/// `c` is the command read from settings entry `e`, numbered `id`.
pub open spec fn built_from_entry(e: CatalogEntry, id: nat, c: Command) -> bool {
    let f = e.fields@;
    &&& c.id == id
    &&& c.name@ == dashes_to_spaces(e.key@)
    &&& c.name_exe@ == field_text(f, "name_exe"@, e.key@)
    &&& c.cmd_types@ == bar_parts(field_text(f, "cmd_types"@, seq![])).map_values(
        |p: Seq<char>| tag_of(p),
    )
    &&& c.short_desc@ == field_text(f, "short_desc"@, seq![])
    &&& c.details@ == field_text(f, "details"@, seq![])
    &&& c.args@ == field_text(f, "args"@, seq![])
    &&& arg_views(c.cmd_args@) == build(c.args@)
    &&& c.examples@.map_values(|x: String| x@) == field_examples(f)
}

fn spaces_for_dashes(s: &str) -> (r: String)
    ensures
        r@ == dashes_to_spaces(s@),
{
    let c = chars_of(s);
    let mut r = String::new();
    let mut i: usize = 0;
    while i < c.len()
        invariant
            i <= c@.len(),
            c@ == s@,
            r@ == dashes_to_spaces(c@.subrange(0, i as int)),
        decreases c@.len() - i,
    {
        push_char(&mut r, if c[i] == '-' { ' ' } else { c[i] });
        i = i + 1;
        assert(r@ =~= dashes_to_spaces(c@.subrange(0, i as int)));
    }
    assert(c@.subrange(0, i as int) =~= s@);
    r
}

/// The command read from one settings entry, numbered `id`.
pub fn command_from_entry(e: &CatalogEntry, id: usize) -> (r: Command)
    ensures
        built_from_entry(*e, id as nat, r),
{
    let ghost f = e.fields@;
    let mut name_exe = e.key.clone();
    let mut cmd_types = String::new();
    let mut short_desc = String::new();
    let mut details = String::new();
    let mut args = String::new();
    let mut examples: Vec<String> = Vec::new();
    let mut i: usize = 0;
    while i < e.fields.len()
        invariant
            i <= f.len(),
            f == e.fields@,
            name_exe@ == field_text(f.subrange(0, i as int), "name_exe"@, e.key@),
            cmd_types@ == field_text(f.subrange(0, i as int), "cmd_types"@, seq![]),
            short_desc@ == field_text(f.subrange(0, i as int), "short_desc"@, seq![]),
            details@ == field_text(f.subrange(0, i as int), "details"@, seq![]),
            args@ == field_text(f.subrange(0, i as int), "args"@, seq![]),
            examples@.map_values(|x: String| x@) == field_examples(f.subrange(0, i as int)),
        decreases f.len() - i,
    {
        let ghost sub = f.subrange(0, i + 1);
        assert(sub.drop_last() =~= f.subrange(0, i as int));
        assert(sub.last() == f[i as int]);
        proof {
            reveal_strlit("examples");
            reveal_strlit("name_exe");
            reveal_strlit("cmd_types");
            reveal_strlit("short_desc");
            reveal_strlit("details");
            reveal_strlit("args");
            assert("examples"@[0] != "name_exe"@[0]);
            assert("examples"@[0] != "cmd_types"@[0]);
            assert("examples"@[0] != "short_desc"@[0]);
            assert("examples"@[0] != "details"@[0]);
            assert("examples"@[0] != "args"@[0]);
            assert("name_exe"@[0] != "cmd_types"@[0]);
            assert("name_exe"@[0] != "short_desc"@[0]);
            assert("name_exe"@[0] != "details"@[0]);
            assert("name_exe"@[0] != "args"@[0]);
            assert("cmd_types"@[0] != "short_desc"@[0]);
            assert("cmd_types"@[0] != "details"@[0]);
            assert("cmd_types"@[0] != "args"@[0]);
            assert("short_desc"@[0] != "details"@[0]);
            assert("short_desc"@[0] != "args"@[0]);
            assert("details"@[0] != "args"@[0]);
        }
        let field = &e.fields[i];
        let key = field.key.as_str();
        let val = unquote(field.text.clone());
        if str_eq(key, "examples") {
            match &field.items {
                Some(items) => {
                    let mut k: usize = 0;
                    let ghost base = examples@.map_values(|x: String| x@);
                    while k < items.len()
                        invariant
                            k <= items@.len(),
                            examples@.map_values(|x: String| x@) == base + items@.subrange(
                                0,
                                k as int,
                            ).map_values(|x: String| unquoted(x@)),
                        decreases items@.len() - k,
                    {
                        let ghost before = examples@;
                        examples.push(unquote(items[k].clone()));
                        assert(examples@.map_values(|x: String| x@) =~= before.map_values(
                            |x: String| x@,
                        ).push(unquoted(items@[k as int]@)));
                        assert(items@.subrange(0, k + 1).map_values(|x: String| unquoted(x@))
                            =~= items@.subrange(0, k as int).map_values(|x: String| unquoted(x@)).push(
                            unquoted(items@[k as int]@),
                        ));
                        k = k + 1;
                    }
                    assert(items@.subrange(0, k as int) =~= items@);
                },
                None => {},
            }
        } else if str_eq(key, "name_exe") {
            name_exe = val;
        } else if str_eq(key, "cmd_types") {
            cmd_types = val;
        } else if str_eq(key, "short_desc") {
            short_desc = val;
        } else if str_eq(key, "details") {
            details = val;
        } else if str_eq(key, "args") {
            args = val;
        }
        i = i + 1;
    }
    assert(f.subrange(0, i as int) =~= f);
    let name = spaces_for_dashes(e.key.as_str());
    Command::new(id, name, name_exe, cmd_types, short_desc, details, args, examples)
}

/// The commands read from the entries of a settings file, numbered from
/// `first_id` in order.
pub fn commands_from_entries(entries: &Vec<CatalogEntry>, first_id: usize) -> (r: Vec<Command>)
    requires
        first_id + entries@.len() <= usize::MAX,
    ensures
        r@.len() == entries@.len(),
        forall|i: int|
            0 <= i < entries@.len() ==> built_from_entry(
                #[trigger] entries@[i],
                (first_id + i) as nat,
                r@[i],
            ),
{
    let mut r: Vec<Command> = Vec::new();
    let mut i: usize = 0;
    while i < entries.len()
        invariant
            i <= entries@.len(),
            first_id + entries@.len() <= usize::MAX,
            r@.len() == i,
            forall|k: int|
                0 <= k < i ==> built_from_entry(#[trigger] entries@[k], (first_id + k) as nat, r@[k]),
        decreases entries@.len() - i,
    {
        let c = command_from_entry(&entries[i], first_id + i);
        r.push(c);
        i = i + 1;
    }
    r
}

} // verus!
