//! Segments of a template word and the parser that produces them.
//!
//! A word is cut after every `>` into pieces. A piece of the shape
//! `pre<inner>`, where `inner` is one or more placeholder characters, yields a
//! placeholder segment; other pieces yield nothing. Literal text between two
//! placeholders of a word becomes the suffix of the first of them, and text
//! after the last `>` the suffix of the last one. A word without any
//! placeholder is one literal segment.

use vstd::prelude::*;
use crate::text::{chars_of, push_range, string_of_range, push_char, push_string, push_decimal, decimal};

verus! {

/// One literal or placeholder unit of a template word.
#[derive(Debug, Clone)]
pub struct CommandArg {
    /// Handle used to address overrides; equal to the position in the command.
    pub id: usize,
    /// Literal text before the placeholder, in the same word.
    pub pre: String,
    /// The placeholder name with its brackets (`<port>`), or the whole literal word.
    pub value: String,
    /// Literal text after the placeholder, in the same word.
    pub post: String,
    /// `Some(' ')` when a space follows this segment, `None` when the next
    /// placeholder of the same word follows directly.
    pub follow_char: Option<char>,
    /// Whether the segment is a placeholder to be filled in.
    pub is_input: bool,
    /// Default value written after `|` inside the brackets.
    pub default: Option<String>,
    /// Value entered by the user; it wins over the default.
    pub modified: Option<String>,
}

/// Mathematical model of a [`CommandArg`].
pub struct ArgView {
    pub id: nat,
    pub pre: Seq<char>,
    pub value: Seq<char>,
    pub post: Seq<char>,
    pub follow: Option<char>,
    pub is_input: bool,
    pub default: Option<Seq<char>>,
    pub modified: Option<Seq<char>>,
}

/// The characters of an optional string.
pub open spec fn opt_view(o: Option<String>) -> Option<Seq<char>> {
    match o {
        Some(s) => Some(s@),
        None => None,
    }
}

impl View for CommandArg {
    type V = ArgView;

    open spec fn view(&self) -> ArgView {
        ArgView {
            id: self.id as nat,
            pre: self.pre@,
            value: self.value@,
            post: self.post@,
            follow: self.follow_char,
            is_input: self.is_input,
            default: opt_view(self.default),
            modified: opt_view(self.modified),
        }
    }
}

/// The models of a sequence of segments.
pub open spec fn arg_views(v: Seq<CommandArg>) -> Seq<ArgView> {
    v.map_values(|a: CommandArg| a@)
}

/// Characters allowed between `<` and `>`.
pub open spec fn is_name_char(c: char) -> bool {
    ('a' <= c && c <= 'z') || ('A' <= c && c <= 'Z') || ('0' <= c && c <= '9') || c == '-'
        || c == '.' || c == ':' || c == '\'' || c == '!' || c == '@' || c == '#' || c == '$'
        || c == '%' || c == '^' || c == '&' || c == '*' || c == '(' || c == ')' || c == '{'
        || c == '}' || c == '[' || c == ']' || c == '/' || c == '|' || c == '_' || c == '='
        || c == '+'
}

fn name_char(c: char) -> (r: bool)
    ensures
        r == is_name_char(c),
{
    ('a' <= c && c <= 'z') || ('A' <= c && c <= 'Z') || ('0' <= c && c <= '9') || c == '-'
        || c == '.' || c == ':' || c == '\'' || c == '!' || c == '@' || c == '#' || c == '$'
        || c == '%' || c == '^' || c == '&' || c == '*' || c == '(' || c == ')' || c == '{'
        || c == '}' || c == '[' || c == ']' || c == '/' || c == '|' || c == '_' || c == '='
        || c == '+'
}

/// Position of the last `<` strictly before `k`, or -1.
pub open spec fn last_lt(p: Seq<char>, k: int) -> int
    decreases k,
{
    if k <= 0 {
        -1
    } else if p[k - 1] == '<' {
        k - 1
    } else {
        last_lt(p, k - 1)
    }
}

/// `Some((pre, inner))` when the piece reads `pre<inner>` with a non-empty
/// `inner` made of placeholder characters.
pub open spec fn piece_match(p: Seq<char>) -> Option<(Seq<char>, Seq<char>)> {
    if p.len() >= 3 && p.last() == '>' {
        let j = last_lt(p, p.len() - 1);
        let inner = p.subrange(j + 1, p.len() - 1);
        if j >= 0 && inner.len() > 0 && (forall|t: int|
            0 <= t < inner.len() ==> is_name_char(#[trigger] inner[t])) {
            Some((p.subrange(0, j), inner))
        } else {
            None
        }
    } else {
        None
    }
}

/// Start of the piece that position `i` of `w` belongs to: one past the last
/// `>` before `i`.
pub open spec fn piece_start(w: Seq<char>, i: int) -> int
    decreases i,
{
    if i <= 0 {
        0
    } else if w[i - 1] == '>' {
        i
    } else {
        piece_start(w, i - 1)
    }
}

/// Position of the first `|` before `k`, or -1.
pub open spec fn first_bar(s: Seq<char>, k: int) -> int
    decreases k,
{
    if k <= 0 {
        -1
    } else if first_bar(s, k - 1) >= 0 {
        first_bar(s, k - 1)
    } else if s[k - 1] == '|' {
        k - 1
    } else {
        -1
    }
}

pub open spec fn bracketed(s: Seq<char>) -> Seq<char> {
    seq!['<'] + s + seq!['>']
}

/// The placeholder value and default of the text between the brackets:
/// `port` gives `<port>` and no default, `port|4444` gives `<port>` and
/// `4444`; with more than one `|` the value is empty.
pub open spec fn name_and_default(inner: Seq<char>) -> (Seq<char>, Option<Seq<char>>) {
    let b = first_bar(inner, inner.len() as int);
    if b < 0 {
        (bracketed(inner), None)
    } else {
        let rest = inner.subrange(b + 1, inner.len() as int);
        if first_bar(rest, rest.len() as int) < 0 {
            (bracketed(inner.subrange(0, b)), Some(rest))
        } else {
            (seq![], None)
        }
    }
}

pub open spec fn placeholder_view(id: nat, pre: Seq<char>, inner: Seq<char>) -> ArgView {
    ArgView {
        id,
        pre,
        value: name_and_default(inner).0,
        post: seq![],
        follow: Some(' '),
        is_input: true,
        default: name_and_default(inner).1,
        modified: None,
    }
}

pub open spec fn literal_view(id: nat, w: Seq<char>) -> ArgView {
    ArgView {
        id,
        pre: seq![],
        value: w,
        post: seq![],
        follow: Some(' '),
        is_input: false,
        default: None,
        modified: None,
    }
}

/// `a` with `extra` appended to its suffix and its following space set to `follow`.
pub open spec fn with_post(a: ArgView, extra: Seq<char>, follow: Option<char>) -> ArgView {
    ArgView { post: a.post + extra, follow, ..a }
}

/// Adds a placeholder read from `pre<inner>`: the first one of a word keeps
/// `pre` as its prefix; a later one hands `pre` to the suffix of the one
/// before, which is then followed directly, without a space.
pub open spec fn add_placeholder(segs: Seq<ArgView>, pre: Seq<char>, inner: Seq<char>, id: nat) -> Seq<ArgView> {
    if segs.len() == 0 {
        seq![placeholder_view(id, pre, inner)]
    } else {
        segs.update(segs.len() - 1, with_post(segs.last(), pre, None)).push(
            placeholder_view(id, seq![], inner),
        )
    }
}

/// The placeholders found in the first `i` characters of `w`, numbered from `start`.
pub open spec fn scan(w: Seq<char>, start: nat, i: int) -> Seq<ArgView>
    decreases i,
{
    if i <= 0 {
        seq![]
    } else {
        let segs = scan(w, start, i - 1);
        if w[i - 1] == '>' {
            match piece_match(w.subrange(piece_start(w, i - 1), i)) {
                Some((pre, inner)) => add_placeholder(segs, pre, inner, start + segs.len()),
                None => segs,
            }
        } else {
            segs
        }
    }
}

/// The segments of word `w`, numbered from `start`.
pub open spec fn parse_word(start: nat, w: Seq<char>) -> Seq<ArgView> {
    let segs = scan(w, start, w.len() as int);
    if segs.len() == 0 {
        seq![literal_view(start, w)]
    } else {
        let tail = w.subrange(piece_start(w, w.len() as int), w.len() as int);
        segs.update(segs.len() - 1, with_post(segs.last(), tail, Some(' ')))
    }
}

proof fn lemma_scan_len(w: Seq<char>, start: nat, i: int)
    requires
        0 <= i <= w.len(),
    ensures
        scan(w, start, i).len() <= i,
    decreases i,
{
    if i > 0 {
        lemma_scan_len(w, start, i - 1);
    }
}

pub(crate) proof fn lemma_parse_word_len(start: nat, w: Seq<char>)
    requires
        w.len() > 0,
    ensures
        parse_word(start, w).len() <= w.len(),
{
    lemma_scan_len(w, start, w.len() as int);
}

proof fn lemma_piece_start_bound(w: Seq<char>, i: int)
    requires
        0 <= i <= w.len(),
    ensures
        0 <= piece_start(w, i) <= i,
    decreases i,
{
    if i > 0 {
        lemma_piece_start_bound(w, i - 1);
    }
}

proof fn lemma_first_bar_stable(s: Seq<char>, k: int, m: int)
    requires
        0 <= k <= m <= s.len(),
        first_bar(s, k) >= 0,
    ensures
        first_bar(s, m) == first_bar(s, k),
    decreases m - k,
{
    if m > k {
        lemma_first_bar_stable(s, k, m - 1);
    }
}

/// Position of the first `|` in `w[from..to]`, absolute.
fn find_bar(w: &Vec<char>, from: usize, to: usize) -> (r: Option<usize>)
    requires
        from <= to <= w@.len(),
    ensures
        ({
            let s = w@.subrange(from as int, to as int);
            match r {
                Some(b) => from <= b < to && first_bar(s, s.len() as int) == b - from,
                None => first_bar(s, s.len() as int) < 0,
            }
        }),
{
    let ghost s = w@.subrange(from as int, to as int);
    let mut t: usize = from;
    while t < to
        invariant
            from <= t <= to <= w@.len(),
            s == w@.subrange(from as int, to as int),
            first_bar(s, t - from) < 0,
        decreases to - t,
    {
        if w[t] == '|' {
            assert(s[t - from] == '|');
            assert(first_bar(s, t - from + 1) == t - from);
            proof {
                lemma_first_bar_stable(s, t - from + 1, s.len() as int);
            }
            return Some(t);
        }
        t = t + 1;
    }
    None
}

/// Builds the placeholder segment for the text `w[a..b]` between the brackets.
fn make_placeholder(id: usize, pre: String, w: &Vec<char>, a: usize, b: usize) -> (r: CommandArg)
    requires
        a <= b <= w@.len(),
    ensures
        r@ == placeholder_view(id as nat, pre@, w@.subrange(a as int, b as int)),
{
    let ghost inner = w@.subrange(a as int, b as int);
    let mut value = String::new();
    let mut default: Option<String> = None;
    match find_bar(w, a, b) {
        None => {
            push_char(&mut value, '<');
            push_range(&mut value, w, a, b);
            push_char(&mut value, '>');
            assert(value@ =~= bracketed(inner));
        },
        Some(k) => {
            assert(w@.subrange(k + 1, b as int) =~= inner.subrange(k - a + 1, inner.len() as int));
            match find_bar(w, k + 1, b) {
                None => {
                    push_char(&mut value, '<');
                    push_range(&mut value, w, a, k);
                    push_char(&mut value, '>');
                    assert(value@ =~= bracketed(inner.subrange(0, k - a)));
                    default = Some(string_of_range(w, k + 1, b));
                },
                Some(_) => {},
            }
        },
    }
    CommandArg {
        id,
        pre,
        value,
        post: String::new(),
        follow_char: Some(' '),
        is_input: true,
        default,
        modified: None,
    }
}

/// Position of the `<` that opens the placeholder of the piece `w[from..to]`,
/// when the piece is one.
fn match_piece(w: &Vec<char>, from: usize, to: usize) -> (r: Option<usize>)
    requires
        from <= to <= w@.len(),
    ensures
        ({
            let p = w@.subrange(from as int, to as int);
            match r {
                Some(j) => from <= j && j + 2 < to && piece_match(p) == Some(
                    (w@.subrange(from as int, j as int), w@.subrange(j + 1, to - 1)),
                ),
                None => piece_match(p) is None,
            }
        }),
{
    let ghost p = w@.subrange(from as int, to as int);
    if to - from < 3 || w[to - 1] != '>' {
        return None;
    }
    let mut k: usize = to - 1;
    while k > from && w[k - 1] != '<'
        invariant
            from <= k <= to - 1,
            to <= w@.len(),
            p == w@.subrange(from as int, to as int),
            last_lt(p, p.len() - 1) == last_lt(p, k - from),
        decreases k,
    {
        k = k - 1;
    }
    if k == from {
        return None;
    }
    let j = k - 1;
    assert(last_lt(p, p.len() - 1) == j - from);
    if j + 2 >= to {
        return None;
    }
    let ghost inner = p.subrange(j - from + 1, p.len() - 1);
    assert(inner =~= w@.subrange(j + 1, to - 1));
    let mut t: usize = j + 1;
    while t < to - 1
        invariant
            j + 1 <= t <= to - 1,
            to <= w@.len(),
            inner == w@.subrange(j + 1, to - 1),
            from <= j,
            p == w@.subrange(from as int, to as int),
            inner == p.subrange(j - from + 1, p.len() - 1),
            last_lt(p, p.len() - 1) == j - from,
            forall|u: int| 0 <= u < t - (j + 1) ==> is_name_char(#[trigger] inner[u]),
        decreases to - t,
    {
        if !name_char(w[t]) {
            proof {
                let u = t - (j + 1);
                assert(inner[u] == w@[t as int]);
                assert(!(forall|v: int| 0 <= v < inner.len() ==> is_name_char(#[trigger] inner[v])));
            }
            return None;
        }
        t = t + 1;
    }
    assert(p.subrange(0, j - from) =~= w@.subrange(from as int, j as int));
    Some(j)
}

impl CommandArg {
    /// Splits one whitespace-free word into its segments, numbered from `id`.
    pub fn new(id: usize, args: String) -> (r: Vec<CommandArg>)
        requires
            id + args@.len() <= usize::MAX,
        ensures
            arg_views(r@) == parse_word(id as nat, args@),
    {
        let w = chars_of(args.as_str());
        let n = w.len();
        let mut segs: Vec<CommandArg> = Vec::new();
        let mut ps: usize = 0;
        let mut i: usize = 0;
        while i < n
            invariant
                n == w@.len(),
                w@ == args@,
                id + n <= usize::MAX,
                i <= n,
                ps == piece_start(w@, i as int),
                ps <= i,
                segs@.len() <= i,
                arg_views(segs@) == scan(w@, id as nat, i as int),
            decreases n - i,
        {
            if w[i] == '>' {
                let ghost before = arg_views(segs@);
                match match_piece(&w, ps, i + 1) {
                    Some(j) => {
                        let pre = string_of_range(&w, ps, j);
                        let nid = id + segs.len();
                        if segs.len() == 0 {
                            let seg = make_placeholder(nid, pre, &w, j + 1, i);
                            segs.push(seg);
                        } else {
                            let mut last = segs.pop().unwrap();
                            push_range(&mut last.post, &w, ps, j);
                            last.follow_char = None;
                            segs.push(last);
                            let seg = make_placeholder(nid, String::new(), &w, j + 1, i);
                            segs.push(seg);
                        }
                        assert(arg_views(segs@) =~= add_placeholder(
                            before,
                            w@.subrange(ps as int, j as int),
                            w@.subrange(j + 1, i as int),
                            (id + before.len()) as nat,
                        ));
                    },
                    None => {},
                }
                ps = i + 1;
            }
            i = i + 1;
            proof {
                lemma_scan_len(w@, id as nat, i as int);
            }
        }
        if segs.len() == 0 {
            let lit = CommandArg {
                id,
                pre: String::new(),
                value: args,
                post: String::new(),
                follow_char: Some(' '),
                is_input: false,
                default: None,
                modified: None,
            };
            let r = vec![lit];
            assert(arg_views(r@) =~= parse_word(id as nat, w@));
            return r;
        }
        let ghost before = arg_views(segs@);
        let mut last = segs.pop().unwrap();
        push_range(&mut last.post, &w, ps, n);
        last.follow_char = Some(' ');
        segs.push(last);
        assert(arg_views(segs@) =~= parse_word(id as nat, w@));
        segs
    }
}

/// The separator written after a segment.
pub open spec fn follow_text(f: Option<char>) -> Seq<char> {
    match f {
        Some(c) => seq![c],
        None => seq![],
    }
}

/// The value a placeholder stands for: the override, else the default, else
/// the bracketed name.
pub open spec fn resolved_value(a: ArgView) -> Seq<char> {
    match a.modified {
        Some(m) => m,
        None => match a.default {
            Some(d) => d,
            None => a.value,
        },
    }
}

/// A segment as written in the template, with its separator: a placeholder
/// with its prefix, bracketed name and suffix, a literal as its value.
pub open spec fn raw_text(a: ArgView) -> Seq<char> {
    if a.is_input {
        a.pre + a.value + a.post + follow_text(a.follow)
    } else {
        a.value + follow_text(a.follow)
    }
}

/// A segment with its placeholder resolved, with its separator.
pub open spec fn resolved_text(a: ArgView) -> Seq<char> {
    if a.is_input {
        a.pre + resolved_value(a) + a.post + follow_text(a.follow)
    } else {
        a.value + follow_text(a.follow)
    }
}

/// One line of the fill-in list: `(id) pre<name>post = pre<value>post` for a
/// placeholder (nothing after `= ` while no value is known), the word itself
/// for a literal.
pub open spec fn label_text(a: ArgView) -> Seq<char> {
    if a.is_input {
        let head = "("@ + decimal(a.id) + ") "@ + a.pre + a.value + a.post + " = "@;
        match a.modified {
            Some(m) => head + a.pre + m + a.post,
            None => match a.default {
                Some(d) => head + a.pre + d + a.post,
                None => head,
            },
        }
    } else {
        a.value
    }
}

fn clone_opt(o: &Option<String>) -> (r: Option<String>)
    ensures
        opt_view(r) == opt_view(*o),
{
    match o {
        Some(s) => Some(s.clone()),
        None => None,
    }
}

impl CommandArg {
    /// A copy of this segment with the same contents.
    pub fn duplicate(&self) -> (r: CommandArg)
        ensures
            r@ == self@,
    {
        CommandArg {
            id: self.id,
            pre: self.pre.clone(),
            value: self.value.clone(),
            post: self.post.clone(),
            follow_char: self.follow_char,
            is_input: self.is_input,
            default: clone_opt(&self.default),
            modified: clone_opt(&self.modified),
        }
    }

    /// The separator that follows this segment: a space, or nothing.
    pub fn get_follow_char(&self) -> (r: String)
        ensures
            r@ == follow_text(self.follow_char),
    {
        let mut r = String::new();
        match self.follow_char {
            Some(c) => push_char(&mut r, c),
            None => {},
        }
        assert(r@ =~= follow_text(self.follow_char));
        r
    }

    /// Appends the segment as written in the template, with its separator.
    pub fn push_raw(&self, out: &mut String)
        ensures
            final(out)@ == old(out)@ + raw_text(self@),
    {
        if self.is_input {
            push_string(out, &self.pre);
            push_string(out, &self.value);
            push_string(out, &self.post);
        } else {
            push_string(out, &self.value);
        }
        let f = self.get_follow_char();
        push_string(out, &f);
        assert(final(out)@ =~= old(out)@ + raw_text(self@));
    }

    /// Appends the segment with its placeholder resolved, with its separator.
    pub fn push_resolved(&self, out: &mut String)
        ensures
            final(out)@ == old(out)@ + resolved_text(self@),
    {
        if self.is_input {
            push_string(out, &self.pre);
            match &self.modified {
                Some(m) => push_string(out, m),
                None => match &self.default {
                    Some(d) => push_string(out, d),
                    None => push_string(out, &self.value),
                },
            }
            push_string(out, &self.post);
        } else {
            push_string(out, &self.value);
        }
        let f = self.get_follow_char();
        push_string(out, &f);
        assert(final(out)@ =~= old(out)@ + resolved_text(self@));
    }

    /// The segment with its placeholder resolved (override, else default,
    /// else name), followed by its separator.
    pub fn copy(&self) -> (r: String)
        ensures
            r@ == resolved_text(self@),
    {
        let mut r = String::new();
        self.push_resolved(&mut r);
        assert(r@ =~= resolved_text(self@));
        r
    }

    /// The line shown for this segment in the fill-in list.
    pub fn label(&self) -> (r: String)
        ensures
            r@ == label_text(self@),
    {
        if !self.is_input {
            return self.value.clone();
        }
        let mut r = String::new();
        r.append("(");
        push_decimal(&mut r, self.id);
        r.append(") ");
        push_string(&mut r, &self.pre);
        push_string(&mut r, &self.value);
        push_string(&mut r, &self.post);
        r.append(" = ");
        let ghost head = r@;
        let known = match &self.modified {
            Some(m) => Some(m),
            None => match &self.default {
                Some(d) => Some(d),
                None => None,
            },
        };
        match known {
            Some(v) => {
                push_string(&mut r, &self.pre);
                push_string(&mut r, v);
                push_string(&mut r, &self.post);
            },
            None => {},
        }
        assert(r@ =~= label_text(self@));
        r
    }
}

/// Concatenation of the raw texts of `segs`.
pub open spec fn raw_concat(segs: Seq<ArgView>) -> Seq<char>
    decreases segs.len(),
{
    if segs.len() == 0 {
        seq![]
    } else {
        raw_concat(segs.drop_last()) + raw_text(segs.last())
    }
}

/// A piece that reads `pre<inner>` where `inner` has no `|`.
pub open spec fn plain_piece(p: Seq<char>) -> bool {
    match piece_match(p) {
        Some((pre, inner)) => first_bar(inner, inner.len() as int) < 0,
        None => false,
    }
}

/// A word whose every `>` closes a placeholder without a default.
pub open spec fn plain_word(w: Seq<char>) -> bool {
    forall|k: int|
        0 < k <= w.len() && w[k - 1] == '>' ==> #[trigger] plain_piece(
            w.subrange(piece_start(w, k - 1), k),
        )
}

proof fn lemma_scan_ids(w: Seq<char>, start: nat, i: int)
    requires
        0 <= i <= w.len(),
    ensures
        forall|k: int| 0 <= k < scan(w, start, i).len() ==> #[trigger] scan(w, start, i)[k].id == start + k,
    decreases i,
{
    if i > 0 {
        lemma_scan_ids(w, start, i - 1);
    }
}

/// The segments of a word are numbered consecutively from `start`.
pub proof fn lemma_parse_word_ids(start: nat, w: Seq<char>)
    ensures
        forall|k: int| 0 <= k < parse_word(start, w).len() ==> #[trigger] parse_word(start, w)[k].id == start + k,
        parse_word(start, w).len() >= 1,
{
    lemma_scan_ids(w, start, w.len() as int);
}

/// Rendering two runs of segments one after the other renders their concatenation.
pub proof fn lemma_raw_concat_append(a: Seq<ArgView>, b: Seq<ArgView>)
    ensures
        raw_concat(a + b) == raw_concat(a) + raw_concat(b),
    decreases b.len(),
{
    if b.len() == 0 {
        assert(a + b =~= a);
    } else {
        lemma_raw_concat_append(a, b.drop_last());
        assert((a + b).drop_last() =~= a + b.drop_last());
    }
}

proof fn lemma_raw_concat_update_last(segs: Seq<ArgView>, x: ArgView)
    requires
        segs.len() > 0,
    ensures
        raw_concat(segs.update(segs.len() - 1, x)) == raw_concat(segs.drop_last()) + raw_text(x),
{
    assert(segs.update(segs.len() - 1, x).drop_last() =~= segs.drop_last());
}

proof fn lemma_piece_shape(p: Seq<char>)
    requires
        piece_match(p) is Some,
    ensures
        p == piece_match(p)->Some_0.0 + bracketed(piece_match(p)->Some_0.1),
{
    let j = last_lt(p, p.len() - 1);
    lemma_last_lt_found(p, p.len() - 1);
    assert(p =~= p.subrange(0, j) + bracketed(p.subrange(j + 1, p.len() - 1)));
}

proof fn lemma_last_lt_found(p: Seq<char>, k: int)
    requires
        0 <= k <= p.len(),
    ensures
        last_lt(p, k) < k,
        last_lt(p, k) >= 0 ==> p[last_lt(p, k)] == '<',
        last_lt(p, k) >= -1,
    decreases k,
{
    if k > 0 {
        lemma_last_lt_found(p, k - 1);
    }
}

/// The text between the brackets without its default: up to the first `|`.
pub open spec fn drop_default(inner: Seq<char>) -> Seq<char> {
    let b = first_bar(inner, inner.len() as int);
    if b < 0 {
        inner
    } else {
        inner.subrange(0, b)
    }
}

/// A piece that reads `pre<inner>` where `inner` has at most one `|`.
pub open spec fn placeholder_piece(p: Seq<char>) -> bool {
    match piece_match(p) {
        Some((pre, inner)) => {
            let b = first_bar(inner, inner.len() as int);
            let rest = inner.subrange(b + 1, inner.len() as int);
            b < 0 || first_bar(rest, rest.len() as int) < 0
        },
        None => false,
    }
}

/// A word whose every `>` closes a placeholder with at most one default.
pub open spec fn well_formed_word(w: Seq<char>) -> bool {
    forall|k: int|
        0 < k <= w.len() && w[k - 1] == '>' ==> #[trigger] placeholder_piece(
            w.subrange(piece_start(w, k - 1), k),
        )
}

/// The text of `w` up to the piece that position `i` belongs to, with the
/// default of each placeholder dropped.
pub open spec fn stripped_upto(w: Seq<char>, i: int) -> Seq<char>
    decreases i,
{
    if i <= 0 {
        seq![]
    } else if w[i - 1] == '>' {
        let p = w.subrange(piece_start(w, i - 1), i);
        stripped_upto(w, i - 1) + match piece_match(p) {
            Some((pre, inner)) => pre + bracketed(drop_default(inner)),
            None => p,
        }
    } else {
        stripped_upto(w, i - 1)
    }
}

/// `w` with every `|default` inside a placeholder dropped: `<port|4444>`
/// becomes `<port>`.
pub open spec fn strip_defaults(w: Seq<char>) -> Seq<char> {
    stripped_upto(w, w.len() as int) + w.subrange(piece_start(w, w.len() as int), w.len() as int)
}

proof fn lemma_scan_raw(w: Seq<char>, start: nat, i: int)
    requires
        0 <= i <= w.len(),
        well_formed_word(w),
    ensures
        (scan(w, start, i).len() == 0) == (piece_start(w, i) == 0),
        piece_start(w, i) == 0 ==> stripped_upto(w, i) == Seq::<char>::empty(),
        scan(w, start, i).len() > 0 ==> raw_concat(scan(w, start, i)) == stripped_upto(w, i)
            + " "@,
        scan(w, start, i).len() > 0 ==> scan(w, start, i).last().follow == Some(' '),
        scan(w, start, i).len() > 0 ==> scan(w, start, i).last().is_input,
    decreases i,
{
    reveal_strlit(" ");
    lemma_piece_start_bound(w, i);
    if i > 0 {
        lemma_scan_raw(w, start, i - 1);
        lemma_piece_start_bound(w, i - 1);
        let segs = scan(w, start, i - 1);
        let ps = piece_start(w, i - 1);
        if w[i - 1] == '>' {
            let p = w.subrange(ps, i);
            assert(placeholder_piece(p));
            let pre = piece_match(p)->Some_0.0;
            let inner = piece_match(p)->Some_0.1;
            assert(name_and_default(inner).0 == bracketed(drop_default(inner)));
            let ph = placeholder_view(start + segs.len(), seq![], inner);
            let done = stripped_upto(w, i - 1);
            assert(stripped_upto(w, i) == done + (pre + bracketed(drop_default(inner))));
            if segs.len() == 0 {
                let r = seq![placeholder_view(start + segs.len(), pre, inner)];
                assert(r.drop_last() =~= Seq::<ArgView>::empty());
                assert(raw_concat(r.drop_last()) == Seq::<char>::empty());
                assert(raw_concat(r) =~= stripped_upto(w, i) + " "@);
            } else {
                let x = with_post(segs.last(), pre, None);
                let upd = segs.update(segs.len() - 1, x);
                lemma_raw_concat_update_last(segs, x);
                assert(raw_concat(segs) == raw_concat(segs.drop_last()) + raw_text(segs.last()));
                let l = segs.last();
                let body = raw_concat(segs.drop_last()) + (l.pre + l.value + l.post);
                assert(raw_concat(segs) =~= body + " "@);
                assert(body =~= (body + " "@).drop_last());
                assert(done =~= (done + " "@).drop_last());
                assert(body == done);
                assert(raw_concat(segs.drop_last()) + raw_text(x) =~= done + pre);
                assert(upd.push(ph).drop_last() =~= upd);
                assert(raw_concat(upd.push(ph)) =~= stripped_upto(w, i) + " "@);
            }
        }
    }
}

/// A word whose every `>` closes a placeholder renders, as written, to
/// itself with the defaults dropped, followed by one space.
pub proof fn lemma_parse_word_stripped(start: nat, w: Seq<char>)
    requires
        well_formed_word(w),
    ensures
        raw_concat(parse_word(start, w)) == strip_defaults(w) + " "@,
{
    reveal_strlit(" ");
    let n = w.len() as int;
    lemma_scan_raw(w, start, n);
    lemma_piece_start_bound(w, n);
    let segs = scan(w, start, n);
    let ps = piece_start(w, n);
    if segs.len() == 0 {
        let r = seq![literal_view(start, w)];
        assert(r.drop_last() =~= Seq::<ArgView>::empty());
        assert(raw_concat(r.drop_last()) == Seq::<char>::empty());
        assert(w.subrange(0, n) =~= w);
        assert(raw_concat(r) =~= strip_defaults(w) + " "@);
    } else {
        let tail = w.subrange(ps, n);
        let x = with_post(segs.last(), tail, Some(' '));
        lemma_raw_concat_update_last(segs, x);
        assert(raw_concat(segs) == raw_concat(segs.drop_last()) + raw_text(segs.last()));
        let l = segs.last();
        let done = stripped_upto(w, n);
        let body = raw_concat(segs.drop_last()) + (l.pre + l.value + l.post);
        assert(raw_concat(segs) =~= body + " "@);
        assert(body =~= (body + " "@).drop_last());
        assert(done =~= (done + " "@).drop_last());
        assert(body == done);
        assert(raw_concat(segs.update(segs.len() - 1, x)) =~= strip_defaults(w) + " "@);
    }
}

proof fn lemma_stripped_plain(w: Seq<char>, i: int)
    requires
        0 <= i <= w.len(),
        plain_word(w),
    ensures
        stripped_upto(w, i) == w.subrange(0, piece_start(w, i)),
    decreases i,
{
    lemma_piece_start_bound(w, i);
    if i > 0 {
        lemma_stripped_plain(w, i - 1);
        lemma_piece_start_bound(w, i - 1);
        if w[i - 1] == '>' {
            let ps = piece_start(w, i - 1);
            let p = w.subrange(ps, i);
            assert(plain_piece(p));
            lemma_piece_shape(p);
            assert(w.subrange(0, i) =~= w.subrange(0, ps) + p);
        }
    }
}

/// A word whose placeholders have no defaults is well formed and keeps its
/// text when defaults are dropped.
pub proof fn lemma_strip_plain(w: Seq<char>)
    requires
        plain_word(w),
    ensures
        well_formed_word(w),
        strip_defaults(w) == w,
{
    assert forall|k: int|
        0 < k <= w.len() && w[k - 1] == '>' implies #[trigger] placeholder_piece(
        w.subrange(piece_start(w, k - 1), k),
    ) by {
        assert(plain_piece(w.subrange(piece_start(w, k - 1), k)));
    }
    lemma_stripped_plain(w, w.len() as int);
    lemma_piece_start_bound(w, w.len() as int);
    assert(strip_defaults(w) =~= w);
}

/// A word whose placeholders have no defaults renders back to itself,
/// followed by one space.
pub proof fn lemma_parse_word_raw(start: nat, w: Seq<char>)
    requires
        plain_word(w),
    ensures
        raw_concat(parse_word(start, w)) == w + " "@,
{
    lemma_strip_plain(w);
    lemma_parse_word_stripped(start, w);
}

} // verus!
