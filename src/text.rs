//! Character-level string helpers shared by the parser and the renderers.

use vstd::prelude::*;

verus! {

/// Relies on `String::push`: the character is appended at the end.
#[verifier::external_body]
pub(crate) fn push_char(s: &mut String, c: char)
    ensures
        final(s)@ == old(s)@.push(c),
{
    s.push(c)
}

/// Relies on `String::pop`: the last character, if any, is removed and returned.
#[verifier::external_body]
pub(crate) fn pop_last(s: &mut String) -> (r: Option<char>)
    ensures
        old(s)@.len() == 0 ==> r is None && final(s)@ == old(s)@,
        old(s)@.len() > 0 ==> r == Some(old(s)@.last()) && final(s)@ == old(s)@.drop_last(),
{
    s.pop()
}

/// The characters of `s`, in order.
pub fn chars_of(s: &str) -> (r: Vec<char>)
    ensures
        r@ == s@,
{
    let n = s.unicode_len();
    let mut r: Vec<char> = Vec::new();
    let mut i: usize = 0;
    while i < n
        invariant
            n == s@.len(),
            i <= n,
            r@ == s@.subrange(0, i as int),
        decreases n - i,
    {
        r.push(s.get_char(i));
        i = i + 1;
        assert(r@ =~= s@.subrange(0, i as int));
    }
    assert(r@ =~= s@);
    r
}

/// Appends `v[from..to]` to `s`.
pub fn push_range(s: &mut String, v: &Vec<char>, from: usize, to: usize)
    requires
        from <= to <= v@.len(),
    ensures
        final(s)@ == old(s)@ + v@.subrange(from as int, to as int),
{
    let ghost start = s@;
    let mut i: usize = from;
    while i < to
        invariant
            from <= i <= to <= v@.len(),
            s@ == start + v@.subrange(from as int, i as int),
        decreases to - i,
    {
        push_char(s, v[i]);
        i = i + 1;
        assert(s@ =~= start + v@.subrange(from as int, i as int));
    }
}

/// A new string holding `v[from..to]`.
pub fn string_of_range(v: &Vec<char>, from: usize, to: usize) -> (r: String)
    requires
        from <= to <= v@.len(),
    ensures
        r@ == v@.subrange(from as int, to as int),
{
    let mut s = String::new();
    push_range(&mut s, v, from, to);
    assert(s@ =~= v@.subrange(from as int, to as int));
    s
}

/// Whether `s` holds exactly the characters of `lit`.
pub fn str_eq(s: &str, lit: &str) -> (r: bool)
    ensures
        r == (s@ == lit@),
{
    let n = s.unicode_len();
    if n != lit.unicode_len() {
        return false;
    }
    let mut i: usize = 0;
    while i < n
        invariant
            n == s@.len() == lit@.len(),
            i <= n,
            forall|k: int| 0 <= k < i ==> s@[k] == lit@[k],
        decreases n - i,
    {
        if s.get_char(i) != lit.get_char(i) {
            return false;
        }
        i = i + 1;
    }
    assert(s@ =~= lit@);
    true
}

/// Appends `t` to `s`.
pub fn push_string(s: &mut String, t: &String)
    ensures
        final(s)@ == old(s)@ + t@,
{
    s.append(t.as_str());
}

/// A string holding the literal `lit`.
pub fn string_lit(lit: &str) -> (r: String)
    ensures
        r@ == lit@,
{
    String::from_str(lit)
}

pub open spec fn digit_char(d: nat) -> char {
    if d == 0 {
        '0'
    } else if d == 1 {
        '1'
    } else if d == 2 {
        '2'
    } else if d == 3 {
        '3'
    } else if d == 4 {
        '4'
    } else if d == 5 {
        '5'
    } else if d == 6 {
        '6'
    } else if d == 7 {
        '7'
    } else if d == 8 {
        '8'
    } else {
        '9'
    }
}

/// Decimal digits of `n`, most significant first, without leading zeros.
pub open spec fn decimal(n: nat) -> Seq<char>
    decreases n,
{
    if n < 10 {
        seq![digit_char(n)]
    } else {
        decimal(n / 10).push(digit_char(n % 10))
    }
}

/// Appends the decimal digits of `n` to `s`.
pub fn push_decimal(s: &mut String, n: usize)
    ensures
        final(s)@ == old(s)@ + decimal(n as nat),
    decreases n,
{
    if n >= 10 {
        push_decimal(s, n / 10);
    }
    let d = n % 10;
    let c = if d == 0 {
        '0'
    } else if d == 1 {
        '1'
    } else if d == 2 {
        '2'
    } else if d == 3 {
        '3'
    } else if d == 4 {
        '4'
    } else if d == 5 {
        '5'
    } else if d == 6 {
        '6'
    } else if d == 7 {
        '7'
    } else if d == 8 {
        '8'
    } else {
        '9'
    };
    push_char(s, c);
    assert(final(s)@ =~= old(s)@ + decimal(n as nat)) by {
        if n >= 10 {
            assert(decimal(n as nat) == decimal((n / 10) as nat).push(digit_char((n % 10) as nat)));
        }
    }
}

/// `s` without a leading `"`, if it has one.
pub open spec fn drop_first_quote(s: Seq<char>) -> Seq<char> {
    if s.len() > 0 && s[0] == '"' {
        s.drop_first()
    } else {
        s
    }
}

/// `s` without a trailing `"`, if it has one.
pub open spec fn drop_last_quote(s: Seq<char>) -> Seq<char> {
    if s.len() > 0 && s.last() == '"' {
        s.drop_last()
    } else {
        s
    }
}

/// `s` with every `\"` replaced by `"`, scanning from the left.
pub open spec fn unescape_quotes(s: Seq<char>) -> Seq<char>
    decreases s.len(),
{
    if s.len() == 0 {
        seq![]
    } else if s.len() >= 2 && s[0] == '\\' && s[1] == '"' {
        seq!['"'] + unescape_quotes(s.subrange(2, s.len() as int))
    } else {
        seq![s[0]] + unescape_quotes(s.drop_first())
    }
}

/// `text` without its leading `"` and then without its trailing `"`.
pub fn replace_first_last_quote(text: &str) -> (r: String)
    ensures
        r@ == drop_last_quote(drop_first_quote(text@)),
{
    let c = chars_of(text);
    let n = c.len();
    let from: usize = if n > 0 && c[0] == '"' {
        1
    } else {
        0
    };
    let to: usize = if n > from && c[n - 1] == '"' {
        n - 1
    } else {
        n
    };
    let r = string_of_range(&c, from, to);
    assert(r@ =~= drop_last_quote(drop_first_quote(text@)));
    r
}

fn unescape(c: &Vec<char>) -> (r: String)
    ensures
        r@ == unescape_quotes(c@),
{
    let n = c.len();
    let mut r = String::new();
    let mut i: usize = 0;
    assert(c@.subrange(0, n as int) =~= c@);
    assert(r@ + unescape_quotes(c@) =~= unescape_quotes(c@));
    while i < n
        invariant
            n == c@.len(),
            i <= n,
            r@ + unescape_quotes(c@.subrange(i as int, n as int)) == unescape_quotes(c@),
        decreases n - i,
    {
        let ghost rest = c@.subrange(i as int, n as int);
        if c[i] == '\\' && i + 1 < n && c[i + 1] == '"' {
            push_char(&mut r, '"');
            assert(rest.subrange(2, rest.len() as int) =~= c@.subrange(i + 2, n as int));
            i = i + 2;
        } else {
            push_char(&mut r, c[i]);
            assert(rest.drop_first() =~= c@.subrange(i + 1, n as int));
            i = i + 1;
        }
        assert(r@ + unescape_quotes(c@.subrange(i as int, n as int)) =~= unescape_quotes(c@));
    }
    assert(c@.subrange(n as int, n as int) =~= Seq::<char>::empty());
    r
}

/// A string together with the clean-ups to apply to it when it is built.
pub struct IntelligentStringBuilder {
    pub s: String,
    pub delete_first_quote: bool,
    pub delete_last_quote: bool,
    pub replace_backslash_quote_with_quote: bool,
}

/// What [`IntelligentStringBuilder::build`] returns for the given string and clean-ups.
pub open spec fn cleaned(s: Seq<char>, first: bool, last: bool, unescape: bool) -> Seq<char> {
    let a = if first {
        drop_first_quote(s)
    } else {
        s
    };
    let b = if last {
        drop_last_quote(a)
    } else {
        a
    };
    if unescape {
        unescape_quotes(b)
    } else {
        b
    }
}

impl IntelligentStringBuilder {
    /// A builder for `s` with no clean-up selected.
    pub fn new(s: String) -> (r: Self)
        ensures
            r.s@ == s@,
            !r.delete_first_quote,
            !r.delete_last_quote,
            !r.replace_backslash_quote_with_quote,
    {
        IntelligentStringBuilder {
            s,
            delete_first_quote: false,
            delete_last_quote: false,
            replace_backslash_quote_with_quote: false,
        }
    }

    /// Selects the removal of a leading `"`.
    pub fn delete_first_quote(&mut self) -> (r: &mut Self)
        ensures
            r.s == old(self).s,
            r.delete_first_quote,
            r.delete_last_quote == old(self).delete_last_quote,
            r.replace_backslash_quote_with_quote == old(self).replace_backslash_quote_with_quote,
            *final(self) == *final(r),
    {
        self.delete_first_quote = true;
        self
    }

    /// Selects the removal of a trailing `"`.
    pub fn delete_last_quote(&mut self) -> (r: &mut Self)
        ensures
            r.s == old(self).s,
            r.delete_first_quote == old(self).delete_first_quote,
            r.delete_last_quote,
            r.replace_backslash_quote_with_quote == old(self).replace_backslash_quote_with_quote,
            *final(self) == *final(r),
    {
        self.delete_last_quote = true;
        self
    }

    /// Selects the replacement of `\"` by `"`.
    pub fn replace_backslash_quote_with_quote(&mut self) -> (r: &mut Self)
        ensures
            r.s == old(self).s,
            r.delete_first_quote == old(self).delete_first_quote,
            r.delete_last_quote == old(self).delete_last_quote,
            r.replace_backslash_quote_with_quote,
            *final(self) == *final(r),
    {
        self.replace_backslash_quote_with_quote = true;
        self
    }

    /// Applies the selected clean-ups, in order: leading quote, trailing
    /// quote, escaped quotes. The builder keeps the result.
    pub fn build(&mut self) -> (r: String)
        ensures
            r@ == cleaned(
                old(self).s@,
                old(self).delete_first_quote,
                old(self).delete_last_quote,
                old(self).replace_backslash_quote_with_quote,
            ),
            final(self).s@ == r@,
            final(self).delete_first_quote == old(self).delete_first_quote,
            final(self).delete_last_quote == old(self).delete_last_quote,
            final(self).replace_backslash_quote_with_quote == old(
                self,
            ).replace_backslash_quote_with_quote,
    {
        let c = chars_of(self.s.as_str());
        let n = c.len();
        let from: usize = if self.delete_first_quote && n > 0 && c[0] == '"' {
            1
        } else {
            0
        };
        let to: usize = if self.delete_last_quote && n > from && c[n - 1] == '"' {
            n - 1
        } else {
            n
        };
        let mid = string_of_range(&c, from, to);
        let ghost b = cleaned(old(self).s@, old(self).delete_first_quote, old(self).delete_last_quote, false);
        assert(mid@ =~= b);
        let r = if self.replace_backslash_quote_with_quote {
            let mc = chars_of(mid.as_str());
            unescape(&mc)
        } else {
            mid
        };
        self.s = r.clone();
        r
    }
}

/// A quoted value cleaned up: leading and trailing `"` removed, `\"` unescaped.
pub fn unquote(s: String) -> (r: String)
    ensures
        r@ == cleaned(s@, true, true, true),
{
    let mut b = IntelligentStringBuilder::new(s);
    b.delete_first_quote().delete_last_quote().replace_backslash_quote_with_quote().build()
}

} // verus!
