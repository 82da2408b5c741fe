//! Parser for Valve's KeyValues text format (VDF), as used by Steam's
//! `libraryfolders.vdf` and `appmanifest_*.acf` files.

use vstd::prelude::*;
use crate::text::{is_ws, is_whitespace, chars_of, occurs_at};

verus! {

/// A VDF value: a quoted string, or a brace-delimited list of key/value
/// entries in file order.
#[derive(Debug, PartialEq)]
pub enum VdfValue {
    Str(String),
    Section(Vec<(String, VdfValue)>),
}

/// The mathematical form of a `VdfValue`.
pub enum Vdf {
    Str(Seq<char>),
    Section(Seq<(Seq<char>, Vdf)>),
}

/// The mathematical form of a value.
pub open spec fn value_view(v: VdfValue) -> Vdf
    decreases v,
{
    match v {
        VdfValue::Str(s) => Vdf::Str(s@),
        VdfValue::Section(es) => Vdf::Section(entries_view(es@)),
    }
}

/// The mathematical form of a list of entries.
pub open spec fn entries_view(es: Seq<(String, VdfValue)>) -> Seq<(Seq<char>, Vdf)>
    decreases es,
{
    if es.len() == 0 {
        Seq::empty()
    } else {
        entries_view(es.drop_last()).push((es.last().0@, value_view(es.last().1)))
    }
}

impl View for VdfValue {
    type V = Vdf;

    open spec fn view(&self) -> Vdf {
        value_view(*self)
    }
}


// ---------------------------------------------------------------------------
// The grammar, as spec functions over the text's characters and a position
/// The first position at or after `i` that does not hold whitespace.
pub open spec fn ws_end(s: Seq<char>, i: int) -> int
    decreases s.len() - i,
{
    if 0 <= i < s.len() && is_ws(s[i]) {
        ws_end(s, i + 1)
    } else {
        i
    }
}

/// Reads the rest of a quoted string from position `i` (just after the
/// opening quote), `acc` holding what was read so far. `\"` stands for a
/// quote and `\\` for one backslash; a backslash before any other character
/// is dropped. Gives the
/// string and the position after the closing quote, or `None` when the text
/// ends first.
pub open spec fn quoted_rest(s: Seq<char>, i: int, acc: Seq<char>) -> Option<(Seq<char>, int)>
    decreases s.len() - i,
{
    if i < 0 || i >= s.len() {
        None
    } else if s[i] == '"' {
        Some((acc, i + 1))
    } else if s[i] == '\\' {
        if i + 1 < s.len() && (s[i + 1] == '"' || s[i + 1] == '\\') {
            quoted_rest(s, i + 2, acc.push(s[i + 1]))
        } else {
            quoted_rest(s, i + 1, acc)
        }
    } else {
        quoted_rest(s, i + 1, acc.push(s[i]))
    }
}

/// A quoted string starting exactly at `i`.
pub open spec fn token_at(s: Seq<char>, i: int) -> Option<(Seq<char>, int)> {
    if 0 <= i < s.len() && s[i] == '"' {
        quoted_rest(s, i + 1, Seq::empty())
    } else {
        None
    }
}

pub proof fn lemma_ws_end_bounds(s: Seq<char>, i: int)
    requires
        0 <= i <= s.len(),
    ensures
        i <= ws_end(s, i) <= s.len(),
        ws_end(s, i) < s.len() ==> !is_ws(s[ws_end(s, i)]),
        forall|k: int| i <= k < ws_end(s, i) ==> is_ws(#[trigger] s[k]),
    decreases s.len() - i,
{
    if i < s.len() && is_ws(s[i]) {
        lemma_ws_end_bounds(s, i + 1);
    }
}

pub proof fn lemma_quoted_rest_bounds(s: Seq<char>, i: int, acc: Seq<char>)
    ensures
        quoted_rest(s, i, acc) matches Some((_, e)) ==> i < e <= s.len(),
    decreases s.len() - i,
{
    if 0 <= i < s.len() && s[i] != '"' {
        if s[i] == '\\' && i + 1 < s.len() && (s[i + 1] == '"' || s[i + 1] == '\\') {
            lemma_quoted_rest_bounds(s, i + 2, acc.push(s[i + 1]));
        } else if s[i] == '\\' {
            lemma_quoted_rest_bounds(s, i + 1, acc);
        } else {
            lemma_quoted_rest_bounds(s, i + 1, acc.push(s[i]));
        }
    }
}

pub proof fn lemma_token_bounds(s: Seq<char>, i: int)
    ensures
        token_at(s, i) matches Some((_, e)) ==> i + 2 <= e <= s.len(),
{
    if 0 <= i < s.len() && s[i] == '"' {
        lemma_quoted_rest_bounds(s, i + 1, Seq::empty());
    }
}

/// A value starting at or after `i` (after whitespace): a quoted string, or
/// `{` followed by entries up to the matching `}`.
pub open spec fn value_at(s: Seq<char>, i: int) -> Option<(Vdf, int)>
    decreases s.len() - i,
{
    if 0 <= i <= s.len() {
        let j: int = ws_end(s, i);
        proof {
            lemma_ws_end_bounds(s, i);
        }
        if j >= s.len() {
            None
        } else if s[j] == '{' {
            match entries_from(s, j + 1, Seq::empty()) {
                Some((es, e)) => Some((Vdf::Section(es), e)),
                None => None,
            }
        } else {
            match token_at(s, j) {
                Some((t, e)) => Some((Vdf::Str(t), e)),
                None => None,
            }
        }
    } else {
        None
    }
}

/// The entries of a section from position `i` up to and including its
/// closing `}`, `acc` holding the entries read so far: each entry is a
/// quoted key, then a value. Gives the entries and the position after `}`.
pub open spec fn entries_from(s: Seq<char>, i: int, acc: Seq<(Seq<char>, Vdf)>) -> Option<
    (Seq<(Seq<char>, Vdf)>, int),
>
    decreases s.len() - i,
{
    if 0 <= i <= s.len() {
        let j: int = ws_end(s, i);
        proof {
            lemma_ws_end_bounds(s, i);
        }
        if j >= s.len() {
            None
        } else if s[j] == '}' {
            Some((acc, j + 1))
        } else {
            match token_at(s, j) {
                None => None,
                Some((k, j2)) => {
                    proof {
                        lemma_token_bounds(s, j);
                    }
                    match value_at(s, j2) {
                        None => None,
                        Some((v, j3)) => {
                            // A value always ends after it starts (see
                            // `lemma_value_bounds`), so this guard never fails.
                            if i < j3 <= s.len() {
                                entries_from(s, j3, acc.push((k, v)))
                            } else {
                                None
                            }
                        },
                    }
                },
            }
        }
    } else {
        None
    }
}

/// What `parse` reads from a whole text: a quoted key and, when a `{`
/// follows it, the section after it (as a one-entry section); else the key
/// alone as a string. Whitespace may stand before the key and before the
/// `{`; whatever follows the first value is ignored.
pub open spec fn parse_text(s: Seq<char>) -> Option<Vdf> {
    let p: int = ws_end(s, 0);
    match token_at(s, p) {
        None => None,
        Some((key, e)) => {
            let q: int = ws_end(s, e);
            if 0 <= q < s.len() && s[q] == '{' {
                match value_at(s, q) {
                    Some((v, _)) => Some(Vdf::Section(seq![(key, v)])),
                    None => None,
                }
            } else {
                Some(Vdf::Str(key))
            }
        }
    }
}

pub proof fn lemma_value_bounds(s: Seq<char>, i: int)
    ensures
        value_at(s, i) matches Some((_, e)) ==> i < e <= s.len(),
    decreases s.len() - i, 1int,
{
    if 0 <= i <= s.len() {
        lemma_ws_end_bounds(s, i);
        let j: int = ws_end(s, i);
        if j < s.len() {
            if s[j] == '{' {
                lemma_entries_bounds(s, j + 1, Seq::empty());
            } else {
                lemma_token_bounds(s, j);
            }
        }
    }
}

pub proof fn lemma_entries_bounds(s: Seq<char>, i: int, acc: Seq<(Seq<char>, Vdf)>)
    ensures
        entries_from(s, i, acc) matches Some((_, e)) ==> i < e <= s.len(),
    decreases s.len() - i, 0int,
{
    if 0 <= i <= s.len() {
        lemma_ws_end_bounds(s, i);
        let j: int = ws_end(s, i);
        if j < s.len() && s[j] != '}' {
            lemma_token_bounds(s, j);
            if let Some((k, j2)) = token_at(s, j) {
                if let Some((v, j3)) = value_at(s, j2) {
                    if i < j3 <= s.len() {
                        lemma_entries_bounds(s, j3, acc.push((k, v)));
                    }
                }
            }
        }
    }
}


pub proof fn lemma_entries_view_index(es: Seq<(String, VdfValue)>)
    ensures
        entries_view(es).len() == es.len(),
        forall|i: int|
            0 <= i < es.len() ==> #[trigger] entries_view(es)[i] == (es[i].0@, value_view(es[i].1)),
    decreases es.len(),
{
    if es.len() > 0 {
        lemma_entries_view_index(es.drop_last());
    }
}

/// The value stored under the first entry whose key is `key`.
pub open spec fn lookup(es: Seq<(Seq<char>, Vdf)>, key: Seq<char>) -> Option<Vdf>
    decreases es.len(),
{
    if es.len() == 0 {
        None
    } else if es[0].0 == key {
        Some(es[0].1)
    } else {
        lookup(es.drop_first(), key)
    }
}

/// What `VdfValue::get` gives: for a section, the value of its first entry
/// with key `key`; for a string, nothing.
pub open spec fn vdf_get(v: Vdf, key: Seq<char>) -> Option<Vdf> {
    match v {
        Vdf::Str(_) => None,
        Vdf::Section(es) => lookup(es, key),
    }
}

impl VdfValue {
    /// A copy of the value.
    pub fn duplicate(&self) -> (r: VdfValue)
        ensures
            r@ == self@,
        decreases self,
    {
        match self {
            VdfValue::Str(t) => VdfValue::Str(t.clone()),
            VdfValue::Section(es) => {
                let mut out: Vec<(String, VdfValue)> = Vec::new();
                let mut i: usize = 0;
                proof {
                    lemma_entries_view_index(es@);
                }
                assert(entries_view(out@) =~= entries_view(es@).take(0));
                while i < es.len()
                    invariant
                        i <= es.len(),
                        *self == VdfValue::Section(*es),
                        entries_view(es@).len() == es.len(),
                        forall|j: int|
                            0 <= j < es.len() ==> #[trigger] entries_view(es@)[j] == (
                                es@[j].0@,
                                value_view(es@[j].1),
                            ),
                        entries_view(out@) =~= entries_view(es@).take(i as int),
                    decreases es.len() - i,
                {
                    proof {
                        // The entry's value is part of `self`.
                        assert(decreases_to!(*self => self->Section_0));
                        assert(decreases_to!(*es => es@));
                        assert(decreases_to!(es@ => es@[i as int]));
                    }
                    let v = es[i].1.duplicate();
                    let ghost before = out@;
                    out.push((es[i].0.clone(), v));
                    assert(out@.drop_last() =~= before);
                    i = i + 1;
                }
                assert(entries_view(es@).take(es.len() as int) =~= entries_view(es@));
                VdfValue::Section(out)
            },
        }
    }

    /// The value of the first entry keyed `key`, when `self` is a section.
    pub fn get(&self, key: &str) -> (r: Option<&VdfValue>)
        ensures
            match vdf_get(self@, key@) {
                Some(v) => r matches Some(x) && x@ == v,
                None => r is None,
            },
    {
        match self {
            VdfValue::Section(entries) => {
                let key_s = String::from_str(key);
                let ghost es = entries_view(entries@);
                proof {
                    lemma_entries_view_index(entries@);
                    assert(es.skip(0) =~= es);
                }
                let mut i: usize = 0;
                while i < entries.len()
                    invariant
                        i <= entries.len(),
                        es == entries_view(entries@),
                        self@ == Vdf::Section(es),
                        es.len() == entries.len(),
                        forall|j: int|
                            0 <= j < entries.len() ==> #[trigger] es[j] == (
                                entries@[j].0@,
                                value_view(entries@[j].1),
                            ),
                        key_s@ == key@,
                        lookup(es, key@) == lookup(es.skip(i as int), key@),
                    decreases entries.len() - i,
                {
                    assert(es.skip(i as int)[0] == es[i as int]);
                    if entries[i].0 == key_s {
                        assert(lookup(es.skip(i as int), key@) == Some(es[i as int].1));
                        assert(self@ == Vdf::Section(es));
                        assert(entries[i as int].1@ == es[i as int].1);
                        return Some(&entries[i].1);
                    }
                    assert(es.skip(i as int).drop_first() =~= es.skip(i + 1));
                    i = i + 1;
                }
                None
            },
            VdfValue::Str(_) => None,
        }
    }

    /// The text of a string value.
    pub fn as_str(&self) -> (r: Option<&str>)
        ensures
            match self@ {
                Vdf::Str(t) => r matches Some(x) && x@ == t,
                Vdf::Section(_) => r is None,
            },
    {
        match self {
            VdfValue::Str(s) => Some(s.as_str()),
            VdfValue::Section(_) => None,
        }
    }
}

impl Clone for VdfValue {
    fn clone(&self) -> (r: Self)
        ensures
            r@ == self@,
    {
        self.duplicate()
    }
}

// ---------------------------------------------------------------------------
// The parser
fn skip_ws(s: &Vec<char>, i: usize) -> (r: usize)
    requires
        i <= s.len(),
    ensures
        r as int == ws_end(s@, i as int),
        i <= r <= s.len(),
{
    let mut j: usize = i;
    while j < s.len() && is_whitespace(s[j])
        invariant
            i <= j <= s.len(),
            ws_end(s@, i as int) == ws_end(s@, j as int),
        decreases s.len() - j,
    {
        j = j + 1;
    }
    j
}

fn parse_token(s: &Vec<char>, i: usize) -> (r: Option<(String, usize)>)
    requires
        i <= s.len(),
    ensures
        match token_at(s@, i as int) {
            Some((t, e)) => r matches Some((rt, re)) && rt@ == t && re == e,
            None => r is None,
        },
{
    if i >= s.len() || s[i] != '"' {
        return None;
    }
    let mut out = String::new();
    let mut j: usize = i + 1;
    loop
        invariant
            i < j <= s.len(),
            token_at(s@, i as int) == quoted_rest(s@, j as int, out@),
        decreases s.len() - j,
    {
        if j >= s.len() {
            return None;
        }
        let c = s[j];
        if c == '"' {
            return Some((out, j + 1));
        } else if c == '\\' {
            if j + 1 < s.len() && (s[j + 1] == '"' || s[j + 1] == '\\') {
                out.push(s[j + 1]);
                j = j + 2;
            } else {
                j = j + 1;
            }
        } else {
            out.push(c);
            j = j + 1;
        }
    }
}

fn parse_value(s: &Vec<char>, i: usize) -> (r: Option<(VdfValue, usize)>)
    requires
        i <= s.len(),
    ensures
        match value_at(s@, i as int) {
            Some((v, e)) => r matches Some((rv, re)) && rv@ == v && re == e,
            None => r is None,
        },
    decreases s.len() - i,
{
    let j: usize = skip_ws(s, i);
    if j >= s.len() {
        return None;
    }
    if s[j] == '{' {
        let mut entries: Vec<(String, VdfValue)> = Vec::new();
        let mut pos: usize = j + 1;
        assert(entries_view(entries@) =~= Seq::<(Seq<char>, Vdf)>::empty());
        loop
            invariant
                i <= j < pos <= s.len(),
                j as int == ws_end(s@, i as int),
                s@[j as int] == '{',
                value_at(s@, i as int) == match entries_from(s@, pos as int, entries_view(entries@)) {
                    Some((es, e)) => Some((Vdf::Section(es), e)),
                    None => None,
                },
            decreases s.len() - pos,
        {
            let k0: usize = skip_ws(s, pos);
            if k0 >= s.len() {
                return None;
            }
            if s[k0] == '}' {
                return Some((VdfValue::Section(entries), k0 + 1));
            }
            let (key, p2) = match parse_token(s, k0) {
                Some(x) => x,
                None => return None,
            };
            proof {
                lemma_token_bounds(s@, k0 as int);
            }
            let (value, p3) = match parse_value(s, p2) {
                Some(x) => x,
                None => return None,
            };
            proof {
                lemma_value_bounds(s@, p2 as int);
            }
            let ghost old_entries = entries@;
            entries.push((key, value));
            assert(entries@.drop_last() =~= old_entries);
            pos = p3;
        }
    } else {
        match parse_token(s, j) {
            Some((t, e)) => Some((VdfValue::Str(t), e)),
            None => None,
        }
    }
}

/// Parses a VDF text: a quoted key followed either by a section, read as a
/// one-entry section, or by anything else, read as the key alone.
pub fn parse(text: &str) -> (r: Option<VdfValue>)
    ensures
        match parse_text(text@) {
            Some(v) => r matches Some(x) && x@ == v,
            None => r is None,
        },
{
    let s = chars_of(text);
    let p: usize = skip_ws(&s, 0);
    let (key, e) = match parse_token(&s, p) {
        Some(x) => x,
        None => return None,
    };
    proof {
        lemma_token_bounds(s@, p as int);
    }
    let q: usize = skip_ws(&s, e);
    if q < s.len() && s[q] == '{' {
        match parse_value(&s, q) {
            Some((v, _)) => {
                let mut es: Vec<(String, VdfValue)> = Vec::new();
                es.push((key, v));
                assert(es@.drop_last() =~= Seq::<(String, VdfValue)>::empty());
                assert(entries_view(Seq::<(String, VdfValue)>::empty()) =~= Seq::empty());
                assert(entries_view(es@) =~= seq![(key@, v@)]);
                let r = VdfValue::Section(es);
                assert(r@ == Vdf::Section(seq![(key@, v@)]));
                Some(r)
            },
            None => None,
        }
    } else {
        Some(VdfValue::Str(key))
    }
}


// ---------------------------------------------------------------------------
// Writing values, and reading back what was written
/// How one character of a string is written: a quote or a backslash
/// preceded by a backslash, anything else as it is.
pub open spec fn escape_char(c: char) -> Seq<char> {
    if c == '"' || c == '\\' {
        seq!['\\', c]
    } else {
        seq![c]
    }
}

/// The characters of `t` with each quote and each backslash preceded by a
/// backslash.
pub open spec fn escape(t: Seq<char>) -> Seq<char>
    decreases t.len(),
{
    if t.len() == 0 {
        Seq::empty()
    } else {
        escape_char(t[0]) + escape(t.drop_first())
    }
}

/// `t` written as a quoted VDF string.
pub open spec fn quote(t: Seq<char>) -> Seq<char> {
    seq!['"'] + escape(t) + seq!['"']
}

/// `v` written as VDF text: strings quoted, sections in braces with one
/// `"key" value` line per entry.
pub open spec fn render(v: Vdf) -> Seq<char>
    decreases v,
{
    match v {
        Vdf::Str(t) => quote(t),
        Vdf::Section(es) => seq!['{'] + render_entries(es) + seq!['}'],
    }
}

/// The entries of a section written one per line, without the braces.
pub open spec fn render_entries(es: Seq<(Seq<char>, Vdf)>) -> Seq<char>
    decreases es,
{
    if es.len() == 0 {
        Seq::empty()
    } else {
        quote(es[0].0) + seq![' '] + render(es[0].1) + seq!['\n'] + render_entries(
            es.drop_first(),
        )
    }
}

/// A whole document: a key, a line break, then its section.
pub open spec fn render_document(key: Seq<char>, es: Seq<(Seq<char>, Vdf)>) -> Seq<char> {
    quote(key) + seq!['\n'] + render(Vdf::Section(es))
}

proof fn lemma_occurs_split(s: Seq<char>, a: Seq<char>, b: Seq<char>, i: int)
    requires
        occurs_at(s, a + b, i),
    ensures
        occurs_at(s, a, i),
        occurs_at(s, b, i + a.len()),
{
    assert(s.subrange(i, i + a.len()) =~= s.subrange(i, i + (a + b).len()).subrange(
        0,
        a.len() as int,
    ));
    assert((a + b).subrange(0, a.len() as int) =~= a);
    assert(s.subrange(i + a.len(), i + a.len() + b.len()) =~= s.subrange(
        i,
        i + (a + b).len(),
    ).subrange(a.len() as int, (a + b).len() as int));
    assert((a + b).subrange(a.len() as int, (a + b).len() as int) =~= b);
}

proof fn lemma_occurs_index(s: Seq<char>, p: Seq<char>, i: int, k: int)
    requires
        occurs_at(s, p, i),
        0 <= k < p.len(),
    ensures
        s[i + k] == p[k],
{
    assert(s.subrange(i, i + p.len())[k] == s[i + k]);
}

proof fn lemma_ws_end_at(s: Seq<char>, i0: int, i: int)
    requires
        0 <= i0 <= i < s.len(),
        forall|k: int| i0 <= k < i ==> is_ws(#[trigger] s[k]),
        !is_ws(s[i]),
    ensures
        ws_end(s, i0) == i,
    decreases i - i0,
{
    if i0 < i {
        lemma_ws_end_at(s, i0 + 1, i);
    }
}

proof fn lemma_escape_len(t: Seq<char>)
    ensures
        escape(t).len() >= t.len(),
    decreases t.len(),
{
    if t.len() > 0 {
        lemma_escape_len(t.drop_first());
    }
}

proof fn lemma_read_escaped(s: Seq<char>, t: Seq<char>, i: int, acc: Seq<char>)
    requires
        occurs_at(s, escape(t).push('"'), i),
    ensures
        quoted_rest(s, i, acc) == Some((acc + t, i + escape(t).len() + 1)),
    decreases t.len(),
{
    if t.len() == 0 {
        lemma_occurs_index(s, escape(t).push('"'), i, 0);
        assert(acc + t =~= acc);
    } else {
        let rest = t.drop_first();
        let head = escape_char(t[0]);
        assert(escape(t).push('"') =~= head + escape(rest).push('"'));
        lemma_occurs_split(s, head, escape(rest).push('"'), i);
        lemma_occurs_index(s, head, i, 0);
        if t[0] == '"' || t[0] == '\\' {
            lemma_occurs_index(s, head, i, 1);
            lemma_read_escaped(s, rest, i + 2, acc.push(t[0]));
        } else {
            lemma_read_escaped(s, rest, i + 1, acc.push(t[0]));
        }
        assert(acc.push(t[0]) + rest =~= acc + t);
    }
}

proof fn lemma_read_quoted(s: Seq<char>, t: Seq<char>, i: int)
    requires
        occurs_at(s, quote(t), i),
    ensures
        token_at(s, i) == Some((t, i + quote(t).len())),
{
    assert(quote(t) =~= seq!['"'] + escape(t).push('"'));
    lemma_occurs_split(s, seq!['"'], escape(t).push('"'), i);
    lemma_occurs_index(s, seq!['"'], i, 0);
    lemma_read_escaped(s, t, i + 1, Seq::empty());
    assert(Seq::<char>::empty() + t =~= t);
}

proof fn lemma_read_value(s: Seq<char>, v: Vdf, i0: int, i: int)
    requires
        0 <= i0 <= i,
        forall|k: int| i0 <= k < i ==> is_ws(#[trigger] s[k]),
        occurs_at(s, render(v), i),
    ensures
        value_at(s, i0) == Some((v, i + render(v).len())),
    decreases v,
{
    match v {
        Vdf::Str(t) => {
            lemma_escape_len(t);
            lemma_occurs_index(s, render(v), i, 0);
            lemma_ws_end_at(s, i0, i);
            lemma_read_quoted(s, t, i);
        },
        Vdf::Section(es) => {
            lemma_occurs_index(s, render(v), i, 0);
            lemma_ws_end_at(s, i0, i);
            assert(render(v) =~= seq!['{'] + render_entries(es).push('}'));
            lemma_occurs_split(s, seq!['{'], render_entries(es).push('}'), i);
            lemma_read_entries(s, es, i + 1, i + 1, Seq::empty());
            assert(Seq::<(Seq<char>, Vdf)>::empty() + es =~= es);
        },
    }
}

proof fn lemma_read_entries(
    s: Seq<char>,
    es: Seq<(Seq<char>, Vdf)>,
    i0: int,
    i: int,
    acc: Seq<(Seq<char>, Vdf)>,
)
    requires
        0 <= i0 <= i,
        forall|k: int| i0 <= k < i ==> is_ws(#[trigger] s[k]),
        occurs_at(s, render_entries(es).push('}'), i),
    ensures
        entries_from(s, i0, acc) == Some((acc + es, i + render_entries(es).len() + 1)),
    decreases es,
{
    lemma_occurs_index(s, render_entries(es).push('}'), i, 0);
    if es.len() == 0 {
        lemma_ws_end_at(s, i0, i);
        assert(acc + es =~= acc);
    } else {
        let k = es[0].0;
        let v = es[0].1;
        let rest = es.drop_first();
        lemma_escape_len(k);
        let tail = seq!['\n'] + render_entries(rest).push('}');
        assert(render_entries(es).push('}') =~= quote(k) + (seq![' '] + (render(v) + tail)));
        lemma_occurs_split(s, quote(k), seq![' '] + (render(v) + tail), i);
        let j2: int = i + quote(k).len();
        lemma_occurs_split(s, seq![' '], render(v) + tail, j2);
        lemma_occurs_split(s, render(v), tail, j2 + 1);
        let j3: int = j2 + 1 + render(v).len();
        lemma_occurs_split(s, seq!['\n'], render_entries(rest).push('}'), j3);
        lemma_occurs_index(s, quote(k), i, 0);
        lemma_ws_end_at(s, i0, i);
        lemma_read_quoted(s, k, i);
        lemma_occurs_index(s, seq![' '], j2, 0);
        lemma_read_value(s, v, j2, j2 + 1);
        lemma_occurs_index(s, seq!['\n'], j3, 0);
        lemma_read_entries(s, rest, j3, j3 + 1, acc.push((k, v)));
        assert(acc.push((k, v)) + rest =~= acc + es);
    }
}

/// Reading back what was written: a value is read from its written form, at
/// any position, skipping the whitespace before it, and reading stops right
/// after it.
pub proof fn law_value_read_back(v: Vdf, before: Seq<char>, after: Seq<char>, ws: Seq<char>)
    requires
        forall|k: int| 0 <= k < ws.len() ==> is_ws(#[trigger] ws[k]),
    ensures
        value_at(before + ws + render(v) + after, before.len() as int) == Some(
            (v, (before.len() + ws.len() + render(v).len()) as int),
        ),
{
    let s = before + ws + render(v) + after;
    let i: int = (before.len() + ws.len()) as int;
    assert(s.subrange(i, i + render(v).len()) =~= render(v));
    assert forall|k: int| before.len() <= k < i implies is_ws(#[trigger] s[k]) by {
        assert(s[k] == ws[k - before.len()]);
    }
    lemma_read_value(s, v, before.len() as int, i);
}

/// Reading back a written document: `parse` of a key followed by a section
/// gives the one-entry section holding that section under the key, whatever
/// text follows it.
#[verifier::spinoff_prover]
#[verifier::rlimit(40)]
pub proof fn law_parse_reads_document(
    key: Seq<char>,
    es: Seq<(Seq<char>, Vdf)>,
    after: Seq<char>,
)
    ensures
        parse_text(render_document(key, es) + after) == Some(
            Vdf::Section(seq![(key, Vdf::Section(es))]),
        ),
{
    let s = render_document(key, es) + after;
    let v = Vdf::Section(es);
    let e: int = quote(key).len() as int;
    lemma_escape_len(key);
    assert(s =~= quote(key) + (seq!['\n'] + (render(v) + after)));
    assert(s.subrange(0, s.len() as int) =~= s);
    lemma_occurs_split(s, quote(key), seq!['\n'] + (render(v) + after), 0);
    lemma_occurs_split(s, seq!['\n'], render(v) + after, e);
    lemma_occurs_split(s, render(v), after, e + 1);
    lemma_occurs_index(s, quote(key), 0, 0);
    lemma_ws_end_at(s, 0, 0);
    lemma_read_quoted(s, key, 0);
    lemma_occurs_index(s, seq!['\n'], e, 0);
    lemma_occurs_index(s, render(v), e + 1, 0);
    assert(render(v)[0] == '{');
    lemma_ws_end_at(s, e, e + 1);
    lemma_read_value(s, v, e + 1, e + 1);
}

/// A lone quoted string is read back as that string.
pub proof fn law_parse_reads_string(t: Seq<char>)
    ensures
        parse_text(quote(t)) == Some(Vdf::Str(t)),
{
    let s = quote(t);
    assert(s.subrange(0, s.len() as int) =~= s);
    lemma_occurs_index(s, s, 0, 0);
    lemma_ws_end_at(s, 0, 0);
    lemma_read_quoted(s, t, 0);
    assert(ws_end(s, s.len() as int) == s.len());
}


// ---------------------------------------------------------------------------
// Whitespace outside quoted strings
/// The text without its layout: whitespace outside quoted strings removed,
/// quoted strings (with their escapes) kept as they are.
pub open spec fn without_layout(s: Seq<char>) -> Seq<char>
    decreases s.len(), 1int,
{
    if s.len() == 0 {
        s
    } else if is_ws(s[0]) {
        without_layout(s.drop_first())
    } else if s[0] == '"' {
        seq!['"'] + quoted_layout(s.drop_first())
    } else {
        seq![s[0]] + without_layout(s.drop_first())
    }
}

/// `without_layout` from inside a quoted string: characters are kept, a
/// backslash together with the character after it, until the closing quote.
pub open spec fn quoted_layout(s: Seq<char>) -> Seq<char>
    decreases s.len(), 0int,
{
    if s.len() == 0 {
        s
    } else if s[0] == '"' {
        seq!['"'] + without_layout(s.drop_first())
    } else if s[0] == '\\' && s.len() >= 2 {
        seq![s[0], s[1]] + quoted_layout(s.skip(2))
    } else {
        seq![s[0]] + quoted_layout(s.drop_first())
    }
}

proof fn lemma_layout_step(s: Seq<char>, k: int)
    requires
        0 <= k < s.len(),
    ensures
        without_layout(s.skip(k)) == if is_ws(s[k]) {
            without_layout(s.skip(k + 1))
        } else if s[k] == '"' {
            seq!['"'] + quoted_layout(s.skip(k + 1))
        } else {
            seq![s[k]] + without_layout(s.skip(k + 1))
        },
        quoted_layout(s.skip(k)) == if s[k] == '"' {
            seq!['"'] + without_layout(s.skip(k + 1))
        } else if s[k] == '\\' && k + 1 < s.len() {
            seq![s[k], s[k + 1]] + quoted_layout(s.skip(k + 2))
        } else {
            seq![s[k]] + quoted_layout(s.skip(k + 1))
        },
{
    assert(s.skip(k)[0] == s[k]);
    assert(s.skip(k).drop_first() =~= s.skip(k + 1));
    if k + 1 < s.len() {
        assert(s.skip(k)[1] == s[k + 1]);
        assert(s.skip(k).skip(2) =~= s.skip(k + 2));
    }
}

proof fn lemma_layout_end(s: Seq<char>)
    ensures
        without_layout(s.skip(s.len() as int)).len() == 0,
        quoted_layout(s.skip(s.len() as int)).len() == 0,
{
    assert(s.skip(s.len() as int) =~= Seq::<char>::empty());
}

proof fn lemma_layout_ws(s: Seq<char>, i: int)
    requires
        0 <= i <= s.len(),
    ensures
        without_layout(s.skip(i)) == without_layout(s.skip(ws_end(s, i))),
    decreases s.len() - i,
{
    if i < s.len() && is_ws(s[i]) {
        lemma_layout_step(s, i);
        lemma_layout_ws(s, i + 1);
    }
}

/// At a position past the whitespace, the text without layout begins with
/// the character there, and is empty at the end.
proof fn lemma_layout_first(s: Seq<char>, k: int)
    requires
        0 <= k <= s.len(),
        k < s.len() ==> !is_ws(s[k]),
    ensures
        k == s.len() <==> without_layout(s.skip(k)).len() == 0,
        k < s.len() ==> without_layout(s.skip(k))[0] == s[k],
        k < s.len() && s[k] != '"' ==> without_layout(s.skip(k)).drop_first() == without_layout(
            s.skip(k + 1),
        ),
        k < s.len() && s[k] == '"' ==> without_layout(s.skip(k)).drop_first() == quoted_layout(
            s.skip(k + 1),
        ),
{
    lemma_layout_end(s);
    if k < s.len() {
        lemma_layout_step(s, k);
        if s[k] == '"' {
            assert((seq!['"'] + quoted_layout(s.skip(k + 1))).drop_first() =~= quoted_layout(
                s.skip(k + 1),
            ));
        } else {
            assert((seq![s[k]] + without_layout(s.skip(k + 1))).drop_first() =~= without_layout(
                s.skip(k + 1),
            ));
        }
    }
}

/// Two texts that agree without layout from `i` and from `j`, at positions
/// past their whitespace, hold the same character there, or both end.
proof fn lemma_layout_agree(s: Seq<char>, i: int, q: Seq<char>, j: int)
    requires
        0 <= i <= s.len(),
        0 <= j <= q.len(),
        without_layout(s.skip(i)) == without_layout(q.skip(j)),
    ensures
        ws_end(s, i) == s.len() <==> ws_end(q, j) == q.len(),
        ws_end(s, i) < s.len() ==> s[ws_end(s, i)] == q[ws_end(q, j)],
        ws_end(s, i) < s.len() && s[ws_end(s, i)] != '"' ==> without_layout(
            s.skip(ws_end(s, i) + 1),
        ) == without_layout(q.skip(ws_end(q, j) + 1)),
        ws_end(s, i) < s.len() && s[ws_end(s, i)] == '"' ==> quoted_layout(
            s.skip(ws_end(s, i) + 1),
        ) == quoted_layout(q.skip(ws_end(q, j) + 1)),
{
    lemma_ws_end_bounds(s, i);
    lemma_ws_end_bounds(q, j);
    lemma_layout_ws(s, i);
    lemma_layout_ws(q, j);
    lemma_layout_first(s, ws_end(s, i));
    lemma_layout_first(q, ws_end(q, j));
}

proof fn lemma_quoted_layout(s: Seq<char>, i: int, q: Seq<char>, j: int, acc: Seq<char>)
    requires
        0 <= i <= s.len(),
        0 <= j <= q.len(),
        quoted_layout(s.skip(i)) == quoted_layout(q.skip(j)),
    ensures
        match (quoted_rest(s, i, acc), quoted_rest(q, j, acc)) {
            (None, None) => true,
            (Some((t1, e1)), Some((t2, e2))) => t1 == t2 && 0 <= e1 <= s.len() && 0 <= e2
                <= q.len() && without_layout(s.skip(e1)) == without_layout(q.skip(e2)),
            _ => false,
        },
    decreases s.len() - i,
{
    lemma_layout_end(s);
    lemma_layout_end(q);
    let a = quoted_layout(s.skip(i));
    if i == s.len() {
        if j < q.len() {
            lemma_layout_step(q, j);
        }
        return;
    }
    lemma_layout_step(s, i);
    if j == q.len() {
        return;
    }
    lemma_layout_step(q, j);
    assert(a[0] == s[i]);
    assert(a[0] == q[j]);
    if s[i] == '"' {
        assert(a.drop_first() =~= without_layout(s.skip(i + 1)));
        assert(a.drop_first() =~= without_layout(q.skip(j + 1)));
    } else if s[i] == '\\' && i + 1 < s.len() {
        if j + 1 < q.len() {
            assert(a[1] == s[i + 1]);
            assert(a[1] == q[j + 1]);
            assert(a.skip(2) =~= quoted_layout(s.skip(i + 2)));
            assert(a.skip(2) =~= quoted_layout(q.skip(j + 2)));
            if s[i + 1] == '"' || s[i + 1] == '\\' {
                lemma_quoted_layout(s, i + 2, q, j + 2, acc.push(s[i + 1]));
            } else {
                lemma_quoted_layout(s, i + 2, q, j + 2, acc.push(s[i + 1]));
                assert(quoted_rest(s, i + 1, acc) == quoted_rest(s, i + 2, acc.push(s[i + 1])));
                assert(quoted_rest(q, j + 1, acc) == quoted_rest(q, j + 2, acc.push(q[j + 1])));
            }
        } else {
            lemma_layout_end(q);
            assert(quoted_layout(q.skip(j)) =~= seq![q[j]] + quoted_layout(q.skip(j + 1)));
            assert(quoted_layout(q.skip(j)).len() == 1);
            assert(a.len() >= 2);
        }
    } else if s[i] == '\\' {
        // A backslash that ends the text: both texts end there.
        lemma_layout_end(s);
        assert(a.len() == 1);
        if j + 1 < q.len() {
            assert(quoted_layout(q.skip(j)).len() >= 2);
        }
    } else {
        assert(a.drop_first() =~= quoted_layout(s.skip(i + 1)));
        assert(a.drop_first() =~= quoted_layout(q.skip(j + 1)));
        lemma_quoted_layout(s, i + 1, q, j + 1, acc.push(s[i]));
    }
}

proof fn lemma_token_layout(s: Seq<char>, k: int, q: Seq<char>, m: int)
    requires
        0 <= k < s.len(),
        0 <= m < q.len(),
        s[k] == q[m],
        s[k] == '"' ==> quoted_layout(s.skip(k + 1)) == quoted_layout(q.skip(m + 1)),
    ensures
        match (token_at(s, k), token_at(q, m)) {
            (None, None) => true,
            (Some((t1, e1)), Some((t2, e2))) => t1 == t2 && 0 <= e1 <= s.len() && 0 <= e2
                <= q.len() && without_layout(s.skip(e1)) == without_layout(q.skip(e2)),
            _ => false,
        },
{
    if s[k] == '"' {
        lemma_quoted_layout(s, k + 1, q, m + 1, Seq::empty());
    }
}

proof fn lemma_value_layout(s: Seq<char>, i: int, q: Seq<char>, j: int)
    requires
        0 <= i <= s.len(),
        0 <= j <= q.len(),
        without_layout(s.skip(i)) == without_layout(q.skip(j)),
    ensures
        match (value_at(s, i), value_at(q, j)) {
            (None, None) => true,
            (Some((v1, e1)), Some((v2, e2))) => v1 == v2 && 0 <= e1 <= s.len() && 0 <= e2
                <= q.len() && without_layout(s.skip(e1)) == without_layout(q.skip(e2)),
            _ => false,
        },
    decreases s.len() - i, 1int,
{
    lemma_layout_agree(s, i, q, j);
    lemma_ws_end_bounds(s, i);
    lemma_ws_end_bounds(q, j);
    let k = ws_end(s, i);
    let m = ws_end(q, j);
    if k < s.len() {
        if s[k] == '{' {
            lemma_entries_layout(s, k + 1, q, m + 1, Seq::empty());
        } else {
            lemma_token_layout(s, k, q, m);
        }
    }
}

proof fn lemma_entries_layout(
    s: Seq<char>,
    i: int,
    q: Seq<char>,
    j: int,
    acc: Seq<(Seq<char>, Vdf)>,
)
    requires
        0 <= i <= s.len(),
        0 <= j <= q.len(),
        without_layout(s.skip(i)) == without_layout(q.skip(j)),
    ensures
        match (entries_from(s, i, acc), entries_from(q, j, acc)) {
            (None, None) => true,
            (Some((v1, e1)), Some((v2, e2))) => v1 == v2 && 0 <= e1 <= s.len() && 0 <= e2
                <= q.len() && without_layout(s.skip(e1)) == without_layout(q.skip(e2)),
            _ => false,
        },
    decreases s.len() - i, 0int,
{
    lemma_layout_agree(s, i, q, j);
    lemma_ws_end_bounds(s, i);
    lemma_ws_end_bounds(q, j);
    let k = ws_end(s, i);
    let m = ws_end(q, j);
    if k < s.len() && s[k] != '}' {
        lemma_token_layout(s, k, q, m);
        lemma_token_bounds(s, k);
        lemma_token_bounds(q, m);
        if let Some((key, k2)) = token_at(s, k) {
            let (_, m2) = token_at(q, m).unwrap();
            lemma_value_layout(s, k2, q, m2);
            lemma_value_bounds(s, k2);
            lemma_value_bounds(q, m2);
            if let Some((v, k3)) = value_at(s, k2) {
                let (_, m3) = value_at(q, m2).unwrap();
                lemma_entries_layout(s, k3, q, m3, acc.push((key, v)));
            }
        }
    }
}

/// Layout does not matter: two texts that differ only in whitespace outside
/// quoted strings (inserted, removed or replaced, also where there was none,
/// between tokens and braces) are parsed alike.
pub proof fn law_layout_does_not_matter(t1: Seq<char>, t2: Seq<char>)
    requires
        without_layout(t1) == without_layout(t2),
    ensures
        parse_text(t1) == parse_text(t2),
{
    assert(t1.skip(0) =~= t1);
    assert(t2.skip(0) =~= t2);
    lemma_layout_agree(t1, 0, t2, 0);
    lemma_ws_end_bounds(t1, 0);
    lemma_ws_end_bounds(t2, 0);
    let p1 = ws_end(t1, 0);
    let p2 = ws_end(t2, 0);
    if p1 < t1.len() {
        lemma_token_layout(t1, p1, t2, p2);
        lemma_token_bounds(t1, p1);
        lemma_token_bounds(t2, p2);
        if let Some((key, e1)) = token_at(t1, p1) {
            let (_, e2) = token_at(t2, p2).unwrap();
            lemma_layout_agree(t1, e1, t2, e2);
            lemma_ws_end_bounds(t1, e1);
            lemma_ws_end_bounds(t2, e2);
            let q1 = ws_end(t1, e1);
            let q2 = ws_end(t2, e2);
            if q1 < t1.len() && t1[q1] == '{' {
                assert(without_layout(t1.skip(q1)) == without_layout(t2.skip(q2))) by {
                    lemma_layout_ws(t1, e1);
                    lemma_layout_ws(t2, e2);
                }
                lemma_value_layout(t1, q1, t2, q2);
            }
        }
    }
}

} // verus!
