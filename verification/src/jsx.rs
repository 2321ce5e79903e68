//! JSX candidate normalization: JSX text and attribute values must be
//! decoded and re-escaped before they can join the dictionary as ordinary
//! string entries.

use vstd::prelude::*;

use crate::comments::char_is_ws;
use crate::dictionary::{spec_add_entries, DictionaryEntry, DictionaryTracker};
use crate::text::chars_to_vec;
use crate::span::Span;
use crate::trusted::{decode_entities, decoded_entities, push_char};

verus! {

/// Escape literal newlines as the two-character sequence `\n`.
pub open spec fn escape_newlines(s: Seq<char>) -> Seq<char>
    decreases s.len(),
{
    if s.len() == 0 {
        Seq::empty()
    } else if s[0] == '\n' {
        seq!['\\', 'n'] + escape_newlines(s.drop_first())
    } else {
        seq![s[0]] + escape_newlines(s.drop_first())
    }
}

/// Escape backslashes and the quote character with a leading backslash.
pub open spec fn escape_for_quote(s: Seq<char>, q: char) -> Seq<char>
    decreases s.len(),
{
    if s.len() == 0 {
        Seq::empty()
    } else if s[0] == '\\' || s[0] == q {
        seq!['\\', s[0]] + escape_for_quote(s.drop_first(), q)
    } else {
        seq![s[0]] + escape_for_quote(s.drop_first(), q)
    }
}

/// The first position at or after `i` that does not hold whitespace.
pub open spec fn ws_run_end(s: Seq<char>, i: int) -> int
    decreases s.len() - i,
{
    if i < 0 || i >= s.len() {
        s.len() as int
    } else if !char_is_ws(s[i]) {
        i
    } else {
        ws_run_end(s, i + 1)
    }
}

proof fn lemma_ws_run_end_bounds(s: Seq<char>, i: int)
    requires
        0 <= i <= s.len(),
    ensures
        i <= ws_run_end(s, i) <= s.len(),
    decreases s.len() - i,
{
    if i < s.len() && char_is_ws(s[i]) {
        lemma_ws_run_end_bounds(s, i + 1);
    }
}

/// Remove a leading newline and the whitespace run after it.
pub open spec fn strip_initial_ws(s: Seq<char>) -> Seq<char> {
    if s.len() >= 2 && s[0] == '\n' && char_is_ws(s[1]) {
        s.skip(ws_run_end(s, 1))
    } else {
        s
    }
}

/// Whether everything from `i` to the end is whitespace.
pub open spec fn all_ws_from(s: Seq<char>, i: int) -> bool {
    forall|j: int| i <= j < s.len() ==> char_is_ws(#[trigger] s[j])
}

/// The position of the leftmost newline followed only by whitespace to the
/// end (at least one character of it), or the length when there is none.
pub open spec fn terminal_cut(s: Seq<char>, i: int) -> int
    decreases s.len() - i,
{
    if i < 0 || i >= s.len() {
        s.len() as int
    } else if s[i] == '\n' && i + 1 < s.len() && all_ws_from(s, i + 1) {
        i
    } else {
        terminal_cut(s, i + 1)
    }
}

proof fn lemma_terminal_cut_bounds(s: Seq<char>, i: int)
    requires
        0 <= i <= s.len(),
    ensures
        i <= terminal_cut(s, i) <= s.len(),
    decreases s.len() - i,
{
    if i < s.len() && !(s[i] == '\n' && i + 1 < s.len() && all_ws_from(s, i + 1)) {
        lemma_terminal_cut_bounds(s, i + 1);
    }
}

/// Remove a trailing newline-and-whitespace run.
pub open spec fn strip_terminal_ws(s: Seq<char>) -> Seq<char> {
    s.take(terminal_cut(s, 0))
}

/// Collapse every internal newline-and-whitespace run into one space.
pub open spec fn collapse_internal_ws(s: Seq<char>) -> Seq<char>
    decreases s.len(),
    via collapse_internal_ws_decreases
{
    if s.len() == 0 {
        Seq::empty()
    } else if s[0] == '\n' && s.len() >= 2 && char_is_ws(s[1]) {
        seq![' '] + collapse_internal_ws(s.skip(ws_run_end(s, 1)))
    } else {
        seq![s[0]] + collapse_internal_ws(s.drop_first())
    }
}

#[via_fn]
proof fn collapse_internal_ws_decreases(s: Seq<char>) {
    if s.len() >= 2 && s[0] == '\n' && char_is_ws(s[1]) {
        lemma_ws_run_end_bounds(s, 1);
    }
}

/// Drop every remaining newline.
pub open spec fn remove_newlines(s: Seq<char>) -> Seq<char>
    decreases s.len(),
{
    if s.len() == 0 {
        Seq::empty()
    } else if s[0] == '\n' {
        remove_newlines(s.drop_first())
    } else {
        seq![s[0]] + remove_newlines(s.drop_first())
    }
}

/// A JSX attribute value normalized into an ordinary quoted string: real
/// newlines escaped, HTML entities decoded (before quote escaping, since
/// decoding can introduce quotes), quotes and backslashes escaped, and the
/// whole wrapped in the quote style the source used.
pub open spec fn jsx_attr_normalized(value: Seq<char>, q: char) -> Seq<char> {
    seq![q] + escape_for_quote(decoded_entities(escape_newlines(value)), q) + seq![q]
}

/// JSX text normalized into an ordinary double-quoted string: leading and
/// trailing newline runs dropped, internal runs collapsed to one space,
/// remaining newlines removed, entities decoded, then escaped and quoted.
pub open spec fn jsx_text_normalized(raw: Seq<char>) -> Seq<char> {
    let collapsed = remove_newlines(
        collapse_internal_ws(strip_terminal_ws(strip_initial_ws(raw))),
    );
    seq!['"'] + escape_for_quote(decoded_entities(collapsed), '"') + seq!['"']
}

fn exec_ws_run_end(v: &Vec<char>, i: usize) -> (r: usize)
    requires
        i <= v@.len(),
    ensures
        r == ws_run_end(v@, i as int),
        i <= r <= v@.len(),
{
    let mut p = i;
    while p < v.len() && crate::comments::exec_char_is_ws(v[p])
        invariant
            i <= p <= v@.len(),
            ws_run_end(v@, i as int) == ws_run_end(v@, p as int),
        decreases v@.len() - p,
    {
        p += 1;
    }
    p
}

fn exec_escape_newlines(v: &Vec<char>) -> (r: Vec<char>)
    ensures
        r@ == escape_newlines(v@),
{
    let mut r: Vec<char> = Vec::new();
    let mut i: usize = 0;
    proof {
        assert(v@.skip(0) =~= v@);
        assert(r@ + escape_newlines(v@) =~= escape_newlines(v@));
    }
    while i < v.len()
        invariant
            0 <= i <= v@.len(),
            r@ + escape_newlines(v@.skip(i as int)) == escape_newlines(v@),
        decreases v@.len() - i,
    {
        let ghost rem = v@.skip(i as int);
        proof {
            assert(rem[0] == v@[i as int]);
            assert(rem.drop_first() =~= v@.skip(i + 1));
        }
        let c = v[i];
        let ghost pre = r@;
        if c == '\n' {
            r.push('\\');
            r.push('n');
        } else {
            r.push(c);
        }
        proof {
            assert(r@ + escape_newlines(v@.skip(i + 1)) =~= escape_newlines(v@));
        }
        i += 1;
    }
    proof {
        assert(v@.skip(v@.len() as int) =~= Seq::<char>::empty());
        assert(r@ + Seq::<char>::empty() =~= r@);
    }
    r
}

fn exec_escape_for_quote(v: &Vec<char>, q: char) -> (r: Vec<char>)
    ensures
        r@ == escape_for_quote(v@, q),
{
    let mut r: Vec<char> = Vec::new();
    let mut i: usize = 0;
    proof {
        assert(v@.skip(0) =~= v@);
        assert(r@ + escape_for_quote(v@, q) =~= escape_for_quote(v@, q));
    }
    while i < v.len()
        invariant
            0 <= i <= v@.len(),
            r@ + escape_for_quote(v@.skip(i as int), q) == escape_for_quote(v@, q),
        decreases v@.len() - i,
    {
        let ghost rem = v@.skip(i as int);
        proof {
            assert(rem[0] == v@[i as int]);
            assert(rem.drop_first() =~= v@.skip(i + 1));
        }
        let c = v[i];
        if c == '\\' || c == q {
            r.push('\\');
            r.push(c);
        } else {
            r.push(c);
        }
        proof {
            assert(r@ + escape_for_quote(v@.skip(i + 1), q) =~= escape_for_quote(v@, q));
        }
        i += 1;
    }
    proof {
        assert(v@.skip(v@.len() as int) =~= Seq::<char>::empty());
        assert(r@ + Seq::<char>::empty() =~= r@);
    }
    r
}

fn exec_strip_initial(v: &Vec<char>) -> (r: Vec<char>)
    ensures
        r@ == strip_initial_ws(v@),
{
    if v.len() >= 2 && v[0] == '\n' && crate::comments::exec_char_is_ws(v[1]) {
        let e = exec_ws_run_end(v, 1);
        let mut r: Vec<char> = Vec::new();
        let mut i = e;
        while i < v.len()
            invariant
                e <= i <= v@.len(),
                r@ == v@.subrange(e as int, i as int),
            decreases v@.len() - i,
        {
            r.push(v[i]);
            proof {
                assert(v@.subrange(e as int, i + 1) =~= v@.subrange(e as int, i as int).push(
                    v@[i as int],
                ));
            }
            i += 1;
        }
        proof {
            assert(r@ =~= v@.skip(e as int));
        }
        r
    } else {
        let mut r: Vec<char> = Vec::new();
        let mut i: usize = 0;
        while i < v.len()
            invariant
                0 <= i <= v@.len(),
                r@ == v@.take(i as int),
            decreases v@.len() - i,
        {
            r.push(v[i]);
            proof {
                assert(v@.take(i + 1) =~= v@.take(i as int).push(v@[i as int]));
            }
            i += 1;
        }
        proof {
            assert(r@ =~= v@);
        }
        r
    }
}

fn exec_all_ws_from(v: &Vec<char>, i: usize) -> (r: bool)
    requires
        i <= v@.len(),
    ensures
        r == all_ws_from(v@, i as int),
{
    let mut p = i;
    while p < v.len()
        invariant
            i <= p <= v@.len(),
            forall|j: int| i <= j < p ==> char_is_ws(#[trigger] v@[j]),
        decreases v@.len() - p,
    {
        if !crate::comments::exec_char_is_ws(v[p]) {
            return false;
        }
        p += 1;
    }
    true
}

fn exec_terminal_cut(v: &Vec<char>) -> (cut: usize)
    ensures
        cut == terminal_cut(v@, 0),
        cut <= v@.len(),
{
    let mut i: usize = 0;
    loop
        invariant
            0 <= i <= v@.len(),
            terminal_cut(v@, 0) == terminal_cut(v@, i as int),
        decreases v@.len() - i,
    {
        if i >= v.len() {
            return i;
        }
        if v[i] == '\n' && i + 1 < v.len() && exec_all_ws_from(v, i + 1) {
            return i;
        }
        proof {
            assert(terminal_cut(v@, i as int) == terminal_cut(v@, i + 1));
        }
        i += 1;
    }
}

fn exec_strip_terminal(v: &Vec<char>) -> (r: Vec<char>)
    ensures
        r@ == strip_terminal_ws(v@),
{
    let cut = exec_terminal_cut(v);
    let mut r: Vec<char> = Vec::new();
    let mut i: usize = 0;
    while i < cut
        invariant
            0 <= i <= cut <= v@.len(),
            r@ == v@.take(i as int),
        decreases cut - i,
    {
        r.push(v[i]);
        proof {
            assert(v@.take(i + 1) =~= v@.take(i as int).push(v@[i as int]));
        }
        i += 1;
    }
    proof {
        lemma_terminal_cut_bounds(v@, 0);
        assert(r@ =~= v@.take(terminal_cut(v@, 0)));
    }
    r
}

fn exec_collapse_internal(v: &Vec<char>) -> (r: Vec<char>)
    ensures
        r@ == collapse_internal_ws(v@),
{
    let mut r: Vec<char> = Vec::new();
    let mut i: usize = 0;
    proof {
        assert(v@.skip(0) =~= v@);
        assert(r@ + collapse_internal_ws(v@) =~= collapse_internal_ws(v@));
    }
    while i < v.len()
        invariant
            0 <= i <= v@.len(),
            r@ + collapse_internal_ws(v@.skip(i as int)) == collapse_internal_ws(v@),
        decreases v@.len() - i,
    {
        let ghost rem = v@.skip(i as int);
        proof {
            assert(rem[0] == v@[i as int]);
            assert(rem.drop_first() =~= v@.skip(i + 1));
        }
        if v[i] == '\n' && i + 1 < v.len() && crate::comments::exec_char_is_ws(v[i + 1]) {
            let e = exec_ws_run_end(v, i + 1);
            proof {
                assert(rem[1] == v@[i + 1]);
                assert(rem.len() >= 2 && char_is_ws(rem[1]));
                lemma_ws_run_end_shift(v@, i as int, e as int);
                assert(rem.skip(ws_run_end(rem, 1)) =~= v@.skip(e as int));
            }
            r.push(' ');
            proof {
                assert(r@ + collapse_internal_ws(v@.skip(e as int)) =~= collapse_internal_ws(v@));
            }
            i = e;
        } else {
            r.push(v[i]);
            proof {
                if rem.len() >= 2 {
                    assert(rem[1] == v@[i + 1]);
                }
                assert(r@ + collapse_internal_ws(v@.skip(i + 1)) =~= collapse_internal_ws(v@));
            }
            i += 1;
        }
    }
    proof {
        assert(v@.skip(v@.len() as int) =~= Seq::<char>::empty());
        assert(r@ + Seq::<char>::empty() =~= r@);
    }
    r
}

/// Run ends translate between a sequence and its suffixes.
proof fn lemma_ws_run_end_shift(s: Seq<char>, i: int, e: int)
    requires
        0 <= i,
        i + 1 <= s.len(),
        e == ws_run_end(s, i + 1),
    ensures
        ws_run_end(s.skip(i), 1) == e - i,
    decreases s.len() - i,
{
    lemma_ws_run_end_from(s, i, i + 1);
}

proof fn lemma_ws_run_end_from(s: Seq<char>, base: int, p: int)
    requires
        0 <= base,
        base < p <= s.len(),
    ensures
        ws_run_end(s.skip(base), p - base) == ws_run_end(s, p) - base,
    decreases s.len() - p,
{
    let t = s.skip(base);
    if p >= s.len() {
    } else if !char_is_ws(s[p]) {
        assert(t[p - base] == s[p]);
    } else {
        assert(t[p - base] == s[p]);
        lemma_ws_run_end_from(s, base, p + 1);
    }
}

fn exec_remove_newlines(v: &Vec<char>) -> (r: Vec<char>)
    ensures
        r@ == remove_newlines(v@),
{
    let mut r: Vec<char> = Vec::new();
    let mut i: usize = 0;
    proof {
        assert(v@.skip(0) =~= v@);
        assert(r@ + remove_newlines(v@) =~= remove_newlines(v@));
    }
    while i < v.len()
        invariant
            0 <= i <= v@.len(),
            r@ + remove_newlines(v@.skip(i as int)) == remove_newlines(v@),
        decreases v@.len() - i,
    {
        let ghost rem = v@.skip(i as int);
        proof {
            assert(rem[0] == v@[i as int]);
            assert(rem.drop_first() =~= v@.skip(i + 1));
        }
        if v[i] != '\n' {
            r.push(v[i]);
        }
        proof {
            assert(r@ + remove_newlines(v@.skip(i + 1)) =~= remove_newlines(v@));
        }
        i += 1;
    }
    proof {
        assert(v@.skip(v@.len() as int) =~= Seq::<char>::empty());
        assert(r@ + Seq::<char>::empty() =~= r@);
    }
    r
}

/// Rebuild a string from its characters.
pub fn string_from_chars(v: &Vec<char>) -> (r: String)
    ensures
        r@ == v@,
{
    let mut r = String::new();
    let mut i: usize = 0;
    while i < v.len()
        invariant
            0 <= i <= v@.len(),
            r@ == v@.take(i as int),
        decreases v@.len() - i,
    {
        push_char(&mut r, v[i]);
        proof {
            assert(v@.take(i + 1) =~= v@.take(i as int).push(v@[i as int]));
        }
        i += 1;
    }
    proof {
        assert(r@ =~= v@);
    }
    r
}

impl DictionaryTracker {
    /// Track one occurrence of a JSX attribute value: normalize it into an
    /// ordinary quoted string first, keeping the quote style of the raw
    /// source. Entities are decoded before quotes are escaped, since
    /// decoding can itself produce quote characters.
    pub fn maybe_add_jsx_attribute(
        &mut self,
        raw: &Option<String>,
        value: &String,
        span: &Span,
    ) -> (r: Option<usize>)
        requires
            old(self).wf(),
        ensures
            final(self).wf(),
            final(self).directive_set == old(self).directive_set,
            final(self).in_uncollected_scopes == old(self).in_uncollected_scopes,
            ({
                let skip = old(self).spec_should_skip_string(value@, *span);
                if skip || raw is None {
                    r is None && final(self).strings == old(self).strings
                } else {
                    let q = if raw.unwrap()@.len() > 0 && raw.unwrap()@[0] == '\'' {
                        '\''
                    } else {
                        '"'
                    };
                    exists|atom: String|
                        #![auto]
                        atom@ == jsx_attr_normalized(value@, q) && {
                            let (entries, index) = spec_add_entries(
                                old(self).strings.entries@,
                                DictionaryEntry::Str(atom),
                                span.lo,
                            );
                            r == Some(index as usize) && final(self).strings.entries@ == entries
                        }
                }
            }),
    {
        if self.should_skip_string(value.as_str(), span) {
            return None;
        }
        let raw_value = match raw {
            Some(raw_value) => raw_value,
            None => {
                return None;
            },
        };
        let value_chars = chars_to_vec(value.as_str());
        let escaped = exec_escape_newlines(&value_chars);
        let escaped_string = string_from_chars(&escaped);
        let decoded = decode_entities(escaped_string.as_str());
        let decoded_chars = chars_to_vec(decoded.as_str());
        let raw_chars = chars_to_vec(raw_value.as_str());
        let q: char = if raw_chars.len() > 0 && raw_chars[0] == '\'' {
            '\''
        } else {
            '"'
        };
        let quoted_body = exec_escape_for_quote(&decoded_chars, q);
        let mut atom_chars: Vec<char> = Vec::new();
        atom_chars.push(q);
        let mut i: usize = 0;
        while i < quoted_body.len()
            invariant
                0 <= i <= quoted_body@.len(),
                atom_chars@ == seq![q] + quoted_body@.take(i as int),
            decreases quoted_body@.len() - i,
        {
            atom_chars.push(quoted_body[i]);
            proof {
                assert(atom_chars@ =~= seq![q] + quoted_body@.take(i + 1));
            }
            i += 1;
        }
        atom_chars.push(q);
        proof {
            assert(quoted_body@.take(quoted_body@.len() as int) =~= quoted_body@);
            assert(atom_chars@ =~= jsx_attr_normalized(value@, q));
        }
        let atom = string_from_chars(&atom_chars);
        let index = self.strings.add_entry(DictionaryEntry::Str(atom), span.lo);
        Some(index)
    }

    /// Track one occurrence of a JSX text chunk: collapse its JSX-style
    /// line-continuation whitespace, decode entities, and wrap it in double
    /// quotes before it joins the dictionary.
    pub fn maybe_add_jsx_text(&mut self, raw: &String, value: &String, span: &Span) -> (r: Option<
        usize,
    >)
        requires
            old(self).wf(),
        ensures
            final(self).wf(),
            final(self).directive_set == old(self).directive_set,
            final(self).in_uncollected_scopes == old(self).in_uncollected_scopes,
            ({
                let skip = old(self).spec_should_skip_string(value@, *span);
                if skip {
                    r is None && final(self).strings == old(self).strings
                } else {
                    exists|atom: String|
                        #![auto]
                        atom@ == jsx_text_normalized(raw@) && {
                            let (entries, index) = spec_add_entries(
                                old(self).strings.entries@,
                                DictionaryEntry::Str(atom),
                                span.lo,
                            );
                            r == Some(index as usize) && final(self).strings.entries@ == entries
                        }
                }
            }),
    {
        if self.should_skip_string(value.as_str(), span) {
            return None;
        }
        let raw_chars = chars_to_vec(raw.as_str());
        let stripped = exec_strip_initial(&raw_chars);
        let stripped = exec_strip_terminal(&stripped);
        let collapsed = exec_collapse_internal(&stripped);
        let collapsed = exec_remove_newlines(&collapsed);
        let collapsed_string = string_from_chars(&collapsed);
        let decoded = decode_entities(collapsed_string.as_str());
        let decoded_chars = chars_to_vec(decoded.as_str());
        let quoted_body = exec_escape_for_quote(&decoded_chars, '"');
        let mut atom_chars: Vec<char> = Vec::new();
        atom_chars.push('"');
        let mut i: usize = 0;
        while i < quoted_body.len()
            invariant
                0 <= i <= quoted_body@.len(),
                atom_chars@ == seq!['"'] + quoted_body@.take(i as int),
            decreases quoted_body@.len() - i,
        {
            atom_chars.push(quoted_body[i]);
            proof {
                assert(atom_chars@ =~= seq!['"'] + quoted_body@.take(i + 1));
            }
            i += 1;
        }
        atom_chars.push('"');
        proof {
            assert(quoted_body@.take(quoted_body@.len() as int) =~= quoted_body@);
            assert(atom_chars@ =~= jsx_text_normalized(raw@));
        }
        let atom = string_from_chars(&atom_chars);
        let index = self.strings.add_entry(DictionaryEntry::Str(atom), span.lo);
        Some(index)
    }
}

} // verus!
