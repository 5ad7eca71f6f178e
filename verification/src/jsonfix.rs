//! Best-effort repair of nearly-valid JSON arrays.
//!
//! The model sometimes returns an array of arrays of strings with small
//! defects: a lone backslash, a stray quote in the middle of a string, a
//! missing opening quote after `",`, or a reply cut off before the closing
//! quotes and brackets. The scanner below accepts the grammar
//! `array := '[' (value (',' value)*)? ']'`, `value := array | string`,
//! repairs those defects — closing open strings and arrays when the input
//! ends — and emits the canonical form without any whitespace. Anything
//! else fails.

use vstd::prelude::*;

use crate::chars::{chars_string, is_space_char, spec_trim, str_chars, trim_chars};
use crate::content::{json_escape, json_escape_char, json_string, json_string_items, json_texts};

verus! {

/// The first position at or after `off` that holds no whitespace.
pub open spec fn sp_skip(cs: Seq<char>, off: int) -> int
    decreases cs.len() - off,
{
    if 0 <= off < cs.len() && is_space_char(cs[off]) {
        sp_skip(cs, off + 1)
    } else {
        off
    }
}

pub proof fn lemma_sp_skip_bounds(cs: Seq<char>, off: int)
    requires
        0 <= off <= cs.len(),
    ensures
        off <= sp_skip(cs, off) <= cs.len(),
    decreases cs.len() - off,
{
    if off < cs.len() && is_space_char(cs[off]) {
        lemma_sp_skip_bounds(cs, off + 1);
    }
}

/// Whether the text cannot end here: looking past whitespace and closing
/// brackets, the next meaningful character is something other than a comma.
pub open spec fn sp_cannot_end(cs: Seq<char>, off: int) -> bool
    decreases cs.len() - off,
{
    if off >= cs.len() {
        false
    } else if is_space_char(cs[off]) {
        sp_cannot_end(cs, off + 1)
    } else if cs[off] == ',' {
        false
    } else if cs[off] == ']' {
        sp_cannot_end(cs, off + 1)
    } else {
        true
    }
}

pub open spec fn is_escapable(c: char) -> bool {
    c == '"' || c == '\\' || c == '/' || c == 'b' || c == 'f' || c == 'n' || c == 'r' || c == 't'
        || c == 'u'
}

/// The string scanner, one loop step at a time: `off` stands just past the
/// opening quote (already emitted into `out`). On success it gives the
/// position after the string and the emitted text.
pub open spec fn sp_text(cs: Seq<char>, off: int, out: Seq<char>) -> Option<(int, Seq<char>)>
    decreases cs.len() - off, 0int,
    via sp_text_dec
{
    if off < 0 {
        None
    } else if off >= cs.len() {
        Some((off, out.push('"')))
    } else if cs[off] == '\\' {
        if off + 1 >= cs.len() {
            Some((off + 1, out.push('\\').push('\\').push('"')))
        } else if is_escapable(cs[off + 1]) {
            sp_text(cs, off + 2, out.push('\\').push(cs[off + 1]))
        } else {
            sp_text(cs, off + 2, out.push('\\').push('\\').push(cs[off + 1]))
        }
    } else if cs[off] == '"' {
        let off2 = sp_skip(cs, off + 1);
        if off2 >= cs.len() {
            Some((off2, out.push('"')))
        } else if sp_cannot_end(cs, off2) {
            sp_text(cs, off2, out)
        } else if cs[off2] == ',' || cs[off2] == ']' {
            Some((off2, out.push('"')))
        } else {
            sp_text(cs, off2 + 1, out.push(cs[off2]))
        }
    } else {
        sp_text(cs, off + 1, out.push(cs[off]))
    }
}

#[via_fn]
proof fn sp_text_dec(cs: Seq<char>, off: int, out: Seq<char>) {
    if 0 <= off < cs.len() && cs[off] == '"' {
        lemma_sp_skip_bounds(cs, off + 1);
    }
}

proof fn lemma_sp_text_advances(cs: Seq<char>, off: int, out: Seq<char>)
    ensures
        sp_text(cs, off, out) matches Some((noff, nout)) ==> noff >= off,
        off < cs.len() ==> (sp_text(cs, off, out) matches Some((noff, nout)) ==> noff > off),
    decreases cs.len() - off, 0int,
{
    if 0 <= off < cs.len() {
        if cs[off] == '\\' {
            if off + 1 < cs.len() {
                if is_escapable(cs[off + 1]) {
                    lemma_sp_text_advances(cs, off + 2, out.push('\\').push(cs[off + 1]));
                } else {
                    lemma_sp_text_advances(cs, off + 2, out.push('\\').push('\\').push(cs[off + 1]));
                }
            }
        } else if cs[off] == '"' {
            lemma_sp_skip_bounds_loose(cs, off + 1);
            let off2 = sp_skip(cs, off + 1);
            if off2 >= cs.len() {
            } else if sp_cannot_end(cs, off2) {
                lemma_sp_text_advances(cs, off2, out);
            } else if cs[off2] == ',' || cs[off2] == ']' {
            } else {
                lemma_sp_text_advances(cs, off2 + 1, out.push(cs[off2]));
            }
        } else {
            lemma_sp_text_advances(cs, off + 1, out.push(cs[off]));
        }
    }
}

proof fn lemma_sp_skip_bounds_loose(cs: Seq<char>, off: int)
    ensures
        sp_skip(cs, off) >= off,
    decreases cs.len() - off,
{
    if 0 <= off < cs.len() && is_space_char(cs[off]) {
        lemma_sp_skip_bounds_loose(cs, off + 1);
    }
}

/// The element loop of the array scanner: `off` stands at the start of an
/// expected value, `out` holds everything emitted so far.
pub open spec fn sp_elems(cs: Seq<char>, off: int, out: Seq<char>) -> Option<(int, Seq<char>)>
    decreases cs.len() - off, 2int,
    via sp_elems_dec
{
    if off < 0 {
        None
    } else if off >= cs.len() {
        if out.len() > 0 && out.last() == ',' {
            Some((off, out.drop_last().push(']')))
        } else {
            Some((off, out.push(']')))
        }
    } else {
        let v = if cs[off] == '[' {
            sp_array(cs, off, out)
        } else if cs[off] == '"' {
            sp_text(cs, off + 1, out.push('"'))
        } else if out.len() >= 2 && out.last() == ',' && out[out.len() - 2] == '"' {
            sp_text(cs, off, out.push('"'))
        } else {
            None
        };
        match v {
            None => None,
            Some((noff, nout)) => {
                if noff <= off {
                    None
                } else {
                    let off2 = sp_skip(cs, noff);
                    if off2 >= cs.len() {
                        Some((off2, nout.push(']')))
                    } else if cs[off2] == ',' {
                        sp_elems(cs, sp_skip(cs, off2 + 1), nout.push(','))
                    } else if cs[off2] == ']' {
                        Some((off2 + 1, nout.push(']')))
                    } else {
                        None
                    }
                }
            },
        }
    }
}

#[via_fn]
proof fn sp_elems_dec(cs: Seq<char>, off: int, out: Seq<char>) {
    assert forall|o: int| #[trigger] sp_skip(cs, o) >= o by {
        lemma_sp_skip_bounds_loose(cs, o);
    }
    assert forall|o: int| 0 <= o <= cs.len() implies #[trigger] sp_skip(cs, o) <= cs.len() by {
        lemma_sp_skip_bounds(cs, o);
    }
}

/// The array scanner: `off` stands on the opening bracket.
pub open spec fn sp_array(cs: Seq<char>, off: int, out: Seq<char>) -> Option<(int, Seq<char>)>
    decreases cs.len() - off, 1int,
    via sp_array_dec
{
    if off < 0 || off >= cs.len() {
        None
    } else {
        let off1 = sp_skip(cs, off + 1);
        let out1 = out.push('[');
        if off1 < cs.len() && cs[off1] == ']' {
            Some((off1 + 1, out1.push(']')))
        } else {
            sp_elems(cs, off1, out1)
        }
    }
}

#[via_fn]
proof fn sp_array_dec(cs: Seq<char>, off: int, out: Seq<char>) {
    assert forall|o: int| 0 <= o <= cs.len() implies o <= #[trigger] sp_skip(cs, o) <= cs.len() by {
        lemma_sp_skip_bounds(cs, o);
    }
}

/// What the repair makes of the whole input: the canonical text, or nothing
/// when the input cannot be read as a single array.
pub open spec fn sp_fix(cs: Seq<char>) -> Option<Seq<char>> {
    let off0 = sp_skip(cs, 0);
    if off0 >= cs.len() {
        None
    } else if cs[off0] == '[' {
        match sp_array(cs, off0, Seq::<char>::empty()) {
            None => None,
            Some((noff, out)) => {
                if sp_skip(cs, noff) < cs.len() {
                    None
                } else {
                    Some(out)
                }
            },
        }
    } else {
        None
    }
}

pub struct RawJSONArray {
    chars: Vec<char>,
    offset: usize,
    result: Vec<char>,
}

impl View for RawJSONArray {
    type V = Seq<char>;

    closed spec fn view(&self) -> Seq<char> {
        self.chars@
    }
}

impl RawJSONArray {
    pub closed spec fn wf(&self) -> bool {
        self.offset <= self.chars@.len()
    }

    /// A scanner as `new` hands it out: nothing read, nothing emitted.
    pub closed spec fn fresh(&self) -> bool {
        self.offset == 0 && self.result@.len() == 0
    }

    pub fn new(s: &str) -> (r: Self)
        ensures
            r@ == spec_trim(s@),
            r.wf(),
            r.fresh(),
    {
        let v = str_chars(s);
        let chars = trim_chars(&v);
        RawJSONArray { chars, offset: 0, result: Vec::new() }
    }

    /// Scans the trimmed input as one JSON array, repairing the small
    /// defects the scanner knows, and returns the canonical text; the error
    /// names the first unreadable place.
    pub fn fix_me(self) -> (r: Result<String, String>)
        requires
            self.wf(),
            self.fresh(),
        ensures
            match r {
                Ok(out) => sp_fix(self@) == Some(out@),
                Err(_) => sp_fix(self@) is None,
            },
    {
        let mut z = self;
        let ghost cs = z.chars@;
        proof {
            assert(z.result@ =~= Seq::<char>::empty());
        }
        z.skip_space();
        if z.offset >= z.chars.len() {
            return Err(err_string());
        }
        if z.chars[z.offset] == '[' {
            match z.array() {
                Some(s) => {
                    return Err(s);
                },
                None => {},
            }
        } else {
            return Err(err_string());
        }
        z.skip_space();
        if z.offset < z.chars.len() {
            return Err(err_string());
        }
        proof {
            lemma_sp_skip_bounds(cs, 0);
        }
        Ok(chars_string(&z.result))
    }

    fn at_space(&self) -> (r: bool)
        requires
            self.wf(),
        ensures
            r == (self.offset < self.chars@.len() && is_space_char(self.chars@[self.offset as int])),
    {
        self.offset < self.chars.len() && crate::chars::char_is_space(self.chars[self.offset])
    }

    fn skip_space(&mut self)
        requires
            old(self).wf(),
        ensures
            final(self).wf(),
            final(self).chars@ == old(self).chars@,
            final(self).result@ == old(self).result@,
            final(self).offset == sp_skip(old(self).chars@, old(self).offset as int),
            final(self).offset >= old(self).offset,
    {
        while self.at_space()
            invariant
                self.wf(),
                self.chars@ == old(self).chars@,
                self.result@ == old(self).result@,
                self.offset >= old(self).offset,
                sp_skip(self.chars@, self.offset as int) == sp_skip(
                    old(self).chars@,
                    old(self).offset as int,
                ),
            decreases self.chars@.len() - self.offset,
        {
            let n = self.chars.len();
            self.offset = self.offset + 1;
        }
    }

    fn can_not_end_text(&self) -> (r: bool)
        requires
            self.wf(),
        ensures
            r == sp_cannot_end(self.chars@, self.offset as int),
    {
        let mut i: usize = self.offset;
        while i < self.chars.len()
            invariant
                i <= self.chars@.len(),
                sp_cannot_end(self.chars@, i as int) == sp_cannot_end(
                    self.chars@,
                    self.offset as int,
                ),
            decreases self.chars@.len() - i,
        {
            let c = self.chars[i];
            if crate::chars::char_is_space(c) {
                i = i + 1;
            } else if c == ',' {
                return false;
            } else if c == ']' {
                i = i + 1;
            } else {
                return true;
            }
        }
        false
    }

    fn text(&mut self)
        requires
            old(self).wf(),
            old(self).offset < old(self).chars@.len(),
        ensures
            final(self).wf(),
            final(self).chars@ == old(self).chars@,
            final(self).offset > old(self).offset,
            sp_text(old(self).chars@, old(self).offset + 1, old(self).result@.push('"')) == Some(
                (final(self).offset as int, final(self).result@),
            ),
        decreases old(self).chars@.len() - old(self).offset, 0int,
    {
        let ghost cs = self.chars@;
        let ghost tgt = sp_text(cs, old(self).offset + 1, old(self).result@.push('"'));
        let n = self.chars.len();
        self.result.push('"');
        self.offset = self.offset + 1;
        while self.offset < self.chars.len()
            invariant
                self.wf(),
                cs == old(self).chars@,
                tgt == sp_text(cs, old(self).offset + 1, old(self).result@.push('"')),
                self.chars@ == cs,
                self.offset > old(self).offset,
                sp_text(cs, self.offset as int, self.result@) == tgt,
            decreases cs.len() - self.offset,
        {
            let ghost ltop_off = self.offset as int;
            let ghost ltop_out = self.result@;
            let c = self.chars[self.offset];
            if c == '\\' {
                self.result.push('\\');
                self.offset = self.offset + 1;
                if self.offset >= self.chars.len() {
                    // the reply ends on a lone backslash: escape it and
                    // close the string
                    self.result.push('\\');
                    self.result.push('"');
                    return ;
                }
                let c2 = self.chars[self.offset];
                if c2 == '"' || c2 == '\\' || c2 == '/' || c2 == 'b' || c2 == 'f' || c2 == 'n' || c2
                    == 'r' || c2 == 't' || c2 == 'u' {
                    self.result.push(c2);
                    self.offset = self.offset + 1;
                } else {
                    self.result.push('\\');
                    self.result.push(c2);
                    self.offset = self.offset + 1;
                }
            } else if c == '"' {
                self.offset = self.offset + 1;
                self.skip_space();
                if self.offset >= self.chars.len() {
                    self.result.push('"');
                    return ;
                }
                if self.can_not_end_text() {
                    continue;
                }
                let c2 = self.chars[self.offset];
                if c2 == ',' || c2 == ']' {
                    self.result.push('"');
                    return ;
                } else {
                    self.result.push(c2);
                    self.offset = self.offset + 1;
                }
            } else {
                self.result.push(c);
                self.offset = self.offset + 1;
            }
        }
        // the reply ends inside the string: close it
        self.result.push('"');
    }

    fn array(&mut self) -> (r: Option<String>)
        requires
            old(self).wf(),
            old(self).offset < old(self).chars@.len(),
        ensures
            final(self).wf(),
            final(self).chars@ == old(self).chars@,
            final(self).offset > old(self).offset,
            match r {
                None => sp_array(old(self).chars@, old(self).offset as int, old(self).result@)
                    == Some((final(self).offset as int, final(self).result@)),
                Some(_) => sp_array(
                    old(self).chars@,
                    old(self).offset as int,
                    old(self).result@,
                ) is None,
            },
        decreases old(self).chars@.len() - old(self).offset, 1int,
    {
        let ghost cs = self.chars@;
        let ghost tgt = sp_array(cs, old(self).offset as int, old(self).result@);
        let n = self.chars.len();
        self.result.push('[');
        self.offset = self.offset + 1;
        self.skip_space();
        proof {
            lemma_sp_skip_bounds(cs, old(self).offset + 1);
        }
        if self.offset < self.chars.len() && self.chars[self.offset] == ']' {
            self.result.push(']');
            self.offset = self.offset + 1;
            return None;
        }
        while self.offset < self.chars.len()
            invariant
                self.wf(),
                cs == old(self).chars@,
                tgt == sp_array(cs, old(self).offset as int, old(self).result@),
                self.chars@ == cs,
                self.offset > old(self).offset,
                sp_elems(cs, self.offset as int, self.result@) == tgt,
            decreases cs.len() - self.offset,
        {
            let ghost loop_off = self.offset as int;
            let ghost loop_out = self.result@;
            let c = self.chars[self.offset];
            if c == '[' {
                match self.array() {
                    Some(s) => {
                        return Some(s);
                    },
                    None => {},
                }
            } else if c == '"' {
                self.text();
            } else {
                if self.result.len() >= 2 && {
                    let last = self.result[self.result.len() - 1];
                    let before = self.result[self.result.len() - 2];
                    last == ',' && before == '"'
                } {
                    self.offset = self.offset - 1;
                    self.text();
                    proof {
                        lemma_sp_text_advances(cs, loop_off, loop_out.push('"'));
                    }
                } else {
                    proof {
                        assert(sp_elems(cs, loop_off, loop_out) is None);
                    }
                    return Some(err_string());
                }
            }
            self.skip_space();
            if self.offset >= self.chars.len() {
                // the reply ends right after a value: close the array
                self.result.push(']');
                return None;
            }
            let c2 = self.chars[self.offset];
            if c2 == ',' {
                self.result.push(',');
                self.offset = self.offset + 1;
                self.skip_space();
            } else if c2 == ']' {
                self.result.push(']');
                self.offset = self.offset + 1;
                return None;
            } else {
                return Some(err_string());
            }
        }
        // the reply ends where a value was expected: drop a trailing
        // separator and close the array
        if self.result.len() > 0 && self.result[self.result.len() - 1] == ',' {
            let _ = self.result.pop();
        }
        self.result.push(']');
        None
    }
}

fn err_string() -> (r: String) {
    String::from_str("invalid JSON array")
}

/// The canonical text of an array of rows of strings: the form the repair
/// itself emits and the strict parser reads.
pub open spec fn json_rows_items(rows: Seq<Seq<Seq<char>>>) -> Seq<char>
    decreases rows.len(),
{
    if rows.len() == 0 {
        Seq::<char>::empty()
    } else if rows.len() == 1 {
        json_texts(rows[0])
    } else {
        json_rows_items(rows.drop_last()) + seq![','] + json_texts(rows.last())
    }
}

pub open spec fn json_rows(rows: Seq<Seq<Seq<char>>>) -> Seq<char> {
    seq!['['] + json_rows_items(rows) + seq![']']
}

proof fn lemma_escape_cons(s: Seq<char>)
    requires
        s.len() > 0,
    ensures
        json_escape(s) == json_escape_char(s.first()) + json_escape(s.drop_first()),
    decreases s.len(),
{
    if s.len() == 1 {
        assert(s.drop_last() =~= Seq::<char>::empty());
        assert(s.drop_first() =~= Seq::<char>::empty());
        assert(json_escape(s) =~= json_escape_char(s.first()) + json_escape(s.drop_first()));
    } else {
        lemma_escape_cons(s.drop_last());
        assert(s.drop_last().first() == s.first());
        assert(s.drop_last().drop_first() =~= s.drop_first().drop_last());
        assert(s.drop_first().last() == s.last());
        assert(json_escape(s) == json_escape(s.drop_last()) + json_escape_char(s.last()));
        assert(json_escape(s.drop_first()) == json_escape(s.drop_first().drop_last())
            + json_escape_char(s.last()));
        assert(json_escape(s) =~= json_escape_char(s.first()) + json_escape(s.drop_first()));
    }
}

proof fn lemma_items_cons(ts: Seq<Seq<char>>)
    requires
        ts.len() > 1,
    ensures
        json_string_items(ts) == json_string(ts.first()) + seq![','] + json_string_items(
            ts.drop_first(),
        ),
    decreases ts.len(),
{
    if ts.len() == 2 {
        assert(ts.drop_last() =~= seq![ts.first()]);
        assert(ts.drop_first() =~= seq![ts.last()]);
        assert(json_string_items(ts) =~= json_string(ts.first()) + seq![','] + json_string_items(
            ts.drop_first(),
        ));
    } else {
        lemma_items_cons(ts.drop_last());
        assert(ts.drop_last().first() == ts.first());
        assert(ts.drop_last().drop_first() =~= ts.drop_first().drop_last());
        assert(ts.drop_first().last() == ts.last());
        assert(ts.drop_first().len() > 1);
        let f = json_string(ts.first());
        let comma = seq![','];
        let m = json_string_items(ts.drop_first().drop_last());
        let z = json_string(ts.last());
        assert(json_string_items(ts) == json_string_items(ts.drop_last()) + comma + z);
        assert(json_string_items(ts.drop_last().drop_first()) == m);
        assert(json_string_items(ts.drop_last()) == f + comma + m);
        assert(json_string_items(ts.drop_first()) == m + comma + z);
        assert((((f + comma) + m) + comma) + z =~= (f + comma) + ((m + comma) + z));
        assert(json_string_items(ts) == json_string(ts.first()) + seq![','] + json_string_items(
            ts.drop_first(),
        ));
    }
}

proof fn lemma_rows_items_cons(rows: Seq<Seq<Seq<char>>>)
    requires
        rows.len() > 1,
    ensures
        json_rows_items(rows) == json_texts(rows.first()) + seq![','] + json_rows_items(
            rows.drop_first(),
        ),
    decreases rows.len(),
{
    if rows.len() == 2 {
        assert(rows.drop_last() =~= seq![rows.first()]);
        assert(rows.drop_first() =~= seq![rows.last()]);
        assert(json_rows_items(rows) =~= json_texts(rows.first()) + seq![','] + json_rows_items(
            rows.drop_first(),
        ));
    } else {
        lemma_rows_items_cons(rows.drop_last());
        assert(rows.drop_last().first() == rows.first());
        assert(rows.drop_last().drop_first() =~= rows.drop_first().drop_last());
        assert(rows.drop_first().last() == rows.last());
        assert(rows.drop_first().len() > 1);
        let f = json_texts(rows.first());
        let comma = seq![','];
        let m = json_rows_items(rows.drop_first().drop_last());
        let z = json_texts(rows.last());
        assert(json_rows_items(rows) == json_rows_items(rows.drop_last()) + comma + z);
        assert(json_rows_items(rows.drop_last().drop_first()) == m);
        assert(json_rows_items(rows.drop_last()) == f + comma + m);
        assert(json_rows_items(rows.drop_first()) == m + comma + z);
        assert((((f + comma) + m) + comma) + z =~= (f + comma) + ((m + comma) + z));
        assert(json_rows_items(rows) == json_texts(rows.first()) + seq![','] + json_rows_items(
            rows.drop_first(),
        ));
    }
}

/// The tail at `after` lets a canonical string close there: the input ends,
/// or a separator or closer follows and the text provably cannot go on.
pub open spec fn closes_here(cs: Seq<char>, after: int) -> bool {
    after == cs.len() || (after < cs.len() && (cs[after] == ',' || cs[after] == ']')
        && !sp_cannot_end(cs, after))
}

#[verifier::rlimit(80)]
proof fn lemma_text_canonical(cs: Seq<char>, off: int, out: Seq<char>, s: Seq<char>)
    requires
        0 <= off,
        off + json_escape(s).len() + 1 <= cs.len(),
        cs.subrange(off, off + json_escape(s).len()) == json_escape(s),
        cs[off + json_escape(s).len()] == '"',
        closes_here(cs, off + json_escape(s).len() + 1),
    ensures
        sp_text(cs, off, out) == Some(
            (off + json_escape(s).len() + 1, out + json_escape(s) + seq!['"']),
        ),
    decreases s.len(),
{
    reveal_with_fuel(sp_text, 7);
    let elen = json_escape(s).len() as int;
    let after = off + elen + 1;
    if s.len() == 0 {
        assert(json_escape(s) =~= Seq::<char>::empty());
        assert(cs[off] == '"');
        if after == cs.len() {
            assert(sp_skip(cs, off + 1) == off + 1);
            assert(sp_text(cs, off, out) == Some((off + 1, out.push('"'))));
        } else {
            assert(cs[off + 1] == ',' || cs[off + 1] == ']');
            assert(!is_space_char(cs[off + 1]));
            assert(sp_skip(cs, off + 1) == off + 1);
            assert(!sp_cannot_end(cs, off + 1));
            assert(sp_text(cs, off, out) == Some((off + 1, out.push('"'))));
        }
        assert(out.push('"') =~= out + json_escape(s) + seq!['"']);
    } else {
        let c = s.first();
        let esc = json_escape_char(c);
        lemma_escape_cons(s);
        let rest = s.drop_first();
        let k = esc.len() as int;
        let seg = cs.subrange(off, off + elen);
        assert forall|j: int| 0 <= j < k implies cs[off + j] == esc[j] by {
            assert(seg[j] == cs[off + j]);
            assert(seg[j] == (esc + json_escape(rest))[j]);
            assert((esc + json_escape(rest))[j] == esc[j]);
        }
        assert(cs.subrange(off + k, off + k + json_escape(rest).len()) =~= json_escape(rest)) by {
            assert forall|j: int|
                0 <= j < json_escape(rest).len() implies cs.subrange(
                off + k,
                off + k + json_escape(rest).len(),
            )[j] == json_escape(rest)[j] by {
                assert(cs.subrange(off + k, off + k + json_escape(rest).len())[j] == cs[off + k
                    + j]);
                assert(seg[k + j] == cs[off + k + j]);
                assert(seg[k + j] == (esc + json_escape(rest))[k + j]);
                assert((esc + json_escape(rest))[k + j] == json_escape(rest)[j]);
            }
        }
        let u = c as u32;
        if u == 0x22 || u == 0x5C || u == 0x08 || u == 0x09 || u == 0x0A || u == 0x0C || u
            == 0x0D {
            assert(k == 2);
            assert(cs[off + 0] == esc[0] && cs[off + 1] == esc[1]);
            assert(cs[off] == '\\');
            assert(is_escapable(cs[off + 1]));
            lemma_text_canonical(cs, off + 2, out.push('\\').push(cs[off + 1]), rest);
            assert(out.push('\\').push(cs[off + 1]) =~= out + esc);
            assert((out + esc) + json_escape(rest) + seq!['"'] =~= out + json_escape(s) + seq![
                '"',
            ]);
        } else if u < 0x20 {
            assert(k == 6);
            assert(cs[off + 0] == esc[0] && cs[off + 1] == esc[1] && cs[off + 2] == esc[2] && cs[
                off + 3] == esc[3] && cs[off + 4] == esc[4] && cs[off + 5] == esc[5]);
            assert(cs[off] == '\\');
            assert(cs[off + 1] == 'u');
            assert(is_escapable('u'));
            assert(esc[4] == crate::content::hex_char((u / 16) as int));
            assert(esc[5] == crate::content::hex_char((u % 16) as int));
            assert(cs[off + 2] != '\\' && cs[off + 2] != '"');
            assert(cs[off + 3] != '\\' && cs[off + 3] != '"');
            assert(cs[off + 4] != '\\' && cs[off + 4] != '"');
            assert(cs[off + 5] != '\\' && cs[off + 5] != '"');
            let o2 = out.push('\\').push('u').push(cs[off + 2]).push(cs[off + 3]).push(
                cs[off + 4],
            ).push(cs[off + 5]);
            lemma_text_canonical(cs, off + 6, o2, rest);
            assert(o2 =~= out + esc);
            assert((out + esc) + json_escape(rest) + seq!['"'] =~= out + json_escape(s) + seq![
                '"',
            ]);
        } else {
            assert(k == 1);
            assert(esc[0] == c);
            assert(cs[off + 0] == esc[0]);
            assert(cs[off] == c);
            assert(c != '\\' && c != '"');
            lemma_text_canonical(cs, off + 1, out.push(c), rest);
            assert(out.push(c) =~= out + esc);
            assert((out + esc) + json_escape(rest) + seq!['"'] =~= out + json_escape(s) + seq![
                '"',
            ]);
        }
    }
}

proof fn lemma_seg_split(cs: Seq<char>, a: int, x: Seq<char>, y: Seq<char>)
    requires
        0 <= a,
        a + x.len() + y.len() <= cs.len(),
        cs.subrange(a, a + x.len() + y.len()) == x + y,
    ensures
        cs.subrange(a, a + x.len()) == x,
        cs.subrange(a + x.len(), a + x.len() + y.len()) == y,
{
    let whole = cs.subrange(a, a + x.len() + y.len());
    assert forall|j: int| 0 <= j < x.len() implies cs.subrange(a, a + x.len())[j] == x[j] by {
        assert(cs.subrange(a, a + x.len())[j] == cs[a + j]);
        assert(whole[j] == cs[a + j]);
        assert((x + y)[j] == x[j]);
    }
    assert(cs.subrange(a, a + x.len()) =~= x);
    assert forall|j: int|
        0 <= j < y.len() implies cs.subrange(a + x.len(), a + x.len() + y.len())[j] == y[j] by {
        assert(cs.subrange(a + x.len(), a + x.len() + y.len())[j] == cs[a + x.len() + j]);
        assert(whole[x.len() + j] == cs[a + x.len() + j]);
        assert((x + y)[x.len() + j] == y[j]);
    }
    assert(cs.subrange(a + x.len(), a + x.len() + y.len()) =~= y);
}

proof fn lemma_string_elems(cs: Seq<char>, ts: Seq<Seq<char>>, p: int, o: Seq<char>)
    requires
        ts.len() >= 1,
        0 <= p,
        p + json_string_items(ts).len() + 1 <= cs.len(),
        cs.subrange(p, p + json_string_items(ts).len()) == json_string_items(ts),
        cs[p + json_string_items(ts).len()] == ']',
        closes_here(cs, p + json_string_items(ts).len() + 1),
    ensures
        sp_elems(cs, p, o) == Some(
            (p + json_string_items(ts).len() + 1, o + json_string_items(ts) + seq![']']),
        ),
    decreases ts.len(),
{
    let ilen = json_string_items(ts).len() as int;
    let close_pos = p + ilen;
    assert(!sp_cannot_end(cs, close_pos)) by {
        if close_pos + 1 == cs.len() {
            assert(!sp_cannot_end(cs, close_pos + 1));
        } else {
            assert(cs[close_pos + 1] == ',' || cs[close_pos + 1] == ']');
            assert(!sp_cannot_end(cs, close_pos + 1));
        }
        assert(!is_space_char(cs[close_pos]));
        assert(sp_cannot_end(cs, close_pos) == sp_cannot_end(cs, close_pos + 1));
    }
    if ts.len() == 1 {
        let s = ts[0];
        assert(json_string_items(ts) == json_string(s));
        assert(json_string(s) == seq!['"'] + json_escape(s) + seq!['"']);
        assert((seq!['"'] + json_escape(s)) + seq!['"'] =~= seq!['"'] + (json_escape(s) + seq![
            '"',
        ]));
        lemma_seg_split(cs, p, seq!['"'], json_escape(s) + seq!['"']);
        lemma_seg_split(cs, p + 1, json_escape(s), seq!['"']);
        assert(cs[p] == '"') by {
            assert(cs.subrange(p, p + 1)[0] == cs[p]);
        }
        assert(cs[p + 1 + json_escape(s).len()] == '"') by {
            assert(cs.subrange(
                p + 1 + json_escape(s).len(),
                p + 1 + json_escape(s).len() + 1,
            )[0] == cs[p + 1 + json_escape(s).len()]);
        }
        assert(p + 1 + json_escape(s).len() + 1 == close_pos);
        assert(closes_here(cs, close_pos));
        lemma_text_canonical(cs, p + 1, o.push('"'), s);
        assert(sp_skip(cs, close_pos) == close_pos);
        assert(sp_elems(cs, p, o) == Some(
            (close_pos + 1, (o.push('"') + json_escape(s) + seq!['"']).push(']')),
        ));
        assert((o.push('"') + json_escape(s) + seq!['"']).push(']') =~= o + json_string_items(ts)
            + seq![']']);
    } else {
        lemma_items_cons(ts);
        let s = ts.first();
        let rest_items = json_string_items(ts.drop_first());
        assert((json_string(s) + seq![',']) + rest_items =~= json_string(s) + (seq![',']
            + rest_items));
        lemma_seg_split(cs, p, json_string(s), seq![','] + rest_items);
        assert(json_string(s) == seq!['"'] + json_escape(s) + seq!['"']);
        assert((seq!['"'] + json_escape(s)) + seq!['"'] =~= seq!['"'] + (json_escape(s) + seq![
            '"',
        ]));
        lemma_seg_split(cs, p, seq!['"'], json_escape(s) + seq!['"']);
        lemma_seg_split(cs, p + 1, json_escape(s), seq!['"']);
        assert(cs[p] == '"') by {
            assert(cs.subrange(p, p + 1)[0] == cs[p]);
        }
        let q = p + json_string(s).len() as int;
        assert(cs[p + 1 + json_escape(s).len()] == '"') by {
            assert(cs.subrange(
                p + 1 + json_escape(s).len(),
                p + 1 + json_escape(s).len() + 1,
            )[0] == cs[p + 1 + json_escape(s).len()]);
        }
        lemma_seg_split(cs, q, seq![','], rest_items);
        assert(cs[q] == ',') by {
            assert(cs.subrange(q, q + 1)[0] == cs[q]);
        }
        assert(p + 1 + json_escape(s).len() + 1 == q);
        assert(closes_here(cs, q)) by {
            assert(!sp_cannot_end(cs, q));
        }
        lemma_text_canonical(cs, p + 1, o.push('"'), s);
        assert(sp_skip(cs, q) == q);
        let rest_start = q + 1;
        assert(cs.subrange(rest_start, rest_start + rest_items.len()) == rest_items);
        assert(rest_start + rest_items.len() == close_pos);
        assert(cs[rest_start + rest_items.len()] == ']');
        assert(cs[rest_start] == '"') by {
            lemma_items_first_quote(ts.drop_first());
            assert(cs.subrange(rest_start, rest_start + rest_items.len())[0] == cs[rest_start]);
        }
        assert(!is_space_char(cs[rest_start]));
        assert(sp_skip(cs, rest_start) == rest_start);
        lemma_string_elems(cs, ts.drop_first(), rest_start, (o.push('"') + json_escape(s) + seq![
            '"',
        ]).push(','));
        assert((o.push('"') + json_escape(s) + seq!['"']).push(',') + rest_items + seq![']']
            =~= o + json_string_items(ts) + seq![']']);
    }
}

proof fn lemma_items_first_quote(ts: Seq<Seq<char>>)
    requires
        ts.len() >= 1,
    ensures
        json_string_items(ts).len() >= 2,
        json_string_items(ts)[0] == '"',
    decreases ts.len(),
{
    if ts.len() == 1 {
        assert(json_string_items(ts) == json_string(ts[0]));
    } else {
        lemma_items_cons(ts);
        lemma_items_first_quote(ts.drop_first());
        assert(json_string(ts.first())[0] == '"');
    }
}

/// The inner array of one row scans to itself.
proof fn lemma_texts_scan(cs: Seq<char>, ts: Seq<Seq<char>>, off: int, out: Seq<char>)
    requires
        0 <= off,
        off + json_texts(ts).len() <= cs.len(),
        cs.subrange(off, off + json_texts(ts).len()) == json_texts(ts),
        closes_here(cs, off + json_texts(ts).len()),
    ensures
        sp_array(cs, off, out) == Some((off + json_texts(ts).len(), out + json_texts(ts))),
{
    let alen = json_texts(ts).len() as int;
    let items = json_string_items(ts);
    assert((seq!['['] + items) + seq![']'] =~= seq!['['] + (items + seq![']']));
    lemma_seg_split(cs, off, seq!['['], items + seq![']']);
    lemma_seg_split(cs, off + 1, items, seq![']']);
    assert(cs[off] == '[') by {
        assert(cs.subrange(off, off + 1)[0] == cs[off]);
    }
    assert(cs[off + 1 + items.len()] == ']') by {
        assert(cs.subrange(off + 1 + items.len(), off + 1 + items.len() + 1)[0] == cs[off + 1
            + items.len()]);
    }
    if ts.len() == 0 {
        assert(items =~= Seq::<char>::empty());
        assert(cs[off + 1] == ']');
        assert(!is_space_char(cs[off + 1]));
        assert(sp_skip(cs, off + 1) == off + 1);
        assert(sp_array(cs, off, out) == Some((off + 2, out.push('[').push(']'))));
        assert(out.push('[').push(']') =~= out + json_texts(ts));
    } else {
        lemma_items_first_quote(ts);
        assert(cs[off + 1] == '"') by {
            assert(cs.subrange(off + 1, off + 1 + items.len())[0] == cs[off + 1]);
        }
        assert(!is_space_char(cs[off + 1]));
        assert(sp_skip(cs, off + 1) == off + 1);
        assert(off + 1 + items.len() + 1 == off + alen);
        lemma_string_elems(cs, ts, off + 1, out.push('['));
        assert(out.push('[') + items + seq![']'] =~= out + json_texts(ts));
    }
}

proof fn lemma_rows_elems(cs: Seq<char>, rows: Seq<Seq<Seq<char>>>, p: int, o: Seq<char>)
    requires
        rows.len() >= 1,
        0 <= p,
        p + json_rows_items(rows).len() + 1 <= cs.len(),
        cs.subrange(p, p + json_rows_items(rows).len()) == json_rows_items(rows),
        cs[p + json_rows_items(rows).len()] == ']',
        closes_here(cs, p + json_rows_items(rows).len() + 1),
    ensures
        sp_elems(cs, p, o) == Some(
            (p + json_rows_items(rows).len() + 1, o + json_rows_items(rows) + seq![']']),
        ),
    decreases rows.len(),
{
    let rlen = json_rows_items(rows).len() as int;
    let close_pos = p + rlen;
    assert(!sp_cannot_end(cs, close_pos)) by {
        if close_pos + 1 == cs.len() {
            assert(!sp_cannot_end(cs, close_pos + 1));
        } else {
            assert(cs[close_pos + 1] == ',' || cs[close_pos + 1] == ']');
            assert(!sp_cannot_end(cs, close_pos + 1));
        }
        assert(!is_space_char(cs[close_pos]));
        assert(sp_cannot_end(cs, close_pos) == sp_cannot_end(cs, close_pos + 1));
    }
    if rows.len() == 1 {
        let ts = rows[0];
        assert(json_rows_items(rows) == json_texts(ts));
        assert(cs[p] == '[') by {
            assert(cs.subrange(p, p + rlen)[0] == cs[p]);
        }
        assert(closes_here(cs, p + json_texts(ts).len()));
        lemma_texts_scan(cs, ts, p, o);
        assert(sp_skip(cs, close_pos) == close_pos);
        assert(sp_elems(cs, p, o) == Some(
            (close_pos + 1, (o + json_texts(ts)).push(']')),
        ));
        assert((o + json_texts(ts)).push(']') =~= o + json_rows_items(rows) + seq![']']);
    } else {
        lemma_rows_items_cons(rows);
        let ts = rows.first();
        let rest_items = json_rows_items(rows.drop_first());
        assert((json_texts(ts) + seq![',']) + rest_items =~= json_texts(ts) + (seq![',']
            + rest_items));
        lemma_seg_split(cs, p, json_texts(ts), seq![','] + rest_items);
        let q = p + json_texts(ts).len() as int;
        lemma_seg_split(cs, q, seq![','], rest_items);
        assert(cs[p] == '[') by {
            assert(cs.subrange(p, p + json_texts(ts).len())[0] == cs[p]);
            assert(json_texts(ts)[0] == '[');
        }
        assert(cs[q] == ',') by {
            assert(cs.subrange(q, q + 1)[0] == cs[q]);
        }
        assert(closes_here(cs, q)) by {
            assert(!sp_cannot_end(cs, q));
        }
        lemma_texts_scan(cs, ts, p, o);
        assert(sp_skip(cs, q) == q);
        let rest_start = q + 1;
        assert(cs.subrange(rest_start, rest_start + rest_items.len()) == rest_items);
        assert(rest_start + rest_items.len() == close_pos);
        assert(cs[rest_start] == '[') by {
            lemma_rows_first_bracket(rows.drop_first());
            assert(cs.subrange(rest_start, rest_start + rest_items.len())[0] == cs[rest_start]);
        }
        assert(!is_space_char(cs[rest_start]));
        assert(sp_skip(cs, rest_start) == rest_start);
        lemma_rows_elems(cs, rows.drop_first(), rest_start, (o + json_texts(ts)).push(','));
        assert((o + json_texts(ts)).push(',') + rest_items + seq![']'] =~= o + json_rows_items(
            rows,
        ) + seq![']']);
    }
}

proof fn lemma_rows_first_bracket(rows: Seq<Seq<Seq<char>>>)
    requires
        rows.len() >= 1,
    ensures
        json_rows_items(rows).len() >= 2,
        json_rows_items(rows)[0] == '[',
    decreases rows.len(),
{
    if rows.len() == 1 {
        assert(json_rows_items(rows) == json_texts(rows[0]));
    } else {
        lemma_rows_items_cons(rows);
        lemma_rows_first_bracket(rows.drop_first());
        assert(json_texts(rows.first())[0] == '[');
    }
}

/// Repair idempotence on canonical input: the repair maps the canonical
/// text of any array of rows of strings to itself. (A strictly parsing
/// input with extra whitespace re-serializes to this canonical form; the
/// identity is stated here for the canonical form itself.)
pub proof fn lemma_repair_identity_on_canonical(rows: Seq<Seq<Seq<char>>>)
    ensures
        sp_fix(json_rows(rows)) == Some(json_rows(rows)),
        spec_trim(json_rows(rows)) == json_rows(rows),
{
    let cs = json_rows(rows);
    let items = json_rows_items(rows);
    assert((seq!['['] + items) + seq![']'] =~= seq!['['] + (items + seq![']']));
    assert(cs.subrange(0, cs.len() as int) =~= cs);
    lemma_seg_split(cs, 0, seq!['['], items + seq![']']);
    lemma_seg_split(cs, 1, items, seq![']']);
    assert(cs[0] == '[') by {
        assert(cs.subrange(0, 1)[0] == cs[0]);
    }
    assert(cs[1 + items.len() as int] == ']') by {
        assert(cs.subrange(1 + items.len() as int, 1 + items.len() as int + 1)[0] == cs[1
            + items.len() as int]);
    }
    assert(!is_space_char(cs[0]));
    assert(sp_skip(cs, 0) == 0);
    if rows.len() == 0 {
        assert(items =~= Seq::<char>::empty());
        assert(cs[1] == ']');
        assert(!is_space_char(cs[1]));
        assert(sp_skip(cs, 1) == 1);
        assert(sp_array(cs, 0, Seq::<char>::empty()) == Some(
            (2int, Seq::<char>::empty().push('[').push(']')),
        ));
        assert(Seq::<char>::empty().push('[').push(']') =~= cs);
        assert(sp_skip(cs, 2) == 2);
    } else {
        lemma_rows_first_bracket(rows);
        assert(cs[1] == '[') by {
            assert(cs.subrange(1, 1 + items.len() as int)[0] == cs[1]);
        }
        assert(!is_space_char(cs[1]));
        assert(sp_skip(cs, 1) == 1);
        assert(1 + items.len() + 1 == cs.len());
        assert(closes_here(cs, cs.len() as int));
        lemma_rows_elems(cs, rows, 1, seq!['[']);
        assert(seq!['['] + items + seq![']'] =~= cs);
        assert(sp_skip(cs, cs.len() as int) == cs.len());
    }
    assert(!is_space_char(cs.last()));
    assert(spec_trim(cs) == cs);
}

} // verus!
