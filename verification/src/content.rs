//! The document model: content items, translation units and their codecs.
//!
//! A document is an ordered list of `TEContent` items, each carrying a node id
//! and a short list of text strings. A `TEUnit` bundles a contiguous sublist
//! with its token estimate. The unit exposes the two-dimensional list handed
//! to the translator (each row anchored by a `"{i}:"` prefix) and the inverse
//! that reads the translated rows back into a content list.

use vstd::prelude::*;

use crate::chars::{
    all_digits, char_is_space, chars_string, dec_chars, is_space_char, lemma_dec_digits,
    lemma_dec_roundtrip, parse_dec, spec_dec, spec_dec_val, spec_trim, str_chars, trim_chars,
};

verus! {

/// The mathematical value of a content item: its id and texts as character
/// sequences.
pub struct ContentV {
    pub id: Seq<char>,
    pub texts: Seq<Seq<char>>,
}

#[derive(Debug)]
pub struct TEContent {
    pub id: String,
    pub texts: Vec<String>,
}

pub type TEContentList = Vec<TEContent>;

impl View for TEContent {
    type V = ContentV;

    open spec fn view(&self) -> ContentV {
        ContentV { id: self.id@, texts: self.texts.deep_view() }
    }
}

impl DeepView for TEContent {
    type V = ContentV;

    open spec fn deep_view(&self) -> ContentV {
        self.view()
    }
}

impl Clone for TEContent {
    fn clone(&self) -> (res: Self)
        ensures
            res@ == self@,
    {
        TEContent { id: self.id.clone(), texts: clone_string_vec(&self.texts) }
    }
}

impl PartialEq for TEContent {
    fn eq(&self, other: &Self) -> (r: bool) {
        self.id == other.id && eq_string_vecs(&self.texts, &other.texts)
    }
}

impl vstd::std_specs::cmp::PartialEqSpecImpl for TEContent {
    open spec fn obeys_eq_spec() -> bool {
        true
    }

    open spec fn eq_spec(&self, other: &Self) -> bool {
        self@ == other@
    }
}

fn clone_string_vec(v: &Vec<String>) -> (res: Vec<String>)
    ensures
        res@ == v@,
{
    let mut res: Vec<String> = Vec::new();
    let n = v.len();
    for i in 0..n
        invariant
            n == v@.len(),
            res@ =~= v@.subrange(0, i as int),
    {
        res.push(v[i].clone());
    }
    proof {
        assert(v@.subrange(0, v@.len() as int) =~= v@);
    }
    res
}

fn eq_string_vecs(a: &Vec<String>, b: &Vec<String>) -> (r: bool)
    ensures
        r == (a.deep_view() == b.deep_view()),
{
    if a.len() != b.len() {
        proof {
            assert(a.deep_view().len() == a@.len());
            assert(b.deep_view().len() == b@.len());
        }
        return false;
    }
    let n = a.len();
    for i in 0..n
        invariant
            n == a@.len() == b@.len(),
            forall|k: int| 0 <= k < i ==> a.deep_view()[k] == b.deep_view()[k],
    {
        if !substr_eq(&a[i], &b[i]) {
            proof {
                assert(a.deep_view()[i as int] != b.deep_view()[i as int]);
            }
            return false;
        }
        proof {
            assert(a.deep_view()[i as int] == b.deep_view()[i as int]);
        }
    }
    proof {
        assert(a.deep_view() =~= b.deep_view());
    }
    true
}

fn substr_eq(a: &String, b: &String) -> (r: bool)
    ensures
        r == (a@ == b@),
{
    *a == *b
}

/// One step of whitespace collapsing: `in_word` says whether the previous
/// character was part of a word; a word starting after the first one is
/// preceded by `sep`.
pub open spec fn collapse_rec(s: Seq<char>, in_word: bool, acc: Seq<char>, sep: char) -> Seq<char>
    decreases s.len(),
{
    if s.len() == 0 {
        acc
    } else if is_space_char(s.first()) {
        collapse_rec(s.drop_first(), false, acc, sep)
    } else {
        let acc2 = if !in_word && acc.len() > 0 {
            acc.push(sep).push(s.first())
        } else {
            acc.push(s.first())
        };
        collapse_rec(s.drop_first(), true, acc2, sep)
    }
}

/// All texts collapsed into one sequence: the words of every text in order,
/// joined by `sep`.
pub open spec fn collapse_texts(texts: Seq<Seq<char>>, acc: Seq<char>, sep: char) -> Seq<char>
    decreases texts.len(),
{
    if texts.len() == 0 {
        acc
    } else {
        collapse_texts(texts.drop_first(), collapse_rec(texts.first(), false, acc, sep), sep)
    }
}

pub open spec fn spec_words_string(texts: Seq<Seq<char>>, sep: char) -> Seq<char> {
    collapse_texts(texts, Seq::<char>::empty(), sep)
}

impl TEContent {
    /// The item's texts with every whitespace run collapsed to a single
    /// separator.
    pub fn to_string(&self, sep: char) -> (r: String)
        ensures
            r@ == spec_words_string(self@.texts, sep),
    {
        let v = self.to_chars(sep);
        chars_string(&v)
    }

    pub(crate) fn to_chars(&self, sep: char) -> (r: Vec<char>)
        ensures
            r@ == spec_words_string(self@.texts, sep),
    {
        let mut tes: Vec<char> = Vec::new();
        let ghost all: Seq<Seq<char>> = self.texts.deep_view();
        let n = self.texts.len();
        proof {
            assert(all.subrange(0, n as int) =~= all);
        }
        for ti in 0..n
            invariant
                n == self.texts@.len(),
                all == self.texts.deep_view(),
                collapse_texts(all.subrange(ti as int, n as int), tes@, sep) == spec_words_string(
                    all,
                    sep,
                ),
        {
            let t = str_chars(self.texts[ti].as_str());
            let m = t.len();
            let mut in_word = false;
            proof {
                assert(all.subrange(ti as int, n as int).first() == t@);
                assert(all.subrange(ti as int, n as int).drop_first() =~= all.subrange(
                    ti as int + 1,
                    n as int,
                ));
                assert(t@.subrange(0, m as int) =~= t@);
            }
            let ghost target: Seq<char> = spec_words_string(all, sep);
            for ci in 0..m
                invariant
                    m == t@.len(),
                    collapse_texts(
                        all.subrange(ti as int + 1, n as int),
                        collapse_rec(t@.subrange(ci as int, m as int), in_word, tes@, sep),
                        sep,
                    ) == target,
                    target == spec_words_string(all, sep),
            {
                proof {
                    assert(t@.subrange(ci as int, m as int).first() == t@[ci as int]);
                    assert(t@.subrange(ci as int, m as int).drop_first() =~= t@.subrange(
                        ci as int + 1,
                        m as int,
                    ));
                }
                let c = t[ci];
                if char_is_space(c) {
                    in_word = false;
                } else {
                    if !in_word && tes.len() > 0 {
                        tes.push(sep);
                        tes.push(c);
                    } else {
                        tes.push(c);
                    }
                    in_word = true;
                }
            }
            proof {
                assert(t@.subrange(m as int, m as int) =~= Seq::<char>::empty());
            }
        }
        proof {
            assert(all.subrange(n as int, n as int) =~= Seq::<Seq<char>>::empty());
        }
        tes
    }
}

/// Lower-case hexadecimal digit for a value below sixteen.
pub open spec fn hex_char(d: int) -> char {
    if d < 10 {
        ((48 + d) as u8) as char
    } else {
        ((87 + d) as u8) as char
    }
}

/// The JSON escape of one character: quote and backslash escaped, the five
/// short control escapes, `\u00xx` for the other control characters, and
/// every other character kept as it is.
pub open spec fn json_escape_char(c: char) -> Seq<char> {
    let u = c as u32;
    if u == 0x22 {
        seq!['\\', '"']
    } else if u == 0x5C {
        seq!['\\', '\\']
    } else if u == 0x08 {
        seq!['\\', 'b']
    } else if u == 0x09 {
        seq!['\\', 't']
    } else if u == 0x0A {
        seq!['\\', 'n']
    } else if u == 0x0C {
        seq!['\\', 'f']
    } else if u == 0x0D {
        seq!['\\', 'r']
    } else if u < 0x20 {
        seq!['\\', 'u', '0', '0', hex_char((u / 16) as int), hex_char((u % 16) as int)]
    } else {
        seq![c]
    }
}

pub open spec fn json_escape(s: Seq<char>) -> Seq<char>
    decreases s.len(),
{
    if s.len() == 0 {
        Seq::<char>::empty()
    } else {
        json_escape(s.drop_last()) + json_escape_char(s.last())
    }
}

/// A JSON string literal: the escaped text between double quotes.
pub open spec fn json_string(s: Seq<char>) -> Seq<char> {
    seq!['"'] + json_escape(s) + seq!['"']
}

pub open spec fn json_string_items(ts: Seq<Seq<char>>) -> Seq<char>
    decreases ts.len(),
{
    if ts.len() == 0 {
        Seq::<char>::empty()
    } else if ts.len() == 1 {
        json_string(ts[0])
    } else {
        json_string_items(ts.drop_last()) + seq![','] + json_string(ts.last())
    }
}

/// The JSON array of string literals, without any added whitespace.
pub open spec fn json_texts(ts: Seq<Seq<char>>) -> Seq<char> {
    seq!['['] + json_string_items(ts) + seq![']']
}

fn push_json_string(out: &mut Vec<char>, t: &Vec<char>)
    ensures
        final(out)@ == old(out)@ + json_string(t@),
{
    out.push('"');
    let ghost base = out@;
    let m = t.len();
    proof {
        assert(t@.subrange(0, 0) =~= Seq::<char>::empty());
    }
    for ci in 0..m
        invariant
            m == t@.len(),
            out@ == base + json_escape(t@.subrange(0, ci as int)),
    {
        let c = t[ci];
        let u = c as u32;
        if u == 0x22 {
            out.push('\\');
            out.push('"');
        } else if u == 0x5C {
            out.push('\\');
            out.push('\\');
        } else if u == 0x08 {
            out.push('\\');
            out.push('b');
        } else if u == 0x09 {
            out.push('\\');
            out.push('t');
        } else if u == 0x0A {
            out.push('\\');
            out.push('n');
        } else if u == 0x0C {
            out.push('\\');
            out.push('f');
        } else if u == 0x0D {
            out.push('\\');
            out.push('r');
        } else if u < 0x20 {
            out.push('\\');
            out.push('u');
            out.push('0');
            out.push('0');
            let h = (u / 16) as u8;
            let l = (u % 16) as u8;
            out.push(if h < 10 { (48 + h) as char } else { (87 + h) as char });
            out.push(if l < 10 { (48 + l) as char } else { (87 + l) as char });
        } else {
            out.push(c);
        }
        proof {
            let p = t@.subrange(0, ci as int + 1);
            assert(p.drop_last() =~= t@.subrange(0, ci as int));
            assert(p.last() == t@[ci as int]);
            assert(out@ =~= base + json_escape(p));
        }
    }
    proof {
        assert(t@.subrange(0, m as int) =~= t@);
    }
    out.push('"');
    proof {
        assert(out@ =~= old(out)@ + json_string(t@));
    }
}

impl TEContent {
    /// The texts as a compact JSON array of strings: the serialized form
    /// handed to the translator and measured by the tokenizer.
    pub fn to_translating_string(&self) -> (r: String)
        ensures
            r@ == json_texts(self@.texts),
    {
        let ghost ts = self.texts.deep_view();
        let mut out: Vec<char> = Vec::new();
        out.push('[');
        let n = self.texts.len();
        for ti in 0..n
            invariant
                n == self.texts@.len(),
                ts == self.texts.deep_view(),
                out@ == seq!['['] + json_string_items(ts.subrange(0, ti as int)),
        {
            if ti > 0 {
                out.push(',');
            }
            let t = str_chars(self.texts[ti].as_str());
            push_json_string(&mut out, &t);
            proof {
                let p = ts.subrange(0, ti as int + 1);
                assert(p.drop_last() =~= ts.subrange(0, ti as int));
                assert(p.last() == ts[ti as int]);
                assert(t@ == ts[ti as int]);
                assert(out@ =~= seq!['['] + json_string_items(p));
            }
        }
        out.push(']');
        proof {
            assert(ts.subrange(0, n as int) =~= ts);
            assert(out@ =~= json_texts(ts));
        }
        chars_string(&out)
    }

    /// The item's words joined by single spaces.
    pub fn to_embedding_string(&self) -> (r: String)
        ensures
            r@ == spec_words_string(self@.texts, ' '),
    {
        self.to_string(' ')
    }
}

/// The eight colon code points a translated row prefix may end with: the
/// model sometimes swaps the plain colon for a look-alike.
pub open spec fn is_colon_char(c: char) -> bool {
    (c as u32) == 0x3A || (c as u32) == 0x2F8 || (c as u32) == 0x5C3 || (c as u32) == 0x2236 || (
    c as u32) == 0xA789 || (c as u32) == 0xFE13 || (c as u32) == 0xFF1A || (c as u32) == 0xFE55
}

pub fn char_is_colon(c: char) -> (r: bool)
    ensures
        r == is_colon_char(c),
{
    let u = c as u32;
    u == 0x3A || u == 0x2F8 || u == 0x5C3 || u == 0x2236 || u == 0xA789 || u == 0xFE13 || u
        == 0xFF1A || u == 0xFE55
}

/// `pieces` joined by `sep`.
pub open spec fn join_with(pieces: Seq<Seq<char>>, sep: Seq<char>) -> Seq<char>
    decreases pieces.len(),
{
    if pieces.len() == 0 {
        Seq::<char>::empty()
    } else if pieces.len() == 1 {
        pieces[0]
    } else {
        join_with(pieces.drop_last(), sep) + sep + pieces.last()
    }
}

/// Joins the strings with the separator, as `[String]::join` does.
pub fn join_strings(v: &Vec<String>, sep: &str) -> (r: String)
    ensures
        r@ == join_with(v.deep_view(), sep@),
{
    let ghost ps = v.deep_view();
    let mut out: Vec<char> = Vec::new();
    let n = v.len();
    for i in 0..n
        invariant
            n == v@.len(),
            ps == v.deep_view(),
            out@ == join_with(ps.subrange(0, i as int), sep@),
    {
        if i > 0 {
            let s = str_chars(sep);
            append_chars(&mut out, &s);
        }
        let t = str_chars(v[i].as_str());
        append_chars(&mut out, &t);
        proof {
            let p = ps.subrange(0, i as int + 1);
            assert(p.drop_last() =~= ps.subrange(0, i as int));
            assert(p.last() == ps[i as int]);
            assert(out@ =~= join_with(p, sep@));
        }
    }
    proof {
        assert(ps.subrange(0, n as int) =~= ps);
    }
    chars_string(&out)
}

fn append_chars(out: &mut Vec<char>, t: &Vec<char>)
    ensures
        final(out)@ == old(out)@ + t@,
{
    let m = t.len();
    for ci in 0..m
        invariant
            m == t@.len(),
            out@ == old(out)@ + t@.subrange(0, ci as int),
    {
        out.push(t[ci]);
        proof {
            assert(out@ =~= old(out)@ + t@.subrange(0, ci as int + 1));
        }
    }
    proof {
        assert(t@.subrange(0, m as int) =~= t@);
        assert(out@ =~= old(out)@ + t@);
    }
}

/// One step of the embedding text: append the piece, then make sure the text
/// ends with a period and a space.
pub open spec fn embed_step(acc: Seq<char>, piece: Seq<char>) -> Seq<char> {
    let a = acc + piece;
    if a.len() > 0 && a.last() == '.' {
        a.push(' ')
    } else {
        a.push('.').push(' ')
    }
}

pub open spec fn embed_acc(cs: Seq<ContentV>, acc: Seq<char>) -> Seq<char>
    decreases cs.len(),
{
    if cs.len() == 0 {
        acc
    } else {
        embed_acc(cs.drop_first(), embed_step(acc, spec_trim(spec_words_string(cs.first().texts, ' '))))
    }
}

/// The unit's text for the embedding model: each item's collapsed words,
/// period-terminated, joined by spaces, trimmed at the ends.
pub open spec fn spec_embedding_string(cs: Seq<ContentV>) -> Seq<char> {
    spec_trim(embed_acc(cs, Seq::<char>::empty()))
}

/// The node ids of the items, in order.
pub open spec fn spec_ids(cs: Seq<ContentV>) -> Seq<Seq<char>> {
    Seq::new(cs.len(), |i: int| cs[i].id)
}

/// The row handed to the translator for item `k`: the `"{k+1}:"` anchor
/// followed by the item's texts.
pub open spec fn spec_row(k: int, c: ContentV) -> Seq<Seq<char>> {
    seq![spec_dec((k + 1) as nat).push(':')] + c.texts
}

pub open spec fn spec_translating_list(cs: Seq<ContentV>) -> Seq<Seq<Seq<char>>> {
    Seq::new(cs.len(), |k: int| spec_row(k, cs[k]))
}

/// What `extract_order` reads from one row: the positive order parsed from a
/// colon-terminated first cell (with the rest of the row), or order zero with
/// the whole row.
pub open spec fn spec_extract_order(row: Seq<Seq<char>>) -> (int, Seq<Seq<char>>) {
    if row.len() == 0 {
        (0int, row)
    } else {
        let h = row.first();
        if h.len() > 0 && is_colon_char(h.last()) {
            let body = h.drop_last();
            let o = if body.len() > 0 && all_digits(body) && spec_dec_val(body) <= usize::MAX {
                spec_dec_val(body)
            } else {
                0int
            };
            if o > 0 {
                (o, row.drop_first())
            } else {
                (0int, row)
            }
        } else {
            (0int, row)
        }
    }
}

/// The row waiting to be consumed, or order zero and no texts when the rows
/// have run out.
pub open spec fn pending_row(rows: Seq<Seq<Seq<char>>>, j: int) -> (int, Seq<Seq<char>>) {
    if 0 <= j < rows.len() {
        spec_extract_order(rows[j])
    } else {
        (0int, Seq::<Seq<char>>::empty())
    }
}

/// The reassembled content from position `i` on, with row `j` pending: a row
/// whose order is at most the current position fills that position and the
/// next row becomes pending; a row with a higher order waits, leaving empty
/// texts behind.
pub open spec fn spec_replace_from(
    cs: Seq<ContentV>,
    rows: Seq<Seq<Seq<char>>>,
    i: int,
    j: int,
) -> Seq<ContentV>
    decreases cs.len() - i,
{
    if i >= cs.len() {
        Seq::<ContentV>::empty()
    } else {
        let p = pending_row(rows, j);
        if p.0 <= i + 1 {
            seq![ContentV { id: cs[i].id, texts: p.1 }] + spec_replace_from(cs, rows, i + 1, j + 1)
        } else {
            seq![ContentV { id: cs[i].id, texts: Seq::<Seq<char>>::empty() }] + spec_replace_from(
                cs,
                rows,
                i + 1,
                j,
            )
        }
    }
}

#[derive(Debug)]
pub struct TEUnit {
    pub tokens: usize,
    pub content: TEContentList,
}

/// The mathematical value of a unit: its token estimate and the items it
/// bundles.
pub struct UnitV {
    pub tokens: nat,
    pub content: Seq<ContentV>,
}

impl View for TEUnit {
    type V = UnitV;

    open spec fn view(&self) -> UnitV {
        UnitV { tokens: self.tokens as nat, content: self.content.deep_view() }
    }
}

impl DeepView for TEUnit {
    type V = UnitV;

    open spec fn deep_view(&self) -> UnitV {
        self.view()
    }
}

impl TEUnit {
    /// The node ids of the unit's items.
    pub fn ids(&self) -> (r: Vec<String>)
        ensures
            r.deep_view() == spec_ids(self.content.deep_view()),
    {
        let ghost cs = self.content.deep_view();
        let mut ids: Vec<String> = Vec::new();
        let n = self.content.len();
        for i in 0..n
            invariant
                n == self.content@.len(),
                cs == self.content.deep_view(),
                ids@.len() == i,
                forall|k: int| 0 <= k < i ==> (#[trigger] ids@[k])@ == cs[k].id,
        {
            let ghost prev = ids@;
            ids.push(self.content[i].id.clone());
            proof {
                assert forall|k: int| 0 <= k <= i implies (#[trigger] ids@[k])@ == cs[k].id by {
                    if k < i {
                        assert(ids@[k] == prev[k]);
                    }
                }
            }
        }
        proof {
            assert forall|k: int| 0 <= k < cs.len() implies #[trigger] ids.deep_view()[k] == spec_ids(
                cs,
            )[k] by {
                assert(ids@[k]@ == cs[k].id);
            }
            assert(ids.deep_view() =~= spec_ids(cs));
        }
        ids
    }

    /// The unit's text for the embedding model.
    pub fn to_embedding_string(&self) -> (r: String)
        ensures
            r@ == spec_embedding_string(self.content.deep_view()),
    {
        let ghost cs = self.content.deep_view();
        let mut tes: Vec<char> = Vec::new();
        let n = self.content.len();
        proof {
            assert(cs.subrange(0, n as int) =~= cs);
        }
        for i in 0..n
            invariant
                n == self.content@.len(),
                cs == self.content.deep_view(),
                embed_acc(cs.subrange(i as int, n as int), tes@) == embed_acc(
                    cs,
                    Seq::<char>::empty(),
                ),
        {
            proof {
                assert(cs.subrange(i as int, n as int).first() == cs[i as int]);
                assert(cs.subrange(i as int, n as int).drop_first() =~= cs.subrange(
                    i as int + 1,
                    n as int,
                ));
            }
            let raw = self.content[i].to_chars(' ');
            let piece = trim_chars(&raw);
            let ghost acc0 = tes@;
            append_chars(&mut tes, &piece);
            if tes.len() > 0 && tes[tes.len() - 1] == '.' {
                tes.push(' ');
            } else {
                tes.push('.');
                tes.push(' ');
            }
            proof {
                assert(tes@ =~= embed_step(acc0, piece@));
            }
        }
        proof {
            assert(cs.subrange(n as int, n as int) =~= Seq::<ContentV>::empty());
        }
        let trimmed = trim_chars(&tes);
        chars_string(&trimmed)
    }

    /// The older embedding form: each item's collapsed words joined by
    /// semicolons.
    pub fn content_to_embedding_string(&self) -> (r: String)
        ensures
            r@ == join_with(
                Seq::new(
                    self.content.deep_view().len(),
                    |i: int| spec_words_string(self.content.deep_view()[i].texts, ' '),
                ),
                "; "@,
            ),
    {
        let ghost cs = self.content.deep_view();
        let ghost ps = Seq::new(cs.len(), |i: int| spec_words_string(cs[i].texts, ' '));
        let mut tes: Vec<String> = Vec::new();
        let n = self.content.len();
        for i in 0..n
            invariant
                n == self.content@.len(),
                cs == self.content.deep_view(),
                ps == Seq::new(cs.len(), |i: int| spec_words_string(cs[i].texts, ' ')),
                tes@.len() == i,
                forall|k: int| 0 <= k < i ==> (#[trigger] tes@[k])@ == ps[k],
        {
            let ghost prev = tes@;
            tes.push(self.content[i].to_embedding_string());
            proof {
                assert forall|k: int| 0 <= k <= i implies (#[trigger] tes@[k])@ == ps[k] by {
                    if k < i {
                        assert(tes@[k] == prev[k]);
                    }
                }
            }
        }
        proof {
            assert forall|k: int| 0 <= k < ps.len() implies #[trigger] tes.deep_view()[k] == ps[k] by {
                assert(tes@[k]@ == ps[k]);
            }
            assert(tes.deep_view() =~= ps);
        }
        join_strings(&tes, "; ")
    }
}

impl TEUnit {
    /// The two-dimensional list handed to the translator: row `k` is the
    /// anchor `"{k+1}:"` followed by item `k`'s texts.
    pub fn to_translating_list(&self) -> (res: Vec<Vec<String>>)
        ensures
            res.deep_view() == spec_translating_list(self.content.deep_view()),
    {
        let ghost cs = self.content.deep_view();
        let mut res: Vec<Vec<String>> = Vec::new();
        let n = self.content.len();
        for i in 0..n
            invariant
                n == self.content@.len(),
                cs == self.content.deep_view(),
                res@.len() == i,
                forall|k: int|
                    0 <= k < i ==> (#[trigger] res@[k]).deep_view() == spec_row(k, cs[k]),
        {
            let mut prefix = dec_chars((i + 1) as u64);
            prefix.push(':');
            proof {
                assert(prefix@ =~= spec_dec((i + 1) as nat).push(':'));
            }
            let mut l: Vec<String> = Vec::new();
            l.push(chars_string(&prefix));
            let m = self.content[i].texts.len();
            for t in 0..m
                invariant
                    i < n == self.content@.len(),
                    m == self.content@[i as int].texts@.len(),
                    cs == self.content.deep_view(),
                    prefix@ == spec_dec((i + 1) as nat).push(':'),
                    l@.len() == t + 1,
                    l@[0]@ == prefix@,
                    forall|k: int| 0 <= k < t ==> (#[trigger] l@[k + 1])@ == cs[i as int].texts[k],
            {
                let ghost prevl = l@;
                l.push(self.content[i].texts[t].clone());
                proof {
                    assert forall|k: int|
                        0 <= k < t + 1 implies (#[trigger] l@[k + 1])@ == cs[i as int].texts[k] by {
                        if k < t {
                            assert(l@[k + 1] == prevl[k + 1]);
                        }
                    }
                }
            }
            proof {
                assert(cs[i as int].texts.len() == m);
                assert forall|q: int|
                    0 <= q < l@.len() implies #[trigger] l.deep_view()[q] == spec_row(
                    i as int,
                    cs[i as int],
                )[q] by {
                    if q == 0 {
                        assert(l@[0]@ == prefix@);
                    } else {
                        assert(l@[(q - 1) + 1]@ == cs[i as int].texts[q - 1]);
                    }
                }
                assert(l.deep_view() =~= spec_row(i as int, cs[i as int]));
            }
            let ghost lv = l.deep_view();
            let ghost prevr = res@;
            res.push(l);
            proof {
                assert forall|k: int|
                    0 <= k <= i implies (#[trigger] res@[k]).deep_view() == spec_row(k, cs[k]) by {
                    if k < i {
                        assert(res@[k] == prevr[k]);
                    } else {
                        assert(res@[i as int].deep_view() == lv);
                    }
                }
            }
        }
        proof {
            assert forall|k: int|
                0 <= k < cs.len() implies #[trigger] res.deep_view()[k] == spec_translating_list(
                cs,
            )[k] by {
                assert(res@[k].deep_view() == spec_row(k, cs[k]));
            }
            assert(res.deep_view() =~= spec_translating_list(cs));
        }
        res
    }

    /// Reads the order prefix of one translated row, if any: `["3:", t...]`
    /// gives `(3, [t...])`; a row without a usable prefix gives order zero
    /// and the whole row.
    fn extract_order(v: Option<&Vec<String>>) -> (r: (usize, Vec<String>))
        ensures
            ({
                let s = match v {
                    Some(row) => spec_extract_order(row.deep_view()),
                    None => (0int, Seq::<Seq<char>>::empty()),
                };
                r.0 as int == s.0 && r.1.deep_view() == s.1
            }),
    {
        match v {
            None => {
                let empty: Vec<String> = Vec::new();
                proof {
                    assert(empty.deep_view() =~= Seq::<Seq<char>>::empty());
                }
                (0, empty)
            },
            Some(row) => {
                let ghost rv = row.deep_view();
                if row.len() == 0 {
                    let copy = clone_string_vec(row);
                    proof {
                        assert(copy.deep_view() =~= rv);
                    }
                    return (0, copy);
                }
                let h = str_chars(row[0].as_str());
                let hl = h.len();
                proof {
                    assert(rv.first() == h@);
                }
                if hl > 0 && char_is_colon(h[hl - 1]) {
                    let o = match parse_dec(&h, 0, hl - 1) {
                        Some(n) => n,
                        None => 0,
                    };
                    proof {
                        assert(h@.subrange(0, hl - 1) =~= h@.drop_last());
                    }
                    if o > 0 {
                        let mut tail: Vec<String> = Vec::new();
                        let rl = row.len();
                        for k in 1..rl
                            invariant
                                1 <= k <= rl == row@.len(),
                                rv == row.deep_view(),
                                tail@.len() == k - 1,
                                forall|j: int|
                                    0 <= j < k - 1 ==> (#[trigger] tail@[j])@ == rv[j + 1],
                        {
                            let ghost prevt = tail@;
                            tail.push(row[k].clone());
                            proof {
                                assert forall|j: int|
                                    0 <= j < k implies (#[trigger] tail@[j])@ == rv[j + 1] by {
                                    if j < k - 1 {
                                        assert(tail@[j] == prevt[j]);
                                    }
                                }
                            }
                        }
                        proof {
                            assert forall|j: int|
                                0 <= j < tail@.len() implies #[trigger] tail.deep_view()[j]
                                == rv.drop_first()[j] by {
                                assert(tail@[j]@ == rv[j + 1]);
                            }
                            assert(tail.deep_view() =~= rv.drop_first());
                        }
                        (o, tail)
                    } else {
                        let copy = clone_string_vec(row);
                        proof {
                            assert(copy.deep_view() =~= rv);
                        }
                        (0, copy)
                    }
                } else {
                    let copy = clone_string_vec(row);
                    proof {
                        assert(copy.deep_view() =~= rv);
                    }
                    (0, copy)
                }
            },
        }
    }

    /// Reads the translator's rows back into a content list: each row fills
    /// the position its order prefix names; rows without a prefix attach
    /// positionally, and a row whose order lies ahead waits its turn.
    pub fn replace_texts(&self, input: &Vec<Vec<String>>) -> (res: TEContentList)
        ensures
            res.deep_view() == spec_replace_from(
                self.content.deep_view(),
                input.deep_view(),
                0,
                0,
            ),
    {
        let ghost cs = self.content.deep_view();
        let ghost rows = input.deep_view();
        let len = self.content.len();
        let mut res: TEContentList = Vec::new();
        let first = if input.len() > 0 {
            Some(&input[0])
        } else {
            None
        };
        let (mut o, mut v) = Self::extract_order(first);
        // j is the number of rows taken from the input so far, held below
        // rows.len() + 2 since nothing past the end can be taken; the ghost
        // count js keeps the unsaturated value the specification speaks of.
        let mut j: usize = if input.len() > 0 {
            1
        } else {
            0
        };
        let ghost mut js: int = 1;
        proof {
            assert(rows.len() > 0 ==> rows[0] == input@[0].deep_view());
        }
        for i in 0..len
            invariant
                len == self.content@.len(),
                cs == self.content.deep_view(),
                rows == input.deep_view(),
                js >= 1,
                if js <= rows.len() {
                    j == js
                } else {
                    j == rows.len()
                },
                res@.len() == i,
                (o as int, v.deep_view()) == pending_row(rows, js - 1),
                res.deep_view() + spec_replace_from(cs, rows, i as int, js - 1)
                    =~= spec_replace_from(cs, rows, 0, 0),
        {
            let ghost prevres = res.deep_view();
            let mut te = TEContent { id: self.content[i].id.clone(), texts: Vec::new() };
            proof {
                assert(te@.texts =~= Seq::<Seq<char>>::empty());
            }
            if o <= i + 1 {
                te.texts = v;
                let nxt = if j < input.len() {
                    Some(&input[j])
                } else {
                    None
                };
                let (o2, v2) = Self::extract_order(nxt);
                o = o2;
                v = v2;
                proof {
                    if j < rows.len() {
                        assert(rows[j as int] == input@[j as int].deep_view());
                    }
                    js = js + 1;
                }
                if j < input.len() {
                    j = j + 1;
                }
            }
            res.push(te);
            proof {
                assert(res.deep_view() =~= prevres.push(res@[i as int]@));
                assert(res.deep_view() + spec_replace_from(cs, rows, i as int + 1, js - 1)
                    =~= spec_replace_from(cs, rows, 0, 0));
            }
        }
        proof {
            assert(res.deep_view() =~= spec_replace_from(cs, rows, 0, 0));
        }
        res
    }
}

proof fn lemma_replace_from_roundtrip(cs: Seq<ContentV>, i: int)
    requires
        0 <= i <= cs.len(),
        cs.len() <= usize::MAX,
    ensures
        spec_replace_from(cs, spec_translating_list(cs), i, i) =~= cs.skip(i),
    decreases cs.len() - i,
{
    let rows = spec_translating_list(cs);
    if i == cs.len() {
        assert(cs.skip(i) =~= Seq::<ContentV>::empty());
    } else {
        let row = rows[i];
        assert(row == spec_row(i, cs[i]));
        let h = row.first();
        assert(h == spec_dec((i + 1) as nat).push(':'));
        assert(h.len() > 0 && h.last() == ':');
        assert(is_colon_char(':'));
        let body = h.drop_last();
        assert(body =~= spec_dec((i + 1) as nat));
        lemma_dec_digits((i + 1) as nat);
        lemma_dec_roundtrip((i + 1) as nat);
        assert(spec_dec_val(body) == i + 1);
        let p = pending_row(rows, i);
        assert(row.drop_first() =~= cs[i].texts);
        assert(p == (i + 1, cs[i].texts));
        lemma_replace_from_roundtrip(cs, i + 1);
        assert(ContentV { id: cs[i].id, texts: cs[i].texts } == cs[i]);
        assert(cs.skip(i) =~= seq![cs[i]] + cs.skip(i + 1));
    }
}

/// Positional round trip: reading a unit's own translating list back gives
/// exactly the unit's content, id for id and text for text.
pub proof fn lemma_replace_texts_roundtrip(cs: Seq<ContentV>)
    requires
        cs.len() <= usize::MAX,
    ensures
        spec_replace_from(cs, spec_translating_list(cs), 0, 0) == cs,
{
    lemma_replace_from_roundtrip(cs, 0);
    assert(cs.skip(0) =~= cs);
}

/// A row that starts with a usable anchor: a nonempty digit string ending in
/// one of the recognized colon characters, naming a positive position.
pub open spec fn anchored_row(a: Seq<Seq<char>>) -> bool {
    a.len() > 0 && a.first().len() > 1 && is_colon_char(a.first().last()) && all_digits(
        a.first().drop_last(),
    ) && 0 < spec_dec_val(a.first().drop_last()) <= usize::MAX
}

/// Two rows that agree everywhere except, possibly, in which of the eight
/// colon characters closes their anchors.
pub open spec fn row_same_up_to_colon(a: Seq<Seq<char>>, b: Seq<Seq<char>>) -> bool {
    a == b || (anchored_row(a) && anchored_row(b) && a.first().drop_last()
        == b.first().drop_last() && a.drop_first() == b.drop_first())
}

proof fn lemma_extract_order_colon(a: Seq<Seq<char>>, b: Seq<Seq<char>>)
    requires
        row_same_up_to_colon(a, b),
    ensures
        spec_extract_order(a) == spec_extract_order(b),
{
}

proof fn lemma_replace_from_colon(
    cs: Seq<ContentV>,
    r1: Seq<Seq<Seq<char>>>,
    r2: Seq<Seq<Seq<char>>>,
    i: int,
    j: int,
)
    requires
        r1.len() == r2.len(),
        forall|k: int| 0 <= k < r1.len() ==> row_same_up_to_colon(#[trigger] r1[k], r2[k]),
    ensures
        spec_replace_from(cs, r1, i, j) == spec_replace_from(cs, r2, i, j),
    decreases cs.len() - i,
{
    if i < cs.len() {
        if 0 <= j < r1.len() {
            lemma_extract_order_colon(r1[j], r2[j]);
        }
        lemma_replace_from_colon(cs, r1, r2, i + 1, j + 1);
        lemma_replace_from_colon(cs, r1, r2, i + 1, j);
    }
}

/// Anchor-colon tolerance: replacing with rows whose anchors end in any of
/// the eight recognized colon characters gives the same content as rows
/// using the plain colon.
pub proof fn lemma_replace_texts_colon_tolerance(
    cs: Seq<ContentV>,
    rows1: Seq<Seq<Seq<char>>>,
    rows2: Seq<Seq<Seq<char>>>,
)
    requires
        rows1.len() == rows2.len(),
        forall|k: int| 0 <= k < rows1.len() ==> row_same_up_to_colon(#[trigger] rows1[k], rows2[k]),
    ensures
        spec_replace_from(cs, rows1, 0, 0) == spec_replace_from(cs, rows2, 0, 0),
{
    lemma_replace_from_colon(cs, rows1, rows2, 0, 0);
}

} // verus!
