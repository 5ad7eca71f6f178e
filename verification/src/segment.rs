//! The segmenter: partitions a document into token-budgeted units.
//!
//! Three cuts are made from the same accumulator idea: translation units (a
//! list of items whose serialized form fits the model's budget), summary
//! pieces (collapsed text joined by newlines), and embedding groups (units
//! bundled into batches for one embedding call).

use vstd::prelude::*;

use crate::chars::{chars_string, str_chars};
use crate::content::{
    join_with, json_texts, spec_words_string, ContentV, TEContent, TEContentList, TEUnit, UnitV,
};
use crate::llm::AIModel;
use crate::tokenizer::{token_count, tokens_len};

verus! {

pub const SUMMARIZE_SECTION_TOKENS: usize = 2400;

pub const SUMMARIZE_HIGH_TOKENS: usize = 3000;

pub const EMBEDDING_SECTION_TOKENS: usize = 600;

pub const EMBEDDING_HIGH_TOKENS: usize = 800;

pub const EMBEDDING_MAX_ARRAY: usize = 16;

pub const EMBEDDING_MAX_TOKENS: usize = 7000;

/// The section-separator id: six hyphens.
pub open spec fn is_separator_id(s: Seq<char>) -> bool {
    s.len() == 6 && forall|i: int| 0 <= i < 6 ==> s[i] == '-'
}

pub fn id_is_separator(id: &String) -> (r: bool)
    ensures
        r == is_separator_id(id@),
{
    let v = str_chars(id.as_str());
    if v.len() != 6 {
        return false;
    }
    let mut i: usize = 0;
    while i < 6
        invariant
            i <= 6,
            v@ == id@,
            v@.len() == 6,
            forall|k: int| 0 <= k < i ==> id@[k] == '-',
        decreases 6 - i,
    {
        if v[i] != '-' {
            return false;
        }
        i = i + 1;
    }
    true
}

/// The token estimate the translation segmenter charges for one item: the
/// tokens of its serialized texts.
pub open spec fn item_tokens_tr(c: ContentV) -> nat {
    token_count(json_texts(c.texts))
}

/// The translation segmenter, one item at a time. `acc` holds the closed
/// units, `cur_t`/`cur_c` the unit being filled. A separator closes the
/// current unit once it has reached the section budget `st`; an item whose
/// addition would pass the high budget `ht` closes it first and then seeds a
/// fresh unit; items without texts are skipped.
pub open spec fn spec_segment_from(
    cs: Seq<ContentV>,
    acc: Seq<UnitV>,
    cur_t: nat,
    cur_c: Seq<ContentV>,
    st: nat,
    ht: nat,
) -> Seq<UnitV>
    decreases cs.len(),
{
    if cs.len() == 0 {
        if cur_t > 0 {
            acc.push(UnitV { tokens: cur_t, content: cur_c })
        } else {
            acc
        }
    } else {
        let c = cs.first();
        let rest = cs.drop_first();
        if c.texts.len() == 0 {
            if is_separator_id(c.id) && cur_t >= st {
                spec_segment_from(
                    rest,
                    acc.push(UnitV { tokens: cur_t, content: cur_c }),
                    0,
                    Seq::<ContentV>::empty(),
                    st,
                    ht,
                )
            } else {
                spec_segment_from(rest, acc, cur_t, cur_c, st, ht)
            }
        } else {
            let ctl = item_tokens_tr(c);
            if cur_t + ctl > ht {
                let acc2 = if cur_c.len() > 0 {
                    acc.push(UnitV { tokens: cur_t, content: cur_c })
                } else {
                    acc
                };
                spec_segment_from(rest, acc2, ctl, seq![c], st, ht)
            } else {
                spec_segment_from(rest, acc, cur_t + ctl, cur_c.push(c), st, ht)
            }
        }
    }
}

pub open spec fn spec_segment(cs: Seq<ContentV>, st: nat, ht: nat) -> Seq<UnitV> {
    spec_segment_from(cs, Seq::<UnitV>::empty(), 0, Seq::<ContentV>::empty(), st, ht)
}

/// The summary segmenter: collapsed item texts, joined by newlines into
/// pieces of at most the high budget.
pub open spec fn spec_segment_sum_from(
    cs: Seq<ContentV>,
    acc: Seq<Seq<char>>,
    cur_t: nat,
    cur: Seq<Seq<char>>,
) -> Seq<Seq<char>>
    decreases cs.len(),
{
    if cs.len() == 0 {
        if cur_t > 0 {
            acc.push(join_with(cur, seq!['\n']))
        } else {
            acc
        }
    } else {
        let c = cs.first();
        let rest = cs.drop_first();
        if c.texts.len() == 0 {
            if is_separator_id(c.id) && cur_t >= SUMMARIZE_SECTION_TOKENS as nat {
                spec_segment_sum_from(
                    rest,
                    acc.push(join_with(cur, seq!['\n'])),
                    0,
                    Seq::<Seq<char>>::empty(),
                )
            } else {
                spec_segment_sum_from(rest, acc, cur_t, cur)
            }
        } else {
            let strs = spec_words_string(c.texts, ' ');
            let ctl = token_count(strs);
            if cur_t + ctl > SUMMARIZE_HIGH_TOKENS as nat {
                let acc2 = if cur.len() > 0 {
                    acc.push(join_with(cur, seq!['\n']))
                } else {
                    acc
                };
                spec_segment_sum_from(rest, acc2, ctl, seq![strs])
            } else {
                spec_segment_sum_from(rest, acc, cur_t + ctl, cur.push(strs))
            }
        }
    }
}

pub open spec fn spec_segment_sum(cs: Seq<ContentV>) -> Seq<Seq<char>> {
    spec_segment_sum_from(cs, Seq::<Seq<char>>::empty(), 0, Seq::<Seq<char>>::empty())
}

/// Addition capped at the machine word, mirroring what the embedding
/// segmenter's counters can hold.
pub open spec fn sat_add(a: nat, b: nat) -> nat {
    if a + b > usize::MAX as nat {
        usize::MAX as nat
    } else {
        a + b
    }
}

pub fn usat_add(a: usize, b: usize) -> (r: usize)
    ensures
        r as nat == sat_add(a as nat, b as nat),
{
    if a > usize::MAX - b {
        usize::MAX
    } else {
        a + b
    }
}

/// Closes the current group when it holds enough tokens or enough units.
pub open spec fn group_full(gt: nat, glen: nat) -> bool {
    gt >= EMBEDDING_MAX_TOKENS as nat || glen >= EMBEDDING_MAX_ARRAY as nat
}

/// The embedding segmenter: units closed at the embedding budget, bundled
/// into groups that fit one batched call.
pub open spec fn spec_segment_emb_from(
    cs: Seq<ContentV>,
    list: Seq<Seq<UnitV>>,
    group: Seq<UnitV>,
    gt: nat,
    cur_t: nat,
    cur_c: Seq<ContentV>,
) -> Seq<Seq<UnitV>>
    decreases cs.len(),
{
    if cs.len() == 0 {
        let closed = if cur_t > 0 {
            (group.push(UnitV { tokens: cur_t, content: cur_c }), sat_add(gt, cur_t))
        } else {
            (group, gt)
        };
        if closed.1 > 0 {
            list.push(closed.0)
        } else {
            list
        }
    } else {
        let c = cs.first();
        let rest = cs.drop_first();
        if c.texts.len() == 0 {
            if is_separator_id(c.id) {
                let closed = if cur_t >= EMBEDDING_SECTION_TOKENS as nat {
                    (group.push(UnitV { tokens: cur_t, content: cur_c }), sat_add(gt, cur_t), 0nat, Seq::<ContentV>::empty())
                } else {
                    (group, gt, cur_t, cur_c)
                };
                if group_full(closed.1, closed.0.len()) {
                    spec_segment_emb_from(
                        rest,
                        list.push(closed.0),
                        Seq::<UnitV>::empty(),
                        0,
                        closed.2,
                        closed.3,
                    )
                } else {
                    spec_segment_emb_from(rest, list, closed.0, closed.1, closed.2, closed.3)
                }
            } else {
                spec_segment_emb_from(rest, list, group, gt, cur_t, cur_c)
            }
        } else {
            let ctl = token_count(spec_words_string(c.texts, ' '));
            if cur_t + ctl >= EMBEDDING_HIGH_TOKENS as nat {
                let t2 = sat_add(cur_t, ctl);
                let group2 = group.push(UnitV { tokens: t2, content: cur_c.push(c) });
                let gt2 = sat_add(gt, t2);
                if group_full(gt2, group2.len()) {
                    spec_segment_emb_from(
                        rest,
                        list.push(group2),
                        Seq::<UnitV>::empty(),
                        0,
                        0,
                        Seq::<ContentV>::empty(),
                    )
                } else {
                    spec_segment_emb_from(rest, list, group2, gt2, 0, Seq::<ContentV>::empty())
                }
            } else {
                spec_segment_emb_from(rest, list, group, gt, cur_t + ctl, cur_c.push(c))
            }
        }
    }
}

pub open spec fn spec_segment_emb(cs: Seq<ContentV>) -> Seq<Seq<UnitV>> {
    spec_segment_emb_from(
        cs,
        Seq::<Seq<UnitV>>::empty(),
        Seq::<UnitV>::empty(),
        0,
        0,
        Seq::<ContentV>::empty(),
    )
}

/// How many UTF-8 bytes the character takes.
pub open spec fn utf8_len(c: char) -> nat {
    if (c as u32) < 0x80 {
        1nat
    } else if (c as u32) < 0x800 {
        2nat
    } else if (c as u32) < 0x10000 {
        3nat
    } else {
        4nat
    }
}

pub open spec fn utf8_len_seq(s: Seq<char>) -> nat
    decreases s.len(),
{
    if s.len() == 0 {
        0nat
    } else {
        utf8_len_seq(s.drop_last()) + utf8_len(s.last())
    }
}

/// The text handed to the language detector: the items' collapsed texts,
/// newline-separated, cut off once it has passed four kibibytes.
pub open spec fn spec_detect_lang_string(cs: Seq<ContentV>) -> Seq<char>
    decreases cs.len(),
{
    spec_detect_from(cs, Seq::<char>::empty())
}

pub open spec fn spec_detect_from(cs: Seq<ContentV>, acc: Seq<char>) -> Seq<char>
    decreases cs.len(),
{
    if cs.len() == 0 {
        acc
    } else if utf8_len_seq(acc) > 4096 {
        acc
    } else {
        spec_detect_from(
            cs.drop_first(),
            acc + spec_words_string(cs.first().texts, '\n').push('\n'),
        )
    }
}

proof fn lemma_utf8_bound(s: Seq<char>)
    ensures
        utf8_len_seq(s) <= 4 * s.len(),
    decreases s.len(),
{
    if s.len() > 0 {
        lemma_utf8_bound(s.drop_last());
    }
}

proof fn lemma_utf8_concat(a: Seq<char>, b: Seq<char>)
    ensures
        utf8_len_seq(a + b) == utf8_len_seq(a) + utf8_len_seq(b),
    decreases b.len(),
{
    if b.len() == 0 {
        assert(a + b =~= a);
    } else {
        lemma_utf8_concat(a, b.drop_last());
        assert((a + b).drop_last() =~= a + b.drop_last());
        assert((a + b).last() == b.last());
    }
}

fn utf8_len_chars(v: &Vec<char>) -> (r: u128)
    ensures
        r == utf8_len_seq(v@),
{
    let mut r: u128 = 0;
    let n = v.len();
    for i in 0..n
        invariant
            n == v@.len(),
            r == utf8_len_seq(v@.subrange(0, i as int)),
            r <= 4 * i,
    {
        let c = v[i];
        let u = c as u32;
        let l: u128 = if u < 0x80 {
            1
        } else if u < 0x800 {
            2
        } else if u < 0x10000 {
            3
        } else {
            4
        };
        r = r + l;
        proof {
            let p = v@.subrange(0, i as int + 1);
            assert(p.drop_last() =~= v@.subrange(0, i as int));
            assert(p.last() == v@[i as int]);
        }
    }
    proof {
        assert(v@.subrange(0, n as int) =~= v@);
    }
    r
}

/// The budgets of one translation unit for the given model: recommended
/// (section) and high.
pub open spec fn translating_budgets(m: AIModel) -> (nat, nat) {
    (3000nat, 3400nat)
}

pub trait TESegmenter {
    /// The document the segmenter reads.
    spec fn contents(&self) -> Seq<ContentV>;

    /// The newline-joined text handed to the language detector, capped near
    /// four kibibytes.
    fn detect_lang_string(&self) -> (r: String)
        ensures
            r@ == spec_detect_lang_string(self.contents()),
    ;

    /// The translation units, each within the model's budgets except for a
    /// single oversized item.
    fn segment(&self, model: &AIModel) -> (r: Vec<TEUnit>)
        ensures
            r.deep_view() == spec_segment(
                self.contents(),
                translating_budgets(*model).0,
                translating_budgets(*model).1,
            ),
            concat_units(r.deep_view()) == self.contents().filter(|c: ContentV| has_texts(c)),
    ;

    /// The summary pieces: newline-joined collapsed text within the summary
    /// budgets.
    fn segment_for_summarizing(&self) -> (r: Vec<String>)
        ensures
            r.deep_view() == spec_segment_sum(self.contents()),
    ;

    /// The embedding groups: units within the embedding budget, bundled into
    /// batches.
    fn segment_for_embedding(&self) -> (r: Vec<Vec<TEUnit>>)
        ensures
            r.deep_view() == spec_segment_emb(self.contents()),
    ;
}

impl TESegmenter for TEContentList {
    open spec fn contents(&self) -> Seq<ContentV> {
        self.deep_view()
    }

    fn detect_lang_string(&self) -> (r: String) {
        let ghost cs = self.deep_view();
        let mut acc: Vec<char> = Vec::new();
        let mut blen: u128 = 0;
        let n = self.len();
        let mut i: usize = 0;
        proof {
            assert(cs.subrange(0, n as int) =~= cs);
        }
        while i < n && blen <= 4096
            invariant
                n == self@.len(),
                cs == self.deep_view(),
                i <= n,
                blen == utf8_len_seq(acc@),
                blen <= 4097 + 4 * (usize::MAX as int),
                spec_detect_from(cs.subrange(i as int, n as int), acc@) == spec_detect_lang_string(
                    cs,
                ),
            decreases n - i,
        {
            proof {
                lemma_utf8_bound(acc@);
                assert(cs.subrange(i as int, n as int).first() == cs[i as int]);
                assert(cs.subrange(i as int, n as int).drop_first() =~= cs.subrange(
                    i as int + 1,
                    n as int,
                ));
            }
            let ghost acc0 = acc@;
            let piece = self[i].to_chars('\n');
            let pl = piece.len();
            let piece_len = utf8_len_chars(&piece);
            proof {
                assert(piece@.len() == pl);
            }
            proof {
                lemma_utf8_bound(piece@);
                lemma_utf8_concat(acc@, piece@);
                lemma_utf8_concat(acc@ + piece@, seq!['\n']);
                assert(utf8_len_seq(seq!['\n']) == 1) by {
                    assert(seq!['\n'].drop_last() =~= Seq::<char>::empty());
                }
            }
            append_chars_seg(&mut acc, &piece);
            acc.push('\n');
            blen = blen + piece_len + 1;
            proof {
                assert(acc@ =~= (acc0 + piece@) + seq!['\n']);
                assert(acc@ =~= acc0 + spec_words_string(cs[i as int].texts, '\n').push('\n'));
            }
            i = i + 1;
        }
        proof {
            if i < n {
                assert(spec_detect_from(cs.subrange(i as int, n as int), acc@) == acc@);
            } else {
                assert(cs.subrange(i as int, n as int) =~= Seq::<ContentV>::empty());
            }
        }
        chars_string(&acc)
    }

    fn segment(&self, model: &AIModel) -> (r: Vec<TEUnit>) {
        let budgets = model.translating_segment_tokens();
        let st = budgets.0;
        let ht = budgets.1;
        let ghost cs = self.deep_view();
        let mut list: Vec<TEUnit> = Vec::new();
        let ghost mut lv: Seq<UnitV> = Seq::<UnitV>::empty();
        let mut unit = TEUnit { tokens: 0, content: Vec::new() };
        let n = self.len();
        proof {
            assert(cs.subrange(0, n as int) =~= cs);
            assert(unit.content.deep_view() =~= Seq::<ContentV>::empty());
        }
        for i in 0..n
            invariant
                n == self@.len(),
                cs == self.deep_view(),
                st == 3000 && ht == 3400,
                list@.len() == lv.len(),
                forall|k: int| 0 <= k < lv.len() ==> (#[trigger] list@[k])@ == lv[k],
                spec_segment_from(
                    cs.subrange(i as int, n as int),
                    lv,
                    unit.tokens as nat,
                    unit.content.deep_view(),
                    st as nat,
                    ht as nat,
                ) == spec_segment(cs, st as nat, ht as nat),
                forall|k: int|
                    0 <= k < i ==> (has_texts(#[trigger] cs[k]) ==> item_tokens_tr(cs[k]) > 0),
        {
            proof {
                assert(cs.subrange(i as int, n as int).first() == cs[i as int]);
                assert(cs.subrange(i as int, n as int).drop_first() =~= cs.subrange(
                    i as int + 1,
                    n as int,
                ));
            }
            if self[i].texts.len() == 0 {
                if id_is_separator(&self[i].id) && unit.tokens >= st {
                    let ghost uv = unit@;
                    let ghost prev = list@;
                    list.push(unit);
                    unit = TEUnit { tokens: 0, content: Vec::new() };
                    proof {
                        lv = lv.push(uv);
                        assert forall|k: int|
                            0 <= k < lv.len() implies (#[trigger] list@[k])@ == lv[k] by {
                            if k < lv.len() - 1 {
                                assert(list@[k] == prev[k]);
                            }
                        }
                        assert(unit.content.deep_view() =~= Seq::<ContentV>::empty());
                    }
                }
            } else {
                let serialized = self[i].to_translating_string();
                let ctl = tokens_len(serialized.as_str());
                proof {
                    assert(cs[i as int] == self@[i as int]@);
                    assert(serialized@ == json_texts(cs[i as int].texts));
                    assert(json_texts(cs[i as int].texts).len() >= 2);
                    assert(ctl > 0);
                    assert(item_tokens_tr(cs[i as int]) > 0);
                }
                if ctl > ht || unit.tokens > ht - ctl {
                    if unit.content.len() > 0 {
                        let ghost uv = unit@;
                        let ghost prev = list@;
                        list.push(unit);
                        proof {
                            lv = lv.push(uv);
                            assert forall|k: int|
                                0 <= k < lv.len() implies (#[trigger] list@[k])@ == lv[k] by {
                                if k < lv.len() - 1 {
                                    assert(list@[k] == prev[k]);
                                }
                            }
                        }
                    }
                    let mut seeded: Vec<TEContent> = Vec::new();
                    seeded.push(self[i].clone());
                    unit = TEUnit { tokens: ctl, content: seeded };
                    proof {
                        assert(unit.content.deep_view() =~= seq![cs[i as int]]);
                    }
                } else {
                    let ghost uc = unit.content.deep_view();
                    let ghost prevc = unit.content@;
                    unit.tokens = unit.tokens + ctl;
                    unit.content.push(self[i].clone());
                    proof {
                        assert forall|k: int|
                            0 <= k < unit.content@.len() implies #[trigger] unit.content.deep_view()[k]
                            == uc.push(cs[i as int])[k] by {
                            if k < unit.content@.len() - 1 {
                                assert(unit.content@[k] == prevc[k]);
                            }
                        }
                        assert(unit.content.deep_view() =~= uc.push(cs[i as int]));
                    }
                }
            }
        }
        proof {
            assert(cs.subrange(n as int, n as int) =~= Seq::<ContentV>::empty());
        }
        if unit.tokens > 0 {
            let ghost uv = unit@;
            let ghost prev = list@;
            list.push(unit);
            proof {
                lv = lv.push(uv);
                assert forall|k: int| 0 <= k < lv.len() implies (#[trigger] list@[k])@ == lv[k] by {
                    if k < lv.len() - 1 {
                        assert(list@[k] == prev[k]);
                    }
                }
            }
        }
        proof {
            assert(list.deep_view() =~= lv);
            lemma_segment_roundtrip(cs, st as nat, ht as nat);
        }
        list
    }

    fn segment_for_summarizing(&self) -> (r: Vec<String>) {
        let ghost cs = self.deep_view();
        let mut list: Vec<String> = Vec::new();
        let ghost mut lv: Seq<Seq<char>> = Seq::<Seq<char>>::empty();
        let mut unit: Vec<String> = Vec::new();
        let ghost mut uv: Seq<Seq<char>> = Seq::<Seq<char>>::empty();
        let mut tokens: usize = 0;
        let n = self.len();
        proof {
            assert(cs.subrange(0, n as int) =~= cs);
        }
        for i in 0..n
            invariant
                n == self@.len(),
                cs == self.deep_view(),
                list@.len() == lv.len(),
                forall|k: int| 0 <= k < lv.len() ==> (#[trigger] list@[k])@ == lv[k],
                unit@.len() == uv.len(),
                forall|k: int| 0 <= k < uv.len() ==> (#[trigger] unit@[k])@ == uv[k],
                spec_segment_sum_from(
                    cs.subrange(i as int, n as int),
                    lv,
                    tokens as nat,
                    uv,
                ) == spec_segment_sum(cs),
        {
            proof {
                assert(cs.subrange(i as int, n as int).first() == cs[i as int]);
                assert(cs.subrange(i as int, n as int).drop_first() =~= cs.subrange(
                    i as int + 1,
                    n as int,
                ));
            }
            if self[i].texts.len() == 0 {
                if id_is_separator(&self[i].id) && tokens >= SUMMARIZE_SECTION_TOKENS {
                    proof {
                        assert(unit.deep_view() =~= uv);
                    }
                    let joined = crate::content::join_strings(&unit, "\n");
                    proof {
                        reveal_strlit("\n");
                        assert("\n"@ =~= seq!['\n']);
                    }
                    let ghost prev = list@;
                    list.push(joined);
                    tokens = 0;
                    unit = Vec::new();
                    proof {
                        lv = lv.push(join_with(uv, seq!['\n']));
                        uv = Seq::<Seq<char>>::empty();
                        assert forall|k: int|
                            0 <= k < lv.len() implies (#[trigger] list@[k])@ == lv[k] by {
                            if k < lv.len() - 1 {
                                assert(list@[k] == prev[k]);
                            }
                        }
                    }
                }
            } else {
                let strs = self[i].to_string(' ');
                let ctl = tokens_len(strs.as_str());
                if ctl > SUMMARIZE_HIGH_TOKENS || tokens > SUMMARIZE_HIGH_TOKENS - ctl {
                    if unit.len() > 0 {
                        proof {
                            assert(unit.deep_view() =~= uv);
                        }
                        let joined = crate::content::join_strings(&unit, "\n");
                        proof {
                            reveal_strlit("\n");
                            assert("\n"@ =~= seq!['\n']);
                        }
                        let ghost prev = list@;
                        list.push(joined);
                        proof {
                            lv = lv.push(join_with(uv, seq!['\n']));
                            assert forall|k: int|
                                0 <= k < lv.len() implies (#[trigger] list@[k])@ == lv[k] by {
                                if k < lv.len() - 1 {
                                    assert(list@[k] == prev[k]);
                                }
                            }
                        }
                    }
                    tokens = ctl;
                    unit = Vec::new();
                    unit.push(strs);
                    proof {
                        uv = seq![spec_words_string(cs[i as int].texts, ' ')];
                    }
                } else {
                    let ghost prevu = unit@;
                    tokens = tokens + ctl;
                    unit.push(strs);
                    proof {
                        uv = uv.push(spec_words_string(cs[i as int].texts, ' '));
                        assert forall|k: int|
                            0 <= k < uv.len() implies (#[trigger] unit@[k])@ == uv[k] by {
                            if k < uv.len() - 1 {
                                assert(unit@[k] == prevu[k]);
                            }
                        }
                    }
                }
            }
        }
        proof {
            assert(cs.subrange(n as int, n as int) =~= Seq::<ContentV>::empty());
        }
        if tokens > 0 {
            proof {
                assert(unit.deep_view() =~= uv);
            }
            let joined = crate::content::join_strings(&unit, "\n");
            proof {
                reveal_strlit("\n");
                assert("\n"@ =~= seq!['\n']);
            }
            let ghost prev = list@;
            list.push(joined);
            proof {
                lv = lv.push(join_with(uv, seq!['\n']));
                assert forall|k: int| 0 <= k < lv.len() implies (#[trigger] list@[k])@ == lv[k] by {
                    if k < lv.len() - 1 {
                        assert(list@[k] == prev[k]);
                    }
                }
            }
        }
        proof {
            assert(list.deep_view() =~= lv);
        }
        list
    }

    fn segment_for_embedding(&self) -> (r: Vec<Vec<TEUnit>>) {
        let ghost cs = self.deep_view();
        let mut list: Vec<Vec<TEUnit>> = Vec::new();
        let ghost mut lv: Seq<Seq<UnitV>> = Seq::<Seq<UnitV>>::empty();
        let mut group: Vec<TEUnit> = Vec::new();
        let ghost mut gv: Seq<UnitV> = Seq::<UnitV>::empty();
        let mut group_tokens: usize = 0;
        let mut unit = TEUnit { tokens: 0, content: Vec::new() };
        let n = self.len();
        proof {
            assert(cs.subrange(0, n as int) =~= cs);
            assert(unit.content.deep_view() =~= Seq::<ContentV>::empty());
        }
        for i in 0..n
            invariant
                n == self@.len(),
                cs == self.deep_view(),
                list@.len() == lv.len(),
                forall|k: int| 0 <= k < lv.len() ==> (#[trigger] list@[k]).deep_view() == lv[k],
                group@.len() == gv.len(),
                forall|k: int| 0 <= k < gv.len() ==> (#[trigger] group@[k])@ == gv[k],
                spec_segment_emb_from(
                    cs.subrange(i as int, n as int),
                    lv,
                    gv,
                    group_tokens as nat,
                    unit.tokens as nat,
                    unit.content.deep_view(),
                ) == spec_segment_emb(cs),
        {
            proof {
                assert(cs.subrange(i as int, n as int).first() == cs[i as int]);
                assert(cs.subrange(i as int, n as int).drop_first() =~= cs.subrange(
                    i as int + 1,
                    n as int,
                ));
            }
            if self[i].texts.len() == 0 {
                if id_is_separator(&self[i].id) {
                    if unit.tokens >= EMBEDDING_SECTION_TOKENS {
                        let ghost uv = unit@;
                        let ghost prevg = group@;
                        group_tokens = usat_add(group_tokens, unit.tokens);
                        group.push(unit);
                        unit = TEUnit { tokens: 0, content: Vec::new() };
                        proof {
                            gv = gv.push(uv);
                            assert forall|k: int|
                                0 <= k < gv.len() implies (#[trigger] group@[k])@ == gv[k] by {
                                if k < gv.len() - 1 {
                                    assert(group@[k] == prevg[k]);
                                }
                            }
                            assert(unit.content.deep_view() =~= Seq::<ContentV>::empty());
                        }
                    }
                    if group_tokens >= EMBEDDING_MAX_TOKENS || group.len() >= EMBEDDING_MAX_ARRAY {
                        proof {
                            assert(group.deep_view() =~= gv);
                        }
                        let ghost prevl = list@;
                        list.push(group);
                        group_tokens = 0;
                        group = Vec::new();
                        proof {
                            lv = lv.push(gv);
                            gv = Seq::<UnitV>::empty();
                            assert forall|k: int|
                                0 <= k < lv.len() implies (#[trigger] list@[k]).deep_view()
                                == lv[k] by {
                                if k < lv.len() - 1 {
                                    assert(list@[k] == prevl[k]);
                                }
                            }
                        }
                    }
                }
            } else {
                let strs = self[i].to_string(' ');
                let ctl = tokens_len(strs.as_str());
                if ctl >= EMBEDDING_HIGH_TOKENS || unit.tokens >= EMBEDDING_HIGH_TOKENS - ctl {
                    let ghost uc = unit.content.deep_view();
                    let ghost prevc = unit.content@;
                    unit.tokens = usat_add(unit.tokens, ctl);
                    unit.content.push(self[i].clone());
                    proof {
                        assert forall|k: int|
                            0 <= k < unit.content@.len() implies #[trigger] unit.content.deep_view()[k]
                            == uc.push(cs[i as int])[k] by {
                            if k < unit.content@.len() - 1 {
                                assert(unit.content@[k] == prevc[k]);
                            }
                        }
                        assert(unit.content.deep_view() =~= uc.push(cs[i as int]));
                    }
                    let ghost uv = unit@;
                    let ghost prevg = group@;
                    group_tokens = usat_add(group_tokens, unit.tokens);
                    group.push(unit);
                    unit = TEUnit { tokens: 0, content: Vec::new() };
                    proof {
                        gv = gv.push(uv);
                        assert forall|k: int|
                            0 <= k < gv.len() implies (#[trigger] group@[k])@ == gv[k] by {
                            if k < gv.len() - 1 {
                                assert(group@[k] == prevg[k]);
                            }
                        }
                        assert(unit.content.deep_view() =~= Seq::<ContentV>::empty());
                    }
                    if group_tokens >= EMBEDDING_MAX_TOKENS || group.len() >= EMBEDDING_MAX_ARRAY {
                        proof {
                            assert(group.deep_view() =~= gv);
                        }
                        let ghost prevl = list@;
                        list.push(group);
                        group_tokens = 0;
                        group = Vec::new();
                        proof {
                            lv = lv.push(gv);
                            gv = Seq::<UnitV>::empty();
                            assert forall|k: int|
                                0 <= k < lv.len() implies (#[trigger] list@[k]).deep_view()
                                == lv[k] by {
                                if k < lv.len() - 1 {
                                    assert(list@[k] == prevl[k]);
                                }
                            }
                        }
                    }
                } else {
                    let ghost uc = unit.content.deep_view();
                    let ghost prevc = unit.content@;
                    unit.tokens = unit.tokens + ctl;
                    unit.content.push(self[i].clone());
                    proof {
                        assert forall|k: int|
                            0 <= k < unit.content@.len() implies #[trigger] unit.content.deep_view()[k]
                            == uc.push(cs[i as int])[k] by {
                            if k < unit.content@.len() - 1 {
                                assert(unit.content@[k] == prevc[k]);
                            }
                        }
                        assert(unit.content.deep_view() =~= uc.push(cs[i as int]));
                    }
                }
            }
        }
        proof {
            assert(cs.subrange(n as int, n as int) =~= Seq::<ContentV>::empty());
        }
        if unit.tokens > 0 {
            let ghost uv = unit@;
            let ghost prevg = group@;
            group_tokens = usat_add(group_tokens, unit.tokens);
            group.push(unit);
            proof {
                gv = gv.push(uv);
                assert forall|k: int| 0 <= k < gv.len() implies (#[trigger] group@[k])@ == gv[k] by {
                    if k < gv.len() - 1 {
                        assert(group@[k] == prevg[k]);
                    }
                }
            }
        }
        if group_tokens > 0 {
            proof {
                assert(group.deep_view() =~= gv);
            }
            let ghost prevl = list@;
            list.push(group);
            proof {
                lv = lv.push(gv);
                assert forall|k: int|
                    0 <= k < lv.len() implies (#[trigger] list@[k]).deep_view() == lv[k] by {
                    if k < lv.len() - 1 {
                        assert(list@[k] == prevl[k]);
                    }
                }
            }
        }
        proof {
            assert(list.deep_view() =~= lv);
        }
        list
    }
}

/// A unit the translation segmenter may emit: within the high budget, or a
/// single item whose own tokens pass it.
pub open spec fn unit_within_budget(u: UnitV, ht: nat) -> bool {
    u.tokens <= ht || (u.content.len() == 1 && u.tokens == item_tokens_tr(u.content[0]))
}

proof fn lemma_segment_from_bound(
    cs: Seq<ContentV>,
    acc: Seq<UnitV>,
    cur_t: nat,
    cur_c: Seq<ContentV>,
    st: nat,
    ht: nat,
)
    requires
        all_units_within_budget(acc, ht),
        cur_t <= ht || (cur_c.len() == 1 && cur_t == item_tokens_tr(cur_c[0])),
    ensures
        all_units_within_budget(spec_segment_from(cs, acc, cur_t, cur_c, st, ht), ht),
    decreases cs.len(),
{
    let u = UnitV { tokens: cur_t, content: cur_c };
    if cs.len() == 0 {
        if cur_t > 0 {
            lemma_push_within_budget(acc, u, ht);
        }
    } else {
        let c = cs.first();
        let rest = cs.drop_first();
        if c.texts.len() == 0 {
            if is_separator_id(c.id) && cur_t >= st {
                lemma_push_within_budget(acc, u, ht);
                lemma_segment_from_bound(
                    rest,
                    acc.push(u),
                    0,
                    Seq::<ContentV>::empty(),
                    st,
                    ht,
                );
            } else {
                lemma_segment_from_bound(rest, acc, cur_t, cur_c, st, ht);
            }
        } else {
            let ctl = item_tokens_tr(c);
            if cur_t + ctl > ht {
                let acc2 = if cur_c.len() > 0 {
                    lemma_push_within_budget(acc, u, ht);
                    acc.push(u)
                } else {
                    acc
                };
                assert(seq![c][0] == c);
                lemma_segment_from_bound(rest, acc2, ctl, seq![c], st, ht);
            } else {
                lemma_segment_from_bound(rest, acc, cur_t + ctl, cur_c.push(c), st, ht);
            }
        }
    }
}

proof fn lemma_push_within_budget(acc: Seq<UnitV>, u: UnitV, ht: nat)
    requires
        all_units_within_budget(acc, ht),
        unit_within_budget(u, ht),
    ensures
        all_units_within_budget(acc.push(u), ht),
{
    let res = acc.push(u);
    assert forall|k: int| 0 <= k < res.len() implies unit_within_budget(#[trigger] res[k], ht) by {
        if k < acc.len() {
            assert(res[k] == acc[k]);
            assert(unit_within_budget(acc[k], ht));
        } else {
            assert(res[k] == u);
        }
    }
}

/// Every unit in the list is within the budget or a lone oversized item.
pub open spec fn all_units_within_budget(us: Seq<UnitV>, ht: nat) -> bool {
    forall|k: int| 0 <= k < us.len() ==> unit_within_budget(#[trigger] us[k], ht)
}

/// Segmenter token bound: every translation unit stays within the high
/// budget, unless it is a single item whose tokens alone pass it.
pub proof fn lemma_segment_token_bound(cs: Seq<ContentV>, st: nat, ht: nat)
    ensures
        all_units_within_budget(spec_segment(cs, st, ht), ht),
{
    lemma_segment_from_bound(cs, Seq::<UnitV>::empty(), 0, Seq::<ContentV>::empty(), st, ht);
}

/// All items the units bundle, in order.
pub open spec fn concat_units(us: Seq<UnitV>) -> Seq<ContentV>
    decreases us.len(),
{
    if us.len() == 0 {
        Seq::<ContentV>::empty()
    } else {
        concat_units(us.drop_last()) + us.last().content
    }
}

pub open spec fn has_texts(c: ContentV) -> bool {
    c.texts.len() > 0
}

proof fn lemma_concat_units_push(us: Seq<UnitV>, u: UnitV)
    ensures
        concat_units(us.push(u)) == concat_units(us) + u.content,
{
    assert(us.push(u).drop_last() =~= us);
    assert(us.push(u).last() == u);
}

proof fn lemma_segment_from_roundtrip(
    cs: Seq<ContentV>,
    acc: Seq<UnitV>,
    cur_t: nat,
    cur_c: Seq<ContentV>,
    st: nat,
    ht: nat,
)
    requires
        cur_t == 0 ==> cur_c.len() == 0,
        forall|k: int|
            0 <= k < cs.len() ==> (has_texts(#[trigger] cs[k]) ==> item_tokens_tr(cs[k]) > 0),
    ensures
        concat_units(spec_segment_from(cs, acc, cur_t, cur_c, st, ht)) == concat_units(acc)
            + cur_c + cs.filter(|c: ContentV| has_texts(c)),
    decreases cs.len(),
{
    let pred = |c: ContentV| has_texts(c);
    reveal_with_fuel(Seq::<ContentV>::filter, 2);
    if cs.len() == 0 {
        assert(cs.filter(pred) =~= Seq::<ContentV>::empty());
        if cur_t > 0 {
            lemma_concat_units_push(acc, UnitV { tokens: cur_t, content: cur_c });
            assert(concat_units(acc) + cur_c + cs.filter(pred) =~= concat_units(acc) + cur_c);
        } else {
            assert(cur_c =~= Seq::<ContentV>::empty());
            assert(concat_units(acc) + cur_c + cs.filter(pred) =~= concat_units(acc));
        }
    } else {
        let c = cs.first();
        let rest = cs.drop_first();
        assert(cs =~= seq![c] + rest);
        Seq::<ContentV>::filter_distributes_over_add(seq![c], rest, pred);
        assert(seq![c].drop_last() =~= Seq::<ContentV>::empty());
        assert(forall|k: int|
            0 <= k < rest.len() ==> (has_texts(#[trigger] rest[k]) ==> item_tokens_tr(rest[k])
                > 0)) by {
            assert(forall|k: int| 0 <= k < rest.len() ==> rest[k] == cs[k + 1]);
        }
        if c.texts.len() == 0 {
            assert(seq![c].filter(pred) =~= Seq::<ContentV>::empty());
            assert(cs.filter(pred) == rest.filter(pred));
            if is_separator_id(c.id) && cur_t >= st {
                let acc2 = acc.push(UnitV { tokens: cur_t, content: cur_c });
                lemma_segment_from_roundtrip(rest, acc2, 0, Seq::<ContentV>::empty(), st, ht);
                lemma_concat_units_push(acc, UnitV { tokens: cur_t, content: cur_c });
                assert(concat_units(acc2) + Seq::<ContentV>::empty() + rest.filter(pred)
                    =~= concat_units(acc) + cur_c + cs.filter(pred));
            } else {
                lemma_segment_from_roundtrip(rest, acc, cur_t, cur_c, st, ht);
            }
        } else {
            assert(has_texts(c));
            assert(seq![c].filter(pred) =~= seq![c]);
            assert(cs.filter(pred) == seq![c] + rest.filter(pred));
            let ctl = item_tokens_tr(c);
            assert(ctl > 0);
            if cur_t + ctl > ht {
                let acc2 = if cur_c.len() > 0 {
                    acc.push(UnitV { tokens: cur_t, content: cur_c })
                } else {
                    acc
                };
                lemma_segment_from_roundtrip(rest, acc2, ctl, seq![c], st, ht);
                if cur_c.len() > 0 {
                    lemma_concat_units_push(acc, UnitV { tokens: cur_t, content: cur_c });
                }
                assert(concat_units(acc2) + seq![c] + rest.filter(pred) =~= concat_units(acc)
                    + cur_c + cs.filter(pred));
            } else {
                lemma_segment_from_roundtrip(rest, acc, cur_t + ctl, cur_c.push(c), st, ht);
                assert(concat_units(acc) + cur_c.push(c) + rest.filter(pred) =~= concat_units(acc)
                    + cur_c + cs.filter(pred));
            }
        }
    }
}

/// Segmenter round trip: the units' contents, concatenated in order, are
/// exactly the items that carry texts, in their original order. The premise
/// asks that the tokenizer charge at least one token per such item; the
/// tokenizer's contract gives exactly that for every count the segmenter
/// computes (a serialized item is never empty), so `segment` carries the
/// round trip unconditionally in its own `ensures`.
pub proof fn lemma_segment_roundtrip(cs: Seq<ContentV>, st: nat, ht: nat)
    requires
        forall|k: int|
            0 <= k < cs.len() ==> (has_texts(#[trigger] cs[k]) ==> item_tokens_tr(cs[k]) > 0),
    ensures
        concat_units(spec_segment(cs, st, ht)) == cs.filter(|c: ContentV| has_texts(c)),
{
    lemma_segment_from_roundtrip(cs, Seq::<UnitV>::empty(), 0, Seq::<ContentV>::empty(), st, ht);
}

fn append_chars_seg(out: &mut Vec<char>, t: &Vec<char>)
    ensures
        final(out)@ == old(out)@ + t@,
{
    let m = t.len();
    for ci in 0..m
        invariant
            m == t@.len(),
            out@ == old(out)@ + t@.subrange(0, ci as int),
    {
        out.push(t[ci]);
        proof {
            assert(out@ =~= old(out)@ + t@.subrange(0, ci as int + 1));
        }
    }
    proof {
        assert(t@.subrange(0, m as int) =~= t@);
        assert(out@ =~= old(out)@ + t@);
    }
}

} // verus!
