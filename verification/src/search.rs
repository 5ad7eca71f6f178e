//! The search path's decisions: query normalization and the cheap skip,
//! the conjunction filter, the collection choice, and deduplication of the
//! hydrated hits. Embedding the query and running the vector lookup stay
//! outside.

use vstd::prelude::*;

use crate::chars::{char_is_space, chars_string, str_chars};
use crate::content::collapse_rec;
use crate::erring::HTTPError;
use crate::ids::Xid;
use crate::lang::Language;
use crate::tokenizer::{token_count, tokens_len};

verus! {

/// The query with every whitespace run collapsed to one space.
pub open spec fn spec_collapse_query(s: Seq<char>) -> Seq<char> {
    collapse_rec(s, false, Seq::<char>::empty(), ' ')
}

fn collapse_query(s: &str) -> (r: String)
    ensures
        r@ == spec_collapse_query(s@),
{
    let v = str_chars(s);
    let mut out: Vec<char> = Vec::new();
    let mut in_word = false;
    let n = v.len();
    proof {
        assert(v@.subrange(0, n as int) =~= v@);
    }
    for i in 0..n
        invariant
            n == v@.len(),
            v@ == s@,
            collapse_rec(s@.subrange(i as int, n as int), in_word, out@, ' ')
                == spec_collapse_query(s@),
    {
        proof {
            assert(s@.subrange(i as int, n as int).first() == s@[i as int]);
            assert(s@.subrange(i as int, n as int).drop_first() =~= s@.subrange(
                i as int + 1,
                n as int,
            ));
        }
        let c = v[i];
        if char_is_space(c) {
            in_word = false;
        } else {
            if !in_word && out.len() > 0 {
                out.push(' ');
                out.push(c);
            } else {
                out.push(c);
            }
            in_word = true;
        }
    }
    proof {
        assert(s@.subrange(n as int, n as int) =~= Seq::<char>::empty());
    }
    chars_string(&out)
}

/// Prepares a search: an empty input is refused; a normalized query the
/// tokenizer counts below five is skipped without touching the model or the
/// vector store; otherwise the normalized query is handed on.
pub fn search_prepare(input: &str) -> (r: Result<Option<String>, HTTPError>)
    ensures
        match r {
            Ok(plan) => {
                &&& input@.len() > 0
                &&& match plan {
                    None => token_count(spec_collapse_query(input@)) < 5,
                    Some(q) => q@ == spec_collapse_query(input@) && token_count(q@) >= 5,
                }
            },
            Err(e) => e.code == 400 && input@.len() == 0,
        },
{
    if input.is_empty() {
        return Err(HTTPError::new(400, String::from_str("Input is empty")));
    }
    let q = collapse_query(input);
    let tokens = tokens_len(q.as_str());
    if tokens < 5 {
        Ok(None)
    } else {
        Ok(Some(q))
    }
}

/// The conjunction filter of a search: one `(field, value)` pair per given
/// key, in the order group id, language, creation id; no pairs means no
/// filter.
pub fn build_filter(
    gid: Option<String>,
    language: Option<String>,
    cid: Option<String>,
) -> (r: Option<Vec<(String, String)>>)
    ensures
        ({
            let want = filter_pairs(gid, language, cid);
            match r {
                None => want.len() == 0,
                Some(ps) => want.len() > 0 && ps@.len() == want.len() && (forall|k: int|
                    0 <= k < want.len() ==> ((#[trigger] ps@[k]).0@, ps@[k].1@) == want[k]),
            }
        }),
{
    let ghost want = filter_pairs(gid, language, cid);
    let mut ps: Vec<(String, String)> = Vec::new();
    match gid {
        Some(g) => {
            ps.push((String::from_str("gid"), g));
        },
        None => {},
    }
    match language {
        Some(l) => {
            let ghost before = ps@;
            ps.push((String::from_str("language"), l));
            proof {
                assert(forall|k: int| 0 <= k < before.len() ==> ps@[k] == before[k]);
            }
        },
        None => {},
    }
    match cid {
        Some(c) => {
            let ghost before = ps@;
            ps.push((String::from_str("cid"), c));
            proof {
                assert(forall|k: int| 0 <= k < before.len() ==> ps@[k] == before[k]);
            }
        },
        None => {},
    }
    if ps.len() == 0 {
        None
    } else {
        Some(ps)
    }
}

/// The filter pairs a search with these keys carries.
pub open spec fn filter_pairs(
    gid: Option<String>,
    language: Option<String>,
    cid: Option<String>,
) -> Seq<(Seq<char>, Seq<char>)> {
    (match gid {
        Some(g) => seq![("gid"@, g@)],
        None => Seq::empty(),
    }) + (match language {
        Some(l) => seq![("language"@, l@)],
        None => Seq::empty(),
    }) + (match cid {
        Some(c) => seq![("cid"@, c@)],
        None => Seq::empty(),
    })
}

/// Which collection a search runs against: without a group id the public
/// mirror is forced; otherwise the caller's flag decides.
pub fn choose_public(gid_present: bool, public_flag: Option<bool>) -> (r: bool)
    ensures
        r == (!gid_present || public_flag == Some(true)),
{
    let base = match public_flag {
        Some(b) => b,
        None => false,
    };
    if !gid_present {
        true
    } else {
        base
    }
}

/// One hydrated search hit.
pub struct SearchHit {
    pub gid: Xid,
    pub cid: Xid,
    pub language: Language,
    pub version: u16,
}

/// Whether some hit in the list already carries this creation id.
pub open spec fn cid_taken(hs: Seq<SearchHit>, c: Seq<u8>) -> bool {
    exists|k: int| 0 <= k < hs.len() && (#[trigger] hs[k]).cid@ == c
}

/// The list with every later duplicate creation dropped: the first hit for
/// each creation wins.
pub open spec fn spec_dedupe(hs: Seq<SearchHit>, acc: Seq<SearchHit>) -> Seq<SearchHit>
    decreases hs.len(),
{
    if hs.len() == 0 {
        acc
    } else if cid_taken(acc, hs.first().cid@) {
        spec_dedupe(hs.drop_first(), acc)
    } else {
        spec_dedupe(hs.drop_first(), acc.push(hs.first()))
    }
}

/// No two hits share a creation id.
pub open spec fn distinct_cids(hs: Seq<SearchHit>) -> bool {
    forall|i: int, j: int| 0 <= i < j < hs.len() ==> (#[trigger] hs[i]).cid@ != (#[trigger] hs[j]).cid@
}

/// Search dedupe: whatever hits come back, the deduplicated list never
/// holds two results for the same creation.
pub proof fn lemma_dedupe_distinct(hs: Seq<SearchHit>, acc: Seq<SearchHit>)
    requires
        distinct_cids(acc),
    ensures
        distinct_cids(spec_dedupe(hs, acc)),
    decreases hs.len(),
{
    if hs.len() > 0 {
        if cid_taken(acc, hs.first().cid@) {
            lemma_dedupe_distinct(hs.drop_first(), acc);
        } else {
            let acc2 = acc.push(hs.first());
            assert forall|i: int, j: int| 0 <= i < j < acc2.len() implies (#[trigger] acc2[i]).cid@
                != (#[trigger] acc2[j]).cid@ by {
                if j < acc.len() {
                    assert(acc2[i] == acc[i] && acc2[j] == acc[j]);
                } else {
                    assert(acc2[j] == hs.first());
                    assert(acc2[i] == acc[i]);
                    assert(!cid_taken(acc, hs.first().cid@));
                    assert(acc[i].cid@ != hs.first().cid@);
                }
            }
            lemma_dedupe_distinct(hs.drop_first(), acc2);
        }
    }
}

fn hit_cid_taken(hs: &Vec<SearchHit>, c: &Xid) -> (r: bool)
    ensures
        r == cid_taken(hs@, c@),
{
    let n = hs.len();
    for i in 0..n
        invariant
            n == hs@.len(),
            forall|k: int| 0 <= k < i ==> (#[trigger] hs@[k]).cid@ != c@,
    {
        if hs[i].cid.eq_id(c) {
            return true;
        }
    }
    false
}

/// Deduplicates the hydrated hits by creation id, first hit winning; the
/// result never holds two hits for one creation.
pub fn dedupe_by_cid(hits: Vec<SearchHit>) -> (r: Vec<SearchHit>)
    ensures
        r@ == spec_dedupe(hits@, Seq::<SearchHit>::empty()),
        distinct_cids(r@),
{
    let ghost hv = hits@;
    let mut rest = hits;
    let mut out: Vec<SearchHit> = Vec::new();
    while rest.len() > 0
        invariant
            out@.len() + rest@.len() <= hv.len(),
            rest@ =~= hv.subrange(hv.len() - rest@.len(), hv.len() as int),
            spec_dedupe(rest@, out@) == spec_dedupe(hv, Seq::<SearchHit>::empty()),
        decreases rest@.len(),
    {
        let ghost done = (hv.len() - rest@.len()) as int;
        let h = rest.remove(0);
        proof {
            assert(hv.subrange(done, hv.len() as int)[0] == hv[done]);
            assert(rest@ =~= hv.subrange(done + 1, hv.len() as int));
        }
        if !hit_cid_taken(&out, &h.cid) {
            out.push(h);
        }
    }
    proof {
        lemma_dedupe_distinct(hv, Seq::<SearchHit>::empty());
    }
    out
}

} // verus!
