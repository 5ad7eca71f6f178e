//! The job runners' bookkeeping: ordered collection of piece results,
//! progress arithmetic, the freshness check that makes `create` idempotent,
//! and the summary post-processing. The runners' network calls stay
//! outside; these functions take the results as plain values.

use vstd::prelude::*;

use crate::chars::{chars_string, dec_chars, spec_dec, spec_trim, str_chars, trim_chars};
use crate::content::join_with;
use crate::ids::{xid_str_of, Xid};
use crate::lang::Language;
use crate::segment::SUMMARIZE_HIGH_TOKENS;
use crate::tokenizer::{token_count, tokens_len};

verus! {

/// An indexed result store: piece `i`'s output lands in slot `i`, whatever
/// order the workers finish in.
pub struct Collector<T> {
    slots: Vec<Option<T>>,
    done: usize,
    tokens: i64,
}

impl<T> Collector<T> {
    pub closed spec fn total(&self) -> int {
        self.slots@.len() as int
    }

    pub closed spec fn done_count(&self) -> int {
        self.done as int
    }

    pub closed spec fn tokens_count(&self) -> int {
        self.tokens as int
    }

    pub closed spec fn slot(&self, i: int) -> Option<T> {
        self.slots@[i]
    }

    pub closed spec fn wf(&self) -> bool {
        self.done as int <= self.slots@.len()
    }

    /// An empty collector for `total` pieces.
    pub fn new(total: usize) -> (r: Self)
        ensures
            r.total() == total,
            r.done_count() == 0,
            r.tokens_count() == 0,
            forall|i: int| 0 <= i < total ==> r.slot(i) is None,
            r.wf(),
    {
        let mut slots: Vec<Option<T>> = Vec::new();
        let mut i: usize = 0;
        while i < total
            invariant
                i <= total,
                slots@.len() == i,
                forall|k: int| 0 <= k < i ==> slots@[k] is None,
            decreases total - i,
        {
            slots.push(None);
            i = i + 1;
        }
        Collector { slots, done: 0, tokens: 0 }
    }

    /// Records piece `i`: the slot fills, the finished count rises by one,
    /// and the token total grows (capped at the counter's width).
    pub fn record(&mut self, i: usize, used_tokens: u32, piece: T)
        requires
            old(self).wf(),
            i < old(self).total(),
            old(self).slot(i as int) is None,
            old(self).done_count() < old(self).total(),
            old(self).tokens_count() >= 0,
        ensures
            final(self).wf(),
            final(self).total() == old(self).total(),
            final(self).done_count() == old(self).done_count() + 1,
            final(self).slot(i as int) matches Some(p) && p == piece,
            forall|k: int|
                0 <= k < old(self).total() && k != i ==> final(self).slot(k) == old(self).slot(k),
            final(self).tokens_count() == if old(self).tokens_count() + used_tokens
                <= i64::MAX as int {
                old(self).tokens_count() + used_tokens
            } else {
                i64::MAX as int
            },
            final(self).tokens_count() >= 0,
    {
        // reading the live length gives the verifier the bound the
        // increment below needs
        let _slot_bound = self.slots.len();
        self.slots.set(i, Some(piece));
        self.done = self.done + 1;
        if self.tokens > i64::MAX - used_tokens as i64 {
            self.tokens = i64::MAX;
        } else {
            self.tokens = self.tokens + used_tokens as i64;
        }
    }

    /// The finished count and the total.
    pub fn progress_parts(&self) -> (r: (usize, usize))
        ensures
            r.0 == self.done_count(),
            r.1 == self.total(),
    {
        (self.done, self.slots.len())
    }

    /// The token total so far.
    pub fn tokens_so_far(&self) -> (r: i64)
        ensures
            r == self.tokens_count(),
    {
        self.tokens
    }

    /// Whether every piece has arrived.
    pub fn is_complete(&self) -> (r: bool)
        ensures
            r == (self.done_count() == self.total()),
    {
        self.done == self.slots.len()
    }

    /// Hands the pieces out in index order once all have arrived.
    pub fn finish(self) -> (r: Vec<T>)
        requires
            self.wf(),
            self.done_count() == self.total(),
            forall|i: int| 0 <= i < self.total() ==> self.slot(i) is Some,
        ensures
            r@.len() == self.total(),
            forall|i: int| 0 <= i < self.total() ==> ((#[trigger] self.slot(i)) matches Some(p) && p == r@[i]),
    {
        proof {
            assert forall|i: int| 0 <= i < self.slots@.len() implies self.slots@[i] is Some by {
                assert(self.slot(i) is Some);
            }
        }
        let mut slots = self.slots;
        let ghost sv = slots@;
        let mut out: Vec<T> = Vec::new();
        while slots.len() > 0
            invariant
                sv.len() == out@.len() + slots@.len(),
                slots@ =~= sv.subrange(out@.len() as int, sv.len() as int),
                forall|k: int| 0 <= k < out@.len() ==> ((#[trigger] sv[k]) matches Some(p) && p == out@[k]),
                forall|i: int| 0 <= i < sv.len() ==> sv[i] is Some,
            decreases slots@.len(),
        {
            let ghost donei = out@.len() as int;
            let x = slots.remove(0);
            proof {
                assert(sv.subrange(donei, sv.len() as int)[0] == sv[donei]);
                assert(slots@ =~= sv.subrange(donei + 1, sv.len() as int));
            }
            match x {
                Some(p) => {
                    let ghost po = out@;
                    out.push(p);
                    proof {
                        assert forall|k: int|
                            0 <= k < out@.len() implies ((#[trigger] sv[k]) matches Some(q) && q
                            == out@[k]) by {
                            if k < po.len() {
                                assert(out@[k] == po[k]);
                            }
                        }
                    }
                },
                None => {
                    proof {
                        assert(sv[donei] is Some);
                    }
                    unreached()
                },
            }
        }
        out
    }
}

/// The progress written after `done` of `total` pieces.
pub fn progress_value(done: usize, total: usize) -> (r: i8)
    requires
        0 < total,
        done <= total,
    ensures
        r == done as int * 100 / total as int,
        0 <= r <= 100,
{
    proof {
        lemma_progress_monotonic(done as int, done as int, total as int);
        lemma_progress_bounds(done as int, total as int);
    }
    ((done as u128 * 100) / (total as u128)) as i8
}

proof fn lemma_progress_bounds(d: int, n: int)
    requires
        0 <= d <= n,
        0 < n,
    ensures
        0 <= d * 100 / n <= 100,
        d == n ==> d * 100 / n == 100,
{
    assert(0 <= d * 100 / n <= 100) by (nonlinear_arith)
        requires
            0 <= d <= n,
            0 < n,
    ;
    if d == n {
        assert(n * 100 / n == 100) by (nonlinear_arith)
            requires
                0 < n,
        ;
    }
}

/// Progress monotonicity: with every finished piece the persisted progress
/// can only rise, and it reaches one hundred exactly when the last piece
/// lands.
pub proof fn lemma_progress_monotonic(d1: int, d2: int, n: int)
    requires
        0 <= d1 <= d2 <= n,
        0 < n,
    ensures
        d1 * 100 / n <= d2 * 100 / n,
        d2 * 100 / n <= 100,
        d2 == n ==> d2 * 100 / n == 100,
{
    assert(d1 * 100 / n <= d2 * 100 / n) by (nonlinear_arith)
        requires
            0 <= d1 <= d2,
            0 < n,
    ;
    lemma_progress_bounds(d2, n);
}

/// Whether a fresh, error-free row suppresses a new job: the model matches,
/// the row carries no error, and it was written within the hour.
pub fn is_fresh(model_matches: bool, error_empty: bool, now_ms: i64, updated_at: i64) -> (r: bool)
    ensures
        r == (model_matches && error_empty && (now_ms as int - updated_at as int) < 3600000),
{
    model_matches && error_empty && (now_ms as i128 - updated_at as i128) < 3600000i128
}

/// The cache key of a message-translation job.
pub fn mt_key(id: &Xid, lang: &Language, version: u16) -> (r: String)
    requires
        id.wf(),
    ensures
        r@ == "MT:"@ + xid_str_of(id@) + ":"@ + lang@ + ":"@ + spec_dec(version as nat),
{
    let mut r = String::from_str("MT:");
    let ids = id.to_string();
    r.append(ids.as_str());
    r.append(":");
    let lc = lang.to_639_3();
    r.append(lc.as_str());
    r.append(":");
    let num = dec_chars(version as u64);
    let ns = chars_string(&num);
    r.append(ns.as_str());
    r
}

/// Whether the graceful shutdown may finish: the countdown ran out, or both
/// sentinel counts dropped back to one.
pub fn shutdown_done(secs_left: usize, translating_count: usize, embedding_count: usize) -> (r:
    bool)
    ensures
        r == (secs_left == 0 || (translating_count <= 1 && embedding_count <= 1)),
{
    secs_left == 0 || (translating_count <= 1 && embedding_count <= 1)
}

/// The number of live jobs a sentinel's reference count stands for: one
/// less than the count.
pub fn live_jobs(strong_count: usize) -> (r: i64)
    requires
        1 <= strong_count,
        strong_count as int <= i64::MAX as int,
    ensures
        r == strong_count as int - 1,
{
    strong_count as i64 - 1
}

/// The token sum of the pieces.
pub open spec fn sum_tokens(ps: Seq<Seq<char>>) -> int
    decreases ps.len(),
{
    if ps.len() == 0 {
        0int
    } else {
        sum_tokens(ps.drop_last()) + token_count(ps.last())
    }
}

/// The index the middle-trim removes next: just past the middle, but never
/// the head and never the tail.
pub open spec fn trim_middle_index(len: int) -> int {
    if len / 2 + 1 > len - 2 {
        len - 2
    } else {
        len / 2 + 1
    }
}

/// The middle-trim of the summary pieces: while more than two pieces
/// together pass the summary budget, a middle piece is dropped; the head
/// and tail pieces always stay.
pub open spec fn spec_trim_middle(ps: Seq<Seq<char>>) -> Seq<Seq<char>>
    decreases ps.len(),
{
    if ps.len() > 2 && sum_tokens(ps) > SUMMARIZE_HIGH_TOKENS as int {
        spec_trim_middle(ps.remove(trim_middle_index(ps.len() as int)))
    } else {
        ps
    }
}

/// The middle-trim keeps the first and last pieces and never goes below
/// two pieces.
pub proof fn lemma_trim_middle_keeps_ends(ps: Seq<Seq<char>>)
    requires
        ps.len() >= 2,
    ensures
        spec_trim_middle(ps).len() >= 2,
        spec_trim_middle(ps).first() == ps.first(),
        spec_trim_middle(ps).last() == ps.last(),
    decreases ps.len(),
{
    if ps.len() > 2 && sum_tokens(ps) > SUMMARIZE_HIGH_TOKENS as int {
        let idx = trim_middle_index(ps.len() as int);
        assert(1 <= idx <= ps.len() - 2);
        let shorter = ps.remove(idx);
        assert(shorter.first() == ps.first());
        assert(shorter.last() == ps[ps.len() - 1]);
        lemma_trim_middle_keeps_ends(shorter);
    }
}

/// Drops middle pieces until the remainder fits the summary budget; the
/// head and tail pieces always stay.
pub fn trim_summary_pieces(pieces: Vec<String>) -> (r: Vec<String>)
    ensures
        r.deep_view() == spec_trim_middle(pieces.deep_view()),
{
    let ghost orig = pieces.deep_view();
    let mut res = pieces;
    loop
        invariant
            spec_trim_middle(res.deep_view()) == spec_trim_middle(orig),
        ensures
            res.deep_view() == spec_trim_middle(orig),
        decreases res@.len(),
    {
        if res.len() <= 2 {
            proof {
                assert(spec_trim_middle(res.deep_view()) == res.deep_view());
            }
            break ;
        }
        let mut total: u128 = 0;
        let n = res.len();
        proof {
            assert(res.deep_view().subrange(0, 0) =~= Seq::<Seq<char>>::empty());
        }
        for i in 0..n
            invariant
                n == res@.len(),
                total == sum_tokens(res.deep_view().subrange(0, i as int)),
                total <= i * (usize::MAX as int),
        {
            let t = tokens_len(res[i].as_str());
            proof {
                let p = res.deep_view().subrange(0, i as int + 1);
                assert(p.drop_last() =~= res.deep_view().subrange(0, i as int));
                assert(p.last() == res.deep_view()[i as int]);
                assert(res.deep_view()[i as int] == res@[i as int]@);
            }
            total = total + t as u128;
        }
        proof {
            assert(res.deep_view().subrange(0, n as int) =~= res.deep_view());
        }
        if total <= SUMMARIZE_HIGH_TOKENS as u128 {
            proof {
                assert(spec_trim_middle(res.deep_view()) == res.deep_view());
            }
            break ;
        }
        let mut idx = res.len() / 2 + 1;
        if idx > res.len() - 2 {
            idx = res.len() - 2;
        }
        let ghost before = res.deep_view();
        proof {
            assert(idx as int == trim_middle_index(before.len() as int));
        }
        let _ = res.remove(idx);
        proof {
            assert(res.deep_view() =~= before.remove(idx as int));
            assert(spec_trim_middle(before) == spec_trim_middle(before.remove(
                trim_middle_index(before.len() as int),
            )));
        }
    }
    res
}

/// Whether the character is Unicode punctuation (category P).
pub uninterp spec fn is_punct_char(c: char) -> bool;

/// Whether the character is a Unicode letter (category L).
pub uninterp spec fn is_letter_char(c: char) -> bool;

/// Relies on finl_unicode's CharacterCategories::is_punctuation, a pure
/// character classification.
#[verifier::external_body]
fn char_is_punct(c: char) -> (r: bool)
    ensures
        r == is_punct_char(c),
{
    finl_unicode::categories::CharacterCategories::is_punctuation(c)
}

/// Relies on finl_unicode's CharacterCategories::is_letter, a pure
/// character classification.
#[verifier::external_body]
fn char_is_letter(c: char) -> (r: bool)
    ensures
        r == is_letter_char(c),
{
    finl_unicode::categories::CharacterCategories::is_letter(c)
}

/// The pieces between punctuation characters, empty pieces included.
pub open spec fn split_punct_rec(s: Seq<char>, cur: Seq<char>, acc: Seq<Seq<char>>) -> Seq<
    Seq<char>,
>
    decreases s.len(),
{
    if s.len() == 0 {
        acc.push(cur)
    } else if is_punct_char(s.first()) {
        split_punct_rec(s.drop_first(), Seq::<char>::empty(), acc.push(cur))
    } else {
        split_punct_rec(s.drop_first(), cur.push(s.first()), acc)
    }
}

/// A piece with the non-letter characters at both ends removed.
pub open spec fn trim_nonletter(s: Seq<char>) -> Seq<char>
    decreases s.len(),
{
    if s.len() == 0 {
        s
    } else if !is_letter_char(s.first()) {
        trim_nonletter(s.drop_first())
    } else if !is_letter_char(s.last()) {
        trim_nonletter(s.drop_last())
    } else {
        s
    }
}

/// The keywords drawn from the model's comma-separated reply: the trimmed
/// reply is split on punctuation, every piece loses its non-letter ends,
/// and only the pieces that still hold something count.
pub open spec fn spec_keywords(csv: Seq<char>) -> Seq<Seq<char>> {
    split_punct_rec(spec_trim(csv), Seq::<char>::empty(), Seq::<Seq<char>>::empty()).map_values(
        |p: Seq<char>| trim_nonletter(p),
    ).filter(|p: Seq<char>| p.len() > 0)
}

/// Reads the keyword reply into the keyword list.
pub fn extract_keywords(csv: &str) -> (r: Vec<String>)
    ensures
        r.deep_view() == spec_keywords(csv@),
{
    let raw = str_chars(csv);
    let trimmed = trim_chars(&raw);
    let ghost ts = trimmed@;
    let mut pieces: Vec<Vec<char>> = Vec::new();
    let mut cur: Vec<char> = Vec::new();
    let n = trimmed.len();
    proof {
        reveal_with_fuel(Seq::<_>::filter, 2);
        assert(ts.subrange(0, n as int) =~= ts);
        assert(cur@ =~= Seq::<char>::empty());
        assert(pieces.deep_view() =~= Seq::<Seq<char>>::empty());
    }
    for i in 0..n
        invariant
            n == ts.len(),
            ts == trimmed@,
            split_punct_rec(ts.subrange(i as int, n as int), cur@, pieces.deep_view())
                == split_punct_rec(ts, Seq::<char>::empty(), Seq::<Seq<char>>::empty()),
    {
        proof {
            assert(ts.subrange(i as int, n as int).first() == ts[i as int]);
            assert(ts.subrange(i as int, n as int).drop_first() =~= ts.subrange(
                i as int + 1,
                n as int,
            ));
        }
        let c = trimmed[i];
        if char_is_punct(c) {
            let ghost pv = pieces.deep_view();
            let ghost cv = cur@;
            let ghost pprev = pieces@;
            pieces.push(cur);
            cur = Vec::new();
            proof {
                assert forall|k: int|
                    0 <= k < pieces@.len() implies #[trigger] pieces.deep_view()[k] == pv.push(
                    cv,
                )[k] by {
                    if k < pprev.len() {
                        assert(pieces@[k] == pprev[k]);
                    }
                }
                assert(pieces.deep_view() =~= pv.push(cv));
                assert(cur@ =~= Seq::<char>::empty());
            }
        } else {
            cur.push(c);
        }
    }
    proof {
        assert(ts.subrange(n as int, n as int) =~= Seq::<char>::empty());
    }
    let ghost pv = pieces.deep_view();
    let ghost cv = cur@;
    let ghost pprev = pieces@;
    pieces.push(cur);
    proof {
        assert forall|k: int|
            0 <= k < pieces@.len() implies #[trigger] pieces.deep_view()[k] == pv.push(cv)[k] by {
            if k < pprev.len() {
                assert(pieces@[k] == pprev[k]);
            }
        }
        assert(pieces.deep_view() =~= pv.push(cv));
        assert(pieces.deep_view() == split_punct_rec(
            ts,
            Seq::<char>::empty(),
            Seq::<Seq<char>>::empty(),
        ));
    }
    let ghost all = pieces.deep_view();
    let mut out: Vec<String> = Vec::new();
    let m = pieces.len();
    proof {
        assert(all.subrange(0, 0) =~= Seq::<Seq<char>>::empty());
        assert(all.subrange(0, 0).map_values(|p: Seq<char>| trim_nonletter(p)).filter(
            |p: Seq<char>| p.len() > 0,
        ) =~= Seq::<Seq<char>>::empty());
    }
    for i in 0..m
        invariant
            m == pieces@.len(),
            all == pieces.deep_view(),
            out.deep_view() == all.subrange(0, i as int).map_values(
                |p: Seq<char>| trim_nonletter(p),
            ).filter(|p: Seq<char>| p.len() > 0),
    {
        let kept = trim_by_letters(&pieces[i]);
        let ghost ov = out.deep_view();
        let ghost prefix = all.subrange(0, i as int).map_values(
            |p: Seq<char>| trim_nonletter(p),
        );
        proof {
            reveal_with_fuel(Seq::<_>::filter, 2);
            assert(all.subrange(0, i as int + 1) =~= all.subrange(0, i as int).push(
                all[i as int],
            ));
            assert(all.subrange(0, i as int + 1).map_values(|p: Seq<char>| trim_nonletter(p))
                =~= prefix.push(trim_nonletter(all[i as int])));
            assert(prefix.push(trim_nonletter(all[i as int])).drop_last() =~= prefix);
            assert(pieces.deep_view()[i as int] == pieces@[i as int]@);
        }
        if kept.len() > 0 {
            let ghost oprev = out@;
            out.push(chars_string(&kept));
            proof {
                assert forall|k: int|
                    0 <= k < out@.len() implies #[trigger] out.deep_view()[k] == ov.push(
                    trim_nonletter(all[i as int]),
                )[k] by {
                    if k < oprev.len() {
                        assert(out@[k] == oprev[k]);
                    }
                }
                assert(out.deep_view() =~= ov.push(trim_nonletter(all[i as int])));
            }
        }
    }
    proof {
        assert(all.subrange(0, m as int) =~= all);
    }
    out
}

fn trim_by_letters(v: &Vec<char>) -> (r: Vec<char>)
    ensures
        r@ == trim_nonletter(v@),
{
    let mut lo: usize = 0;
    let mut hi: usize = v.len();
    proof {
        assert(v@.subrange(0, v@.len() as int) =~= v@);
    }
    while lo < hi && !char_is_letter(v[lo])
        invariant
            lo <= hi <= v.len(),
            trim_nonletter(v@) == trim_nonletter(v@.subrange(lo as int, hi as int)),
        decreases hi - lo,
    {
        proof {
            assert(v@.subrange(lo as int, hi as int).drop_first() =~= v@.subrange(
                lo as int + 1,
                hi as int,
            ));
        }
        lo = lo + 1;
    }
    while lo < hi && !char_is_letter(v[hi - 1])
        invariant
            lo <= hi <= v.len(),
            trim_nonletter(v@) == trim_nonletter(v@.subrange(lo as int, hi as int)),
            lo < hi ==> is_letter_char(v@[lo as int]),
        decreases hi,
    {
        proof {
            assert(v@.subrange(lo as int, hi as int).drop_last() =~= v@.subrange(
                lo as int,
                hi as int - 1,
            ));
        }
        hi = hi - 1;
    }
    let mut r: Vec<char> = Vec::new();
    let mut i: usize = lo;
    while i < hi
        invariant
            lo <= i <= hi <= v.len(),
            r@ == v@.subrange(lo as int, i as int),
        decreases hi - i,
    {
        r.push(v[i]);
        proof {
            assert(v@.subrange(lo as int, i as int).push(v@[i as int]) =~= v@.subrange(
                lo as int,
                i as int + 1,
            ));
        }
        i = i + 1;
    }
    proof {
        let t = v@.subrange(lo as int, hi as int);
        if t.len() > 0 {
            assert(is_letter_char(t.first()));
            assert(is_letter_char(t.last()));
        }
    }
    r
}

/// The stored summary: the comma-joined keyword line, a newline, then the
/// body.
pub fn compose_summary(keywords: &Vec<String>, body: &str) -> (r: String)
    ensures
        r@ == join_with(keywords.deep_view(), ", "@) + "\n"@ + body@,
{
    let mut r = crate::content::join_strings(keywords, ", ");
    r.append("\n");
    r.append(body);
    r
}

/// Splits a stored summary on its first newline: the keyword line and the
/// body. A summary without a newline is all body.
pub fn extract_summary_keywords(stored: &str) -> (r: (String, Vec<String>))
    ensures
        ({
            let s = stored@;
            if exists|i: int| 0 <= i < s.len() && s[i] == '\n' {
                exists|i: int|
                    {
                        &&& 0 <= i < s.len()
                        &&& s[i] == '\n'
                        &&& (forall|k: int| 0 <= k < i ==> s[k] != '\n')
                        &&& r.0@ == s.subrange(i + 1, s.len() as int)
                        &&& r.1.deep_view() == spec_keywords(s.subrange(0, i))
                    }
            } else {
                r.0@ == s && r.1@.len() == 0
            }
        }),
{
    let v = str_chars(stored);
    let n = v.len();
    let mut i: usize = 0;
    while i < n && v[i] != '\n'
        invariant
            i <= n,
            n == v@.len(),
            v@ == stored@,
            forall|k: int| 0 <= k < i ==> stored@[k] != '\n',
        decreases n - i,
    {
        i = i + 1;
    }
    if i == n {
        proof {
            assert(forall|k: int| 0 <= k < stored@.len() ==> stored@[k] != '\n');
        }
        return (String::from_str(stored), Vec::new());
    }
    let mut body: Vec<char> = Vec::new();
    let mut j: usize = i + 1;
    while j < n
        invariant
            i + 1 <= j <= n,
            n == v@.len(),
            v@ == stored@,
            body@ == stored@.subrange(i as int + 1, j as int),
        decreases n - j,
    {
        body.push(v[j]);
        proof {
            assert(body@ =~= stored@.subrange(i as int + 1, j as int + 1));
        }
        j = j + 1;
    }
    let mut head: Vec<char> = Vec::new();
    let mut k: usize = 0;
    while k < i
        invariant
            k <= i <= n,
            n == v@.len(),
            v@ == stored@,
            head@ == stored@.subrange(0, k as int),
        decreases i - k,
    {
        head.push(v[k]);
        proof {
            assert(head@ =~= stored@.subrange(0, k as int + 1));
        }
        k = k + 1;
    }
    let keywords = extract_keywords(chars_string(&head).as_str());
    proof {
        assert(stored@[i as int] == '\n');
        assert(body@ =~= stored@.subrange(i as int + 1, n as int));
    }
    (chars_string(&body), keywords)
}

/// `s` with every newline replaced by `". "`: the single-piece summary
/// path.
pub open spec fn replace_lf_spec(s: Seq<char>) -> Seq<char>
    decreases s.len(),
{
    if s.len() == 0 {
        Seq::<char>::empty()
    } else {
        replace_lf_spec(s.drop_last()) + (if s.last() == '\n' {
            seq!['.', ' ']
        } else {
            seq![s.last()]
        })
    }
}

/// Replaces newlines by `". "`.
pub fn replace_newlines_with_period(s: &str) -> (r: String)
    ensures
        r@ == replace_lf_spec(s@),
{
    let v = str_chars(s);
    let mut out: Vec<char> = Vec::new();
    let n = v.len();
    proof {
        assert(v@.subrange(0, 0) =~= Seq::<char>::empty());
    }
    for i in 0..n
        invariant
            n == v@.len(),
            v@ == s@,
            out@ == replace_lf_spec(s@.subrange(0, i as int)),
    {
        let c = v[i];
        if c == '\n' {
            out.push('.');
            out.push(' ');
        } else {
            out.push(c);
        }
        proof {
            let p = s@.subrange(0, i as int + 1);
            assert(p.drop_last() =~= s@.subrange(0, i as int));
            assert(p.last() == s@[i as int]);
            assert(out@ =~= replace_lf_spec(p));
        }
    }
    proof {
        assert(s@.subrange(0, n as int) =~= s@);
    }
    chars_string(&out)
}

} // verus!
