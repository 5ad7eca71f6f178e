//! Character-level text utilities.
//!
//! All text processing in this crate works over `Vec<char>`; the two trusted
//! bridges below move between `String`/`&str` and `Vec<char>` without changing
//! the character sequence.

use vstd::prelude::*;

verus! {

/// The Unicode `White_Space` code points, the set `char::is_whitespace`
/// recognizes.
pub open spec fn is_space_char(c: char) -> bool {
    (c as u32) == 0x20 || (c as u32) == 0x09 || (c as u32) == 0x0A || (c as u32) == 0x0B || (
    c as u32) == 0x0C || (c as u32) == 0x0D || (c as u32) == 0x85 || (c as u32) == 0xA0 || (
    c as u32) == 0x1680 || (0x2000 <= (c as u32) && (c as u32) <= 0x200A) || (c as u32) == 0x2028
        || (c as u32) == 0x2029 || (c as u32) == 0x202F || (c as u32) == 0x205F || (c as u32)
        == 0x3000
}

pub fn char_is_space(c: char) -> (r: bool)
    ensures
        r == is_space_char(c),
{
    let u = c as u32;
    u == 0x20 || u == 0x09 || u == 0x0A || u == 0x0B || u == 0x0C || u == 0x0D || u == 0x85 || u
        == 0xA0 || u == 0x1680 || (0x2000 <= u && u <= 0x200A) || u == 0x2028 || u == 0x2029 || u
        == 0x202F || u == 0x205F || u == 0x3000
}

/// Relies on str::chars, which yields the string's characters in order.
#[verifier::external_body]
pub fn str_chars(s: &str) -> (v: Vec<char>)
    ensures
        v@ == s@,
{
    s.chars().collect()
}

/// Relies on String's FromIterator impl, which collects characters in order.
#[verifier::external_body]
pub fn chars_string(v: &Vec<char>) -> (s: String)
    ensures
        s@ == v@,
{
    v.iter().collect()
}

/// `s` with the whitespace at both ends removed.
pub open spec fn spec_trim(s: Seq<char>) -> Seq<char>
    decreases s.len(),
{
    if s.len() == 0 {
        s
    } else if is_space_char(s.first()) {
        spec_trim(s.drop_first())
    } else if is_space_char(s.last()) {
        spec_trim(s.drop_last())
    } else {
        s
    }
}

pub fn trim_chars(v: &Vec<char>) -> (r: Vec<char>)
    ensures
        r@ == spec_trim(v@),
{
    let mut lo: usize = 0;
    let mut hi: usize = v.len();
    proof {
        assert(v@.subrange(0, v@.len() as int) =~= v@);
    }
    while lo < hi && char_is_space(v[lo])
        invariant
            lo <= hi <= v.len(),
            spec_trim(v@) == spec_trim(v@.subrange(lo as int, hi as int)),
        decreases hi - lo,
    {
        proof {
            assert(v@.subrange(lo as int, hi as int).drop_first() =~= v@.subrange(
                lo as int + 1,
                hi as int,
            ));
        }
        lo = lo + 1;
    }
    while lo < hi && char_is_space(v[hi - 1])
        invariant
            lo <= hi <= v.len(),
            spec_trim(v@) == spec_trim(v@.subrange(lo as int, hi as int)),
            lo < hi ==> !is_space_char(v@[lo as int]),
        decreases hi,
    {
        proof {
            assert(v@.subrange(lo as int, hi as int).drop_last() =~= v@.subrange(
                lo as int,
                hi as int - 1,
            ));
        }
        hi = hi - 1;
    }
    let mut r: Vec<char> = Vec::new();
    let mut i: usize = lo;
    while i < hi
        invariant
            lo <= i <= hi <= v.len(),
            r@ == v@.subrange(lo as int, i as int),
        decreases hi - i,
    {
        r.push(v[i]);
        proof {
            assert(v@.subrange(lo as int, i as int).push(v@[i as int]) =~= v@.subrange(
                lo as int,
                i as int + 1,
            ));
        }
        i = i + 1;
    }
    proof {
        let t = v@.subrange(lo as int, hi as int);
        if t.len() > 0 {
            assert(!is_space_char(t.first()));
            assert(!is_space_char(t.last()));
        }
    }
    r
}

/// Whether two string slices hold the same characters.
pub fn str_eq(a: &str, b: &str) -> (r: bool)
    ensures
        r == (a@ == b@),
{
    let va = str_chars(a);
    let vb = str_chars(b);
    if va.len() != vb.len() {
        return false;
    }
    let n = va.len();
    for i in 0..n
        invariant
            n == va@.len() == vb@.len(),
            va@ == a@,
            vb@ == b@,
            forall|k: int| 0 <= k < i ==> va@[k] == vb@[k],
    {
        if va[i] != vb[i] {
            return false;
        }
    }
    proof {
        assert(va@ =~= vb@);
    }
    true
}

/// Whether `n` occurs in `h` as a contiguous run.
pub open spec fn spec_contains(h: Seq<char>, n: Seq<char>) -> bool {
    exists|i: int| 0 <= i <= h.len() - n.len() && #[trigger] h.subrange(i, i + n.len()) == n
}

/// Whether the needle occurs in the haystack.
pub fn str_contains(hay: &str, needle: &str) -> (r: bool)
    ensures
        r == spec_contains(hay@, needle@),
{
    let h = str_chars(hay);
    let n = str_chars(needle);
    let hl = h.len();
    let nl = n.len();
    if nl > hl {
        proof {
            assert(!spec_contains(hay@, needle@));
        }
        return false;
    }
    let mut i: usize = 0;
    while i <= hl - nl
        invariant
            nl <= hl,
            h@ == hay@,
            n@ == needle@,
            hl == h@.len(),
            nl == n@.len(),
            i <= hl - nl + 1,
            forall|k: int| 0 <= k < i ==> #[trigger] hay@.subrange(k, k + nl as int) != needle@,
        decreases hl - nl - i + 1,
    {
        let mut j: usize = 0;
        let mut hit = true;
        while j < nl
            invariant
                i + nl <= hl,
                h@ == hay@,
                n@ == needle@,
                hl == h@.len(),
                nl == n@.len(),
                j <= nl,
                hit == (forall|k: int|
                    0 <= k < j ==> hay@[i + k] == #[trigger] needle@[k]),
            decreases nl - j,
        {
            if h[i + j] != n[j] {
                hit = false;
                proof {
                    assert(hay@[i + j] != needle@[j as int]);
                }
                j = nl;
            } else {
                proof {
                    assert(hay@[i + j] == needle@[j as int]);
                }
                j = j + 1;
            }
        }
        if hit {
            proof {
                assert(hay@.subrange(i as int, i + nl as int) =~= needle@);
            }
            return true;
        }
        proof {
            if hay@.subrange(i as int, i + nl as int) == needle@ {
                assert(forall|k: int|
                    0 <= k < nl ==> hay@[i + k] == #[trigger] hay@.subrange(
                        i as int,
                        i + nl as int,
                    )[k]);
            }
        }
        i = i + 1;
    }
    proof {
        assert(!spec_contains(hay@, needle@));
    }
    false
}

/// The decimal digit character for a value below ten.
pub open spec fn digit_char(d: int) -> char {
    ((48 + d) as u8) as char
}

pub open spec fn is_digit_char(c: char) -> bool {
    48 <= (c as u32) <= 57
}

pub open spec fn digit_val(c: char) -> int {
    (c as u32) - 48
}

/// The decimal form of `n`, most significant digit first, no sign and no
/// leading zero.
pub open spec fn spec_dec(n: nat) -> Seq<char>
    decreases n,
{
    if n < 10 {
        seq![digit_char(n as int)]
    } else {
        spec_dec(n / 10).push(digit_char((n % 10) as int))
    }
}

pub open spec fn all_digits(s: Seq<char>) -> bool {
    forall|i: int| 0 <= i < s.len() ==> is_digit_char(#[trigger] s[i])
}

/// The value of a digit string, read most significant digit first.
pub open spec fn spec_dec_val(s: Seq<char>) -> int
    decreases s.len(),
{
    if s.len() == 0 {
        0
    } else {
        spec_dec_val(s.drop_last()) * 10 + digit_val(s.last())
    }
}

fn push_dec(n: u64, out: &mut Vec<char>)
    ensures
        final(out)@ == old(out)@ + spec_dec(n as nat),
    decreases n,
{
    if n < 10 {
        out.push((48 + n as u8) as char);
        proof {
            assert(out@ =~= old(out)@ + spec_dec(n as nat));
        }

    } else {
        push_dec(n / 10, out);
        out.push((48 + (n % 10) as u8) as char);
        proof {
            assert(out@ =~= old(out)@ + spec_dec(n as nat));
        }
    }
}

/// The decimal form of `n` as characters.
pub fn dec_chars(n: u64) -> (v: Vec<char>)
    ensures
        v@ == spec_dec(n as nat),
{
    let mut v: Vec<char> = Vec::new();
    push_dec(n, &mut v);
    proof {
        assert(v@ =~= spec_dec(n as nat));
    }
    v
}

pub proof fn lemma_dec_digits(n: nat)
    ensures
        all_digits(spec_dec(n)),
        spec_dec(n).len() >= 1,
        spec_dec(n).first() != digit_char(0) || n == 0,
    decreases n,
{
    if n < 10 {
    } else {
        lemma_dec_digits(n / 10);
        assert(spec_dec(n) == spec_dec(n / 10).push(digit_char((n % 10) as int)));
    }
}

/// Reading back the decimal form gives the value: the digit round trip.
pub proof fn lemma_dec_roundtrip(n: nat)
    ensures
        spec_dec_val(spec_dec(n)) == n,
    decreases n,
{
    reveal_with_fuel(spec_dec, 2);
    reveal_with_fuel(spec_dec_val, 2);
    if n < 10 {
        assert(spec_dec(n).drop_last() =~= Seq::<char>::empty());
        assert(spec_dec(n).last() == digit_char(n as int));
        assert(spec_dec_val(Seq::<char>::empty()) == 0);
        assert(digit_val(digit_char(n as int)) == n);
    } else {
        lemma_dec_roundtrip(n / 10);
        assert(spec_dec(n).drop_last() =~= spec_dec(n / 10));
        assert(spec_dec(n).last() == digit_char((n % 10) as int));
        assert(digit_val(digit_char((n % 10) as int)) == n % 10);
        assert((n / 10) * 10 + n % 10 == n) by (nonlinear_arith);
    }
}

proof fn lemma_dec_val_prefix_bound(s: Seq<char>, i: int)
    requires
        0 <= i <= s.len(),
        all_digits(s),
    ensures
        spec_dec_val(s) >= spec_dec_val(s.subrange(0, i)),
    decreases s.len() - i,
{
    if i == s.len() {
        assert(s.subrange(0, i) =~= s);
    } else {
        lemma_dec_val_prefix_bound(s, i + 1);
        let p = s.subrange(0, i + 1);
        assert(p.drop_last() =~= s.subrange(0, i));
        assert(spec_dec_val(p) == spec_dec_val(s.subrange(0, i)) * 10 + digit_val(p.last()));
        lemma_dec_val_nonneg(s.subrange(0, i));
    }
}

proof fn lemma_dec_val_nonneg(s: Seq<char>)
    requires
        all_digits(s),
    ensures
        spec_dec_val(s) >= 0,
    decreases s.len(),
{
    if s.len() > 0 {
        assert(all_digits(s.drop_last()));
        lemma_dec_val_nonneg(s.drop_last());
    }
}

/// Parses `v[from..to]` as a decimal number. `None` when the range is empty,
/// holds a non-digit, or the value does not fit in `usize`.
pub fn parse_dec(v: &Vec<char>, from: usize, to: usize) -> (r: Option<usize>)
    requires
        from <= to <= v@.len(),
    ensures
        match r {
            Some(n) => all_digits(v@.subrange(from as int, to as int)) && to > from && n
                == spec_dec_val(v@.subrange(from as int, to as int)),
            None => to == from || !all_digits(v@.subrange(from as int, to as int)) || spec_dec_val(
                v@.subrange(from as int, to as int),
            ) > usize::MAX,
        },
{
    if from == to {
        return None;
    }
    let mut acc: usize = 0;
    let mut i: usize = from;
    while i < to
        invariant
            from <= i <= to <= v@.len(),
            all_digits(v@.subrange(from as int, i as int)),
            acc == spec_dec_val(v@.subrange(from as int, i as int)),
        decreases to - i,
    {
        let c = v[i];
        let u = c as u32;
        if u < 48 || u > 57 {
            assert(!is_digit_char(v@.subrange(from as int, to as int)[i - from]));
            return None;
        }
        let d = (u - 48) as usize;
        if acc > (usize::MAX - d) / 10 {
            proof {
                let p = v@.subrange(from as int, i as int + 1);
                assert(p.drop_last() =~= v@.subrange(from as int, i as int));
                let whole = v@.subrange(from as int, to as int);
                if all_digits(whole) {
                    assert(p =~= whole.subrange(0, i - from + 1));
                    lemma_dec_val_prefix_bound(whole, i - from + 1);
                    assert(spec_dec_val(p) == acc * 10 + d);
                    assert(acc * 10 + d > usize::MAX) by (nonlinear_arith)
                        requires
                            acc > (usize::MAX - d) / 10,
                            0 <= d <= 9,
                            acc >= 0,
                    ;
                }
            }
            return None;
        }
        proof {
            assert(acc * 10 + d <= usize::MAX) by (nonlinear_arith)
                requires
                    acc <= (usize::MAX - d) / 10,
                    0 <= d <= 9,
                    acc >= 0,
            ;
            let p = v@.subrange(from as int, i as int + 1);
            assert(p.drop_last() =~= v@.subrange(from as int, i as int));
            assert(p.last() == c);
        }
        acc = acc * 10 + d;
        i = i + 1;
    }
    Some(acc)
}

} // verus!
