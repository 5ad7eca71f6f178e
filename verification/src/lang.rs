//! The language value the pipeline carries: an ISO 639-3 code, with `und`
//! standing for an undetermined language. What only the language tables can
//! answer (names, detection) stays outside; the pipeline reads the code.

use vstd::prelude::*;

use crate::chars::str_chars;
use crate::erring::HTTPError;

verus! {

pub struct Language {
    code: String,
}

impl View for Language {
    type V = Seq<char>;

    closed spec fn view(&self) -> Seq<char> {
        self.code@
    }
}

/// Three ASCII lower-case letters.
pub open spec fn valid_639_3(s: Seq<char>) -> bool {
    s.len() == 3 && forall|i: int| 0 <= i < 3 ==> 'a' <= #[trigger] s[i] <= 'z'
}

impl Language {
    pub open spec fn wf(&self) -> bool {
        valid_639_3(self@)
    }

    pub open spec fn is_und(&self) -> bool {
        self@ == "und"@
    }

    /// Accepts a three-letter lower-case code.
    pub fn from_639_3(code: String) -> (r: Option<Language>)
        ensures
            match r {
                Some(l) => valid_639_3(code@) && l@ == code@,
                None => !valid_639_3(code@),
            },
    {
        let v = str_chars(code.as_str());
        if v.len() != 3 {
            return None;
        }
        let mut i: usize = 0;
        while i < 3
            invariant
                i <= 3,
                v@ == code@,
                v@.len() == 3,
                forall|k: int| 0 <= k < i ==> 'a' <= #[trigger] code@[k] <= 'z',
            decreases 3 - i,
        {
            let c = v[i];
            if c < 'a' || c > 'z' {
                return None;
            }
            i = i + 1;
        }
        Some(Language { code })
    }

    /// The undetermined sentinel.
    pub fn und() -> (r: Language)
        ensures
            r@ == "und"@,
            r.wf(),
    {
        proof {
            reveal_strlit("und");
        }
        Language { code: String::from_str("und") }
    }

    /// The code itself.
    pub fn to_639_3(&self) -> (r: String)
        ensures
            r@ == self@,
    {
        self.code.clone()
    }

    pub fn eq_lang(&self, other: &Language) -> (r: bool)
        ensures
            r == (self@ == other@),
    {
        let a = str_chars(self.code.as_str());
        let b = str_chars(other.code.as_str());
        if a.len() != b.len() {
            return false;
        }
        let n = a.len();
        for i in 0..n
            invariant
                n == a@.len() == b@.len(),
                a@ == self@,
                b@ == other@,
                forall|k: int| 0 <= k < i ==> a@[k] == b@[k],
        {
            if a[i] != b[i] {
                return false;
            }
        }
        proof {
            assert(a@ =~= b@);
        }
        true
    }

    /// Whether this is the undetermined sentinel.
    pub fn und_check(&self) -> (r: bool)
        ensures
            r == self.is_und(),
    {
        proof {
            reveal_strlit("und");
        }
        let v = str_chars(self.code.as_str());
        if v.len() != 3 {
            proof {
                assert(self@ != "und"@);
            }
            return false;
        }
        let r = v[0] == 'u' && v[1] == 'n' && v[2] == 'd';
        proof {
            if r {
                assert(self@ =~= "und"@);
            }
        }
        r
    }
}

impl Clone for Language {
    fn clone(&self) -> (r: Self)
        ensures
            r@ == self@,
    {
        Language { code: self.code.clone() }
    }
}

/// Whether a translation request is accepted for this language pair: a
/// document whose detected origin already equals the target is refused.
pub fn check_translation_languages(detected: &Language, target: &Language) -> (r: Result<
    (),
    HTTPError,
>)
    ensures
        r is Ok <==> detected@ != target@,
        r matches Err(e) ==> e.code == 400,
{
    if detected.eq_lang(target) {
        Err(
            HTTPError::new(
                400,
                String::from_str("No need to translate: the content is already in the target language"),
            ),
        )
    } else {
        Ok(())
    }
}

/// One row of the language table handed in from outside: the codes and
/// names the table knows for one language.
pub struct LanguageEntry {
    pub code_639_3: String,
    pub code_639_1: Option<String>,
    pub name: String,
    pub autonym: Option<String>,
}

/// Whether the code is one of the six blacklisted languages left out of the
/// public list.
pub open spec fn is_blacklisted(s: Seq<char>) -> bool {
    s == "abk"@ || s == "ava"@ || s == "bak"@ || s == "lim"@ || s == "nya"@ || s == "iii"@
}

/// Whether the entry appears in the public language list: it must carry a
/// two-letter code and an autonym, and not be blacklisted.
pub open spec fn entry_listed(e: &LanguageEntry) -> bool {
    e.code_639_1 is Some && e.autonym is Some && !is_blacklisted(e.code_639_3@)
}

fn str_eq_lit(v: &Vec<char>, a: char, b: char, c: char) -> (r: bool)
    ensures
        r == (v@ =~= seq![a, b, c]),
{
    let r = v.len() == 3 && v[0] == a && v[1] == b && v[2] == c;
    proof {
        if r {
            assert(v@ =~= seq![a, b, c]);
        }
    }
    r
}

fn entry_is_listed(e: &LanguageEntry) -> (r: bool)
    ensures
        r == entry_listed(e),
{
    proof {
        reveal_strlit("abk");
        reveal_strlit("ava");
        reveal_strlit("bak");
        reveal_strlit("lim");
        reveal_strlit("nya");
        reveal_strlit("iii");
    }
    if e.code_639_1.is_none() {
        return false;
    }
    if e.autonym.is_none() {
        return false;
    }
    let v = str_chars(e.code_639_3.as_str());
    proof {
        assert("abk"@ =~= seq!['a', 'b', 'k']);
        assert("ava"@ =~= seq!['a', 'v', 'a']);
        assert("bak"@ =~= seq!['b', 'a', 'k']);
        assert("lim"@ =~= seq!['l', 'i', 'm']);
        assert("nya"@ =~= seq!['n', 'y', 'a']);
        assert("iii"@ =~= seq!['i', 'i', 'i']);
    }
    let black = str_eq_lit(&v, 'a', 'b', 'k') || str_eq_lit(&v, 'a', 'v', 'a') || str_eq_lit(
        &v,
        'b',
        'a',
        'k',
    ) || str_eq_lit(&v, 'l', 'i', 'm') || str_eq_lit(&v, 'n', 'y', 'a') || str_eq_lit(
        &v,
        'i',
        'i',
        'i',
    );
    !black
}

/// The rows of the public language list drawn from `entries`, in order:
/// `(639-3 code, English name, autonym)` for every listed entry.
pub open spec fn spec_language_list(es: Seq<LanguageEntry>) -> Seq<(Seq<char>, Seq<char>, Seq<
    char,
>)>
    decreases es.len(),
{
    if es.len() == 0 {
        Seq::empty()
    } else {
        let rest = spec_language_list(es.drop_first());
        let e = es.first();
        if entry_listed(&e) {
            seq![(e.code_639_3@, e.name@, e.autonym->Some_0@)] + rest
        } else {
            rest
        }
    }
}

/// Builds the public language list: entries with a two-letter code and an
/// autonym, minus the blacklist.
pub fn list_languages(entries: &Vec<LanguageEntry>) -> (r: Vec<(String, String, String)>)
    ensures
        r@.len() == spec_language_list(entries@).len(),
        forall|k: int|
            0 <= k < r@.len() ==> ((#[trigger] r@[k]).0@, r@[k].1@, r@[k].2@)
                == spec_language_list(entries@)[k],
{
    let ghost es = entries@;
    let mut out: Vec<(String, String, String)> = Vec::new();
    let n = entries.len();
    proof {
        assert(es.subrange(0, n as int) =~= es);
    }
    for i in 0..n
        invariant
            n == entries@.len(),
            es == entries@,
            out@.len() + spec_language_list(es.subrange(i as int, n as int)).len()
                == spec_language_list(es).len(),
            forall|k: int|
                0 <= k < out@.len() ==> ((#[trigger] out@[k]).0@, out@[k].1@, out@[k].2@)
                    == spec_language_list(es)[k],
            spec_language_list(es).skip(out@.len() as int) == spec_language_list(
                es.subrange(i as int, n as int),
            ),
    {
        proof {
            assert(es.subrange(i as int, n as int).first() == es[i as int]);
            assert(es.subrange(i as int, n as int).drop_first() =~= es.subrange(
                i as int + 1,
                n as int,
            ));
        }
        let e = &entries[i];
        if entry_is_listed(e) {
            let ghost before = out@;
            let autonym = match &e.autonym {
                Some(a) => a.clone(),
                None => String::new(),
            };
            out.push((e.code_639_3.clone(), e.name.clone(), autonym));
            proof {
                let full = spec_language_list(es);
                let seg = spec_language_list(es.subrange(i as int, n as int));
                assert(seg.first() == (es[i as int].code_639_3@, es[i as int].name@, es[i as int].autonym->Some_0@));
                assert(full.skip(before.len() as int) == seg);
                assert(full[before.len() as int] == seg.first());
                assert(full.skip(out@.len() as int) =~= seg.drop_first());
                assert forall|k: int|
                    0 <= k < out@.len() implies ((#[trigger] out@[k]).0@, out@[k].1@, out@[k].2@)
                    == full[k] by {
                    if k < before.len() {
                        assert(out@[k] == before[k]);
                    }
                }
            }
        } else {
            proof {
                assert(spec_language_list(es.subrange(i as int, n as int)) == spec_language_list(
                    es.subrange(i as int + 1, n as int),
                ));
            }
        }
    }
    proof {
        assert(es.subrange(n as int, n as int) =~= Seq::<LanguageEntry>::empty());
    }
    out
}

} // verus!
