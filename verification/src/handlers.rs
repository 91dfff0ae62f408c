//! The decisions the HTTP handlers make, apart from the transport: which
//! language a request uses, which corpus names are candidates, how many results
//! to keep, and how the words of a text are split and joined.

use vstd::prelude::*;

use crate::calib::strings_view;
use crate::state::{spec_passes, Gender, NameEntry};
use crate::text::{
    chars_eq, chars_of, eq_ignore_ascii_case, is_blank, lowercase, spec_eq_ignore_ascii_case,
    spec_is_blank, spec_trim, spec_words, string_of, to_lowercase, trim, words,
};
use crate::types::G2pRequest;

verus! {

// ---------------------------------------------------------------------------
// Query-string forms
// ---------------------------------------------------------------------------

/// `GET /g2p?text=..&lang=..&numbers=..` query.
pub struct G2pQuery {
    pub text: String,
    pub lang: Option<String>,
    pub numbers: Option<bool>,
}

impl G2pQuery {
    /// The request this query stands for: numeral expansion is on unless the
    /// query turns it off.
    pub fn into_request(self) -> (r: G2pRequest)
        ensures
            r.text == self.text,
            r.lang == self.lang,
            r.numbers == match self.numbers {
                Some(b) => b,
                None => true,
            },
    {
        G2pRequest {
            text: self.text,
            lang: self.lang,
            numbers: match self.numbers {
                Some(b) => b,
                None => true,
            },
        }
    }
}

/// `GET /detect?text=..` query.
pub struct DetectQuery {
    pub text: String,
}

// ---------------------------------------------------------------------------
// Language resolution
// ---------------------------------------------------------------------------

/// Whether `lang` is among `available`.
pub open spec fn spec_has_model(available: Seq<String>, lang: Seq<char>) -> bool {
    strings_view(available).contains(lang)
}

/// Whether a model for `lang` is available.
pub fn has_model(available: &[String], lang: &str) -> (r: bool)
    ensures
        r == spec_has_model(available@, lang@),
{
    let want = chars_of(lang);
    let n = available.len();
    for i in 0..n
        invariant
            n == available@.len(),
            want@ == lang@,
            forall|k: int| 0 <= k < i ==> strings_view(available@)[k] != lang@,
    {
        let have = chars_of(available[i].as_str());
        if chars_eq(have.as_slice(), want.as_slice()) {
            assert(strings_view(available@)[i as int] == lang@);
            return true;
        }
    }
    false
}

/// Why no language could be resolved.
#[derive(Debug)]
pub enum LangError {
    /// The requested language has no model (the service answers 404).
    NoModel(String),
    /// Detection found no supported language and the default has no model
    /// (the service answers 400).
    NoSupportedLanguage,
}

/// The language a request uses, and whether it came from detection.
pub struct LangChoice {
    pub lang: String,
    pub detected: bool,
}

/// The language of a request: a requested code wins (it must have a model);
/// otherwise the detected code when it has a model, else the default, which
/// must have a model.
pub open spec fn spec_resolve_lang(
    available: Seq<String>,
    default_lang: Seq<char>,
    requested: Option<Seq<char>>,
    detected: Option<Seq<char>>,
) -> Result<(Seq<char>, bool), Option<Seq<char>>> {
    match requested {
        Some(code) => if spec_has_model(available, code) {
            Ok((code, false))
        } else {
            Err(Some(code))
        },
        None => {
            let chosen = match detected {
                Some(d) => if spec_has_model(available, d) {
                    d
                } else {
                    default_lang
                },
                None => default_lang,
            };
            if spec_has_model(available, chosen) {
                Ok((chosen, true))
            } else {
                Err(None)
            }
        },
    }
}

/// The characters of an optional string slice.
pub open spec fn opt_str_view(o: Option<&str>) -> Option<Seq<char>> {
    match o {
        Some(s) => Some(s@),
        None => None,
    }
}

/// Resolves the language of a request. `detected` is what language
/// detection found in the request text; it is only consulted when no language
/// was requested.
pub fn resolve_lang(
    available: &[String],
    default_lang: &str,
    requested: Option<&str>,
    detected: Option<&str>,
) -> (r: Result<LangChoice, LangError>)
    ensures
        match spec_resolve_lang(
            available@,
            default_lang@,
            opt_str_view(requested),
            opt_str_view(detected),
        ) {
            Ok((lang, det)) => r matches Ok(c) && c.lang@ == lang && c.detected == det,
            Err(Some(code)) => r matches Err(LangError::NoModel(s)) && s@ == code,
            Err(None) => r matches Err(LangError::NoSupportedLanguage),
        },
{
    match requested {
        Some(code) => {
            if has_model(available, code) {
                Ok(LangChoice { lang: code.to_owned(), detected: false })
            } else {
                Err(LangError::NoModel(code.to_owned()))
            }
        },
        None => {
            let chosen: &str = match detected {
                Some(d) => if has_model(available, d) {
                    d
                } else {
                    default_lang
                },
                None => default_lang,
            };
            if has_model(available, chosen) {
                Ok(LangChoice { lang: chosen.to_owned(), detected: true })
            } else {
                Err(LangError::NoSupportedLanguage)
            }
        },
    }
}

// ---------------------------------------------------------------------------
// Similar-name candidates
// ---------------------------------------------------------------------------

/// The gender filter a request asks for: after trimming, `m` or `male` (any
/// ASCII case) forces male, `f` or `female` forces female, anything else
/// (absent, `u`, `any`, ...) is neutral.
pub open spec fn spec_gender_filter(s: Option<Seq<char>>) -> Option<Gender> {
    match s {
        Some(raw) => {
            let t = spec_trim(raw);
            if spec_eq_ignore_ascii_case(t, seq!['m']) || spec_eq_ignore_ascii_case(
                t,
                seq!['m', 'a', 'l', 'e'],
            ) {
                Some(Gender::Male)
            } else if spec_eq_ignore_ascii_case(t, seq!['f']) || spec_eq_ignore_ascii_case(
                t,
                seq!['f', 'e', 'm', 'a', 'l', 'e'],
            ) {
                Some(Gender::Female)
            } else {
                None
            }
        },
        None => None,
    }
}

/// Reads the requested gender filter.
pub fn gender_filter(s: Option<&str>) -> (r: Option<Gender>)
    ensures
        r == spec_gender_filter(opt_str_view(s)),
{
    match s {
        Some(raw) => {
            let cs = chars_of(raw);
            let t = trim(cs.as_slice());
            let m = ['m'];
            let male = ['m', 'a', 'l', 'e'];
            let f = ['f'];
            let female = ['f', 'e', 'm', 'a', 'l', 'e'];
            assert(m@ == seq!['m']);
            assert(male@ == seq!['m', 'a', 'l', 'e']);
            assert(f@ == seq!['f']);
            assert(female@ == seq!['f', 'e', 'm', 'a', 'l', 'e']);
            if eq_ignore_ascii_case(t.as_slice(), m.as_slice()) || eq_ignore_ascii_case(
                t.as_slice(),
                male.as_slice(),
            ) {
                Some(Gender::Male)
            } else if eq_ignore_ascii_case(t.as_slice(), f.as_slice()) || eq_ignore_ascii_case(
                t.as_slice(),
                female.as_slice(),
            ) {
                Some(Gender::Female)
            } else {
                None
            }
        },
        None => None,
    }
}

/// A corpus entry stays a candidate unless it is the query itself (compared
/// after Unicode lower-casing) while exact matches are excluded, or it fails
/// the gender filter.
pub open spec fn spec_keep_candidate(
    name: Seq<char>,
    gender: Gender,
    query_lower: Seq<char>,
    exclude_exact: bool,
    filter: Option<Gender>,
) -> bool {
    &&& !(exclude_exact && lowercase(name) == query_lower)
    &&& match filter {
        Some(g) => spec_passes(gender, g),
        None => true,
    }
}

/// Whether a name whose lower-cased form is `name_lower`, of gender `gender`,
/// is a candidate for a query whose lower-cased name is `query_lower`.
pub fn keep_lowered(
    name_lower: &str,
    gender: Gender,
    query_lower: &str,
    exclude_exact: bool,
    filter: Option<Gender>,
) -> (r: bool)
    ensures
        r == (!(exclude_exact && name_lower@ == query_lower@) && match filter {
            Some(g) => spec_passes(gender, g),
            None => true,
        }),
{
    if exclude_exact {
        let a = chars_of(name_lower);
        let b = chars_of(query_lower);
        if chars_eq(a.as_slice(), b.as_slice()) {
            return false;
        }
    }
    match filter {
        Some(g) => gender.passes(g),
        None => true,
    }
}

/// The form of a query name that candidates are compared with for the
/// exact-name exclusion: its Unicode lower-casing, the same mapping that
/// [`keep_candidate`] applies to each corpus name.
pub fn query_norm(name: &str) -> (r: String)
    ensures
        r@ == lowercase(name@),
{
    to_lowercase(name)
}

/// Whether `entry` is a candidate for a query whose lower-cased name is
/// `query_lower`.
pub fn keep_candidate(
    entry: &NameEntry,
    query_lower: &str,
    exclude_exact: bool,
    filter: Option<Gender>,
) -> (r: bool)
    ensures
        r == spec_keep_candidate(entry.name@, entry.gender, query_lower@, exclude_exact, filter),
{
    let lower = to_lowercase(entry.name.as_str());
    keep_lowered(lower.as_str(), entry.gender, query_lower, exclude_exact, filter)
}

/// The largest of `freqs`, and at least `1`: the scale of the popularity
/// prior, so a corpus without frequencies divides by one.
pub open spec fn spec_max_frequency(freqs: Seq<u32>) -> u32
    decreases freqs.len(),
{
    if freqs.len() == 0 {
        1
    } else {
        let m = spec_max_frequency(freqs.drop_last());
        if freqs.last() > m {
            freqs.last()
        } else {
            m
        }
    }
}

proof fn lemma_max_frequency_bounds(freqs: Seq<u32>)
    ensures
        spec_max_frequency(freqs) >= 1,
        forall|i: int| 0 <= i < freqs.len() ==> freqs[i] <= spec_max_frequency(freqs),
        spec_max_frequency(freqs) == 1 || exists|i: int|
            0 <= i < freqs.len() && freqs[i] == spec_max_frequency(freqs),
    decreases freqs.len(),
{
    if freqs.len() > 0 {
        let init = freqs.drop_last();
        lemma_max_frequency_bounds(init);
        assert forall|i: int| 0 <= i < freqs.len() implies freqs[i] <= spec_max_frequency(freqs) by {
            if i < init.len() {
                assert(freqs[i] == init[i]);
            }
        }
        if spec_max_frequency(freqs) != 1 && spec_max_frequency(freqs) != freqs.last() {
            let i = choose|i: int| 0 <= i < init.len() && init[i] == spec_max_frequency(init);
            assert(freqs[i] == init[i]);
        }
    }
}

/// The frequency that scales the popularity prior of a ranking: the largest
/// frequency among the candidates, or `1` when none is larger.
pub fn max_frequency(freqs: &[u32]) -> (r: u32)
    ensures
        r == spec_max_frequency(freqs@),
        r >= 1,
        forall|i: int| 0 <= i < freqs@.len() ==> freqs@[i] <= r,
        r == 1 || exists|i: int| 0 <= i < freqs@.len() && freqs@[i] == r,
{
    let mut m: u32 = 1;
    let n = freqs.len();
    for i in 0..n
        invariant
            n == freqs@.len(),
            m == spec_max_frequency(freqs@.take(i as int)),
    {
        assert(freqs@.take(i + 1).drop_last() == freqs@.take(i as int));
        assert(freqs@.take(i + 1).last() == freqs@[i as int]);
        if freqs[i] > m {
            m = freqs[i];
        }
    }
    assert(freqs@.take(n as int) == freqs@);
    proof {
        lemma_max_frequency_bounds(freqs@);
    }
    m
}

/// The candidate filter, stated case by case: while exact matches are
/// excluded, an entry whose lower-cased name is the query's is never kept,
/// whatever the gender filter; a kept entry passes the gender filter; and an
/// entry that is not the query (or whose exclusion is off) and passes the
/// filter (or meets none) is kept.
pub proof fn lemma_keep_candidate_cases(
    name: Seq<char>,
    gender: Gender,
    query_lower: Seq<char>,
    exclude_exact: bool,
    filter: Option<Gender>,
)
    ensures
        exclude_exact && lowercase(name) == query_lower ==> !spec_keep_candidate(
            name,
            gender,
            query_lower,
            exclude_exact,
            filter,
        ),
        forall|g: Gender|
            filter == Some(g) && spec_keep_candidate(name, gender, query_lower, exclude_exact, filter)
                ==> #[trigger] spec_passes(gender, g),
        !(exclude_exact && lowercase(name) == query_lower) && (filter is None || spec_passes(
            gender,
            filter->0,
        )) ==> spec_keep_candidate(name, gender, query_lower, exclude_exact, filter),
{
}

/// How many similar names to return: `0` means the default of ten.
pub fn effective_top_k(top_k: usize) -> (r: usize)
    ensures
        r == if top_k == 0 {
            10
        } else {
            top_k
        },
{
    if top_k == 0 {
        10
    } else {
        top_k
    }
}

// ---------------------------------------------------------------------------
// Words of a text
// ---------------------------------------------------------------------------

/// Whether a request text is empty after trimming (the service rejects it).
pub fn text_is_blank(text: &str) -> (r: bool)
    ensures
        r == spec_is_blank(text@),
        r == (spec_trim(text@).len() == 0),
{
    let cs = chars_of(text);
    is_blank(cs.as_slice())
}

/// The whitespace-separated words of `text`, each phonemized on its own.
pub fn text_words(text: &str) -> (r: Vec<String>)
    ensures
        strings_view(r@) == spec_words(text@),
{
    let cs = chars_of(text);
    let ws = words(cs.as_slice());
    let ghost wv = ws.deep_view();
    let mut r: Vec<String> = Vec::new();
    let n = ws.len();
    for i in 0..n
        invariant
            n == wv.len(),
            wv == ws.deep_view(),
            strings_view(r@) == wv.take(i as int),
    {
        proof {
            crate::text::lemma_char_vec_deep_view(ws[i as int]);
        }
        let s = string_of(ws[i].as_slice());
        let ghost before = strings_view(r@);
        r.push(s);
        assert(strings_view(r@) =~= before.push(wv[i as int]));
        assert(wv.take(i + 1) =~= wv.take(i as int).push(wv[i as int]));
    }
    assert(wv.take(n as int) =~= wv);
    r
}

/// `parts` joined with `sep` between consecutive parts.
pub open spec fn spec_join(parts: Seq<Seq<char>>, sep: Seq<char>) -> Seq<char>
    decreases parts.len(),
{
    if parts.len() == 0 {
        Seq::empty()
    } else if parts.len() == 1 {
        parts[0]
    } else {
        spec_join(parts.drop_last(), sep) + sep + parts.last()
    }
}

/// Joining puts `sep` before every part after the first: no parts give the
/// empty string, one part gives itself, and appending a part to a non-empty
/// list appends `sep` and then that part. So `k + 1` parts carry exactly `k`
/// separators, and the length is the parts' lengths plus `k` times `sep`'s.
pub proof fn lemma_join_appends(parts: Seq<Seq<char>>, sep: Seq<char>, x: Seq<char>)
    ensures
        spec_join(Seq::empty(), sep) == Seq::<char>::empty(),
        spec_join(seq![x], sep) == x,
        parts.len() > 0 ==> spec_join(parts.push(x), sep) == spec_join(parts, sep) + sep + x,
        parts.len() > 0 ==> spec_join(parts.push(x), sep).len() == spec_join(parts, sep).len()
            + sep.len() + x.len(),
{
    assert(parts.push(x).drop_last() =~= parts);
    assert(parts.push(x).last() == x);
}

/// `parts` joined with `sep`: a single space between the phonemes of the
/// words of a text, nothing between those of a multi-word name.
pub fn join(parts: &[String], sep: &str) -> (r: String)
    ensures
        r@ == spec_join(strings_view(parts@), sep@),
{
    let ghost pv = strings_view(parts@);
    let mut r = String::new();
    let n = parts.len();
    for i in 0..n
        invariant
            n == pv.len(),
            pv == strings_view(parts@),
            r@ == spec_join(pv.take(i as int), sep@),
    {
        assert(pv.take(i + 1).drop_last() =~= pv.take(i as int));
        assert(pv.take(i + 1).last() == parts@[i as int]@);
        if i > 0 {
            r.append(sep);
        } else {
            assert(pv.take(i as int).len() == 0);
            assert(r@ == Seq::<char>::empty());
            assert(Seq::<char>::empty() + parts@[i as int]@ =~= parts@[i as int]@);
        }
        r.append(parts[i].as_str());
    }
    assert(pv.take(n as int) =~= pv);
    r
}

} // verus!
