//! Phonetic structure of an IPA string, computed once and reused across many
//! comparisons: its segments, its syllable-nucleus count (with the language's
//! diphthongs folded into single nuclei) and its onset.
//!
//! The calibrated distance itself (a weighted edit distance over these
//! segments) is floating-point arithmetic and lives with the service; what it
//! decides from the segments is computed here and in `segment`.

use vstd::prelude::*;

use crate::segment::{base_char, is_vowel, contains_char, spec_is_vowel, non_syllabic_mark};
use crate::text::chars_of;

verus! {

/// The characters of each string, in order.
pub open spec fn strings_view(v: Seq<String>) -> Seq<Seq<char>> {
    v.map_values(|s: String| s@)
}

/// The characters of each string of `v`.
pub fn strings_to_chars(v: &[String]) -> (r: Vec<Vec<char>>)
    ensures
        r.deep_view() == strings_view(v@),
{
    let mut r: Vec<Vec<char>> = Vec::new();
    let n = v.len();
    for i in 0..n
        invariant
            n == v@.len(),
            r.deep_view() == strings_view(v@).take(i as int),
    {
        let cs = chars_of(v[i].as_str());
        let ghost before = r.deep_view();
        proof {
            crate::text::lemma_char_vec_deep_view(cs);
        }
        r.push(cs);
        assert(r.deep_view() =~~= before.push(v@[i as int]@));
        assert(strings_view(v@).take(i + 1) =~~= strings_view(v@).take(i as int).push(v@[i as int]@));
    }
    assert(strings_view(v@).take(n as int) =~~= strings_view(v@));
    r
}

// ---------------------------------------------------------------------------
// Syllable nuclei
// ---------------------------------------------------------------------------

/// The state of a left-to-right scan of `segs`: nuclei counted so far, whether
/// a vowel was seen, and the base of the vowel just before (`None` after a
/// consonant). A vowel starts a new nucleus unless it carries the
/// non-syllabic mark or forms one of `diph` with the vowel right before it.
pub open spec fn spec_nuclei_scan(segs: Seq<Seq<char>>, diph: Seq<Seq<char>>) -> (
    nat,
    bool,
    Option<char>,
)
    decreases segs.len(),
{
    if segs.len() == 0 {
        (0, false, None)
    } else {
        let (n, had, prev) = spec_nuclei_scan(segs.drop_last(), diph);
        let seg = segs.last();
        if spec_is_vowel(seg) {
            let base = seg[0];
            let non_syllabic = seg.contains(non_syllabic_mark());
            let forms_diphthong = match prev {
                Some(p) => diph.contains(seq![p, base]),
                None => false,
            };
            (
                if !non_syllabic && !forms_diphthong {
                    n + 1
                } else {
                    n
                },
                true,
                Some(base),
            )
        } else {
            (n, had, None)
        }
    }
}

/// The number of syllable nuclei of `segs`; a word with any vowel has at
/// least one.
pub open spec fn spec_count_nuclei(segs: Seq<Seq<char>>, diph: Seq<Seq<char>>) -> nat {
    let (n, had, _) = spec_nuclei_scan(segs, diph);
    if had && n == 0 {
        1
    } else {
        n
    }
}

/// The number of vowel segments of `segs`.
pub open spec fn spec_vowel_count(segs: Seq<Seq<char>>) -> nat
    decreases segs.len(),
{
    if segs.len() == 0 {
        0
    } else {
        spec_vowel_count(segs.drop_last()) + if spec_is_vowel(segs.last()) {
            1nat
        } else {
            0nat
        }
    }
}

/// Whether `pair` (two characters) is one of `diph`.
fn is_diphthong(diph: &Vec<Vec<char>>, p: char, b: char) -> (r: bool)
    ensures
        r == diph.deep_view().contains(seq![p, b]),
{
    let n = diph.len();
    for i in 0..n
        invariant
            n == diph.deep_view().len(),
            forall|k: int| 0 <= k < i ==> diph.deep_view()[k] != seq![p, b],
    {
        let d = &diph[i];
        assert(diph.deep_view()[i as int] == d.deep_view());
        proof {
            crate::text::lemma_char_vec_deep_view(*d);
        }
        if d.len() == 2 && d[0] == p && d[1] == b {
            assert(d@ == seq![p, b]);
            return true;
        }
        assert(d@ != seq![p, b]) by {
            if d@.len() == 2 {
                assert(d@ =~= seq![p, b] ==> (d@[0] == p && d@[1] == b));
            }
        }
    }
    false
}

/// Counts the syllable nuclei of `segs` given the language's diphthongs.
pub fn count_nuclei(segs: &Vec<Vec<char>>, diph: &Vec<Vec<char>>) -> (r: usize)
    ensures
        r == spec_count_nuclei(segs.deep_view(), diph.deep_view()),
{
    let n = segs.len();
    let mut nuclei: usize = 0;
    let mut had_vowel = false;
    let mut prev: Option<char> = None;
    let ghost sv = segs.deep_view();
    assert(sv.take(0) == Seq::<Seq<char>>::empty());
    for i in 0..n
        invariant
            n == sv.len(),
            sv == segs.deep_view(),
            nuclei <= i,
            spec_nuclei_scan(sv.take(i as int), diph.deep_view()) == (
                nuclei as nat,
                had_vowel,
                prev,
            ),
    {
        let seg = &segs[i];
        proof {
            crate::text::lemma_char_vec_deep_view(*seg);
            assert(sv.take(i + 1).drop_last() == sv.take(i as int));
            assert(sv.take(i + 1).last() == seg@);
        }
        if is_vowel(seg.as_slice()) {
            let b = seg[0];
            let non_syllabic = contains_char(seg.as_slice(), '\u{032F}');
            let forms = match prev {
                Some(p) => is_diphthong(diph, p, b),
                None => false,
            };
            if !non_syllabic && !forms {
                nuclei = nuclei + 1;
            }
            had_vowel = true;
            prev = Some(b);
        } else {
            prev = None;
        }
    }
    assert(sv.take(n as int) == sv);
    if had_vowel && nuclei == 0 {
        1
    } else {
        nuclei
    }
}

proof fn lemma_scan_bounds(segs: Seq<Seq<char>>, diph: Seq<Seq<char>>)
    ensures
        spec_nuclei_scan(segs, diph).0 <= spec_vowel_count(segs),
        spec_nuclei_scan(segs, diph).1 == (spec_vowel_count(segs) > 0),
    decreases segs.len(),
{
    if segs.len() > 0 {
        lemma_scan_bounds(segs.drop_last(), diph);
    }
}

/// The nucleus count never exceeds the number of vowel segments, and it is
/// positive exactly when the word has a vowel.
pub proof fn lemma_nuclei_bounds(segs: Seq<Seq<char>>, diph: Seq<Seq<char>>)
    ensures
        spec_count_nuclei(segs, diph) <= spec_vowel_count(segs),
        (spec_count_nuclei(segs, diph) > 0) == (spec_vowel_count(segs) > 0),
{
    lemma_scan_bounds(segs, diph);
}

/// With no diphthongs listed and no non-syllabic marks, every vowel segment is
/// a nucleus of its own (a vowel sequence is a hiatus).
pub proof fn lemma_no_diphthongs_every_vowel_counts(segs: Seq<Seq<char>>)
    requires
        forall|k: int| 0 <= k < segs.len() ==> !(#[trigger] segs[k]).contains(non_syllabic_mark()),
    ensures
        spec_count_nuclei(segs, Seq::empty()) == spec_vowel_count(segs),
    decreases segs.len(),
{
    lemma_no_diphthongs_scan(segs);
}

proof fn lemma_no_diphthongs_scan(segs: Seq<Seq<char>>)
    requires
        forall|k: int| 0 <= k < segs.len() ==> !(#[trigger] segs[k]).contains(non_syllabic_mark()),
    ensures
        spec_nuclei_scan(segs, Seq::empty()).0 == spec_vowel_count(segs),
        spec_nuclei_scan(segs, Seq::empty()).1 == (spec_vowel_count(segs) > 0),
    decreases segs.len(),
{
    if segs.len() > 0 {
        let init = segs.drop_last();
        assert forall|k: int| 0 <= k < init.len() implies !(#[trigger] init[k]).contains(
            non_syllabic_mark(),
        ) by {
            assert(init[k] == segs[k]);
        }
        lemma_no_diphthongs_scan(init);
        assert(segs.last() == segs[segs.len() - 1]);
    }
}

/// Whether the vowel at `i` starts a nucleus of its own: it is a vowel, it
/// is not marked non-syllabic, and it does not close one of `diph` together
/// with a vowel right before it.
pub open spec fn spec_starts_nucleus(segs: Seq<Seq<char>>, diph: Seq<Seq<char>>, i: int) -> bool {
    &&& spec_is_vowel(segs[i])
    &&& !segs[i].contains(non_syllabic_mark())
    &&& !(i > 0 && spec_is_vowel(segs[i - 1]) && diph.contains(seq![segs[i - 1][0], segs[i][0]]))
}

/// How many of the first `n` segments start a nucleus.
pub open spec fn spec_nucleus_starts(segs: Seq<Seq<char>>, diph: Seq<Seq<char>>, n: nat) -> nat
    decreases n,
{
    if n == 0 {
        0
    } else {
        spec_nucleus_starts(segs, diph, (n - 1) as nat) + if spec_starts_nucleus(
            segs,
            diph,
            n - 1,
        ) {
            1nat
        } else {
            0nat
        }
    }
}

proof fn lemma_scan_prefix(segs: Seq<Seq<char>>, diph: Seq<Seq<char>>, n: nat)
    requires
        n <= segs.len(),
    ensures
        spec_nuclei_scan(segs.take(n as int), diph).0 == spec_nucleus_starts(segs, diph, n),
        spec_nuclei_scan(segs.take(n as int), diph).2 == if n > 0 && spec_is_vowel(segs[n - 1]) {
            Some(segs[n - 1][0])
        } else {
            None
        },
    decreases n,
{
    if n > 0 {
        lemma_scan_prefix(segs, diph, (n - 1) as nat);
        assert(segs.take(n as int).drop_last() == segs.take(n - 1));
        assert(segs.take(n as int).last() == segs[n - 1]);
    }
}

/// The nucleus count, stated directly: a word without vowels has none;
/// otherwise it is the number of vowels that are neither non-syllabic nor the
/// second half of a listed diphthong, and at least one.
pub proof fn lemma_count_nuclei_direct(segs: Seq<Seq<char>>, diph: Seq<Seq<char>>)
    ensures
        spec_count_nuclei(segs, diph) == if spec_vowel_count(segs) == 0 {
            0
        } else if spec_nucleus_starts(segs, diph, segs.len()) == 0 {
            1
        } else {
            spec_nucleus_starts(segs, diph, segs.len())
        },
{
    lemma_scan_prefix(segs, diph, segs.len());
    assert(segs.take(segs.len() as int) == segs);
    lemma_scan_bounds(segs, diph);
}

proof fn lemma_more_diphthongs_scan(segs: Seq<Seq<char>>, d1: Seq<Seq<char>>, d2: Seq<Seq<char>>)
    requires
        forall|x: Seq<char>| d1.contains(x) ==> d2.contains(x),
    ensures
        spec_nuclei_scan(segs, d2).0 <= spec_nuclei_scan(segs, d1).0,
        spec_nuclei_scan(segs, d2).1 == spec_nuclei_scan(segs, d1).1,
        spec_nuclei_scan(segs, d2).2 == spec_nuclei_scan(segs, d1).2,
    decreases segs.len(),
{
    if segs.len() > 0 {
        lemma_more_diphthongs_scan(segs.drop_last(), d1, d2);
    }
}

/// Listing more diphthongs can only fold vowel pairs into single nuclei: the
/// nucleus count under a larger diphthong list never exceeds the count under
/// a smaller one.
pub proof fn lemma_diphthongs_only_merge(segs: Seq<Seq<char>>, d1: Seq<Seq<char>>, d2: Seq<Seq<char>>)
    requires
        forall|x: Seq<char>| d1.contains(x) ==> d2.contains(x),
    ensures
        spec_count_nuclei(segs, d2) <= spec_count_nuclei(segs, d1),
{
    lemma_more_diphthongs_scan(segs, d1, d2);
}

// ---------------------------------------------------------------------------
// Analyzed strings
// ---------------------------------------------------------------------------

/// The onset of a segmented string: the base character of its first segment.
pub open spec fn spec_onset(segs: Seq<Seq<char>>) -> Option<char> {
    if segs.len() > 0 && segs[0].len() > 0 {
        Some(segs[0][0])
    } else {
        None
    }
}

/// An IPA string with its phonetic structure computed once, up front: the
/// segmentation, the syllable-nucleus count and the onset. Build it with
/// [`analyze`] and reuse it across many comparisons.
pub struct Analyzed {
    /// The IPA string it was built from.
    pub ipa: String,
    /// Phoneme segments (base symbol followed by its diacritics).
    segs: Vec<Vec<char>>,
    /// Number of syllable nuclei.
    syllables: usize,
    /// Base character of the first segment, if any.
    onset: Option<char>,
}

impl Analyzed {
    /// The IPA string, as characters.
    pub closed spec fn ipa_view(self) -> Seq<char> {
        self.ipa@
    }

    /// The segments, as character sequences.
    pub closed spec fn segs_view(self) -> Seq<Seq<char>> {
        self.segs.deep_view()
    }

    /// The syllable-nucleus count.
    pub closed spec fn syllable_count(self) -> nat {
        self.syllables as nat
    }

    /// The onset.
    pub closed spec fn onset_view(self) -> Option<char> {
        self.onset
    }

    /// The onset is the first character of the first segment, and the
    /// nucleus count is at most the number of vowel segments.
    pub closed spec fn wf(self) -> bool {
        &&& self.onset == spec_onset(self.segs.deep_view())
        &&& self.syllables <= spec_vowel_count(self.segs.deep_view())
    }

    /// The segments.
    pub fn segs(&self) -> (r: &Vec<Vec<char>>)
        ensures
            r.deep_view() == self.segs_view(),
    {
        &self.segs
    }

    /// Number of segments.
    pub fn seg_count(&self) -> (r: usize)
        ensures
            r == self.segs_view().len(),
    {
        self.segs.len()
    }

    /// The syllable-nucleus count.
    pub fn syllables(&self) -> (r: usize)
        ensures
            r == self.syllable_count(),
    {
        self.syllables
    }

    /// The onset (base character of the first segment).
    pub fn onset(&self) -> (r: Option<char>)
        ensures
            r == self.onset_view(),
    {
        self.onset
    }
}

/// Precomputes the phonetic structure of the IPA string `ipa`, whose segments
/// are `segs`. `diphthongs` are the language's single-nucleus vowel pairs;
/// they make the syllable count language-correct.
pub fn analyze(ipa: &str, segs: &[String], diphthongs: &[String]) -> (r: Analyzed)
    ensures
        r.wf(),
        r.ipa_view() == ipa@,
        r.segs_view() == strings_view(segs@),
        r.syllable_count() == spec_count_nuclei(strings_view(segs@), strings_view(diphthongs@)),
        r.onset_view() == spec_onset(strings_view(segs@)),
{
    let sv = strings_to_chars(segs);
    let dv = strings_to_chars(diphthongs);
    let syllables = count_nuclei(&sv, &dv);
    proof {
        lemma_nuclei_bounds(sv.deep_view(), dv.deep_view());
    }
    let onset = if sv.len() > 0 {
        proof {
            crate::text::lemma_char_vec_deep_view(sv[0]);
        }
        base_char(sv[0].as_slice())
    } else {
        None
    };
    Analyzed { ipa: ipa.to_owned(), segs: sv, syllables, onset }
}

// ---------------------------------------------------------------------------
// Word-level comparison
// ---------------------------------------------------------------------------

/// The word-level facts that adjust the calibrated distance of two analyzed
/// strings, apart from the segment alignment itself.
#[derive(PartialEq, Eq, Structural, Clone, Copy, Debug)]
pub struct WordFacts {
    /// Neither string has a segment: the distance is `0`.
    pub both_empty: bool,
    /// The onsets differ: the onset penalty applies.
    pub onset_differs: bool,
    /// `|n - m|` for segment counts `n` and `m`.
    pub len_diff: usize,
    /// `max(n, m, 1)`: the worst alignment cost, which normalizes the distance.
    pub denom: usize,
    /// `|sa - sb|` for nucleus counts `sa` and `sb`.
    pub syllable_diff: usize,
    /// `max(sa, sb, 1)`.
    pub syllable_max: usize,
}

/// `|x - y|`.
pub open spec fn spec_abs_diff(x: nat, y: nat) -> nat {
    if x >= y {
        (x - y) as nat
    } else {
        (y - x) as nat
    }
}

/// `max(x, y, 1)`.
pub open spec fn spec_max1(x: nat, y: nat) -> nat {
    if x >= y && x >= 1 {
        x
    } else if y >= 1 {
        y
    } else {
        1
    }
}

/// The word-level facts of `a` against `b`.
pub open spec fn spec_word_facts(a: Analyzed, b: Analyzed) -> WordFacts {
    let n = a.segs_view().len();
    let m = b.segs_view().len();
    WordFacts {
        both_empty: n == 0 && m == 0,
        onset_differs: a.onset_view() != b.onset_view(),
        len_diff: spec_abs_diff(n, m) as usize,
        denom: spec_max1(n, m) as usize,
        syllable_diff: spec_abs_diff(a.syllable_count(), b.syllable_count()) as usize,
        syllable_max: spec_max1(a.syllable_count(), b.syllable_count()) as usize,
    }
}

/// Computes the word-level facts of `a` against `b`.
pub fn word_facts(a: &Analyzed, b: &Analyzed) -> (r: WordFacts)
    ensures
        r == spec_word_facts(*a, *b),
{
    let n = a.seg_count();
    let m = b.seg_count();
    let sa = a.syllables();
    let sb = b.syllables();
    WordFacts {
        both_empty: n == 0 && m == 0,
        onset_differs: a.onset() != b.onset(),
        len_diff: if n >= m {
            n - m
        } else {
            m - n
        },
        denom: if n >= m && n >= 1 {
            n
        } else if m >= 1 {
            m
        } else {
            1
        },
        syllable_diff: if sa >= sb {
            sa - sb
        } else {
            sb - sa
        },
        syllable_max: if sa >= sb && sa >= 1 {
            sa
        } else if sb >= 1 {
            sb
        } else {
            1
        },
    }
}

/// The normalisers of a comparison are maxima: `denom` is the larger of the
/// two segment counts and `1`, and `syllable_max` the larger of the two
/// nucleus counts and `1`. So two words of the same length `n >= 1` divide
/// their alignment cost by `n`. `len_diff` and `syllable_diff` are the
/// distances between the counts, the words are both empty exactly when
/// neither has a segment, and the onset penalty applies exactly when the
/// onsets differ.
pub proof fn lemma_word_facts_normalisers(a: Analyzed, b: Analyzed)
    ensures
        ({
            let f = spec_word_facts(a, b);
            let n = a.segs_view().len();
            let m = b.segs_view().len();
            let sa = a.syllable_count();
            let sb = b.syllable_count();
            &&& f.denom >= n && f.denom >= m && f.denom >= 1
            &&& (f.denom == n || f.denom == m || f.denom == 1)
            &&& f.syllable_max >= sa && f.syllable_max >= sb && f.syllable_max >= 1
            &&& (f.syllable_max == sa || f.syllable_max == sb || f.syllable_max == 1)
            &&& f.len_diff + (if n <= m { n } else { m }) == (if n <= m { m } else { n })
            &&& f.syllable_diff + (if sa <= sb { sa } else { sb }) == (if sa <= sb { sb } else { sa })
            &&& f.both_empty == (n == 0 && m == 0)
            &&& f.onset_differs == (a.onset_view() != b.onset_view())
        }),
{
    broadcast use vstd::std_specs::vec::axiom_spec_len;

    assert(a.segs.deep_view().len() == a.segs@.len());
    assert(b.segs.deep_view().len() == b.segs@.len());
    assert(a.segs.len() == a.segs@.len());
    assert(b.segs.len() == b.segs@.len());
}

/// The onset of a segmentation is the first character of the string the
/// segments spell out, when its first segment is non-empty; a segmentation
/// with no segment, or whose first segment is empty, has no onset.
pub proof fn lemma_onset_is_first_char(segs: Seq<Seq<char>>, ipa: Seq<char>)
    requires
        segs.flatten() == ipa,
    ensures
        segs.len() > 0 && segs[0].len() > 0 ==> spec_onset(segs) == Some(ipa[0]),
        !(segs.len() > 0 && segs[0].len() > 0) ==> spec_onset(segs) is None,
{
    if segs.len() > 0 && segs[0].len() > 0 {
        assert(segs.flatten() == segs.first() + segs.drop_first().flatten());
        assert((segs.first() + segs.drop_first().flatten())[0] == segs[0][0]);
    }
}

/// The word-level facts do not depend on the order of the two strings, and a
/// string compared with itself shows no difference.
pub proof fn lemma_word_facts_symmetric(a: Analyzed, b: Analyzed)
    ensures
        spec_word_facts(a, b) == spec_word_facts(b, a),
        !spec_word_facts(a, a).onset_differs,
        spec_word_facts(a, a).len_diff == 0,
        spec_word_facts(a, a).syllable_diff == 0,
{
}

} // verus!
