//! Phoneme segments: the articulatory feature table, vowel/nasal/length/tone
//! classification of a segment (a base symbol followed by its diacritics), the
//! feature distance between two segments, and the facts that decide the cost of
//! substituting one segment for another.

use vstd::prelude::*;

use crate::text::{chars_eq, is_numeric, numeric_char};

verus! {

/// Number of articulatory feature dimensions.
pub const NF: usize = 10;

/// Articulatory features of a base IPA symbol, each in `-1..=1`. Dimensions:
/// syllabic, voiced, nasal, continuant, labial, coronal, dorsal, high, back,
/// round. `None` for a symbol outside the table.
pub open spec fn spec_features(c: char) -> Option<Seq<int>> {
    match c {
        'p' => Some(seq![-1int, -1, -1, -1, 1, 0, 0, 0, 0, 0]),
        'b' => Some(seq![-1int, 1, -1, -1, 1, 0, 0, 0, 0, 0]),
        't' => Some(seq![-1int, -1, -1, -1, 0, 1, 0, 0, 0, 0]),
        'd' => Some(seq![-1int, 1, -1, -1, 0, 1, 0, 0, 0, 0]),
        'k' => Some(seq![-1int, -1, -1, -1, 0, 0, 1, 1, 0, 0]),
        'g' | 'ɡ' => Some(seq![-1int, 1, -1, -1, 0, 0, 1, 1, 0, 0]),
        'q' => Some(seq![-1int, -1, -1, -1, 0, 0, 1, 0, 1, 0]),
        'ʔ' => Some(seq![-1int, -1, -1, -1, 0, 0, 0, 0, 0, 0]),
        'm' => Some(seq![-1int, 1, 1, -1, 1, 0, 0, 0, 0, 0]),
        'ɱ' => Some(seq![-1int, 1, 1, -1, 1, 0, 0, 0, 0, 0]),
        'n' => Some(seq![-1int, 1, 1, -1, 0, 1, 0, 0, 0, 0]),
        'ŋ' => Some(seq![-1int, 1, 1, -1, 0, 0, 1, 1, 0, 0]),
        'ɲ' => Some(seq![-1int, 1, 1, -1, 0, 1, 1, 1, 0, 0]),
        'ɴ' => Some(seq![-1int, 1, 1, -1, 0, 0, 1, 0, 1, 0]),
        'f' => Some(seq![-1int, -1, -1, 1, 1, 0, 0, 0, 0, 0]),
        'v' => Some(seq![-1int, 1, -1, 1, 1, 0, 0, 0, 0, 0]),
        'θ' => Some(seq![-1int, -1, -1, 1, 0, 1, 0, 0, 0, 0]),
        'ð' => Some(seq![-1int, 1, -1, 1, 0, 1, 0, 0, 0, 0]),
        's' => Some(seq![-1int, -1, -1, 1, 0, 1, 0, 0, 0, 0]),
        'z' => Some(seq![-1int, 1, -1, 1, 0, 1, 0, 0, 0, 0]),
        'ʃ' => Some(seq![-1int, -1, -1, 1, 0, 1, 0, 1, 0, 0]),
        'ʒ' => Some(seq![-1int, 1, -1, 1, 0, 1, 0, 1, 0, 0]),
        'ç' => Some(seq![-1int, -1, -1, 1, 0, 1, 1, 1, 0, 0]),
        'x' => Some(seq![-1int, -1, -1, 1, 0, 0, 1, 1, 0, 0]),
        'ɣ' => Some(seq![-1int, 1, -1, 1, 0, 0, 1, 1, 0, 0]),
        'χ' => Some(seq![-1int, -1, -1, 1, 0, 0, 1, 0, 1, 0]),
        'ʁ' => Some(seq![-1int, 1, -1, 1, 0, 0, 1, 0, 1, 0]),
        'ħ' => Some(seq![-1int, -1, -1, 1, 0, 0, 1, 0, 1, 0]),
        'ʕ' => Some(seq![-1int, 1, -1, 1, 0, 0, 1, 0, 1, 0]),
        'h' => Some(seq![-1int, -1, -1, 1, 0, 0, 0, 0, 0, 0]),
        'ɸ' => Some(seq![-1int, -1, -1, 1, 1, 0, 0, 0, 0, 0]),
        'l' => Some(seq![-1int, 1, -1, 1, 0, 1, 0, 0, 0, 0]),
        'ɭ' => Some(seq![-1int, 1, -1, 1, 0, 1, 0, 0, 0, 0]),
        'r' => Some(seq![-1int, 1, -1, 1, 0, 1, 0, 0, 0, 0]),
        'ɾ' => Some(seq![-1int, 1, -1, 1, 0, 1, 0, 0, 0, 0]),
        'ɹ' => Some(seq![-1int, 1, -1, 1, 0, 1, 0, 0, 0, 0]),
        'w' => Some(seq![-1int, 1, -1, 1, 1, 0, 1, 1, 1, 1]),
        'j' => Some(seq![-1int, 1, -1, 1, 0, 1, 1, 1, 0, 0]),
        'ɥ' => Some(seq![-1int, 1, -1, 1, 1, 1, 1, 1, 0, 1]),
        'i' => Some(seq![1int, 1, -1, 1, 0, 0, 0, 1, -1, -1]),
        'y' => Some(seq![1int, 1, -1, 1, 0, 0, 0, 1, -1, 1]),
        'ɪ' => Some(seq![1int, 1, -1, 1, 0, 0, 0, 1, -1, -1]),
        'e' => Some(seq![1int, 1, -1, 1, 0, 0, 0, 0, -1, -1]),
        'ø' => Some(seq![1int, 1, -1, 1, 0, 0, 0, 0, -1, 1]),
        'ɛ' => Some(seq![1int, 1, -1, 1, 0, 0, 0, -1, -1, -1]),
        'œ' => Some(seq![1int, 1, -1, 1, 0, 0, 0, -1, -1, 1]),
        'æ' => Some(seq![1int, 1, -1, 1, 0, 0, 0, -1, -1, -1]),
        'a' => Some(seq![1int, 1, -1, 1, 0, 0, 0, -1, 0, -1]),
        'ə' => Some(seq![1int, 1, -1, 1, 0, 0, 0, 0, 0, -1]),
        'ɐ' => Some(seq![1int, 1, -1, 1, 0, 0, 0, -1, 0, -1]),
        'ɑ' => Some(seq![1int, 1, -1, 1, 0, 0, 0, -1, 1, -1]),
        'ɔ' => Some(seq![1int, 1, -1, 1, 0, 0, 0, -1, 1, 1]),
        'o' => Some(seq![1int, 1, -1, 1, 0, 0, 0, 0, 1, 1]),
        'ʊ' => Some(seq![1int, 1, -1, 1, 0, 0, 0, 1, 1, 1]),
        'u' => Some(seq![1int, 1, -1, 1, 0, 0, 0, 1, 1, 1]),
        'ɯ' => Some(seq![1int, 1, -1, 1, 0, 0, 0, 1, 1, -1]),
        _ => None,
    }
}

/// The integer view of a feature vector.
pub open spec fn feature_view(a: [i8; 10]) -> Seq<int> {
    a@.map_values(|x: i8| x as int)
}

/// Looks `c` up in the feature table.
pub fn features(c: char) -> (r: Option<[i8; 10]>)
    ensures
        match r {
            Some(a) => spec_features(c) == Some(feature_view(a)),
            None => spec_features(c) is None,
        },
{
    match c {
        'p' => Some([-1, -1, -1, -1, 1, 0, 0, 0, 0, 0]),
        'b' => Some([-1, 1, -1, -1, 1, 0, 0, 0, 0, 0]),
        't' => Some([-1, -1, -1, -1, 0, 1, 0, 0, 0, 0]),
        'd' => Some([-1, 1, -1, -1, 0, 1, 0, 0, 0, 0]),
        'k' => Some([-1, -1, -1, -1, 0, 0, 1, 1, 0, 0]),
        'g' | 'ɡ' => Some([-1, 1, -1, -1, 0, 0, 1, 1, 0, 0]),
        'q' => Some([-1, -1, -1, -1, 0, 0, 1, 0, 1, 0]),
        'ʔ' => Some([-1, -1, -1, -1, 0, 0, 0, 0, 0, 0]),
        'm' => Some([-1, 1, 1, -1, 1, 0, 0, 0, 0, 0]),
        'ɱ' => Some([-1, 1, 1, -1, 1, 0, 0, 0, 0, 0]),
        'n' => Some([-1, 1, 1, -1, 0, 1, 0, 0, 0, 0]),
        'ŋ' => Some([-1, 1, 1, -1, 0, 0, 1, 1, 0, 0]),
        'ɲ' => Some([-1, 1, 1, -1, 0, 1, 1, 1, 0, 0]),
        'ɴ' => Some([-1, 1, 1, -1, 0, 0, 1, 0, 1, 0]),
        'f' => Some([-1, -1, -1, 1, 1, 0, 0, 0, 0, 0]),
        'v' => Some([-1, 1, -1, 1, 1, 0, 0, 0, 0, 0]),
        'θ' => Some([-1, -1, -1, 1, 0, 1, 0, 0, 0, 0]),
        'ð' => Some([-1, 1, -1, 1, 0, 1, 0, 0, 0, 0]),
        's' => Some([-1, -1, -1, 1, 0, 1, 0, 0, 0, 0]),
        'z' => Some([-1, 1, -1, 1, 0, 1, 0, 0, 0, 0]),
        'ʃ' => Some([-1, -1, -1, 1, 0, 1, 0, 1, 0, 0]),
        'ʒ' => Some([-1, 1, -1, 1, 0, 1, 0, 1, 0, 0]),
        'ç' => Some([-1, -1, -1, 1, 0, 1, 1, 1, 0, 0]),
        'x' => Some([-1, -1, -1, 1, 0, 0, 1, 1, 0, 0]),
        'ɣ' => Some([-1, 1, -1, 1, 0, 0, 1, 1, 0, 0]),
        'χ' => Some([-1, -1, -1, 1, 0, 0, 1, 0, 1, 0]),
        'ʁ' => Some([-1, 1, -1, 1, 0, 0, 1, 0, 1, 0]),
        'ħ' => Some([-1, -1, -1, 1, 0, 0, 1, 0, 1, 0]),
        'ʕ' => Some([-1, 1, -1, 1, 0, 0, 1, 0, 1, 0]),
        'h' => Some([-1, -1, -1, 1, 0, 0, 0, 0, 0, 0]),
        'ɸ' => Some([-1, -1, -1, 1, 1, 0, 0, 0, 0, 0]),
        'l' => Some([-1, 1, -1, 1, 0, 1, 0, 0, 0, 0]),
        'ɭ' => Some([-1, 1, -1, 1, 0, 1, 0, 0, 0, 0]),
        'r' => Some([-1, 1, -1, 1, 0, 1, 0, 0, 0, 0]),
        'ɾ' => Some([-1, 1, -1, 1, 0, 1, 0, 0, 0, 0]),
        'ɹ' => Some([-1, 1, -1, 1, 0, 1, 0, 0, 0, 0]),
        'w' => Some([-1, 1, -1, 1, 1, 0, 1, 1, 1, 1]),
        'j' => Some([-1, 1, -1, 1, 0, 1, 1, 1, 0, 0]),
        'ɥ' => Some([-1, 1, -1, 1, 1, 1, 1, 1, 0, 1]),
        'i' => Some([1, 1, -1, 1, 0, 0, 0, 1, -1, -1]),
        'y' => Some([1, 1, -1, 1, 0, 0, 0, 1, -1, 1]),
        'ɪ' => Some([1, 1, -1, 1, 0, 0, 0, 1, -1, -1]),
        'e' => Some([1, 1, -1, 1, 0, 0, 0, 0, -1, -1]),
        'ø' => Some([1, 1, -1, 1, 0, 0, 0, 0, -1, 1]),
        'ɛ' => Some([1, 1, -1, 1, 0, 0, 0, -1, -1, -1]),
        'œ' => Some([1, 1, -1, 1, 0, 0, 0, -1, -1, 1]),
        'æ' => Some([1, 1, -1, 1, 0, 0, 0, -1, -1, -1]),
        'a' => Some([1, 1, -1, 1, 0, 0, 0, -1, 0, -1]),
        'ə' => Some([1, 1, -1, 1, 0, 0, 0, 0, 0, -1]),
        'ɐ' => Some([1, 1, -1, 1, 0, 0, 0, -1, 0, -1]),
        'ɑ' => Some([1, 1, -1, 1, 0, 0, 0, -1, 1, -1]),
        'ɔ' => Some([1, 1, -1, 1, 0, 0, 0, -1, 1, 1]),
        'o' => Some([1, 1, -1, 1, 0, 0, 0, 0, 1, 1]),
        'ʊ' => Some([1, 1, -1, 1, 0, 0, 0, 1, 1, 1]),
        'u' => Some([1, 1, -1, 1, 0, 0, 0, 1, 1, 1]),
        'ɯ' => Some([1, 1, -1, 1, 0, 0, 0, 1, 1, -1]),
        _ => None,
    }
}

/// Every feature value in the table lies in `-1..=1`.
pub proof fn lemma_features_bounded(c: char)
    ensures
        spec_features(c) matches Some(f) ==> f.len() == NF && forall|i: int|
            0 <= i < f.len() ==> -1 <= #[trigger] f[i] <= 1,
{
}

// ---------------------------------------------------------------------------
// Segment classification
// ---------------------------------------------------------------------------

/// The combining tilde that marks a nasalized segment.
pub open spec fn nasal_mark() -> char {
    '\u{0303}'
}

/// The combining inverted breve below that marks a non-syllabic vowel (glide).
pub open spec fn non_syllabic_mark() -> char {
    '\u{032F}'
}

/// The base symbol of a segment: its first character.
pub open spec fn spec_base_char(seg: Seq<char>) -> Option<char> {
    if seg.len() > 0 {
        Some(seg[0])
    } else {
        None
    }
}

/// A segment is a vowel when its base symbol's syllabic feature is `+1`;
/// symbols outside the table count as consonants.
pub open spec fn spec_is_vowel(seg: Seq<char>) -> bool {
    match spec_base_char(seg) {
        Some(b) => match spec_features(b) {
            Some(f) => f[0] == 1,
            None => false,
        },
        None => false,
    }
}

/// A segment is nasalized when it carries the combining tilde or its base is a
/// nasal symbol.
pub open spec fn spec_nasalized(seg: Seq<char>) -> bool {
    ||| seg.contains(nasal_mark())
    ||| match spec_base_char(seg) {
        Some(b) => match spec_features(b) {
            Some(f) => f[2] == 1,
            None => false,
        },
        None => false,
    }
}

/// A segment is long when it carries `ː` (U+02D0) or `ˑ` (U+02D1).
pub open spec fn spec_long(seg: Seq<char>) -> bool {
    seg.contains('\u{02D0}') || seg.contains('\u{02D1}')
}

/// Tone letters `˥˦˧˨˩`, super- and subscripts U+2070..U+209F, `² ³ ¹`, and
/// any numeric character (Chao tone digits).
pub open spec fn spec_is_tone_mark(c: char) -> bool {
    let u = c as u32;
    ||| 0x02E5 <= u <= 0x02E9
    ||| 0x2070 <= u <= 0x209F
    ||| u == 0xB2
    ||| u == 0xB3
    ||| u == 0xB9
    ||| numeric_char(c)
}

/// The tone signature of a segment: its tone marks, in order.
pub open spec fn spec_tone(seg: Seq<char>) -> Seq<char> {
    seg.filter(|c: char| spec_is_tone_mark(c))
}

/// The feature vector of a segment: its base symbol's vector, with the nasal
/// dimension set when the combining tilde is present.
pub open spec fn spec_seg_features(seg: Seq<char>) -> Option<Seq<int>> {
    match spec_base_char(seg) {
        Some(b) => match spec_features(b) {
            Some(f) => Some(
                if seg.contains(nasal_mark()) {
                    f.update(2, 1)
                } else {
                    f
                },
            ),
            None => None,
        },
        None => None,
    }
}

/// `|x|`.
pub open spec fn spec_abs(x: int) -> int {
    if x < 0 {
        -x
    } else {
        x
    }
}

/// Sum of `|a[i] - b[i]|` over the first `n` dimensions.
pub open spec fn spec_l1(a: Seq<int>, b: Seq<int>, n: nat) -> int
    decreases n,
{
    if n == 0 {
        0
    } else {
        spec_l1(a, b, (n - 1) as nat) + spec_abs(a[n - 1] - b[n - 1])
    }
}

/// Feature distance between two segments in twentieths (so `20` is distance
/// `1.0`): the L1 distance of their feature vectors when both are in the
/// table (each dimension spans 2, over 10 dimensions), else `4` (0.2) when the
/// base symbols agree, else `20`.
pub open spec fn spec_feature_twentieths(a: Seq<char>, b: Seq<char>) -> int {
    match (spec_seg_features(a), spec_seg_features(b)) {
        (Some(fa), Some(fb)) => spec_l1(fa, fb, NF as nat),
        _ => if spec_base_char(a) == spec_base_char(b) {
            4
        } else {
            20
        },
    }
}

/// Whether `seg` contains `c`.
pub fn contains_char(seg: &[char], c: char) -> (r: bool)
    ensures
        r == seg@.contains(c),
{
    let n = seg.len();
    for i in 0..n
        invariant
            n == seg@.len(),
            forall|k: int| 0 <= k < i ==> seg@[k] != c,
    {
        if seg[i] == c {
            assert(seg@[i as int] == c);
            return true;
        }
    }
    false
}

/// The base symbol of `seg`.
pub fn base_char(seg: &[char]) -> (r: Option<char>)
    ensures
        r == spec_base_char(seg@),
{
    if seg.len() > 0 {
        Some(seg[0])
    } else {
        None
    }
}

/// Whether `seg` is a vowel.
pub fn is_vowel(seg: &[char]) -> (r: bool)
    ensures
        r == spec_is_vowel(seg@),
{
    match base_char(seg) {
        Some(b) => match features(b) {
            Some(f) => f[0] == 1,
            None => false,
        },
        None => false,
    }
}

/// Whether `seg` is nasalized.
pub fn nasalized(seg: &[char]) -> (r: bool)
    ensures
        r == spec_nasalized(seg@),
{
    if contains_char(seg, '\u{0303}') {
        return true;
    }
    match base_char(seg) {
        Some(b) => match features(b) {
            Some(f) => f[2] == 1,
            None => false,
        },
        None => false,
    }
}

/// Whether `seg` is long.
pub fn long(seg: &[char]) -> (r: bool)
    ensures
        r == spec_long(seg@),
{
    contains_char(seg, '\u{02D0}') || contains_char(seg, '\u{02D1}')
}

/// Whether `c` is a tone mark.
pub fn is_tone_mark(c: char) -> (r: bool)
    ensures
        r == spec_is_tone_mark(c),
{
    let u = c as u32;
    (0x02E5 <= u && u <= 0x02E9) || (0x2070 <= u && u <= 0x209F) || u == 0xB2 || u == 0xB3 || u
        == 0xB9 || is_numeric(c)
}

proof fn lemma_filter_snoc(s: Seq<char>, i: int, pred: spec_fn(char) -> bool)
    requires
        0 <= i < s.len(),
    ensures
        s.take(i + 1).filter(pred) == if pred(s[i]) {
            s.take(i).filter(pred).push(s[i])
        } else {
            s.take(i).filter(pred)
        },
{
    reveal(Seq::filter);
    assert(s.take(i + 1).drop_last() == s.take(i));
}

/// The tone marks of `seg`, in order.
pub fn tone(seg: &[char]) -> (r: Vec<char>)
    ensures
        r@ == spec_tone(seg@),
{
    let ghost pred = |c: char| spec_is_tone_mark(c);
    let mut r: Vec<char> = Vec::new();
    let n = seg.len();
    assert(seg@.take(0).filter(pred) == Seq::<char>::empty()) by {
        reveal(Seq::filter);
    }
    for i in 0..n
        invariant
            n == seg@.len(),
            pred == (|c: char| spec_is_tone_mark(c)),
            r@ == seg@.take(i as int).filter(pred),
    {
        proof {
            lemma_filter_snoc(seg@, i as int, pred);
        }
        if is_tone_mark(seg[i]) {
            r.push(seg[i]);
        }
    }
    assert(seg@.take(n as int) == seg@);
    r
}

/// The feature vector of `seg`.
pub fn seg_features(seg: &[char]) -> (r: Option<[i8; 10]>)
    ensures
        match r {
            Some(a) => spec_seg_features(seg@) == Some(feature_view(a)),
            None => spec_seg_features(seg@) is None,
        },
{
    let b = match base_char(seg) {
        Some(b) => b,
        None => return None,
    };
    let mut f = match features(b) {
        Some(f) => f,
        None => return None,
    };
    if contains_char(seg, '\u{0303}') {
        let ghost before = feature_view(f);
        f[2] = 1;
        assert(feature_view(f) == before.update(2, 1));
    }
    Some(f)
}

/// Every vector that `spec_seg_features` yields has `NF` entries in `-1..=1`.
proof fn lemma_seg_features_bounded(seg: Seq<char>)
    ensures
        spec_seg_features(seg) matches Some(f) ==> f.len() == NF && forall|i: int|
            0 <= i < f.len() ==> -1 <= #[trigger] f[i] <= 1,
{
    if let Some(b) = spec_base_char(seg) {
        lemma_features_bounded(b);
    }
}

/// The L1 distance of two vectors in `-1..=1` is at most `2n`.
proof fn lemma_l1_bounded(a: Seq<int>, b: Seq<int>, n: nat)
    requires
        n <= a.len(),
        n <= b.len(),
        forall|i: int| 0 <= i < a.len() ==> -1 <= #[trigger] a[i] <= 1,
        forall|i: int| 0 <= i < b.len() ==> -1 <= #[trigger] b[i] <= 1,
    ensures
        0 <= spec_l1(a, b, n) <= 2 * n,
    decreases n,
{
    if n > 0 {
        lemma_l1_bounded(a, b, (n - 1) as nat);
    }
}

/// Feature distance of two segments in twentieths; always in `0..=20`.
pub fn feature_twentieths(a: &[char], b: &[char]) -> (r: u32)
    ensures
        r as int == spec_feature_twentieths(a@, b@),
        r <= 20,
{
    proof {
        lemma_seg_features_bounded(a@);
        lemma_seg_features_bounded(b@);
    }
    match (seg_features(a), seg_features(b)) {
        (Some(fa), Some(fb)) => {
            let ghost va = feature_view(fa);
            let ghost vb = feature_view(fb);
            proof {
                lemma_l1_bounded(va, vb, NF as nat);
            }
            let mut sum: u32 = 0;
            for i in 0..NF
                invariant
                    va == feature_view(fa),
                    vb == feature_view(fb),
                    va.len() == NF,
                    vb.len() == NF,
                    forall|k: int| 0 <= k < va.len() ==> -1 <= #[trigger] va[k] <= 1,
                    forall|k: int| 0 <= k < vb.len() ==> -1 <= #[trigger] vb[k] <= 1,
                    sum as int == spec_l1(va, vb, i as nat),
                    sum <= 2 * i,
            {
                assert(va[i as int] == fa[i as int] as int);
                assert(vb[i as int] == fb[i as int] as int);
                let d: i32 = fa[i] as i32 - fb[i] as i32;
                let ad: u32 = if d < 0 {
                    (-d) as u32
                } else {
                    d as u32
                };
                sum = sum + ad;
            }
            sum
        },
        _ => {
            if base_char(a) == base_char(b) {
                4
            } else {
                20
            }
        },
    }
}

// ---------------------------------------------------------------------------
// Substitution
// ---------------------------------------------------------------------------

/// Which multiplier a substitution applies to the feature distance.
#[derive(PartialEq, Eq, Structural, Clone, Copy, Debug)]
pub enum ScaleClass {
    /// Both segments are vowels: the vowel scale.
    BothVowels,
    /// Both segments are consonants: the consonant scale.
    BothConsonants,
    /// One vowel, one consonant: no scaling.
    Mixed,
}

/// Everything that decides the cost of substituting one segment for another.
/// When `identical` holds the cost is zero; otherwise it is the blend of the
/// scaled feature distance with an exact mismatch, plus a penalty for each
/// `*_differs` flag that is set.
#[derive(PartialEq, Eq, Structural, Clone, Copy, Debug)]
pub struct SubstitutionFacts {
    /// The two segments are the same string.
    pub identical: bool,
    /// Which scale applies to the feature distance.
    pub scale: ScaleClass,
    /// Feature distance in twentieths (`0..=20`).
    pub feature_twentieths: u32,
    /// Exactly one of the two is nasalized.
    pub nasal_differs: bool,
    /// Exactly one of the two is long.
    pub length_differs: bool,
    /// Their tone signatures differ.
    pub tone_differs: bool,
    /// One is a vowel and the other a consonant.
    pub class_differs: bool,
}

/// The scale class of a pair of segments.
pub open spec fn spec_scale_class(a: Seq<char>, b: Seq<char>) -> ScaleClass {
    if spec_is_vowel(a) && spec_is_vowel(b) {
        ScaleClass::BothVowels
    } else if !spec_is_vowel(a) && !spec_is_vowel(b) {
        ScaleClass::BothConsonants
    } else {
        ScaleClass::Mixed
    }
}

/// The substitution facts of segments `a` and `b`.
pub open spec fn spec_substitution_facts(a: Seq<char>, b: Seq<char>) -> SubstitutionFacts {
    SubstitutionFacts {
        identical: a == b,
        scale: spec_scale_class(a, b),
        feature_twentieths: spec_feature_twentieths(a, b) as u32,
        nasal_differs: spec_nasalized(a) != spec_nasalized(b),
        length_differs: spec_long(a) != spec_long(b),
        tone_differs: spec_tone(a) != spec_tone(b),
        class_differs: spec_is_vowel(a) != spec_is_vowel(b),
    }
}

/// Computes the substitution facts of `a` and `b`.
pub fn substitution_facts(a: &[char], b: &[char]) -> (r: SubstitutionFacts)
    ensures
        r == spec_substitution_facts(a@, b@),
{
    let (va, vb) = (is_vowel(a), is_vowel(b));
    let scale = if va && vb {
        ScaleClass::BothVowels
    } else if !va && !vb {
        ScaleClass::BothConsonants
    } else {
        ScaleClass::Mixed
    };
    let ta = tone(a);
    let tb = tone(b);
    SubstitutionFacts {
        identical: chars_eq(a, b),
        scale,
        feature_twentieths: feature_twentieths(a, b),
        nasal_differs: nasalized(a) != nasalized(b),
        length_differs: long(a) != long(b),
        tone_differs: !chars_eq(ta.as_slice(), tb.as_slice()),
        class_differs: va != vb,
    }
}

proof fn lemma_l1_symmetric(a: Seq<int>, b: Seq<int>, n: nat)
    ensures
        spec_l1(a, b, n) == spec_l1(b, a, n),
    decreases n,
{
    if n > 0 {
        lemma_l1_symmetric(a, b, (n - 1) as nat);
    }
}

proof fn lemma_l1_self(a: Seq<int>, n: nat)
    ensures
        spec_l1(a, a, n) == 0,
    decreases n,
{
    if n > 0 {
        lemma_l1_self(a, (n - 1) as nat);
    }
}

/// Substituting a segment for itself is free: the pair is identical, no
/// penalty flag is set and the feature distance is that of a symbol with
/// itself (`0` for a symbol in the table, else `4`).
pub proof fn lemma_substitution_reflexive(a: Seq<char>)
    ensures
        spec_substitution_facts(a, a).identical,
        !spec_substitution_facts(a, a).nasal_differs,
        !spec_substitution_facts(a, a).length_differs,
        !spec_substitution_facts(a, a).tone_differs,
        !spec_substitution_facts(a, a).class_differs,
        spec_seg_features(a) is Some ==> spec_substitution_facts(a, a).feature_twentieths == 0,
{
    if let Some(f) = spec_seg_features(a) {
        lemma_l1_self(f, NF as nat);
    }
}

/// The substitution facts do not depend on the order of the two segments.
pub proof fn lemma_substitution_symmetric(a: Seq<char>, b: Seq<char>)
    ensures
        spec_substitution_facts(a, b) == spec_substitution_facts(b, a),
{
    if let (Some(fa), Some(fb)) = (spec_seg_features(a), spec_seg_features(b)) {
        lemma_l1_symmetric(fa, fb, NF as nat);
    }
}

} // verus!
