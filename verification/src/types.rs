//! Request and response payloads of the JSON API, as plain data. The service
//! layer adds the JSON encoding.

use vstd::prelude::*;

verus! {

/// Similarity method. `Calibrated` (the default) is the per-language blend;
/// `Weighted` and `Levenshtein` are the fixed core metrics.
#[derive(Clone, Copy, Debug, PartialEq, Eq, Structural)]
pub enum MethodArg {
    Levenshtein,
    Weighted,
    Calibrated,
}

/// The lowercase name of a method, as the API spells it.
pub open spec fn spec_method_name(m: MethodArg) -> Seq<char> {
    match m {
        MethodArg::Levenshtein => seq!['l', 'e', 'v', 'e', 'n', 's', 'h', 't', 'e', 'i', 'n'],
        MethodArg::Weighted => seq!['w', 'e', 'i', 'g', 'h', 't', 'e', 'd'],
        MethodArg::Calibrated => seq!['c', 'a', 'l', 'i', 'b', 'r', 'a', 't', 'e', 'd'],
    }
}

impl MethodArg {
    /// The method's API name.
    pub fn as_str(self) -> (r: &'static str)
        ensures
            r@ == spec_method_name(self),
    {
        match self {
            MethodArg::Levenshtein => {
                proof {
                    reveal_strlit("levenshtein");
                }
                "levenshtein"
            },
            MethodArg::Weighted => {
                proof {
                    reveal_strlit("weighted");
                }
                "weighted"
            },
            MethodArg::Calibrated => {
                proof {
                    reveal_strlit("calibrated");
                }
                "calibrated"
            },
        }
    }
}

impl Default for MethodArg {
    /// `Calibrated`.
    fn default() -> (r: MethodArg)
        ensures
            r == MethodArg::Calibrated,
    {
        MethodArg::Calibrated
    }
}

/// Different methods have different names.
pub proof fn lemma_method_names_distinct(a: MethodArg, b: MethodArg)
    ensures
        spec_method_name(a) == spec_method_name(b) ==> a == b,
{
    if a != b {
        assert(spec_method_name(a).len() != spec_method_name(b).len() || spec_method_name(a)[0]
            != spec_method_name(b)[0]);
    }
}

/// The default of the boolean request flags that are on unless turned off.
pub fn default_true() -> (r: bool)
    ensures
        r,
{
    true
}

/// `POST /g2p` body.
pub struct G2pRequest {
    /// Word or whitespace-separated sequence of words to phonemize.
    pub text: String,
    /// Whisper language code; `None` to auto-detect from `text`.
    pub lang: Option<String>,
    /// Spell integer numerals as words before phonemizing.
    pub numbers: bool,
}

/// One word and its phonemes.
pub struct WordPhonemes {
    pub word: String,
    pub phonemes: String,
}

/// `POST /detect` body.
pub struct DetectRequest {
    pub text: String,
}

/// One entry of `GET /languages`.
pub struct LanguageInfo {
    pub whisper: String,
    pub iso: String,
    pub logographic: bool,
    pub model_available: bool,
    pub loaded: bool,
}

} // verus!
