//! Script handling for the localisation toolkit: naming the supported
//! Indic scripts, detecting which script a text uses, and a small
//! Latin-to-Devanagari transliteration dictionary.

use vstd::prelude::*;

use crate::text::ascii_lower;
use crate::text::chars_to_string;
use crate::text::spec_ascii_lower;
use crate::text::str_eq;
use crate::text::str_to_chars;
use crate::text::string_push;

verus! {

use vstd::string::StrSliceExecFns;

/// Supported scripts.
#[derive(Debug, Clone, Copy, PartialEq, Eq, Structural, Hash)]
pub enum Script {
    Latin,
    /// Hindi, Marathi, Sanskrit.
    Devanagari,
    /// Bengali, Assamese.
    Bengali,
    Tamil,
    Telugu,
    Kannada,
    Malayalam,
    Gujarati,
    /// Punjabi.
    Gurmukhi,
    Odia,
}

/// The script a lower-cased name denotes, if any.
pub open spec fn spec_script_of(s: Seq<char>) -> Option<Script> {
    if s == "latin"@ || s == "en"@ {
        Some(Script::Latin)
    } else if s == "devanagari"@ || s == "hi"@ || s == "hindi"@ || s == "mr"@ || s == "marathi"@ {
        Some(Script::Devanagari)
    } else if s == "bengali"@ || s == "bn"@ || s == "bangla"@ {
        Some(Script::Bengali)
    } else if s == "tamil"@ || s == "ta"@ {
        Some(Script::Tamil)
    } else if s == "telugu"@ || s == "te"@ {
        Some(Script::Telugu)
    } else if s == "kannada"@ || s == "kn"@ {
        Some(Script::Kannada)
    } else if s == "malayalam"@ || s == "ml"@ {
        Some(Script::Malayalam)
    } else if s == "gujarati"@ || s == "gu"@ {
        Some(Script::Gujarati)
    } else if s == "gurmukhi"@ || s == "pa"@ || s == "punjabi"@ {
        Some(Script::Gurmukhi)
    } else if s == "odia"@ || s == "or"@ || s == "oriya"@ {
        Some(Script::Odia)
    } else {
        None
    }
}

impl Script {
    /// Parse a script name or language code, ASCII case-insensitively.
    pub fn from_str(s: &str) -> (r: Option<Script>)
        ensures
            r == spec_script_of(spec_ascii_lower(s@)),
    {
        let lower: String = ascii_lower(s);
        let l: &str = lower.as_str();
        if str_eq(l, "latin") || str_eq(l, "en") {
            Some(Script::Latin)
        } else if str_eq(l, "devanagari") || str_eq(l, "hi") || str_eq(l, "hindi") || str_eq(
            l,
            "mr",
        ) || str_eq(l, "marathi") {
            Some(Script::Devanagari)
        } else if str_eq(l, "bengali") || str_eq(l, "bn") || str_eq(l, "bangla") {
            Some(Script::Bengali)
        } else if str_eq(l, "tamil") || str_eq(l, "ta") {
            Some(Script::Tamil)
        } else if str_eq(l, "telugu") || str_eq(l, "te") {
            Some(Script::Telugu)
        } else if str_eq(l, "kannada") || str_eq(l, "kn") {
            Some(Script::Kannada)
        } else if str_eq(l, "malayalam") || str_eq(l, "ml") {
            Some(Script::Malayalam)
        } else if str_eq(l, "gujarati") || str_eq(l, "gu") {
            Some(Script::Gujarati)
        } else if str_eq(l, "gurmukhi") || str_eq(l, "pa") || str_eq(l, "punjabi") {
            Some(Script::Gurmukhi)
        } else if str_eq(l, "odia") || str_eq(l, "or") || str_eq(l, "oriya") {
            Some(Script::Odia)
        } else {
            None
        }
    }

    /// The language code for this script.
    pub fn code(&self) -> (r: &'static str)
        ensures
            match *self {
                Script::Latin => r@ == "en"@,
                Script::Devanagari => r@ == "hi"@,
                Script::Bengali => r@ == "bn"@,
                Script::Tamil => r@ == "ta"@,
                Script::Telugu => r@ == "te"@,
                Script::Kannada => r@ == "kn"@,
                Script::Malayalam => r@ == "ml"@,
                Script::Gujarati => r@ == "gu"@,
                Script::Gurmukhi => r@ == "pa"@,
                Script::Odia => r@ == "or"@,
            },
    {
        match self {
            Script::Latin => "en",
            Script::Devanagari => "hi",
            Script::Bengali => "bn",
            Script::Tamil => "ta",
            Script::Telugu => "te",
            Script::Kannada => "kn",
            Script::Malayalam => "ml",
            Script::Gujarati => "gu",
            Script::Gurmukhi => "pa",
            Script::Odia => "or",
        }
    }

    /// The English name of this script.
    pub fn name(&self) -> (r: &'static str)
        ensures
            match *self {
                Script::Latin => r@ == "Latin"@,
                Script::Devanagari => r@ == "Devanagari"@,
                Script::Bengali => r@ == "Bengali"@,
                Script::Tamil => r@ == "Tamil"@,
                Script::Telugu => r@ == "Telugu"@,
                Script::Kannada => r@ == "Kannada"@,
                Script::Malayalam => r@ == "Malayalam"@,
                Script::Gujarati => r@ == "Gujarati"@,
                Script::Gurmukhi => r@ == "Gurmukhi"@,
                Script::Odia => r@ == "Odia"@,
            },
    {
        match self {
            Script::Latin => "Latin",
            Script::Devanagari => "Devanagari",
            Script::Bengali => "Bengali",
            Script::Tamil => "Tamil",
            Script::Telugu => "Telugu",
            Script::Kannada => "Kannada",
            Script::Malayalam => "Malayalam",
            Script::Gujarati => "Gujarati",
            Script::Gurmukhi => "Gurmukhi",
            Script::Odia => "Odia",
        }
    }
}

/// The script one character belongs to, by Unicode block, if any.
pub open spec fn spec_char_script(c: char) -> Option<Script> {
    let v = c as u32;
    if 0x900 <= v <= 0x97F {
        Some(Script::Devanagari)
    } else if 0x980 <= v <= 0x9FF {
        Some(Script::Bengali)
    } else if 0xB80 <= v <= 0xBFF {
        Some(Script::Tamil)
    } else if 0xC00 <= v <= 0xC7F {
        Some(Script::Telugu)
    } else if 0xC80 <= v <= 0xCFF {
        Some(Script::Kannada)
    } else if 0xD00 <= v <= 0xD7F {
        Some(Script::Malayalam)
    } else if 0xA80 <= v <= 0xAFF {
        Some(Script::Gujarati)
    } else if 0xA00 <= v <= 0xA7F {
        Some(Script::Gurmukhi)
    } else if 0xB00 <= v <= 0xB7F {
        Some(Script::Odia)
    } else {
        None
    }
}

/// The script of a text: the block of the first character that falls in a
/// known Indic block, or Latin if none does.
pub open spec fn spec_detect_script(s: Seq<char>) -> Script
    decreases s.len(),
{
    if s.len() == 0 {
        Script::Latin
    } else {
        match spec_char_script(s[0]) {
            Some(sc) => sc,
            None => spec_detect_script(s.drop_first()),
        }
    }
}

/// A prefix of characters in no known block does not change the detection.
proof fn lemma_detect_skip(s: Seq<char>, k: int)
    requires
        0 <= k <= s.len(),
        forall|i: int| 0 <= i < k ==> spec_char_script(#[trigger] s[i]) is None,
    ensures
        spec_detect_script(s) == spec_detect_script(s.skip(k)),
    decreases k,
{
    if k > 0 {
        lemma_detect_skip(s.drop_first(), k - 1);
        assert(s.drop_first().skip(k - 1) =~= s.skip(k));
    } else {
        assert(s.skip(0) =~= s);
    }
}

/// Detect the script of a text.
pub fn detect_script(text: &str) -> (r: Script)
    ensures
        r == spec_detect_script(text@),
{
    let n: usize = text.unicode_len();
    let mut i: usize = 0;
    while i < n
        invariant
            n == text@.len(),
            0 <= i <= n,
            forall|j: int| 0 <= j < i ==> spec_char_script(#[trigger] text@[j]) is None,
        decreases n - i,
    {
        let c: char = text.get_char(i);
        let v: u32 = c as u32;
        let hit: Option<Script> = if 0x900 <= v && v <= 0x97F {
            Some(Script::Devanagari)
        } else if 0x980 <= v && v <= 0x9FF {
            Some(Script::Bengali)
        } else if 0xB80 <= v && v <= 0xBFF {
            Some(Script::Tamil)
        } else if 0xC00 <= v && v <= 0xC7F {
            Some(Script::Telugu)
        } else if 0xC80 <= v && v <= 0xCFF {
            Some(Script::Kannada)
        } else if 0xD00 <= v && v <= 0xD7F {
            Some(Script::Malayalam)
        } else if 0xA80 <= v && v <= 0xAFF {
            Some(Script::Gujarati)
        } else if 0xA00 <= v && v <= 0xA7F {
            Some(Script::Gurmukhi)
        } else if 0xB00 <= v && v <= 0xB7F {
            Some(Script::Odia)
        } else {
            None
        };
        match hit {
            Some(sc) => {
                proof {
                    lemma_detect_skip(text@, i as int);
                    assert(text@.skip(i as int)[0] == text@[i as int]);
                }
                return sc;
            },
            None => {
                i = i + 1;
            },
        }
    }
    proof {
        lemma_detect_skip(text@, n as int);
        assert(text@.skip(n as int).len() == 0);
    }
    Script::Latin
}

/// All supported scripts, as (code, name) pairs.
pub fn supported_scripts() -> (r: Vec<(&'static str, &'static str)>)
    ensures
        r@.len() == 10,
{
    let mut out: Vec<(&'static str, &'static str)> = Vec::new();
    out.push(("en", "Latin"));
    out.push(("hi", "Devanagari"));
    out.push(("bn", "Bengali"));
    out.push(("ta", "Tamil"));
    out.push(("te", "Telugu"));
    out.push(("kn", "Kannada"));
    out.push(("ml", "Malayalam"));
    out.push(("gu", "Gujarati"));
    out.push(("pa", "Gurmukhi"));
    out.push(("or", "Odia"));
    out
}

/// The Devanagari rendering of the dictionary word for a greeting.
pub open spec fn spec_namaste_deva() -> Seq<char> {
    "\u{928}\u{92E}\u{938}\u{94D}\u{924}\u{947}"@
}

/// The Devanagari text a dictionary word maps to, or the word itself when
/// it is not in the dictionary.
#[verifier::rlimit(100)]
pub fn transliterate_word(word: &str) -> (r: String)
    ensures
        word@ == "namaste"@ ==> r@ == spec_namaste_deva(),
    {
        proof {
            reveal_strlit("namaste");
            reveal_strlit("dhanyavaad");
            reveal_strlit("a");
            reveal_strlit("aa");
            reveal_strlit("i");
            reveal_strlit("ee");
            reveal_strlit("u");
            reveal_strlit("oo");
            reveal_strlit("e");
            reveal_strlit("ai");
            reveal_strlit("o");
            reveal_strlit("au");
            reveal_strlit("ka");
            reveal_strlit("kha");
            reveal_strlit("ga");
            reveal_strlit("gha");
            reveal_strlit("cha");
            reveal_strlit("chha");
            reveal_strlit("ja");
            reveal_strlit("jha");
            reveal_strlit("ta");
            reveal_strlit("tha");
            reveal_strlit("da");
            reveal_strlit("dha");
            reveal_strlit("na");
            reveal_strlit("pa");
            reveal_strlit("pha");
            reveal_strlit("ba");
            reveal_strlit("bha");
            reveal_strlit("ma");
            reveal_strlit("ya");
            reveal_strlit("ra");
            reveal_strlit("la");
            reveal_strlit("va");
            reveal_strlit("sha");
            reveal_strlit("sa");
            reveal_strlit("ha");
        }
        if str_eq(word, "namaste") {
            String::from_str("\u{928}\u{92E}\u{938}\u{94D}\u{924}\u{947}")
        } else if str_eq(word, "dhanyavaad") {
            String::from_str("\u{927}\u{928}\u{94D}\u{92F}\u{935}\u{93E}\u{926}")
        } else if str_eq(word, "a") {
            String::from_str("\u{905}")
        } else if str_eq(word, "aa") {
            String::from_str("\u{906}")
        } else if str_eq(word, "i") {
            String::from_str("\u{907}")
        } else if str_eq(word, "ee") {
            String::from_str("\u{908}")
        } else if str_eq(word, "u") {
            String::from_str("\u{909}")
        } else if str_eq(word, "oo") {
            String::from_str("\u{90A}")
        } else if str_eq(word, "e") {
            String::from_str("\u{90F}")
        } else if str_eq(word, "ai") {
            String::from_str("\u{910}")
        } else if str_eq(word, "o") {
            String::from_str("\u{913}")
        } else if str_eq(word, "au") {
            String::from_str("\u{914}")
        } else if str_eq(word, "ka") {
            String::from_str("\u{915}")
        } else if str_eq(word, "kha") {
            String::from_str("\u{916}")
        } else if str_eq(word, "ga") {
            String::from_str("\u{917}")
        } else if str_eq(word, "gha") {
            String::from_str("\u{918}")
        } else if str_eq(word, "cha") {
            String::from_str("\u{91A}")
        } else if str_eq(word, "chha") {
            String::from_str("\u{91B}")
        } else if str_eq(word, "ja") {
            String::from_str("\u{91C}")
        } else if str_eq(word, "jha") {
            String::from_str("\u{91D}")
        } else if str_eq(word, "ta") {
            String::from_str("\u{924}")
        } else if str_eq(word, "tha") {
            String::from_str("\u{925}")
        } else if str_eq(word, "da") {
            String::from_str("\u{926}")
        } else if str_eq(word, "dha") {
            String::from_str("\u{927}")
        } else if str_eq(word, "na") {
            String::from_str("\u{928}")
        } else if str_eq(word, "pa") {
            String::from_str("\u{92A}")
        } else if str_eq(word, "pha") {
            String::from_str("\u{92B}")
        } else if str_eq(word, "ba") {
            String::from_str("\u{92C}")
        } else if str_eq(word, "bha") {
            String::from_str("\u{92D}")
        } else if str_eq(word, "ma") {
            String::from_str("\u{92E}")
        } else if str_eq(word, "ya") {
            String::from_str("\u{92F}")
        } else if str_eq(word, "ra") {
            String::from_str("\u{930}")
        } else if str_eq(word, "la") {
            String::from_str("\u{932}")
        } else if str_eq(word, "va") {
            String::from_str("\u{935}")
        } else if str_eq(word, "sha") {
            String::from_str("\u{936}")
        } else if str_eq(word, "sa") {
            String::from_str("\u{938}")
        } else if str_eq(word, "ha") {
            String::from_str("\u{939}")
        } else {
            word.to_owned()
        }
    }

/// Transliterate text from Latin to Devanagari: the text is lower-cased,
/// split on ASCII whitespace, each word looked up in the dictionary, and
/// the results joined by single spaces.
pub fn transliterate_to_devanagari(input: &str) -> (r: String)
    ensures
        spec_ascii_lower(input@) == "namaste"@ ==> r@ == spec_namaste_deva(),
{
    let lower: String = ascii_lower(input);
    let chars: Vec<char> = str_to_chars(lower.as_str());
    let n: usize = chars.len();
    let ghost lv = lower@;
    let mut out: String = String::new();
    let mut word: Vec<char> = Vec::new();
    let mut first: bool = true;
    let mut i: usize = 0;
    let ghost whole_is_one_word = forall|j: int|
        0 <= j < lv.len() ==> !crate::vault_store::spec_is_space(#[trigger] lv[j]);
    while i < n
        invariant
            n == chars@.len(),
            chars@ == lv,
            0 <= i <= n,
            whole_is_one_word == (forall|j: int|
                0 <= j < lv.len() ==> !crate::vault_store::spec_is_space(#[trigger] lv[j])),
            whole_is_one_word ==> word@ =~= lv.take(i as int) && first && out@ =~= Seq::<
                char,
            >::empty(),
        decreases n - i,
    {
        let c: char = chars[i];
        let is_space: bool = c == ' ' || c == '\t' || c == '\n' || c == '\r';
        if is_space {
            proof {
                assert(crate::vault_store::spec_is_space(lv[i as int]));
            }
            if word.len() > 0 {
                if !first {
                    string_push(&mut out, ' ');
                }
                let w: String = chars_to_string(&word);
                let t: String = transliterate_word(w.as_str());
                out.append(t.as_str());
                first = false;
                word = Vec::new();
            }
        } else {
            proof {
                if whole_is_one_word {
                    assert(lv.take(i + 1) =~= lv.take(i as int).push(lv[i as int]));
                }
            }
            word.push(c);
        }
        i = i + 1;
    }
    if word.len() > 0 {
        if !first {
            string_push(&mut out, ' ');
        }
        let w: String = chars_to_string(&word);
        let t: String = transliterate_word(w.as_str());
        proof {
            if whole_is_one_word {
                assert(lv.take(n as int) =~= lv);
                assert(w@ == lv);
            }
        }
        out.append(t.as_str());
        proof {
            if whole_is_one_word {
                assert(out@ =~= t@);
            }
        }
    }
    proof {
        if spec_ascii_lower(input@) == "namaste"@ {
            reveal_strlit("namaste");
            assert(lv == "namaste"@);
            assert(lv.len() == 7);
            assert(whole_is_one_word) by {
                assert forall|j: int|
                    0 <= j < lv.len() implies !crate::vault_store::spec_is_space(
                    #[trigger] lv[j],
                ) by {
                    reveal_strlit("namaste");
                }
            }
            assert(word@ =~= lv);
        }
    }
    out
}

} // verus!
