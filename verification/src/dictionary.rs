//! Translation engine: language packs of key-value translations with a
//! fallback chain, `{{name}}` parameter interpolation, and plural forms.

use vstd::prelude::*;

use crate::text::chars_to_string;
use crate::text::replace_chars;
use crate::text::spec_replace_all;
use crate::text::str_eq;
use crate::text::str_to_chars;
use crate::text::u64_to_string;

verus! {

use vstd::string::StringExecFns;

/// One translation: a key and its translated text.
#[derive(Debug, Clone)]
pub struct TranslationPair {
    /// The translation key, or a parameter name.
    pub key: String,
    /// The translated text, or a parameter value.
    pub value: String,
}

impl TranslationPair {
    /// An exact copy of this pair.
    pub fn duplicate(&self) -> (r: TranslationPair)
        ensures
            r == *self,
    {
        TranslationPair { key: self.key.clone(), value: self.value.clone() }
    }
}

/// A translation dictionary for a single language.
#[derive(Debug, Clone)]
pub struct LanguagePack {
    /// Language code.
    pub code: String,
    /// Language name in English.
    pub name: String,
    /// Language name in its own script.
    pub native_name: String,
    /// Whether the script runs right to left.
    pub rtl: bool,
    /// Translation key-value pairs; a later pair overrides an earlier one
    /// with the same key.
    pub translations: Vec<TranslationPair>,
}

/// The value the latest pair with this key holds, if any.
pub open spec fn spec_find_value(pairs: Seq<TranslationPair>, key: Seq<char>) -> Option<Seq<char>>
    decreases pairs.len(),
{
    if pairs.len() == 0 {
        None
    } else if pairs.last().key@ == key {
        Some(pairs.last().value@)
    } else {
        spec_find_value(pairs.drop_last(), key)
    }
}

/// The latest pack loaded under this code, if any.
pub open spec fn spec_find_pack(packs: Seq<LanguagePack>, code: Seq<char>) -> Option<LanguagePack>
    decreases packs.len(),
{
    if packs.len() == 0 {
        None
    } else if packs.last().code@ == code {
        Some(packs.last())
    } else {
        spec_find_pack(packs.drop_last(), code)
    }
}

/// The `{{name}}` pattern for a parameter name.
pub open spec fn spec_param_pattern(key: Seq<char>) -> Seq<char> {
    seq!['{', '{'] + key + seq!['}', '}']
}

/// A template with every parameter interpolated, in list order.
pub open spec fn spec_interpolate(t: Seq<char>, params: Seq<TranslationPair>) -> Seq<char>
    decreases params.len(),
{
    if params.len() == 0 {
        t
    } else {
        spec_interpolate(
            spec_replace_all(t, spec_param_pattern(params[0].key@), params[0].value@),
            params.drop_first(),
        )
    }
}

/// The translation of a key under a pack list, current and fallback
/// language, and parameters: the current language's value, else the
/// fallback language's (when it differs), else the key itself, with
/// parameters interpolated into whatever was found.
pub open spec fn spec_translate(
    packs: Seq<LanguagePack>,
    current: Seq<char>,
    fallback: Seq<char>,
    key: Seq<char>,
    params: Option<Seq<TranslationPair>>,
) -> Seq<char> {
    let ps: Seq<TranslationPair> = match params {
        Some(p) => p,
        None => Seq::empty(),
    };
    match spec_find_pack(packs, current) {
        Some(p) => match spec_find_value(p.translations@, key) {
            Some(v) => spec_interpolate(v, ps),
            None => spec_translate_fallback(packs, current, fallback, key, ps),
        },
        None => spec_translate_fallback(packs, current, fallback, key, ps),
    }
}

/// The fallback half of the translation chain.
pub open spec fn spec_translate_fallback(
    packs: Seq<LanguagePack>,
    current: Seq<char>,
    fallback: Seq<char>,
    key: Seq<char>,
    ps: Seq<TranslationPair>,
) -> Seq<char> {
    if current != fallback {
        match spec_find_pack(packs, fallback) {
            Some(p) => match spec_find_value(p.translations@, key) {
                Some(v) => spec_interpolate(v, ps),
                None => key,
            },
            None => key,
        }
    } else {
        key
    }
}

/// Translation engine with a fallback chain.
pub struct TranslationEngine {
    current_language: String,
    fallback_language: String,
    packs: Vec<LanguagePack>,
}

impl TranslationEngine {
    /// The loaded packs, oldest first.
    pub closed spec fn spec_packs(&self) -> Seq<LanguagePack> {
        self.packs@
    }

    /// The active language code.
    pub closed spec fn spec_current(&self) -> Seq<char> {
        self.current_language@
    }

    /// The fallback language code.
    pub closed spec fn spec_fallback(&self) -> Seq<char> {
        self.fallback_language@
    }

    /// Create an engine with a starting language and a fallback.
    pub fn new(default_language: &str, fallback: &str) -> (r: TranslationEngine)
        ensures
            r.spec_current() == default_language@,
            r.spec_fallback() == fallback@,
            r.spec_packs() =~= Seq::<LanguagePack>::empty(),
    {
        TranslationEngine {
            current_language: default_language.to_owned(),
            fallback_language: fallback.to_owned(),
            packs: Vec::new(),
        }
    }

    /// Load a language pack; it overrides any earlier pack with its code.
    pub fn load_language(&mut self, pack: LanguagePack)
        ensures
            final(self).spec_packs() == old(self).spec_packs().push(pack),
            final(self).spec_current() == old(self).spec_current(),
            final(self).spec_fallback() == old(self).spec_fallback(),
    {
        self.packs.push(pack);
    }

    /// Set the current language; refused when no pack carries the code.
    pub fn set_language(&mut self, code: &str) -> (r: bool)
        ensures
            r == (spec_find_pack(old(self).spec_packs(), code@) is Some),
            final(self).spec_packs() == old(self).spec_packs(),
            final(self).spec_fallback() == old(self).spec_fallback(),
            final(self).spec_current() == (if r {
                code@
            } else {
                old(self).spec_current()
            }),
    {
        let found: bool = self.find_pack(code).is_some();
        if found {
            self.current_language = code.to_owned();
        }
        found
    }

    /// Get the current language code.
    pub fn get_language(&self) -> (r: String)
        ensures
            r@ == self.spec_current(),
    {
        self.current_language.clone()
    }

    /// The index of the latest pack with this code, if any.
    fn find_pack(&self, code: &str) -> (r: Option<usize>)
        ensures
            r matches Some(i) ==> i < self.spec_packs().len() && spec_find_pack(
                self.spec_packs(),
                code@,
            ) == Some(self.spec_packs()[i as int]),
            (r is Some) == (spec_find_pack(self.spec_packs(), code@) is Some),
    {
        let n: usize = self.packs.len();
        let mut i: usize = n;
        proof {
            assert(self.spec_packs().take(n as int) =~= self.spec_packs());
        }
        while i > 0
            invariant
                n == self.spec_packs().len(),
                0 <= i <= n,
                spec_find_pack(self.spec_packs(), code@) == spec_find_pack(
                    self.spec_packs().take(i as int),
                    code@,
                ),
            decreases i,
        {
            proof {
                assert(self.spec_packs().take(i as int).drop_last() =~= self.spec_packs().take(
                    i - 1,
                ));
                assert(self.spec_packs().take(i as int).last() == self.spec_packs()[i - 1]);
            }
            if str_eq(self.packs[i - 1].code.as_str(), code) {
                return Some(i - 1);
            }
            i = i - 1;
        }
        proof {
            assert(self.spec_packs().take(0).len() == 0);
        }
        None
    }

    /// The raw translation a language holds for a key, if any.
    fn get_translation(&self, lang: &str, key: &str) -> (r: Option<String>)
        ensures
            match r {
                Some(v) => match spec_find_pack(self.spec_packs(), lang@) {
                    Some(p) => spec_find_value(p.translations@, key@) == Some(v@),
                    None => false,
                },
                None => match spec_find_pack(self.spec_packs(), lang@) {
                    Some(p) => spec_find_value(p.translations@, key@) is None,
                    None => true,
                },
            },
    {
        let found: Option<usize> = self.find_pack(lang);
        let pi: usize = match found {
            Some(i) => i,
            None => {
                return None;
            },
        };
        proof {
            assert(found matches Some(x) && x == pi);
            assert(pi < self.spec_packs().len());
            assert(spec_find_pack(self.spec_packs(), lang@) == Some(
                self.spec_packs()[pi as int],
            ));
        }
        let pairs = &self.packs[pi].translations;
        let m: usize = pairs.len();
        let mut j: usize = m;
        proof {
            assert(pairs@.take(m as int) =~= pairs@);
        }
        while j > 0
            invariant
                m == pairs@.len(),
                0 <= j <= m,
                pi < self.spec_packs().len(),
                spec_find_pack(self.spec_packs(), lang@) == Some(self.spec_packs()[pi as int]),
                self.spec_packs()[pi as int].translations@ == pairs@,
                spec_find_value(pairs@, key@) == spec_find_value(pairs@.take(j as int), key@),
            decreases j,
        {
            proof {
                assert(pairs@.take(j as int).drop_last() =~= pairs@.take(j - 1));
                assert(pairs@.take(j as int).last() == pairs@[j - 1]);
            }
            if str_eq(pairs[j - 1].key.as_str(), key) {
                proof {
                    assert(spec_find_value(pairs@.take(j as int), key@) == Some(
                        pairs@[j - 1].value@,
                    ));
                }
                return Some(pairs[j - 1].value.clone());
            }
            j = j - 1;
        }
        proof {
            assert(pairs@.take(0).len() == 0);
        }
        None
    }

    /// Interpolate parameters into a template, in list order.
    fn interpolate(&self, template: &str, params: Option<&Vec<TranslationPair>>) -> (r: String)
        ensures
            r@ == spec_interpolate(template@, match params {
                Some(ps) => ps@,
                None => Seq::empty(),
            }),
    {
        let ps: &Vec<TranslationPair> = match params {
            Some(ps) => ps,
            None => {
                return template.to_owned();
            },
        };
        let mut cur: Vec<char> = str_to_chars(template);
        let n: usize = ps.len();
        let mut i: usize = 0;
        proof {
            assert(ps@.skip(0) =~= ps@);
        }
        while i < n
            invariant
                n == ps@.len(),
                0 <= i <= n,
                spec_interpolate(template@, ps@) == spec_interpolate(cur@, ps@.skip(i as int)),
            decreases n - i,
        {
            let mut pat: Vec<char> = Vec::new();
            pat.push('{');
            pat.push('{');
            let kc: Vec<char> = str_to_chars(ps[i].key.as_str());
            let mut k: usize = 0;
            let ghost patpre = pat@;
            while k < kc.len()
                invariant
                    0 <= k <= kc@.len(),
                    pat@ =~= patpre + kc@.take(k as int),
                decreases kc@.len() - k,
            {
                proof {
                    assert(kc@.take(k + 1) =~= kc@.take(k as int).push(kc@[k as int]));
                }
                pat.push(kc[k]);
                k = k + 1;
            }
            pat.push('}');
            pat.push('}');
            proof {
                assert(kc@.take(kc@.len() as int) =~= kc@);
                assert(pat@ =~= spec_param_pattern(ps@[i as int].key@));
            }
            let vc: Vec<char> = str_to_chars(ps[i].value.as_str());
            let next: Vec<char> = replace_chars(&cur, &pat, &vc);
            proof {
                assert(ps@.skip(i as int)[0] == ps@[i as int]);
                assert(ps@.skip(i as int).drop_first() =~= ps@.skip(i + 1));
                assert(spec_interpolate(cur@, ps@.skip(i as int)) == spec_interpolate(
                    next@,
                    ps@.skip(i + 1),
                ));
            }
            cur = next;
            i = i + 1;
        }
        proof {
            assert(ps@.skip(n as int).len() == 0);
        }
        chars_to_string(&cur)
    }

    /// Translate a key, interpolating `{{name}}` parameters: the current
    /// language's text, else the fallback language's, else the key itself.
    pub fn translate(&self, key: &str, params: Option<&Vec<TranslationPair>>) -> (r: String)
        ensures
            r@ == spec_translate(
                self.spec_packs(),
                self.spec_current(),
                self.spec_fallback(),
                key@,
                match params {
                    Some(ps) => Some(ps@),
                    None => None,
                },
            ),
    {
        let current: String = self.get_language();
        match self.get_translation(current.as_str(), key) {
            Some(v) => self.interpolate(v.as_str(), params),
            None => {
                if !str_eq(current.as_str(), self.fallback_language.as_str()) {
                    match self.get_translation(self.fallback_language.as_str(), key) {
                        Some(v) => self.interpolate(v.as_str(), params),
                        None => key.to_owned(),
                    }
                } else {
                    key.to_owned()
                }
            },
        }
    }

    /// The plural suffix for a count.
    pub open spec fn spec_plural_suffix(count: u64) -> Seq<char> {
        if count == 0 {
            ".zero"@
        } else if count == 1 {
            ".one"@
        } else if count == 2 {
            ".two"@
        } else {
            ".other"@
        }
    }

    /// Translate with pluralization: the key is tried with the count's
    /// plural suffix, then with `.other`, then bare, and the count itself
    /// is available as the `{{count}}` parameter.
    pub fn translate_plural(&self, key: &str, count: u64, params: Option<&Vec<TranslationPair>>) -> (r:
        String)
    {
        let plural_suffix: &str = if count == 0 {
            ".zero"
        } else if count == 1 {
            ".one"
        } else if count == 2 {
            ".two"
        } else {
            ".other"
        };
        let plural_key: String = key.to_owned().concat(plural_suffix);
        let mut merged: Vec<TranslationPair> = Vec::new();
        match params {
            Some(ps) => {
                let m: usize = ps.len();
                let mut i: usize = 0;
                while i < m
                    invariant
                        0 <= i <= m,
                        m == ps@.len(),
                    decreases m - i,
                {
                    merged.push(ps[i].duplicate());
                    i = i + 1;
                }
            },
            None => {},
        }
        let count_str: String = u64_to_string(count);
        merged.push(TranslationPair { key: String::from_str("count"), value: count_str });
        let result: String = self.translate(plural_key.as_str(), Some(&merged));
        if str_eq(result.as_str(), plural_key.as_str()) {
            let other_key: String = key.to_owned().concat(".other");
            let other: String = self.translate(other_key.as_str(), Some(&merged));
            if str_eq(other.as_str(), other_key.as_str()) {
                self.translate(key, Some(&merged))
            } else {
                other
            }
        } else {
            result
        }
    }

    /// All loaded language codes, in load order.
    pub fn available_languages(&self) -> (r: Vec<String>)
        ensures
            r@.len() == self.spec_packs().len(),
            forall|i: int|
                0 <= i < r@.len() ==> (#[trigger] r@[i]@) == self.spec_packs()[i].code@,
    {
        let n: usize = self.packs.len();
        let mut out: Vec<String> = Vec::new();
        let mut i: usize = 0;
        while i < n
            invariant
                n == self.spec_packs().len(),
                0 <= i <= n,
                out@.len() == i,
                forall|j: int|
                    0 <= j < i ==> (#[trigger] out@[j]@) == self.spec_packs()[j].code@,
            decreases n - i,
        {
            out.push(self.packs[i].code.clone());
            i = i + 1;
        }
        out
    }

    /// Whether a language's script runs right to left.
    pub fn is_rtl(&self, code: &str) -> (r: bool)
        ensures
            r == (spec_find_pack(self.spec_packs(), code@) matches Some(p) && p.rtl),
    {
        match self.find_pack(code) {
            Some(i) => self.packs[i].rtl,
            None => false,
        }
    }

    /// All translation keys of the current language, in pack order.
    pub fn get_all_keys(&self) -> (r: Vec<String>)
        ensures
            spec_find_pack(self.spec_packs(), self.spec_current()) matches Some(p) ==> r@.len()
                == p.translations@.len() && (forall|i: int|
                0 <= i < r@.len() ==> (#[trigger] r@[i]@) == p.translations@[i].key@),
            spec_find_pack(self.spec_packs(), self.spec_current()) is None ==> r@.len() == 0,
    {
        let pi: usize = match self.find_pack(self.current_language.as_str()) {
            Some(i) => i,
            None => {
                return Vec::new();
            },
        };
        let pairs = &self.packs[pi].translations;
        let m: usize = pairs.len();
        let mut out: Vec<String> = Vec::new();
        let mut i: usize = 0;
        while i < m
            invariant
                m == pairs@.len(),
                0 <= i <= m,
                out@.len() == i,
                forall|j: int| 0 <= j < i ==> (#[trigger] out@[j]@) == pairs@[j].key@,
            decreases m - i,
        {
            out.push(pairs[i].key.clone());
            i = i + 1;
        }
        out
    }
}

/// Plural forms, for callers that classify counts themselves.
#[derive(Debug, Clone, Copy, PartialEq, Eq, Structural)]
pub enum PluralForm {
    Zero,
    One,
    Two,
    Few,
    Many,
    Other,
}

} // verus!
