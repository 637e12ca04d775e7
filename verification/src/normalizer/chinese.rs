use vstd::prelude::*;

use super::{ReplacementForm, canonical_form, CharNormalizer, CharOrStr};
use crate::detection::{Language, Script};
use crate::kvariants::{kvariant_of, KVariants};
use crate::token::{Token, TokenView};

verus! {

/// A normalizer for Chinese: each ideograph becomes the ideograph that stands for it in the
/// kVariants table (its Z, simplified, semantic, old or wrong variant), if any. The table is
/// given by the caller; without one, every ideograph stands for itself.
pub struct ChineseNormalizer<'k> {
    pub kvariants: Option<&'k KVariants>,
}

/// The content of an optional kVariants table; empty without one.
pub open spec fn kvariants_view(kvariants: Option<&KVariants>) -> Map<u32, crate::kvariants::KVariant> {
    match kvariants {
        Some(m) => m@,
        None => Map::empty(),
    }
}

/// Whether the language of a token may be Chinese.
pub open spec fn may_be_chinese(language: Option<Language>) -> bool {
    language is None || language == Some(Language::Cmn) || language == Some(Language::Zho)
}

/// The ideograph that stands for `c` in a kVariants table, `c` itself when the table holds none.
pub open spec fn spec_kvariant_of(kvariants: Map<u32, crate::kvariants::KVariant>, c: char) -> char {
    if kvariants.contains_key(c as u32) {
        kvariants[c as u32].destination_ideograph
    } else {
        c
    }
}

impl<'k> CharNormalizer for ChineseNormalizer<'k> {
    open spec fn spec_normalize_char(&self, c: char) -> Seq<char> {
        seq![spec_kvariant_of(kvariants_view(self.kvariants), c)]
    }

    open spec fn spec_form(&self, c: char) -> ReplacementForm {
        canonical_form(self.spec_normalize_char(c))
    }

    open spec fn spec_should_normalize(&self, token: TokenView) -> bool {
        token.script == Script::Cj && may_be_chinese(token.language)
    }

    fn normalize_char(&self, c: char) -> (r: Option<CharOrStr>) {
        let kvariant = match self.kvariants {
            Some(table) => match kvariant_of(table, c) {
                Some(kvariant) => kvariant.destination_ideograph,
                None => c,
            },
            None => c,
        };
        Some(CharOrStr::Char(kvariant))
    }

    fn should_normalize(&self, token: &Token) -> (b: bool) {
        proof {
            assert(token@.lemma == token.lemma@);
        }
        let chinese = match token.language {
            None => true,
            Some(lang) => lang == Language::Cmn || lang == Language::Zho,
        };
        token.script == Script::Cj && chinese
    }
}

} // verus!
