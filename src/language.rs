use vstd::prelude::*;

use crate::error::SpeechError;
use crate::text::{lower_of, lowercase, owned, text_eq};

verus! {

/// The languages the recogniser is asked to transcribe.
#[derive(Debug, Clone, Copy, PartialEq, Eq, Structural)]
pub enum SpeechLanguage {
    English,
    Chinese,
}

/// The language named by an already lower-cased tag, if any.
pub open spec fn language_of_lower_tag(t: Seq<char>) -> Option<SpeechLanguage> {
    if t == "en"@ || t == "english"@ {
        Some(SpeechLanguage::English)
    } else if t == "zh"@ || t == "zh-cn"@ || t == "chinese"@ || t == "zh-hans"@ {
        Some(SpeechLanguage::Chinese)
    } else {
        None
    }
}

impl SpeechLanguage {
    pub open spec fn spec_code(self) -> Seq<char> {
        match self {
            SpeechLanguage::English => "en"@,
            SpeechLanguage::Chinese => "zh"@,
        }
    }

    pub open spec fn spec_display_name(self) -> Seq<char> {
        match self {
            SpeechLanguage::English => "英语"@,
            SpeechLanguage::Chinese => "中文"@,
        }
    }

    /// The short tag handed to the recogniser.
    pub fn code(&self) -> (r: &'static str)
        ensures
            r@ == self.spec_code(),
    {
        match self {
            SpeechLanguage::English => "en",
            SpeechLanguage::Chinese => "zh",
        }
    }

    /// The human-readable name used in default session titles.
    pub fn display_name(&self) -> (r: &'static str)
        ensures
            r@ == self.spec_display_name(),
    {
        match self {
            SpeechLanguage::English => "英语",
            SpeechLanguage::Chinese => "中文",
        }
    }

    /// Resolves a tag that has already been lower-cased.
    pub fn from_lower_tag(lowered: &str) -> (r: Result<SpeechLanguage, SpeechError>)
        ensures
            match language_of_lower_tag(lowered@) {
                Some(l) => r == Ok::<SpeechLanguage, SpeechError>(l),
                None => r matches Err(SpeechError::UnsupportedLanguage(t)) && t@ == lowered@,
            },
    {
        if text_eq(lowered, "en") || text_eq(lowered, "english") {
            Ok(SpeechLanguage::English)
        } else if text_eq(lowered, "zh") || text_eq(lowered, "zh-cn") || text_eq(lowered, "chinese")
            || text_eq(lowered, "zh-hans") {
            Ok(SpeechLanguage::Chinese)
        } else {
            Err(SpeechError::UnsupportedLanguage(owned(lowered)))
        }
    }

    /// Resolves a caller-supplied tag, ignoring letter case.
    pub fn parse(value: &str) -> (r: Result<SpeechLanguage, SpeechError>)
        ensures
            match language_of_lower_tag(lower_of(value@)) {
                Some(l) => r == Ok::<SpeechLanguage, SpeechError>(l),
                None => r matches Err(SpeechError::UnsupportedLanguage(t)) && t@ == lower_of(
                    value@,
                ),
            },
    {
        let lowered = lowercase(value);
        SpeechLanguage::from_lower_tag(lowered.as_str())
    }
}

} // verus!
