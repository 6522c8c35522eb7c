//! The languages that the translation backend supports.

use crate::error::Error;
use crate::text::same_text;
use vstd::prelude::*;

verus! {

/// Languages supported by the translation backend, in the order in which
/// they are compared.
#[derive(Debug, Copy, Clone, PartialEq, Eq, Structural, PartialOrd, Ord, Hash)]
pub enum Lang {
    /// Arabic.
    Ar,
    /// Bulgarian.
    Bg,
    /// Czech.
    Cs,
    /// Danish.
    Da,
    /// German.
    De,
    /// Greek.
    El,
    /// English.
    En,
    /// English (British).
    EnGb,
    /// English (American).
    EnUs,
    /// Spanish.
    Es,
    /// Estonian.
    Et,
    /// Finnish.
    Fi,
    /// French.
    Fr,
    /// Hungarian.
    Hu,
    /// Indonesian.
    Id,
    /// Italian.
    It,
    /// Japanese.
    Ja,
    /// Korean.
    Ko,
    /// Lithuanian.
    Lt,
    /// Latvian.
    Lv,
    /// Norwegian.
    Nb,
    /// Dutch.
    Nl,
    /// Polish.
    Pl,
    /// Portuguese (all varieties mixed).
    Pt,
    /// Portuguese (Brazilian).
    PtBr,
    /// Portuguese (all Portuguese varieties excluding Brazilian Portuguese).
    PtPt,
    /// Romanian.
    Ro,
    /// Russian.
    Ru,
    /// Slovak.
    Sk,
    /// Slovenian.
    Sl,
    /// Swedish.
    Sv,
    /// Turkish.
    Tr,
    /// Ukrainian.
    Uk,
    /// Chinese.
    Zh,
}

/// The number of languages.
pub const LANG_COUNT: u8 = 34;

impl Lang {
    /// The language's position in the order of languages.
    pub open spec fn rank(self) -> int {
        match self {
            Lang::Ar => 0,
            Lang::Bg => 1,
            Lang::Cs => 2,
            Lang::Da => 3,
            Lang::De => 4,
            Lang::El => 5,
            Lang::En => 6,
            Lang::EnGb => 7,
            Lang::EnUs => 8,
            Lang::Es => 9,
            Lang::Et => 10,
            Lang::Fi => 11,
            Lang::Fr => 12,
            Lang::Hu => 13,
            Lang::Id => 14,
            Lang::It => 15,
            Lang::Ja => 16,
            Lang::Ko => 17,
            Lang::Lt => 18,
            Lang::Lv => 19,
            Lang::Nb => 20,
            Lang::Nl => 21,
            Lang::Pl => 22,
            Lang::Pt => 23,
            Lang::PtBr => 24,
            Lang::PtPt => 25,
            Lang::Ro => 26,
            Lang::Ru => 27,
            Lang::Sk => 28,
            Lang::Sl => 29,
            Lang::Sv => 30,
            Lang::Tr => 31,
            Lang::Uk => 32,
            Lang::Zh => 33,
        }
    }

    /// The language's code in upper case, as the backend writes it.
    pub open spec fn code_of(self) -> Seq<char> {
        match self {
            Lang::Ar => "AR"@,
            Lang::Bg => "BG"@,
            Lang::Cs => "CS"@,
            Lang::Da => "DA"@,
            Lang::De => "DE"@,
            Lang::El => "EL"@,
            Lang::En => "EN"@,
            Lang::EnGb => "EN-GB"@,
            Lang::EnUs => "EN-US"@,
            Lang::Es => "ES"@,
            Lang::Et => "ET"@,
            Lang::Fi => "FI"@,
            Lang::Fr => "FR"@,
            Lang::Hu => "HU"@,
            Lang::Id => "ID"@,
            Lang::It => "IT"@,
            Lang::Ja => "JA"@,
            Lang::Ko => "KO"@,
            Lang::Lt => "LT"@,
            Lang::Lv => "LV"@,
            Lang::Nb => "NB"@,
            Lang::Nl => "NL"@,
            Lang::Pl => "PL"@,
            Lang::Pt => "PT"@,
            Lang::PtBr => "PT-BR"@,
            Lang::PtPt => "PT-PT"@,
            Lang::Ro => "RO"@,
            Lang::Ru => "RU"@,
            Lang::Sk => "SK"@,
            Lang::Sl => "SL"@,
            Lang::Sv => "SV"@,
            Lang::Tr => "TR"@,
            Lang::Uk => "UK"@,
            Lang::Zh => "ZH"@,
        }
    }

    /// The language's code in lower case.
    pub open spec fn lower_code_of(self) -> Seq<char> {
        match self {
            Lang::Ar => "ar"@,
            Lang::Bg => "bg"@,
            Lang::Cs => "cs"@,
            Lang::Da => "da"@,
            Lang::De => "de"@,
            Lang::El => "el"@,
            Lang::En => "en"@,
            Lang::EnGb => "en-gb"@,
            Lang::EnUs => "en-us"@,
            Lang::Es => "es"@,
            Lang::Et => "et"@,
            Lang::Fi => "fi"@,
            Lang::Fr => "fr"@,
            Lang::Hu => "hu"@,
            Lang::Id => "id"@,
            Lang::It => "it"@,
            Lang::Ja => "ja"@,
            Lang::Ko => "ko"@,
            Lang::Lt => "lt"@,
            Lang::Lv => "lv"@,
            Lang::Nb => "nb"@,
            Lang::Nl => "nl"@,
            Lang::Pl => "pl"@,
            Lang::Pt => "pt"@,
            Lang::PtBr => "pt-br"@,
            Lang::PtPt => "pt-pt"@,
            Lang::Ro => "ro"@,
            Lang::Ru => "ru"@,
            Lang::Sk => "sk"@,
            Lang::Sl => "sl"@,
            Lang::Sv => "sv"@,
            Lang::Tr => "tr"@,
            Lang::Uk => "uk"@,
            Lang::Zh => "zh"@,
        }
    }

    /// Whether `text` is this language's code, all in upper or all in lower case.
    pub open spec fn named_by(self, text: Seq<char>) -> bool {
        text == self.code_of() || text == self.lower_code_of()
    }

    /// Whether this is the language that `text` names: the first, in the
    /// order of languages, whose code is `text`.
    pub open spec fn first_named_by(self, text: Seq<char>) -> bool {
        self.named_by(text) && forall|o: Lang| o.rank() < self.rank() ==> !o.named_by(text)
    }

    /// The language's position in the order of languages.
    pub fn index(&self) -> (r: u8)
        ensures
            r == self.rank(),
            r < LANG_COUNT,
    {
        match self {
            Lang::Ar => 0,
            Lang::Bg => 1,
            Lang::Cs => 2,
            Lang::Da => 3,
            Lang::De => 4,
            Lang::El => 5,
            Lang::En => 6,
            Lang::EnGb => 7,
            Lang::EnUs => 8,
            Lang::Es => 9,
            Lang::Et => 10,
            Lang::Fi => 11,
            Lang::Fr => 12,
            Lang::Hu => 13,
            Lang::Id => 14,
            Lang::It => 15,
            Lang::Ja => 16,
            Lang::Ko => 17,
            Lang::Lt => 18,
            Lang::Lv => 19,
            Lang::Nb => 20,
            Lang::Nl => 21,
            Lang::Pl => 22,
            Lang::Pt => 23,
            Lang::PtBr => 24,
            Lang::PtPt => 25,
            Lang::Ro => 26,
            Lang::Ru => 27,
            Lang::Sk => 28,
            Lang::Sl => 29,
            Lang::Sv => 30,
            Lang::Tr => 31,
            Lang::Uk => 32,
            Lang::Zh => 33,
        }
    }

    /// The language at a position in the order of languages.
    pub fn from_index(index: u8) -> (r: Option<Lang>)
        ensures
            r.is_some() == (index < LANG_COUNT),
            r matches Some(l) ==> l.rank() == index,
    {
        match index {
            0 => Some(Lang::Ar),
            1 => Some(Lang::Bg),
            2 => Some(Lang::Cs),
            3 => Some(Lang::Da),
            4 => Some(Lang::De),
            5 => Some(Lang::El),
            6 => Some(Lang::En),
            7 => Some(Lang::EnGb),
            8 => Some(Lang::EnUs),
            9 => Some(Lang::Es),
            10 => Some(Lang::Et),
            11 => Some(Lang::Fi),
            12 => Some(Lang::Fr),
            13 => Some(Lang::Hu),
            14 => Some(Lang::Id),
            15 => Some(Lang::It),
            16 => Some(Lang::Ja),
            17 => Some(Lang::Ko),
            18 => Some(Lang::Lt),
            19 => Some(Lang::Lv),
            20 => Some(Lang::Nb),
            21 => Some(Lang::Nl),
            22 => Some(Lang::Pl),
            23 => Some(Lang::Pt),
            24 => Some(Lang::PtBr),
            25 => Some(Lang::PtPt),
            26 => Some(Lang::Ro),
            27 => Some(Lang::Ru),
            28 => Some(Lang::Sk),
            29 => Some(Lang::Sl),
            30 => Some(Lang::Sv),
            31 => Some(Lang::Tr),
            32 => Some(Lang::Uk),
            33 => Some(Lang::Zh),
            _ => None,
        }
    }

    /// The language's code in upper case, as the backend writes it.
    pub fn code(&self) -> (r: &'static str)
        ensures
            r@ == self.code_of(),
    {
        match self {
            Lang::Ar => "AR",
            Lang::Bg => "BG",
            Lang::Cs => "CS",
            Lang::Da => "DA",
            Lang::De => "DE",
            Lang::El => "EL",
            Lang::En => "EN",
            Lang::EnGb => "EN-GB",
            Lang::EnUs => "EN-US",
            Lang::Es => "ES",
            Lang::Et => "ET",
            Lang::Fi => "FI",
            Lang::Fr => "FR",
            Lang::Hu => "HU",
            Lang::Id => "ID",
            Lang::It => "IT",
            Lang::Ja => "JA",
            Lang::Ko => "KO",
            Lang::Lt => "LT",
            Lang::Lv => "LV",
            Lang::Nb => "NB",
            Lang::Nl => "NL",
            Lang::Pl => "PL",
            Lang::Pt => "PT",
            Lang::PtBr => "PT-BR",
            Lang::PtPt => "PT-PT",
            Lang::Ro => "RO",
            Lang::Ru => "RU",
            Lang::Sk => "SK",
            Lang::Sl => "SL",
            Lang::Sv => "SV",
            Lang::Tr => "TR",
            Lang::Uk => "UK",
            Lang::Zh => "ZH",
        }
    }

    /// The language's code in lower case.
    pub fn lower_code(&self) -> (r: &'static str)
        ensures
            r@ == self.lower_code_of(),
    {
        match self {
            Lang::Ar => "ar",
            Lang::Bg => "bg",
            Lang::Cs => "cs",
            Lang::Da => "da",
            Lang::De => "de",
            Lang::El => "el",
            Lang::En => "en",
            Lang::EnGb => "en-gb",
            Lang::EnUs => "en-us",
            Lang::Es => "es",
            Lang::Et => "et",
            Lang::Fi => "fi",
            Lang::Fr => "fr",
            Lang::Hu => "hu",
            Lang::Id => "id",
            Lang::It => "it",
            Lang::Ja => "ja",
            Lang::Ko => "ko",
            Lang::Lt => "lt",
            Lang::Lv => "lv",
            Lang::Nb => "nb",
            Lang::Nl => "nl",
            Lang::Pl => "pl",
            Lang::Pt => "pt",
            Lang::PtBr => "pt-br",
            Lang::PtPt => "pt-pt",
            Lang::Ro => "ro",
            Lang::Ru => "ru",
            Lang::Sk => "sk",
            Lang::Sl => "sl",
            Lang::Sv => "sv",
            Lang::Tr => "tr",
            Lang::Uk => "uk",
            Lang::Zh => "zh",
        }
    }

    /// The language's code in upper case, owned.
    pub fn to_string(&self) -> (r: String)
        ensures
            r@ == self.code_of(),
    {
        self.code().to_owned()
    }

    /// The language that `s` names: the first, in the order of languages,
    /// whose code is `s`, all in upper or all in lower case. Any other text
    /// is refused.
    pub fn from_str(s: &str) -> (r: Result<Lang, Error>)
        ensures
            r matches Ok(l) ==> l.first_named_by(s@),
            r matches Err(e) ==> e matches Error::InvalidLang(t) && t@ == s@ && forall|o: Lang|
                !o.named_by(s@),
    {
        let mut i: u8 = 0;
        while i < LANG_COUNT
            invariant
                i <= LANG_COUNT,
                forall|o: Lang| o.rank() < i ==> !o.named_by(s@),
            decreases LANG_COUNT - i,
        {
            match Lang::from_index(i) {
                Some(l) => {
                    if same_text(s, l.code()) || same_text(s, l.lower_code()) {
                        return Ok(l);
                    }
                    assert forall|o: Lang| o.rank() < i + 1 implies !o.named_by(s@) by {
                        if o.rank() == i {
                            assert(o == l);
                        }
                    }
                },
                None => {},
            }
            i += 1;
        }
        assert forall|o: Lang| !o.named_by(s@) by {
            assert(o.rank() < LANG_COUNT);
        }
        Err(Error::InvalidLang(s.to_owned()))
    }
}

impl std::str::FromStr for Lang {
    type Err = Error;

    /// The language that `s` names: the first, in the order of languages,
    /// whose code is `s`, all in upper or all in lower case. Any other text
    /// is refused, with the text in the error.
    fn from_str(s: &str) -> (r: Result<Self, Self::Err>)
        ensures
            r matches Ok(l) ==> l.first_named_by(s@),
            r matches Err(e) ==> e matches Error::InvalidLang(t) && t@ == s@ && forall|o: Lang|
                !o.named_by(s@),
    {
        Lang::from_str(s)
    }
}

} // verus!
