//! Code languages and indentation levels that a code block can carry.

use vstd::prelude::*;
use crate::text::str_eq;

verus! {

/// A programming language a code snippet is written in.
#[derive(Debug, Clone, Copy, PartialEq, Eq, Structural)]
pub enum SampleLanguage {
    Html,
    Css,
    Js,
    Ts,
    Jsx,
    Tsx,
    Rust,
    Bash,
    Xml,
    Json,
    Txt,
    Md,
}

/// The tag name of a language, as characters.
pub open spec fn lang_name(l: SampleLanguage) -> Seq<char> {
    match l {
        SampleLanguage::Html => seq!['h', 't', 'm', 'l'],
        SampleLanguage::Css => seq!['c', 's', 's'],
        SampleLanguage::Js => seq!['j', 's'],
        SampleLanguage::Ts => seq!['t', 's'],
        SampleLanguage::Jsx => seq!['j', 's', 'x'],
        SampleLanguage::Tsx => seq!['t', 's', 'x'],
        SampleLanguage::Rust => seq!['r', 'u', 's', 't'],
        SampleLanguage::Bash => seq!['b', 'a', 's', 'h'],
        SampleLanguage::Xml => seq!['x', 'm', 'l'],
        SampleLanguage::Json => seq!['j', 's', 'o', 'n'],
        SampleLanguage::Txt => seq!['t', 'x', 't'],
        SampleLanguage::Md => seq!['m', 'd'],
    }
}

/// Every language, in declaration order.
pub open spec fn all_languages() -> Seq<SampleLanguage> {
    seq![
        SampleLanguage::Html,
        SampleLanguage::Css,
        SampleLanguage::Js,
        SampleLanguage::Ts,
        SampleLanguage::Jsx,
        SampleLanguage::Tsx,
        SampleLanguage::Rust,
        SampleLanguage::Bash,
        SampleLanguage::Xml,
        SampleLanguage::Json,
        SampleLanguage::Txt,
        SampleLanguage::Md,
    ]
}

/// The language a name stands for; unknown names fall back to plain text.
pub open spec fn lang_from_name(s: Seq<char>) -> SampleLanguage {
    if s == lang_name(SampleLanguage::Html) {
        SampleLanguage::Html
    } else if s == lang_name(SampleLanguage::Css) {
        SampleLanguage::Css
    } else if s == lang_name(SampleLanguage::Js) {
        SampleLanguage::Js
    } else if s == lang_name(SampleLanguage::Ts) {
        SampleLanguage::Ts
    } else if s == lang_name(SampleLanguage::Jsx) {
        SampleLanguage::Jsx
    } else if s == lang_name(SampleLanguage::Tsx) {
        SampleLanguage::Tsx
    } else if s == lang_name(SampleLanguage::Rust) {
        SampleLanguage::Rust
    } else if s == lang_name(SampleLanguage::Bash) {
        SampleLanguage::Bash
    } else if s == lang_name(SampleLanguage::Xml) {
        SampleLanguage::Xml
    } else if s == lang_name(SampleLanguage::Json) {
        SampleLanguage::Json
    } else if s == lang_name(SampleLanguage::Md) {
        SampleLanguage::Md
    } else {
        SampleLanguage::Txt
    }
}

impl SampleLanguage {
    /// Every language, in declaration order.
    pub const ALL: [SampleLanguage; 12] = [
        SampleLanguage::Html,
        SampleLanguage::Css,
        SampleLanguage::Js,
        SampleLanguage::Ts,
        SampleLanguage::Jsx,
        SampleLanguage::Tsx,
        SampleLanguage::Rust,
        SampleLanguage::Bash,
        SampleLanguage::Xml,
        SampleLanguage::Json,
        SampleLanguage::Txt,
        SampleLanguage::Md,
    ];

    /// Every language, in declaration order, as an owned vector.
    pub fn all() -> (v: Vec<SampleLanguage>)
        ensures
            v@ == all_languages(),
    {
        let v = vec![
            SampleLanguage::Html,
            SampleLanguage::Css,
            SampleLanguage::Js,
            SampleLanguage::Ts,
            SampleLanguage::Jsx,
            SampleLanguage::Tsx,
            SampleLanguage::Rust,
            SampleLanguage::Bash,
            SampleLanguage::Xml,
            SampleLanguage::Json,
            SampleLanguage::Txt,
            SampleLanguage::Md,
        ];
        assert(v@ =~= all_languages());
        v
    }

    /// The tag name of the language (e.g. "rust").
    pub fn as_str(&self) -> (s: &'static str)
        ensures
            s@ == lang_name(*self),
    {
        match self {
            SampleLanguage::Html => {
                proof { reveal_strlit("html"); }
                "html"
            },
            SampleLanguage::Css => {
                proof { reveal_strlit("css"); }
                "css"
            },
            SampleLanguage::Js => {
                proof { reveal_strlit("js"); }
                "js"
            },
            SampleLanguage::Ts => {
                proof { reveal_strlit("ts"); }
                "ts"
            },
            SampleLanguage::Jsx => {
                proof { reveal_strlit("jsx"); }
                "jsx"
            },
            SampleLanguage::Tsx => {
                proof { reveal_strlit("tsx"); }
                "tsx"
            },
            SampleLanguage::Rust => {
                proof { reveal_strlit("rust"); }
                "rust"
            },
            SampleLanguage::Bash => {
                proof { reveal_strlit("bash"); }
                "bash"
            },
            SampleLanguage::Xml => {
                proof { reveal_strlit("xml"); }
                "xml"
            },
            SampleLanguage::Json => {
                proof { reveal_strlit("json"); }
                "json"
            },
            SampleLanguage::Txt => {
                proof { reveal_strlit("txt"); }
                "txt"
            },
            SampleLanguage::Md => {
                proof { reveal_strlit("md"); }
                "md"
            },
        }
    }

    /// The language whose tag name is `s`; any other name gives `Txt`.
    pub fn from_str(s: &str) -> (l: SampleLanguage)
        ensures
            l == lang_from_name(s@),
    {
        let langs = SampleLanguage::all();
        let mut i: usize = 0;
        while i < langs.len()
            invariant
                langs@ == all_languages(),
                i <= langs@.len(),
                forall|j: int| 0 <= j < i ==> s@ != lang_name(#[trigger] all_languages()[j]),
            decreases langs@.len() - i,
        {
            let candidate = langs[i];
            if str_eq(s, candidate.as_str()) {
                return candidate;
            }
            i = i + 1;
        }
        assert(s@ != lang_name(all_languages()[10]));
        SampleLanguage::Txt
    }
}

/// How many indentation levels a code block is nested at; `Zero` means none.
#[derive(Debug, Clone, Copy, PartialEq, Eq, Structural)]
pub enum SampleIndent {
    Zero,
    One,
    Two,
    Three,
    Four,
    Five,
    Six,
}

/// The numeric level of an indent.
pub open spec fn indent_value(i: SampleIndent) -> u8 {
    match i {
        SampleIndent::Zero => 0,
        SampleIndent::One => 1,
        SampleIndent::Two => 2,
        SampleIndent::Three => 3,
        SampleIndent::Four => 4,
        SampleIndent::Five => 5,
        SampleIndent::Six => 6,
    }
}

/// The indents a code block can be declared with (one to six), in order.
pub open spec fn declared_indents() -> Seq<SampleIndent> {
    seq![
        SampleIndent::One,
        SampleIndent::Two,
        SampleIndent::Three,
        SampleIndent::Four,
        SampleIndent::Five,
        SampleIndent::Six,
    ]
}

impl SampleIndent {
    /// The indents a code block can be declared with (one to six), in order.
    pub const ALL: [SampleIndent; 6] = [
        SampleIndent::One,
        SampleIndent::Two,
        SampleIndent::Three,
        SampleIndent::Four,
        SampleIndent::Five,
        SampleIndent::Six,
    ];

    /// The indents a code block can be declared with, as an owned vector.
    pub fn all() -> (v: Vec<SampleIndent>)
        ensures
            v@ == declared_indents(),
    {
        let v = vec![
            SampleIndent::One,
            SampleIndent::Two,
            SampleIndent::Three,
            SampleIndent::Four,
            SampleIndent::Five,
            SampleIndent::Six,
        ];
        assert(v@ =~= declared_indents());
        v
    }

    /// The declared indent with the given level; levels outside one to six give `None`.
    pub fn from_u8(value: u8) -> (r: Option<SampleIndent>)
        ensures
            1 <= value <= 6 ==> r == Some(declared_indents()[value - 1]),
            !(1 <= value <= 6) ==> r is None,
            r matches Some(i) ==> indent_value(i) == value,
    {
        match value {
            1 => Some(SampleIndent::One),
            2 => Some(SampleIndent::Two),
            3 => Some(SampleIndent::Three),
            4 => Some(SampleIndent::Four),
            5 => Some(SampleIndent::Five),
            6 => Some(SampleIndent::Six),
            _ => None,
        }
    }

    /// The numeric level of the indent.
    pub fn as_u8(&self) -> (v: u8)
        ensures
            v == indent_value(*self),
    {
        match self {
            SampleIndent::Zero => 0,
            SampleIndent::One => 1,
            SampleIndent::Two => 2,
            SampleIndent::Three => 3,
            SampleIndent::Four => 4,
            SampleIndent::Five => 5,
            SampleIndent::Six => 6,
        }
    }
}

/// Looking a declared indent up by its own level gives it back.
pub proof fn lemma_indent_round_trip(i: SampleIndent)
    requires
        i != SampleIndent::Zero,
    ensures
        1 <= indent_value(i) <= 6,
        declared_indents()[indent_value(i) - 1] == i,
{
}

/// Distinct languages have distinct tag names.
pub proof fn lemma_lang_name_injective(l: SampleLanguage, m: SampleLanguage)
    requires
        lang_name(l) == lang_name(m),
    ensures
        l == m,
{
    let a = lang_name(l);
    let b = lang_name(m);
    assert(a.len() == b.len() && a[0] == b[0] && a[1] == b[1]);
}

/// A language's tag name reads back as that language.
pub proof fn lemma_language_name_round_trip(l: SampleLanguage)
    ensures
        lang_from_name(lang_name(l)) == l,
{
    assert forall|m: SampleLanguage| lang_name(l) == lang_name(m) implies l == m by {
        lemma_lang_name_injective(l, m);
    }
}

} // verus!
