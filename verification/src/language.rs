//! Target languages that code generators can emit bindings for, and the
//! parsing of their names from user input.

use vstd::prelude::*;

verus! {

/// A supported code-generation target language.
#[derive(Clone, Copy, Debug, PartialEq, Eq, Structural)]
pub enum Language {
    JavaScript,
    Elm,
}

/// `c` with an ASCII uppercase letter folded to lowercase.
pub open spec fn spec_lower_char(c: char) -> char {
    if 'A' <= c && c <= 'Z' {
        ((c as int + 32) as char)
    } else {
        c
    }
}

/// `s` with every ASCII uppercase letter folded to lowercase.
pub open spec fn spec_lower_chars(s: Seq<char>) -> Seq<char> {
    s.map_values(|c: char| spec_lower_char(c))
}

/// The language a name denotes, compared case-insensitively over ASCII.
pub open spec fn spec_language_from(s: Seq<char>) -> Option<Language> {
    if spec_lower_chars(s) == "javascript"@ {
        Some(Language::JavaScript)
    } else if spec_lower_chars(s) == "elm"@ {
        Some(Language::Elm)
    } else {
        None
    }
}

/// `c` folded to lowercase when it is an ASCII uppercase letter.
fn lower_char(c: char) -> (r: char)
    ensures
        r == spec_lower_char(c),
{
    if c >= 'A' && c <= 'Z' {
        let n: u32 = c as u32;
        let m: u32 = n + 32;
        let b: u8 = m as u8;
        proof {
            assert(b as int == m as int) by (bit_vector)
                requires
                    m < 256,
                    b == m as u8,
            ;
        }
        b as char
    } else {
        c
    }
}

/// True exactly when `s`, lowercased over ASCII, reads as `t`.
fn matches_lowered(s: &str, t: &str) -> (r: bool)
    ensures
        r == (spec_lower_chars(s@) == t@),
{
    let n: usize = s.unicode_len();
    if n != t.unicode_len() {
        proof {
            assert(spec_lower_chars(s@).len() != t@.len());
        }
        return false;
    }
    let mut i: usize = 0;
    while i < n
        invariant
            n == s@.len(),
            n == t@.len(),
            i <= n,
            forall|j: int| 0 <= j < i ==> spec_lower_char(s@[j]) == t@[j],
        decreases n - i,
    {
        let c: char = lower_char(s.get_char(i));
        if c != t.get_char(i) {
            proof {
                assert(spec_lower_chars(s@)[i as int] != t@[i as int]);
            }
            return false;
        }
        i += 1;
    }
    proof {
        assert(spec_lower_chars(s@) =~= t@);
    }
    true
}

/// Parses a language name, ignoring ASCII case: `"javascript"` and `"elm"`
/// in any casing are recognized, anything else is `None`.
pub fn from_string(lang_name: &str) -> (r: Option<Language>)
    ensures
        r == spec_language_from(lang_name@),
{
    if matches_lowered(lang_name, "javascript") {
        Some(Language::JavaScript)
    } else if matches_lowered(lang_name, "elm") {
        Some(Language::Elm)
    } else {
        None
    }
}

} // verus!
