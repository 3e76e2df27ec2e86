//! Names as they are compared and searched: without accents, in lower case.

use vstd::prelude::*;
use vstd::utf8::is_ascii_chars;

verus! {

/// The ASCII text that `unidecode` writes for a text.
pub uninterp spec fn unidecoded(source: Seq<char>) -> Seq<char>;

/// The lower-case form of an ASCII letter; any other character is left as it is.
pub open spec fn ascii_lower(c: char) -> char {
    if 'A' <= c <= 'Z' {
        ((c as u8) + 32) as char
    } else {
        c
    }
}

/// `pattern` occurs in `text` as a run of consecutive characters.
pub open spec fn occurs_in(pattern: Seq<char>, text: Seq<char>) -> bool {
    exists|i: int|
        0 <= i <= text.len() - pattern.len() && #[trigger] text.subrange(i, i + pattern.len())
            == pattern
}

/// `a` comes before `b`, or is `b`, where texts are ordered character by character and
/// a text comes after its own beginnings.
pub open spec fn text_le(a: Seq<char>, b: Seq<char>) -> bool
    decreases a.len(),
{
    if a.len() == 0 {
        true
    } else if b.len() == 0 {
        false
    } else if a[0] != b[0] {
        a[0] < b[0]
    } else {
        text_le(a.drop_first(), b.drop_first())
    }
}

/// Calls `unidecode::unidecode`. The crate promises that the text that comes out is
/// ASCII, and the contract says so; for the rest it only gives that text a name, as it
/// is a function of `s` alone.
#[verifier::external_body]
pub(crate) fn transliterate(s: &str) -> (plain: String)
    ensures
        plain@ == unidecoded(s@),
        is_ascii_chars(plain@),
{
    unidecode::unidecode(s)
}

/// Calls `str::to_lowercase` on an ASCII text, where it turns each capital letter into
/// the small one and leaves every other character as it is.
#[verifier::external_body]
fn lowercase(s: &str) -> (low: String)
    requires
        is_ascii_chars(s@),
    ensures
        low@ == s@.map_values(|c: char| ascii_lower(c)),
{
    s.to_lowercase()
}

/// Calls `str::contains` with a text as the pattern: whether `pattern` occurs in `text`.
#[verifier::external_body]
pub(crate) fn contains_text(text: &str, pattern: &str) -> (found: bool)
    ensures
        found == occurs_in(pattern@, text@),
{
    text.contains(pattern)
}

/// Calls `<=` on two texts, which orders them by their characters from the first on.
#[verifier::external_body]
pub(crate) fn le_text(a: &str, b: &str) -> (le: bool)
    ensures
        le == text_le(a@, b@),
{
    a <= b
}

/// The name as it is compared and searched, given its ASCII form.
pub open spec fn simplified_from(plain: Seq<char>) -> Seq<char> {
    plain.map_values(|c: char| ascii_lower(c))
}

/// The name as it is compared and searched: its ASCII form in lower case.
pub open spec fn simplified(name: Seq<char>) -> Seq<char> {
    simplified_from(unidecoded(name))
}

/// No character of `s` is a capital ASCII letter.
pub open spec fn no_capitals(s: Seq<char>) -> bool {
    forall|i: int| 0 <= i < s.len() ==> !('A' <= #[trigger] s[i] <= 'Z')
}

/// The name as it is compared and searched, given its ASCII form: as long as that form,
/// ASCII too, and without capital letters.
pub fn lower_name(plain: &str) -> (simple: String)
    requires
        is_ascii_chars(plain@),
    ensures
        simple@ == simplified_from(plain@),
        simple@.len() == plain@.len(),
        is_ascii_chars(simple@),
        no_capitals(simple@),
{
    let simple = lowercase(plain);
    proof {
        assert forall|i: int| 0 <= i < simple@.len() implies '\0' <= #[trigger] simple@[i]
            <= '\u{7f}' && !('A' <= simple@[i] <= 'Z') by {
            let c = plain@[i];
            assert(simple@[i] == ascii_lower(c));
            if 'A' <= c <= 'Z' {
                assert(65 <= c as u8 <= 90);
                assert(((c as u8) + 32) as char == ascii_lower(c));
            }
        }
    }
    simple
}

/// The name as it is compared and searched: ASCII, and without capital letters.
pub fn simplify_name(original: &str) -> (simple: String)
    ensures
        simple@ == simplified(original@),
        is_ascii_chars(simple@),
        no_capitals(simple@),
{
    let plain = transliterate(original);
    lower_name(plain.as_str())
}

/// Of two texts one comes before the other, or they are the same.
pub proof fn lemma_text_le_total(a: Seq<char>, b: Seq<char>)
    ensures
        text_le(a, b) || text_le(b, a),
    decreases a.len(),
{
    if a.len() > 0 && b.len() > 0 && a[0] == b[0] {
        lemma_text_le_total(a.drop_first(), b.drop_first());
    }
}

/// What comes before a text comes before all that the text comes before.
pub proof fn lemma_text_le_transitive(a: Seq<char>, b: Seq<char>, c: Seq<char>)
    requires
        text_le(a, b),
        text_le(b, c),
    ensures
        text_le(a, c),
    decreases a.len(),
{
    if a.len() > 0 && b.len() > 0 && c.len() > 0 && a[0] == b[0] && b[0] == c[0] {
        lemma_text_le_transitive(a.drop_first(), b.drop_first(), c.drop_first());
    }
}

} // verus!
