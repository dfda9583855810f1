use vstd::prelude::*;

verus! {

/// Whether `c` has the Unicode White_Space property, which `char::is_whitespace`
/// decides: tab to carriage return, space, next line, no-break space, ogham space
/// mark, the spaces U+2000 to U+200A, line and paragraph separator, narrow no-break
/// space, medium mathematical space and ideographic space.
pub open spec fn is_white_space(c: char) -> bool {
    ||| '\u{9}' <= c <= '\u{d}'
    ||| c == ' '
    ||| c == '\u{85}'
    ||| c == '\u{a0}'
    ||| c == '\u{1680}'
    ||| '\u{2000}' <= c <= '\u{200a}'
    ||| c == '\u{2028}'
    ||| c == '\u{2029}'
    ||| c == '\u{202f}'
    ||| c == '\u{205f}'
    ||| c == '\u{3000}'
}

/// Whether `c` is in the Unicode general category Cc, which `char::is_control`
/// decides: U+0000 to U+001F and U+007F to U+009F.
pub open spec fn is_control_char(c: char) -> bool {
    c <= '\u{1f}' || ('\u{7f}' <= c <= '\u{9f}')
}

/// The Unicode lowercase mapping of a whole string, as `str::to_lowercase` computes it.
pub uninterp spec fn lowercase_of(s: Seq<char>) -> Seq<char>;

/// Whether `c` is whitespace, as `char::is_whitespace` decides.
pub fn char_is_whitespace(c: char) -> (r: bool)
    ensures
        r == is_white_space(c),
{
    ('\u{9}' <= c && c <= '\u{d}') || c == ' ' || c == '\u{85}' || c == '\u{a0}' || c == '\u{1680}'
        || ('\u{2000}' <= c && c <= '\u{200a}') || c == '\u{2028}' || c == '\u{2029}' || c == '\u{202f}'
        || c == '\u{205f}' || c == '\u{3000}'
}

/// Whether `c` is a control character, as `char::is_control` decides.
pub fn char_is_control(c: char) -> (r: bool)
    ensures
        r == is_control_char(c),
{
    c <= '\u{1f}' || ('\u{7f}' <= c && c <= '\u{9f}')
}

/// Calls `str::to_lowercase`; the result is the named lowercase mapping of `s`.
#[verifier::external_body]
pub(crate) fn to_lowercase(s: &str) -> (r: String)
    ensures
        r@ == lowercase_of(s@),
{
    s.to_lowercase()
}

/// Calls `String::push`: the string gains `c` at its end.
#[verifier::external_body]
pub(crate) fn push_char(s: &mut String, c: char)
    ensures
        final(s)@ == old(s)@.push(c),
{
    s.push(c)
}

/// The characters of `s`, in order.
pub fn chars_of(s: &str) -> (r: Vec<char>)
    ensures
        r@ == s@,
{
    broadcast use vstd::string::group_string_axioms;
    let mut out: Vec<char> = Vec::new();
    for c in it: s.chars()
        invariant
            out@ == it.seq().take(it.index() as int),
    {
        out.push(c);
    }
    out
}

} // verus!
