//! Labels made from field names.

use vstd::prelude::*;
use vstd::string::StrSliceExecFns;

verus! {

/// The upper-case form of `c` by the Unicode tables of the standard
/// library, which may be several characters long.
pub uninterp spec fn uppercase(c: char) -> Seq<char>;

/// The characters that `char::to_uppercase` of the standard library yields
/// for `c`, in order. What they are is left to the standard library.
#[verifier::external_body]
fn to_uppercase(c: char) -> (r: Vec<char>)
    ensures
        r@ == uppercase(c),
{
    c.to_uppercase().collect()
}

/// The string made of the characters of `chars`, in order, as
/// `String::from_iter` of the standard library builds it.
#[verifier::external_body]
fn string_of(chars: &Vec<char>) -> (r: String)
    ensures
        r@ == chars@,
{
    String::from_iter(chars.iter())
}

/// The label for the name `text` in snake case, where `upper` is the
/// upper-case form of its first character: the first character of `upper`
/// in place of the first of `text`, or that one itself where `upper` is
/// empty; a space for each underscore after it; every other character as
/// it is.
pub open spec fn spec_label(text: Seq<char>, upper: Seq<char>) -> Seq<char> {
    Seq::new(
        text.len(),
        |i: int|
            if i == 0 {
                if upper.len() > 0 {
                    upper[0]
                } else {
                    text[i]
                }
            } else if text[i] == '_' {
                ' '
            } else {
                text[i]
            },
    )
}

/// The upper-case form of the first character of `text`; empty where
/// `text` is empty.
pub open spec fn first_upper(text: Seq<char>) -> Seq<char> {
    if text.len() > 0 {
        uppercase(text[0])
    } else {
        Seq::empty()
    }
}

/// The label for a name in snake case: the first character in upper case,
/// each underscore after it a space, every other character as it is.
pub open spec fn spec_snake_to_upper(text: Seq<char>) -> Seq<char> {
    spec_label(text, first_upper(text))
}

/// Makes the label for the name `text` in snake case, given the
/// upper-case form `upper` of its first character.
pub fn label_with(text: &str, upper: &Vec<char>) -> (r: String)
    ensures
        r@ == spec_label(text@, upper@),
{
    let n = text.unicode_len();
    let mut out: Vec<char> = Vec::new();
    let mut i: usize = 0;
    while i < n
        invariant
            n == text@.len(),
            i <= n,
            out@ == spec_label(text@, upper@).take(i as int),
        decreases n - i,
    {
        let c = text.get_char(i);
        let shown = if i == 0 {
            if upper.len() > 0 {
                upper[0]
            } else {
                c
            }
        } else if c == '_' {
            ' '
        } else {
            c
        };
        out.push(shown);
        assert(out@ =~= spec_label(text@, upper@).take(i + 1));
        i = i + 1;
    }
    assert(out@ =~= spec_label(text@, upper@));
    string_of(&out)
}

/// Turns a name in snake case into a label.
pub fn snake_to_upper(text: &str) -> (r: String)
    ensures
        r@ == spec_snake_to_upper(text@),
{
    let upper = if text.unicode_len() > 0 {
        to_uppercase(text.get_char(0))
    } else {
        Vec::new()
    };
    label_with(text, &upper)
}

} // verus!
