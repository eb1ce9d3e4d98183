//! Helpers for describing lexical material in diagnostics. The rendering of
//! whole reports (colors, underlines) lives outside the library; here is
//! only the naming of single characters, which the expectation lists of
//! parse diagnostics refer to.

use vstd::prelude::*;
use vstd::string::StringExecFns;

verus! {

/// What `char::escape_default` renders for a character.
pub uninterp spec fn escaped_of(c: char) -> Seq<char>;

/// Relies on `char::escape_default` from core: the escaped form depends on
/// the character alone.
#[verifier::external_body]
fn escape_char(c: char) -> (r: String)
    ensures
        r@ == escaped_of(c),
{
    format!("{}", c.escape_default())
}

/// The name [`say_token`] gives a character.
pub open spec fn say_token_text(c: char) -> Seq<char> {
    if c == '\n' {
        "newline"@
    } else if c == ' ' {
        "space"@
    } else if c == ',' {
        "comma"@
    } else if c == '.' {
        "dot"@
    } else if c == '\'' {
        "single quote"@
    } else if c == '"' {
        "double quote"@
    } else if c == '`' {
        "backtick"@
    } else {
        "'"@ + escaped_of(c) + "'"@
    }
}

/// A human-readable name for a character: common punctuation by name, any
/// other character quoted in its escaped form.
pub fn say_token(chr: &char) -> (r: String)
    ensures
        r@ == say_token_text(*chr),
{
    match *chr {
        '\n' => String::from_str("newline"),
        ' ' => String::from_str("space"),
        ',' => String::from_str("comma"),
        '.' => String::from_str("dot"),
        '\'' => String::from_str("single quote"),
        '"' => String::from_str("double quote"),
        '`' => String::from_str("backtick"),
        other => {
            let mut s = String::from_str("'");
            let esc = escape_char(other);
            s.append(esc.as_str());
            s.append("'");
            s
        },
    }
}

} // verus!
