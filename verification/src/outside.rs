//! Calls into other crates. Each item here is trusted: its contract is what
//! the called function's source or documentation says.

use crate::durations::duration_summable;
use crate::json::{Json, JsonView};
use crate::node::agrees;
use crate::text::{all_digits, dec_value, has_prefix, is_lower, is_upper, lower};
use vstd::prelude::*;

verus! {

pub open spec fn hex_lower(n: int) -> char {
    if n < 10 {
        (n + 48) as char
    } else {
        (n + 87) as char
    }
}

/// How a character is written inside a JSON string.
pub open spec fn json_char(c: char) -> Seq<char> {
    if c == '"' {
        seq!['\\', '"']
    } else if c == '\\' {
        seq!['\\', '\\']
    } else if c as u32 == 8 {
        seq!['\\', 'b']
    } else if c as u32 == 9 {
        seq!['\\', 't']
    } else if c as u32 == 10 {
        seq!['\\', 'n']
    } else if c as u32 == 12 {
        seq!['\\', 'f']
    } else if c as u32 == 13 {
        seq!['\\', 'r']
    } else if (c as u32) < 32 {
        seq!['\\', 'u', '0', '0', hex_lower(c as int / 16), hex_lower(c as int % 16)]
    } else {
        seq![c]
    }
}

pub open spec fn json_chars(s: Seq<char>) -> Seq<char>
    decreases s.len(),
{
    if s.len() == 0 {
        Seq::empty()
    } else {
        json_chars(s.drop_last()) + json_char(s.last())
    }
}

/// `s` as a JSON string.
pub open spec fn json_text(s: Seq<char>) -> Seq<char> {
    seq!['"'] + json_chars(s) + seq!['"']
}

/// `serde_json::to_string` on a string writes it between quotation marks, with
/// quotation marks, backslashes and the control characters below the blank
/// escaped and everything else as it is.
#[verifier::external_body]
pub(crate) fn json_string(s: &str) -> (r: String)
    ensures
        r@ == json_text(s@),
{
    serde_json::to_string(s).expect("a string can be written as JSON")
}

/// What `humantime::parse_duration` makes of a text: whole seconds and
/// nanoseconds below a second, or nothing where it refuses it.
pub uninterp spec fn human_duration(s: Seq<char>) -> Option<(u64, u32)>;

/// `humantime::parse_duration` is a function of its text. A duration's
/// nanoseconds are below a second. It adds the parts of a text up one after the
/// other, and does not return where a sum comes to exactly 2^64 seconds.
#[verifier::external_body]
pub(crate) fn parse_human_duration(s: &str) -> (r: Option<(u64, u32)>)
    requires
        duration_summable(s@),
    ensures
        r == human_duration(s@),
        r matches Some((_, nanos)) ==> nanos < 1_000_000_000,
{
    humantime::parse_duration(s).ok().map(|d| (d.as_secs(), d.subsec_nanos()))
}

/// `s` as `{:?}` writes it.
pub uninterp spec fn debug_text(s: Seq<char>) -> Seq<char>;

/// The `Debug` form of a `str` is a function of its contents.
#[verifier::external_body]
pub(crate) fn debug_str(s: &str) -> (r: String)
    ensures
        r@ == debug_text(s@),
{
    format!("{:?}", s)
}

/// Why `serde_norway::from_str` refuses a text as a YAML value; nothing where it
/// accepts it.
pub uninterp spec fn yaml_problem(s: Seq<char>) -> Option<Seq<char>>;

/// `serde_norway::from_str` accepts or refuses a text by its contents alone.
#[verifier::external_body]
pub(crate) fn yaml_error(s: &str) -> (r: Option<String>)
    ensures
        r.deep_view() == yaml_problem(s@),
{
    serde_norway::from_str::<serde_norway::Value>(s).err().map(|e| e.to_string())
}

/// What `serde_json::from_str` makes of a text: what can be told of the value, or
/// why it refuses the text.
pub uninterp spec fn json_facts(s: Seq<char>) -> Result<JsonView, Seq<char>>;

/// `serde_json::from_str` is a function of its text, and so is what the value's
/// `is_…` methods say, which entries it has as an object, and how it is written. A
/// value is of exactly one kind, a number is a fraction or fits `i64` or `u64`, and
/// only an object has entries.
#[verifier::external_body]
pub(crate) fn read_json(s: &str) -> (r: Result<Json, String>)
    ensures
        agrees(r, json_facts(s@)),
        r matches Ok(v) ==> v.deep_view().proper(),
{
    serde_json::from_str::<serde_json::Value>(s).map_err(|e| e.to_string()).map(|v| Json {
        null: v.is_null(),
        boolean: v.is_boolean(),
        number: v.is_number(),
        float: v.is_f64(),
        int64: v.is_i64(),
        uint64: v.is_u64(),
        string: v.is_string(),
        array: v.is_array(),
        object: v.is_object(),
        entries: v.as_object().map_or(Vec::new(), |m| {
            m.iter().map(|(k, x)| (k.clone(), x.to_string())).collect()
        }),
        text: v.to_string(),
    })
}

/// The integer that a text is: a sign, where it has one, and decimal digits.
pub open spec fn int_text(s: Seq<char>) -> Option<int> {
    if has_prefix(s, "-"@) {
        let d = s.skip(1);
        if d.len() > 0 && all_digits(d) {
            Some(-(dec_value(d) as int))
        } else {
            None
        }
    } else {
        match uint_text(s) {
            Some(n) => Some(n as int),
            None => None,
        }
    }
}

/// The natural number that a text is: a plus sign, where it has one, and decimal
/// digits.
pub open spec fn uint_text(s: Seq<char>) -> Option<nat> {
    let d = if has_prefix(s, "+"@) {
        s.skip(1)
    } else {
        s
    };
    if d.len() > 0 && all_digits(d) {
        Some(dec_value(d))
    } else {
        None
    }
}

/// Why a text is no `i64`, in the words of its parser.
pub uninterp spec fn i64_error(s: Seq<char>) -> Seq<char>;

/// `str::parse::<i64>` takes an optional sign and decimal digits, and refuses
/// what is neither that nor in range.
#[verifier::external_body]
pub(crate) fn parse_i64(s: &str) -> (r: Result<i64, String>)
    ensures
        match r {
            Ok(n) => int_text(s@) == Some(n as int),
            Err(m) => m@ == i64_error(s@) && !(int_text(s@) matches Some(v) && i64::MIN <= v
                <= i64::MAX),
        },
{
    s.parse::<i64>().map_err(|e| e.to_string())
}

/// Why a text is no `u64`, in the words of its parser.
pub uninterp spec fn u64_error(s: Seq<char>) -> Seq<char>;

/// `str::parse::<u64>` takes an optional plus sign and decimal digits, and refuses
/// what is neither that nor in range.
#[verifier::external_body]
pub(crate) fn parse_u64_text(s: &str) -> (r: Result<u64, String>)
    ensures
        match r {
            Ok(n) => uint_text(s@) == Some(n as nat),
            Err(m) => m@ == u64_error(s@) && !(uint_text(s@) matches Some(v) && v <= u64::MAX),
        },
{
    s.parse::<u64>().map_err(|e| e.to_string())
}

/// Why a text is no `bool`, in the words of its parser.
pub uninterp spec fn bool_error(s: Seq<char>) -> Seq<char>;

/// `str::parse::<bool>` takes `true` and `false` and nothing else.
#[verifier::external_body]
pub(crate) fn parse_bool(s: &str) -> (r: Result<bool, String>)
    ensures
        match r {
            Ok(b) => if b {
                s@ == "true"@
            } else {
                s@ == "false"@
            },
            Err(m) => m@ == bool_error(s@) && s@ != "true"@ && s@ != "false"@,
        },
{
    s.parse::<bool>().map_err(|e| e.to_string())
}

/// Whether a character has the property `Uppercase`.
pub uninterp spec fn uppercase(c: char) -> bool;

/// `char::is_uppercase` depends on the character alone; of the ASCII characters it
/// takes the capital letters.
pub assume_specification[ char::is_uppercase ](c: char) -> (r: bool)
    ensures
        r == uppercase(c),
        (c as u32) < 128 ==> r == is_upper(c),
;

/// Whether a character has the property `Lowercase`.
pub uninterp spec fn lowercase_letter(c: char) -> bool;

/// `char::is_lowercase` depends on the character alone; of the ASCII characters it
/// takes the small letters.
pub assume_specification[ char::is_lowercase ](c: char) -> (r: bool)
    ensures
        r == lowercase_letter(c),
        (c as u32) < 128 ==> r == is_lower(c),
;

/// The small form of a character, which may be several characters.
pub uninterp spec fn small_form(c: char) -> Seq<char>;

/// `char::to_lowercase` depends on the character alone; an ASCII character has one
/// small form.
#[verifier::external_body]
pub(crate) fn to_small(c: char) -> (r: String)
    ensures
        r@ == small_form(c),
        (c as u32) < 128 ==> r@ == seq![lower(c)],
{
    c.to_lowercase().to_string()
}

} // verus!
