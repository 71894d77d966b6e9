//! JSON values by what can be told of them, and numbers in text.

use crate::maps::Data;
use crate::outside::{json_facts, json_string, json_text, read_json};
use crate::text::{cat2, dec, decimal};
use vstd::prelude::*;

verus! {

/// What can be told of a JSON value: what it is, and its text without blanks.
#[derive(Debug, PartialEq)]
pub struct Json {
    pub null: bool,
    pub boolean: bool,
    pub number: bool,
    /// A number that is held as a fraction.
    pub float: bool,
    pub int64: bool,
    pub uint64: bool,
    pub string: bool,
    pub array: bool,
    pub object: bool,
    /// The keys of an object, each with its value's text.
    pub entries: Vec<(String, String)>,
    pub text: String,
}

#[verifier::ext_equal]
pub struct JsonView {
    pub null: bool,
    pub boolean: bool,
    pub number: bool,
    pub float: bool,
    pub int64: bool,
    pub uint64: bool,
    pub string: bool,
    pub array: bool,
    pub object: bool,
    pub entries: Seq<(Seq<char>, Seq<char>)>,
    pub text: Seq<char>,
}

impl DeepView for Json {
    type V = JsonView;

    open spec fn deep_view(&self) -> JsonView {
        JsonView {
            null: self.null,
            boolean: self.boolean,
            number: self.number,
            float: self.float,
            int64: self.int64,
            uint64: self.uint64,
            string: self.string,
            array: self.array,
            object: self.object,
            entries: self.entries.deep_view(),
            text: self.text@,
        }
    }
}

impl Data for Json {
    fn same(&self, other: &Self) -> (r: bool) {
        self.null == other.null && self.boolean == other.boolean && self.number == other.number
            && self.float == other.float && self.int64 == other.int64 && self.uint64
            == other.uint64 && self.string == other.string && self.array == other.array
            && self.object == other.object && self.entries.same(&other.entries) && self.text.same(
            &other.text,
        )
    }

    fn dup(&self) -> (r: Self) {
        Json {
            null: self.null,
            boolean: self.boolean,
            number: self.number,
            float: self.float,
            int64: self.int64,
            uint64: self.uint64,
            string: self.string,
            array: self.array,
            object: self.object,
            entries: self.entries.dup(),
            text: self.text.dup(),
        }
    }
}

impl JsonView {
    /// A value of no kind with this text.
    pub open spec fn of_text(text: Seq<char>) -> JsonView {
        JsonView {
            null: false,
            boolean: false,
            number: false,
            float: false,
            int64: false,
            uint64: false,
            string: false,
            array: false,
            object: false,
            entries: Seq::empty(),
            text,
        }
    }

    /// A string.
    pub open spec fn of_string(s: Seq<char>) -> JsonView {
        JsonView { string: true, ..JsonView::of_text(json_text(s)) }
    }

    /// A signed number.
    pub open spec fn of_i64(n: i64) -> JsonView {
        JsonView {
            number: true,
            int64: true,
            uint64: n >= 0,
            ..JsonView::of_text(int_dec(n as int))
        }
    }

    /// An unsigned number.
    pub open spec fn of_u64(n: u64) -> JsonView {
        JsonView {
            number: true,
            int64: n <= i64::MAX,
            uint64: true,
            ..JsonView::of_text(int_dec(n as int))
        }
    }

    pub open spec fn of_bool(b: bool) -> JsonView {
        JsonView {
            boolean: true,
            ..JsonView::of_text(
                if b {
                    "true"@
                } else {
                    "false"@
                },
            )
        }
    }

    /// An array of values with these texts.
    pub open spec fn of_array(items: Seq<Seq<char>>) -> JsonView {
        JsonView {
            array: true,
            ..JsonView::of_text("["@ + crate::text::joined(items, ","@) + "]"@)
        }
    }

    /// A value of exactly one kind; a number is a fraction or fits one of the
    /// integer types, and only an object has entries.
    pub open spec fn proper(self) -> bool {
        &&& self.null || self.boolean || self.number || self.string || self.array || self.object
        &&& self.null ==> !(self.boolean || self.number || self.string || self.array
            || self.object)
        &&& self.boolean ==> !(self.number || self.string || self.array || self.object)
        &&& self.number ==> !(self.string || self.array || self.object)
        &&& self.string ==> !(self.array || self.object)
        &&& self.array ==> !self.object
        &&& self.number <==> self.float || self.int64 || self.uint64
        &&& self.float ==> !self.int64 && !self.uint64
        &&& !self.object ==> self.entries.len() == 0
    }
}

/// An integer in decimal digits.
pub open spec fn int_dec(n: int) -> Seq<char> {
    if n < 0 {
        "-"@ + dec((-n) as nat)
    } else {
        dec(n as nat)
    }
}

impl Json {
    fn of_text(text: String) -> (r: Json)
        ensures
            r.deep_view() == JsonView::of_text(text@),
    {
        let r: Json = Json {
            null: false,
            boolean: false,
            number: false,
            float: false,
            int64: false,
            uint64: false,
            string: false,
            array: false,
            object: false,
            entries: Vec::new(),
            text,
        };
        proof {
            assert(r.deep_view() =~= JsonView::of_text(text@));
        }
        r
    }

    /// A string.
    pub fn of_string(s: &str) -> (r: Json)
        ensures
            r.deep_view() == JsonView::of_string(s@),
    {
        let mut r: Json = Json::of_text(json_string(s));
        r.string = true;
        r
    }

    /// A signed number.
    pub fn of_i64(n: i64) -> (r: Json)
        ensures
            r.deep_view() == JsonView::of_i64(n),
    {
        let text: String = if n < 0 {
            let d: String = decimal((-(n as i128)) as u128);
            cat2("-", d.as_str())
        } else {
            decimal(n as u128)
        };
        let mut r: Json = Json::of_text(text);
        r.number = true;
        r.int64 = true;
        r.uint64 = n >= 0;
        r
    }

    /// An unsigned number.
    pub fn of_u64(n: u64) -> (r: Json)
        ensures
            r.deep_view() == JsonView::of_u64(n),
    {
        let mut r: Json = Json::of_text(decimal(n as u128));
        r.number = true;
        r.int64 = n <= 9223372036854775807;
        r.uint64 = true;
        r
    }

    pub fn of_bool(b: bool) -> (r: Json)
        ensures
            r.deep_view() == JsonView::of_bool(b),
    {
        let mut r: Json = Json::of_text(
            if b {
                "true".to_owned()
            } else {
                "false".to_owned()
            },
        );
        r.boolean = true;
        r
    }

    /// An array of values with these texts.
    pub fn of_array(items: &Vec<String>) -> (r: Json)
        ensures
            r.deep_view() == JsonView::of_array(items.deep_view()),
    {
        let inner: String = crate::text::join(items, ",");
        let mut r: Json = Json::of_text(crate::text::cat3("[", inner.as_str(), "]"));
        r.array = true;
        r
    }
}

/// A value that is given as text: JSON where it is that, else a string.
pub open spec fn value_or_text(s: Seq<char>) -> JsonView {
    match json_facts(s) {
        Ok(v) => v,
        Err(_) => JsonView::of_string(s),
    }
}

/// The value that a text stands for: what reading it as JSON gave, or the text as
/// a string.
pub fn choose_value(read: Result<Json, String>, s: &str) -> (r: Json)
    ensures
        match read {
            Ok(v) => r.deep_view() == v.deep_view(),
            Err(_) => r.deep_view() == JsonView::of_string(s@),
        },
{
    match read {
        Ok(v) => v,
        Err(_) => Json::of_string(s),
    }
}

/// The entries of a text that is a JSON object: each key, and the text of its
/// value.
pub open spec fn json_entries(s: Seq<char>) -> Option<Seq<(Seq<char>, Seq<char>)>> {
    match json_facts(s) {
        Ok(v) => if v.object {
            Some(v.entries)
        } else {
            None
        },
        Err(_) => None,
    }
}

/// Reads the entries of an object; anything else has none.
pub(crate) fn read_json_entries(s: &str) -> (r: Option<Vec<(String, String)>>)
    ensures
        r.deep_view() == json_entries(s@),
{
    match read_json(s) {
        Ok(v) => if v.object {
            Some(v.entries)
        } else {
            None
        },
        Err(_) => None,
    }
}

/// Reads a value that is given as text: JSON where it is that, else a string.
pub fn parse_value(s: &str) -> (r: Json)
    ensures
        r.deep_view() == value_or_text(s@),
{
    choose_value(read_json(s), s)
}

/// Every value that this library makes is of exactly one kind.
pub proof fn law_made_values_are_proper(s: Seq<char>, n: i64, m: u64, b: bool, items: Seq<Seq<char>>)
    ensures
        JsonView::of_string(s).proper(),
        JsonView::of_i64(n).proper(),
        JsonView::of_u64(m).proper(),
        JsonView::of_bool(b).proper(),
        JsonView::of_array(items).proper(),
{
}

} // verus!
