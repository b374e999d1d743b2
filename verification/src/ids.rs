//! Short random ids for tasks.
use vstd::prelude::*;

use crate::text::{chars_of, string_of};

verus! {

/// Whether `c` is a lowercase hexadecimal digit.
pub open spec fn is_hex_digit(c: char) -> bool {
    ('0' <= c && c <= '9') || ('a' <= c && c <= 'f')
}

/// Whether `s` has the hyphenated form of a UUID: 36 characters, hyphens at
/// positions 8, 13, 18 and 23, lowercase hexadecimal digits elsewhere.
pub open spec fn hyphenated_uuid(s: Seq<char>) -> bool {
    &&& s.len() == 36
    &&& forall|i: int|
        0 <= i < 36 ==> if i == 8 || i == 13 || i == 18 || i == 23 {
            #[trigger] s[i] == '-'
        } else {
            is_hex_digit(s[i])
        }
}

/// Whether `s` is a task id: eight lowercase hexadecimal digits.
pub open spec fn is_task_id(s: Seq<char>) -> bool {
    s.len() == 8 && forall|i: int| 0 <= i < 8 ==> is_hex_digit(#[trigger] s[i])
}

/// `uuid::Uuid::new_v4`, shown with `to_string`. The claim: the text is a UUID in
/// the hyphenated lowercase form that `Uuid`'s `Display` (through `LowerHex` and
/// `format_hyphenated`) writes. Which UUID comes out is random and left unsaid.
#[verifier::external_body]
fn random_uuid() -> (s: String)
    ensures
        hyphenated_uuid(s@),
{
    uuid::Uuid::new_v4().to_string()
}

/// The task id taken from the UUID text `t`: its first eight characters, the digits
/// before the first hyphen.
pub fn task_id_from(t: &str) -> (s: String)
    requires
        hyphenated_uuid(t@),
    ensures
        s@ == t@.take(8),
        is_task_id(s@),
{
    let chars = chars_of(t);
    let mut first: Vec<char> = Vec::new();
    for i in 0..8
        invariant
            chars@ == t@,
            hyphenated_uuid(t@),
            first@ == chars@.take(i as int),
    {
        first.push(chars[i]);
        assert(chars@.take(i + 1) == chars@.take(i as int).push(chars@[i as int]));
    }
    assert forall|i: int| 0 <= i < 8 implies is_hex_digit(#[trigger] first@[i]) by {
        assert(first@[i] == t@[i]);
    }
    string_of(&first)
}

/// A fresh task id: the first eight characters of a random UUID.
pub fn uuid() -> (s: String)
    ensures
        is_task_id(s@),
        exists|t: Seq<char>| hyphenated_uuid(t) && s@ == t.take(8),
{
    let id = random_uuid();
    task_id_from(id.as_str())
}

} // verus!
