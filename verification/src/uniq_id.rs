//! A node that hands out identifiers.
//!
//! An identifier is a version-7 UUID in its canonical writing. Drawing one takes the clock
//! and a random source, which the caller has; the node decides when an identifier is due
//! and hands out only text that has the form of one.

use vstd::prelude::*;

verus! {

/// Whether `c` is one of the digits `0` to `9` or of the letters `a` to `f`.
pub open spec fn is_lower_hex(c: char) -> bool {
    ('0' as u32 <= c as u32 && c as u32 <= '9' as u32) || ('a' as u32 <= c as u32 && c as u32
        <= 'f' as u32)
}

/// Whether `c` may stand at place `i` of an identifier: a hyphen after each of the groups
/// of 8, 4, 4 and 4 digits, the version `7` at the head of the third group, one of `8`,
/// `9`, `a` and `b` for the variant at the head of the fourth, and a lower-case
/// hexadecimal digit anywhere else.
pub open spec fn fits(i: int, c: char) -> bool {
    if i == 8 || i == 13 || i == 18 || i == 23 {
        c == '-'
    } else if i == 14 {
        c == '7'
    } else if i == 19 {
        c == '8' || c == '9' || c == 'a' || c == 'b'
    } else {
        is_lower_hex(c)
    }
}

/// Whether `text` has the form of a version-7 UUID in its canonical writing: 36
/// characters, each of which fits its place.
pub open spec fn is_uuid7_text(text: Seq<char>) -> bool {
    &&& text.len() == 36
    &&& forall|i: int| 0 <= i < 36 ==> fits(i, #[trigger] text[i])
}

/// Whether `c` may stand at place `i` of an identifier.
fn fits_at(i: usize, c: char) -> (ok: bool)
    ensures
        ok == fits(i as int, c),
{
    if i == 8 || i == 13 || i == 18 || i == 23 {
        c == '-'
    } else if i == 14 {
        c == '7'
    } else if i == 19 {
        c == '8' || c == '9' || c == 'a' || c == 'b'
    } else {
        let code = c as u32;
        ('0' as u32 <= code && code <= '9' as u32) || ('a' as u32 <= code && code <= 'f' as u32)
    }
}

/// Whether `id` has the form of a version-7 UUID in its canonical writing.
pub fn well_formed(id: &str) -> (ok: bool)
    ensures
        ok == is_uuid7_text(id@),
{
    if id.unicode_len() != 36 {
        return false;
    }
    let mut i: usize = 0;
    while i < 36
        invariant
            i <= 36,
            id@.len() == 36,
            forall|j: int| 0 <= j < i ==> fits(j, #[trigger] id@[j]),
        decreases 36 - i,
    {
        if !fits_at(i, id.get_char(i)) {
            assert(!fits(i as int, id@[i as int]));
            return false;
        }
        i += 1;
    }
    true
}

/// The body that answers a `generate` request.
#[derive(Debug, PartialEq, Eq)]
pub struct Generated {
    /// The type of the body, `generate_ok`.
    pub typ: String,
    /// The identifier handed out.
    pub id: String,
}

/// The answer that hands out `id`, which the caller has drawn. Text that has not the form
/// of an identifier is not handed out: the result is `None` then.
pub fn generated(id: String) -> (body: Option<Generated>)
    ensures
        body is Some <==> is_uuid7_text(id@),
        body matches Some(answer) ==> answer.typ@ == "generate_ok"@ && answer.id == id,
{
    if well_formed(id.as_str()) {
        Some(Generated { typ: "generate_ok".to_owned(), id })
    } else {
        None
    }
}

/// What a request asks of the node.
#[derive(Debug, Clone, Copy, PartialEq, Eq, Structural)]
pub enum Step {
    /// An identifier is due: the caller draws one and answers with `generated` of it.
    Generate,
    /// The node does not handle the request and leaves it to the runtime.
    Unhandled,
}

/// A node that keeps no state.
#[derive(Debug, Clone, Copy, Default)]
pub struct Handler {}

impl Handler {
    /// Decides on a request of type `tag`. A `generate` request is due an identifier; any
    /// other is left to the runtime.
    pub fn process(&self, tag: &str) -> (step: Step)
        ensures
            step is Generate <==> tag@ == "generate"@,
    {
        if *tag == *"generate" {
            Step::Generate
        } else {
            Step::Unhandled
        }
    }
}

} // verus!
