//! Names for clients and sessions.

use vstd::prelude::*;

verus! {

/// A lower-case hexadecimal digit.
pub open spec fn is_hex_digit(c: char) -> bool {
    '0' <= c <= '9' || 'a' <= c <= 'f'
}

/// The places of the hyphens in the text of a UUID.
pub open spec fn is_hyphen_place(i: int) -> bool {
    i == 8 || i == 13 || i == 18 || i == 23
}

/// The text of a random (version 4) UUID: five groups of hexadecimal digits joined by hyphens, with
/// the version and the variant in their places.
pub open spec fn is_random_uuid(text: Seq<char>) -> bool {
    &&& text.len() == 36
    &&& forall|i: int|
        0 <= i < 36 ==> if is_hyphen_place(i) {
            #[trigger] text[i] == '-'
        } else {
            is_hex_digit(text[i])
        }
    &&& text[14] == '4'
    &&& text[19] == '8' || text[19] == '9' || text[19] == 'a' || text[19] == 'b'
}

/// Calls `uuid::Uuid::new_v4` and gives the new UUID's text. Claimed is the form of the text, which
/// all random UUIDs share; which one it is, is left to chance. The call panics if the operating
/// system has no random numbers to give.
#[verifier::external_body]
fn random_uuid() -> (text: String)
    ensures
        is_random_uuid(text@),
{
    uuid::Uuid::new_v4().to_string()
}

/// This name was drawn at random.
pub closed spec fn was_drawn(name: Seq<char>) -> bool {
    exists|text: String| #[trigger] call_ensures(random_uuid, (), text) && text@ == name
}

/// A fresh name for a client or a session.
pub fn fresh_id() -> (id: String)
    ensures
        is_random_uuid(id@),
        was_drawn(id@),
{
    random_uuid()
}

/// A name is 36 characters in groups of 8, 4, 4, 4 and 12 lower-case hexadecimal digits, joined by
/// hyphens; the third group starts with the version, and the fourth with the variant.
pub proof fn law_names_have_five_groups(name: Seq<char>, i: int)
    requires
        is_random_uuid(name),
        0 <= i < 36,
    ensures
        name.len() == 36,
        i == 8 || i == 13 || i == 18 || i == 23 ==> name[i] == '-',
        i != 8 && i != 13 && i != 18 && i != 23 ==> ('0' <= name[i] <= '9' || 'a' <= name[i] <= 'f'),
        name[14] == '4',
        name[19] == '8' || name[19] == '9' || name[19] == 'a' || name[19] == 'b',
{
}

} // verus!
