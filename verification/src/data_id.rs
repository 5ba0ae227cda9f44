//! Identifiers of inputs and outputs.

use dora_message::id::DataId;
use vstd::prelude::*;
use vstd::string::*;

verus! {

/// Whether a character may stand in an identifier: an ASCII letter or digit, or one of
/// `_`, `-`, `.` and `/`.
pub open spec fn id_char(c: char) -> bool {
    'a' <= c <= 'z' || 'A' <= c <= 'Z' || '0' <= c <= '9' || c == '_' || c == '-' || c == '.' || c
        == '/'
}

/// The first character that may not stand in an identifier.
pub open spec fn first_foreign_char(id: Seq<char>) -> Option<char>
    decreases id.len(),
{
    if id.len() == 0 {
        None
    } else if !id_char(id[0]) {
        Some(id[0])
    } else {
        first_foreign_char(id.drop_first())
    }
}

/// Whether one of the parts between slashes is empty.
pub open spec fn has_empty_segment(id: Seq<char>) -> bool {
    ||| id.len() > 0 && (id[0] == '/' || id.last() == '/')
    ||| exists|i: int| 0 <= i < id.len() - 1 && #[trigger] id[i] == '/' && id[i + 1] == '/'
}

/// What is wrong with an identifier, if anything.
pub open spec fn id_complaint(id: Seq<char>) -> Option<Seq<char>> {
    if id.len() == 0 {
        Some("identifier must not be empty"@)
    } else if first_foreign_char(id) is Some {
        Some(
            "identifier contains invalid character '"@ + seq![first_foreign_char(id)->Some_0]
                + "' -- only [a-zA-Z0-9_./-] are allowed"@,
        )
    } else if has_empty_segment(id) {
        Some(
            "identifier '"@ + id
                + "' has empty path segment -- leading, trailing, or consecutive '/' are not allowed"@,
        )
    } else {
        None
    }
}

/// Whether a text is an identifier.
pub open spec fn valid_id(id: Seq<char>) -> bool {
    id_complaint(id) is None
}

/// What a parse says is wrong.
pub open spec fn complaint_of(r: Result<(), String>) -> Option<Seq<char>> {
    match r {
        Ok(_) => None,
        Err(reason) => Some(reason@),
    }
}

/// Calls `DataId::from_str`, which takes non-empty texts of ASCII letters, digits, `_`,
/// `-`, `.` and `/` without empty parts between slashes, and says what is wrong with any
/// other. The identifier holds the text unchanged.
#[verifier::external_body]
pub(crate) fn parse_data_id(id: &str) -> (r: Result<(), String>)
    ensures
        complaint_of(r) == id_complaint(id@),
{
    id.parse::<DataId>().map(|_| ()).map_err(|e| e.to_string())
}

/// An identifier is a text that is not empty, is made of ASCII letters, digits, `_`, `-`, `.`
/// and `/`, neither starts nor ends with a slash, and has no two slashes in a row.
pub proof fn what_an_identifier_is(id: Seq<char>)
    ensures
        valid_id(id) <==> {
            &&& id.len() > 0
            &&& forall|i: int|
                0 <= i < id.len() ==> {
                    ||| 'a' <= #[trigger] id[i] <= 'z'
                    ||| 'A' <= id[i] <= 'Z'
                    ||| '0' <= id[i] <= '9'
                    ||| id[i] == '_'
                    ||| id[i] == '-'
                    ||| id[i] == '.'
                    ||| id[i] == '/' && 0 < i < id.len() - 1 && id[i + 1] != '/'
                }
        },
{
    if first_foreign_char(id) is None {
        no_foreign_char_anywhere(id);
    }
    if forall|i: int| 0 <= i < id.len() ==> id_char(#[trigger] id[i]) {
        no_foreign_char(id);
    }
}

proof fn no_foreign_char_anywhere(id: Seq<char>)
    requires
        first_foreign_char(id) is None,
    ensures
        forall|i: int| 0 <= i < id.len() ==> id_char(#[trigger] id[i]),
    decreases id.len(),
{
    if id.len() > 0 {
        let rest = id.drop_first();
        no_foreign_char_anywhere(rest);
        assert forall|i: int| 0 <= i < id.len() implies id_char(#[trigger] id[i]) by {
            if i > 0 {
                assert(rest[i - 1] == id[i]);
            }
        }
    }
}

/// A text of characters that may stand in an identifier is one, if it is not empty and
/// holds no slash.
pub proof fn slashless_names_are_ids(id: Seq<char>)
    requires
        id.len() > 0,
        forall|i: int| 0 <= i < id.len() ==> id_char(#[trigger] id[i]) && id[i] != '/',
    ensures
        valid_id(id),
{
    no_foreign_char(id);
}

proof fn no_foreign_char(id: Seq<char>)
    requires
        forall|i: int| 0 <= i < id.len() ==> id_char(#[trigger] id[i]),
    ensures
        first_foreign_char(id) is None,
    decreases id.len(),
{
    if id.len() > 0 {
        let rest = id.drop_first();
        assert forall|i: int| 0 <= i < rest.len() implies id_char(#[trigger] rest[i]) by {
            assert(rest[i] == id[i + 1]);
        }
        no_foreign_char(rest);
    }
}

} // verus!
