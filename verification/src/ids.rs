//! Fresh identifiers for messages and executions.
use vstd::prelude::*;

verus! {

/// A lowercase hexadecimal digit.
pub open spec fn is_lower_hex(c: char) -> bool {
    ('0' <= c && c <= '9') || ('a' <= c && c <= 'f')
}

/// Calls `uuid::Uuid::new_v4()` and formats it with `simple()`. The uuid
/// crate writes a simple uuid as 32 lowercase hexadecimal digits; which
/// digits is left to chance, and nothing more is stated.
#[verifier::external_body]
pub(crate) fn new_uuid_simple() -> (r: String)
    ensures
        r@.len() == 32,
        forall|i: int| 0 <= i < 32 ==> is_lower_hex(#[trigger] r@[i]),
{
    uuid::Uuid::new_v4().simple().to_string()
}

/// `id` has the shape of an id drawn for `prefix`: the prefix, `_`, and 32
/// lowercase hexadecimal digits.
pub open spec fn drawn_id(id: Seq<char>, prefix: Seq<char>) -> bool {
    &&& id.len() == prefix.len() + 33
    &&& id.subrange(0, prefix.len() as int) == prefix
    &&& id[prefix.len() as int] == '_'
    &&& forall|i: int| prefix.len() + 1 <= i < id.len() ==> is_lower_hex(#[trigger] id[i])
}

/// `<prefix>_<token>`.
pub fn id_with_token(prefix: &str, token: &str) -> (r: String)
    ensures
        r@ == prefix@ + "_"@ + token@,
{
    let mut s = prefix.to_owned();
    s.append("_");
    s.append(token);
    s
}

/// `<prefix>_<32 lowercase hex digits>`, with fresh random digits.
pub fn prefixed_id(prefix: &str) -> (r: String)
    ensures
        exists|u: Seq<char>|
            u.len() == 32 && (forall|i: int| 0 <= i < 32 ==> is_lower_hex(#[trigger] u[i])) && r@
                == #[trigger] (prefix@ + "_"@ + u),
        drawn_id(r@, prefix@),
{
    let u = new_uuid_simple();
    let s = id_with_token(prefix, u.as_str());
    proof {
        reveal_strlit("_");
        let w = prefix@ + "_"@ + u@;
        assert(s@ == w);
        assert(s@.subrange(0, prefix@.len() as int) =~= prefix@);
        assert forall|i: int| prefix@.len() + 1 <= i < s@.len() implies is_lower_hex(#[trigger] s@[i]) by {
            assert(s@[i] == u@[i - prefix@.len() - 1]);
        }
    }
    s
}

} // verus!
