//! The account references that operators type into commands.
use vstd::prelude::*;

verus! {

/// An ASCII letter or digit.
pub open spec fn is_alnum(c: char) -> bool {
    ('a' <= c && c <= 'z') || ('A' <= c && c <= 'Z') || ('0' <= c && c <= '9')
}

/// An ASCII letter.
pub open spec fn is_letter(c: char) -> bool {
    ('a' <= c && c <= 'z') || ('A' <= c && c <= 'Z')
}

/// A character that may stand in the body of a DID.
pub open spec fn is_did_body_char(c: char) -> bool {
    is_alnum(c) || c == '.' || c == '_' || c == ':' || c == '%' || c == '-'
}

/// A character that may end a DID.
pub open spec fn is_did_last_char(c: char) -> bool {
    is_alnum(c) || c == '.' || c == '_' || c == '-'
}

/// Whether `s` is `did:`, a method of small letters ending at the `:` at `k`, and a
/// body after it.
pub open spec fn did_method_ends_at(s: Seq<char>, k: int) -> bool {
    &&& 5 <= k < s.len() - 1
    &&& s[0] == 'd' && s[1] == 'i' && s[2] == 'd' && s[3] == ':'
    &&& forall|i: int| 4 <= i < k ==> 'a' <= #[trigger] s[i] && s[i] <= 'z'
    &&& s[k] == ':'
    &&& forall|i: int| k < i < s.len() - 1 ==> is_did_body_char(#[trigger] s[i])
    &&& is_did_last_char(s[s.len() - 1])
}

/// Whether `s` is a DID: at most 2048 characters, `did:`, a method of small letters,
/// `:`, and a body of letters, digits and `._:%-` that does not end in `:` or `%`.
pub open spec fn is_did(s: Seq<char>) -> bool {
    s.len() <= 2048 && exists|k: int| #[trigger] did_method_ends_at(s, k)
}

/// Whether position `i` of `s` begins a dot-separated label.
pub open spec fn label_starts(s: Seq<char>, i: int) -> bool {
    i == 0 || s[i - 1] == '.'
}

/// Whether position `i` of `s` ends a dot-separated label.
pub open spec fn label_ends(s: Seq<char>, i: int) -> bool {
    i == s.len() - 1 || s[i + 1] == '.'
}

/// Whether one of the 64 characters of `s` from position `i` on is a dot.
pub open spec fn dot_within_64(s: Seq<char>, i: int) -> bool {
    exists|j: int| i <= j <= i + 63 && #[trigger] s[j] == '.'
}

/// Whether `s` is a handle: at most 253 characters, two or more labels joined by
/// dots, each of 1 to 63 letters, digits or hyphens, beginning and ending with a
/// letter or digit, the last one beginning with a letter.
pub open spec fn is_handle(s: Seq<char>) -> bool {
    &&& 0 < s.len() <= 253
    &&& forall|i: int| 0 <= i < s.len() ==> is_alnum(#[trigger] s[i]) || s[i] == '-' || s[i] == '.'
    &&& s[0] != '.' && s[s.len() - 1] != '.'
    &&& forall|i: int| 0 <= i < s.len() - 1 && #[trigger] s[i] == '.' ==> s[i + 1] != '.'
    &&& forall|i: int|
        0 <= i < s.len() && s[i] != '.' && (label_starts(s, i) || label_ends(s, i)) ==> is_alnum(
            #[trigger] s[i],
        )
    &&& forall|i: int| 0 <= i && i + 63 < s.len() ==> #[trigger] dot_within_64(s, i)
    &&& exists|i: int| 0 <= i < s.len() && #[trigger] s[i] == '.'
    &&& forall|i: int|
        0 <= i < s.len() && #[trigger] s[i] == '.' && (forall|j: int| i < j < s.len() ==> s[j] != '.')
            ==> is_letter(s[i + 1])
}

/// Whether `s` names an account: a DID or a handle.
pub open spec fn is_actor_ref(s: Seq<char>) -> bool {
    is_did(s) || is_handle(s)
}

/// Relies on `atrium_api::types::string::Did::new` (through bsky-sdk): it accepts the
/// text when it is at most 2048 bytes and matches
/// `^did:[a-z]+:[a-zA-Z0-9._:%-]*[a-zA-Z0-9._-]$`, an ASCII-only pattern.
#[verifier::external_body]
fn did_syntax_ok(s: &str) -> (r: bool)
    ensures
        r == is_did(s@),
{
    bsky_sdk::api::types::string::Did::new(s.to_owned()).is_ok()
}

/// Relies on `<atrium_api::types::string::AtIdentifier as FromStr>::from_str`
/// (through bsky-sdk): it accepts what `Did::new` accepts, else what `Handle::new`
/// accepts: at most 253 bytes matching
/// `^([a-zA-Z0-9]([a-zA-Z0-9-]{0,61}[a-zA-Z0-9])?\.)+[a-zA-Z]([a-zA-Z0-9-]{0,61}[a-zA-Z0-9])?$`.
#[verifier::external_body]
fn actor_ref_syntax_ok(s: &str) -> (r: bool)
    ensures
        r == is_actor_ref(s@),
{
    <bsky_sdk::api::types::string::AtIdentifier as std::str::FromStr>::from_str(s).is_ok()
}

/// Checks the account that an unfollow request names; the error is the reply.
pub fn parse_did(s: &str) -> (r: Result<String, String>)
    ensures
        is_did(s@) ==> r is Ok && r->Ok_0@ == s@,
        !is_did(s@) ==> r is Err && r->Err_0@ == s@ + " is not a valid DID"@,
{
    if did_syntax_ok(s) {
        Ok(String::from_str(s))
    } else {
        let mut e = String::from_str(s);
        e.append(" is not a valid DID");
        Err(e)
    }
}

/// Checks the account that a follow request names, a DID or a handle; the error is
/// the reply.
pub fn parse_actor_ref(s: &str) -> (r: Result<String, String>)
    ensures
        is_actor_ref(s@) ==> r is Ok && r->Ok_0@ == s@,
        !is_actor_ref(s@) ==> r is Err && r->Err_0@ == s@ + " is not a valid DID or handle"@,
{
    if actor_ref_syntax_ok(s) {
        Ok(String::from_str(s))
    } else {
        let mut e = String::from_str(s);
        e.append(" is not a valid DID or handle");
        Err(e)
    }
}

} // verus!
