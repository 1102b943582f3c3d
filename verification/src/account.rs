//! NEAR account ids, held as their text.

use core::str::FromStr;
use near_sdk::AccountId;
use vstd::prelude::*;

use crate::text::first_index;
use crate::text::find_char;
use crate::text::from_char_range;
use crate::text::to_chars;

verus! {

#[verifier::external_type_specification]
#[verifier::external_body]
pub struct ExAccountId(AccountId);

/// A character that separates the parts of an account id.
pub open spec fn is_separator(c: char) -> bool {
    c == '-' || c == '_' || c == '.'
}

/// A character that an account id may hold.
pub open spec fn is_account_char(c: char) -> bool {
    ('a' <= c <= 'z') || ('0' <= c <= '9') || is_separator(c)
}

/// Whether `s` is a valid NEAR account id: 2 to 64 characters out of `a-z`,
/// `0-9`, `-`, `_` and `.`, neither starting nor ending with a separator and
/// with no two separators side by side.
pub open spec fn valid_account_id(s: Seq<char>) -> bool {
    &&& 2 <= s.len() <= 64
    &&& forall|i: int| 0 <= i < s.len() ==> is_account_char(#[trigger] s[i])
    &&& !is_separator(s[0])
    &&& !is_separator(s[s.len() - 1])
    &&& forall|i: int|
        0 <= i < s.len() - 1 ==> !(is_separator(#[trigger] s[i]) && is_separator(s[i + 1]))
}

/// Parses an account id with `near_sdk::AccountId::from_str`, which accepts
/// exactly the texts that `valid_account_id` describes.
#[verifier::external_body]
pub(crate) fn parse_account_id(s: &str) -> (r: Option<AccountId>)
    ensures
        r is Some <==> valid_account_id(s@),
{
    match AccountId::from_str(s) {
        Ok(a) => Some(a),
        Err(_) => None,
    }
}

/// Whether `s` is a valid NEAR account id.
pub fn is_valid_account_id(s: &str) -> (r: bool)
    ensures
        r == valid_account_id(s@),
{
    match parse_account_id(s) {
        Some(_) => true,
        None => false,
    }
}

/// The parent of an account: the part after its first dot
/// (`AccountIdRef::get_parent_account_id`), or nothing for an account without a dot.
pub open spec fn parent_account(s: Seq<char>) -> Option<Seq<char>> {
    let i = first_index(s, '.');
    if i < s.len() {
        Some(s.subrange(i + 1, s.len() as int))
    } else {
        None
    }
}

/// The parent of an account, if it has one.
pub fn parent_account_id(account: &str) -> (r: Option<String>)
    ensures
        match parent_account(account@) {
            Some(p) => r matches Some(x) && x@ == p,
            None => r is None,
        },
{
    let v = to_chars(account);
    let i = find_char(&v, '.');
    if i < v.len() {
        Some(from_char_range(&v, i + 1, v.len()))
    } else {
        None
    }
}

/// The account that runs the contract (`near_sdk::env::current_account_id`),
/// as text. Which account it is depends on the chain; the function checks
/// that the runtime's answer is a valid account id (and aborts otherwise).
#[verifier::external_body]
pub(crate) fn current_account() -> (r: String)
    ensures
        valid_account_id(r@),
{
    near_sdk::env::current_account_id().to_string()
}

/// The account that called the contract (`near_sdk::env::predecessor_account_id`),
/// as text. Which account it is depends on the transaction; the function
/// checks that the runtime's answer is a valid account id (and aborts otherwise).
#[verifier::external_body]
pub(crate) fn predecessor_account() -> (r: String)
    ensures
        valid_account_id(r@),
{
    near_sdk::env::predecessor_account_id().to_string()
}

} // verus!
