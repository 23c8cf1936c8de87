//! Where an exported message is written to.

use crate::text::{chars_of, string_of};
use vstd::prelude::*;
use vstd::string::StringExecFns;

verus! {

/// Whether `char::is_alphanumeric` holds of the character.
pub uninterp spec fn is_alphanumeric(c: char) -> bool;

/// `char::is_alphanumeric`: whether the character is a letter or a number,
/// by the Unicode properties Alphabetic, Nd, Nl and No.
#[verifier::external_body]
fn char_is_alphanumeric(c: char) -> (r: bool)
    ensures
        r == is_alphanumeric(c),
{
    c.is_alphanumeric()
}

/// The name of the directory of an exported message: its subject, with an
/// underscore in place of every character that is neither a letter nor a
/// number.
pub open spec fn folder_name(subject: Seq<char>) -> Seq<char> {
    Seq::new(
        subject.len(),
        |i: int|
            if is_alphanumeric(subject[i]) {
                subject[i]
            } else {
                '_'
            },
    )
}

/// The name of the directory of an exported message.
pub fn message_folder_name(subject: &str) -> (r: String)
    ensures
        r@ == folder_name(subject@),
{
    let s = chars_of(subject);
    let mut out: Vec<char> = Vec::new();
    let mut i: usize = 0;
    while i < s.len()
        invariant
            i <= s.len(),
            out.len() == i,
            forall|j: int| 0 <= j < i ==> out@[j] == folder_name(s@)[j],
        decreases s.len() - i,
    {
        if char_is_alphanumeric(s[i]) {
            out.push(s[i]);
        } else {
            out.push('_');
        }
        i += 1;
    }
    proof {
        assert(out@ =~= folder_name(s@));
    }
    string_of(&out)
}

/// The address that the browser is given to print an HTML body: the body
/// behind `data:text/html,`.
pub fn pdf_source(html: &str) -> (r: String)
    ensures
        r@ == "data:text/html,"@ + html@,
{
    let mut r = String::from_str("data:text/html,");
    r.append(html);
    r
}

} // verus!
