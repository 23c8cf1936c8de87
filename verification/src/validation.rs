//! Checks on what comes in at the boundary of the library.

use crate::error::{validation_error, DEmailError, ErrorModel};
use crate::numfmt::{decimal, decimal_of, decimal_of_usize};
use crate::paths::{is_within, normal_form, NormalPath};
use crate::text::{byte_len, byte_length, char_is_control, chars_of, contains, contains_char, contains_text, is_control, list_entries, list_entries_of, lowercase, lowercase_of, string_of, texts};
use validator::ValidateEmail;
use vstd::prelude::*;
use vstd::string::StringExecFns;

verus! {

/// The longest subject, in bytes.
pub const MAX_SUBJECT_LENGTH: usize = 998;

/// The longest body, in bytes.
pub const MAX_BODY_LENGTH: usize = 10_000_000;

/// The longest address list, in bytes.
pub const MAX_TO_ADDRESSES_LENGTH: usize = 2000;

/// The longest file name, in bytes.
pub const MAX_FILENAME_LENGTH: usize = 255;

/// The longest search query, in bytes.
pub const MAX_QUERY_LENGTH: usize = 500;

/// The largest page.
pub const MAX_PAGE_LIMIT: i64 = 1000;

/// The largest offset of a page.
pub const MAX_PAGE_OFFSET: i64 = 1_000_000;

/// What a function returned, with the error taken by its model.
pub open spec fn outcome<T>(r: Result<T, DEmailError>) -> Result<T, ErrorModel> {
    match r {
        Ok(v) => Ok(v),
        Err(e) => Err(e@),
    }
}

/// The failure of a check, described by `detail`.
pub open spec fn rejected<T>(detail: Seq<char>) -> Result<T, ErrorModel> {
    Err(validation_error(detail))
}

/// A validation error whose description is `head`, then `middle`, then
/// `tail`.
fn reject<T>(head: &str, middle: &Vec<char>, tail: &str) -> (r: Result<T, DEmailError>)
    ensures
        outcome(r) == rejected::<T>(head@ + middle@ + tail@),
{
    let mut m = String::from_str(head);
    let mid = string_of(middle);
    m.append(mid.as_str());
    m.append(tail);
    Err(DEmailError::Validation(m))
}

/// A validation error whose description is `head`, then `tail`.
fn reject_number<T>(head: &str, tail: &Vec<char>) -> (r: Result<T, DEmailError>)
    ensures
        outcome(r) == rejected::<T>(head@ + tail@),
{
    let mut m = String::from_str(head);
    let t = string_of(tail);
    m.append(t.as_str());
    Err(DEmailError::Validation(m))
}

/// A validation error described by `detail`.
fn reject_with<T>(detail: &str) -> (r: Result<T, DEmailError>)
    ensures
        outcome(r) == rejected::<T>(detail@),
{
    Err(DEmailError::Validation(String::from_str(detail)))
}

/// Whether `validator`'s rule for e-mail addresses accepts the text.
pub uninterp spec fn validator_accepts_email(email: Seq<char>) -> bool;

/// `validator::ValidateEmail::validate_email` on a string slice: the verdict
/// of the crate's address rule (local part, domain or address literal,
/// internationalised domains). The verdict is a function of the text.
#[verifier::external_body]
fn accepts_email(email: &str) -> (r: bool)
    ensures
        r == validator_accepts_email(email@),
{
    email.validate_email()
}

/// What the check of an address returns, given the verdict of the address
/// rule on it.
pub open spec fn email_check(email: Seq<char>, accepted: bool) -> Result<(), ErrorModel> {
    if email.len() == 0 {
        rejected("Email address cannot be empty"@)
    } else if !accepted {
        rejected("Invalid email address format: "@ + email)
    } else {
        Ok(())
    }
}

/// Judges `email` by the verdict `accepted` that the address rule gave on
/// it.
pub fn email_verdict(email: &str, accepted: bool) -> (r: Result<(), DEmailError>)
    ensures
        outcome(r) == email_check(email@, accepted),
{
    if email.is_empty() {
        return reject_with("Email address cannot be empty");
    }
    if !accepted {
        let mut m = String::from_str("Invalid email address format: ");
        m.append(email);
        return Err(DEmailError::Validation(m));
    }
    Ok(())
}

/// Accepts a single e-mail address.
pub fn validate_email(email: &str) -> (r: Result<(), DEmailError>)
    ensures
        outcome(r) == email_check(email@, validator_accepts_email(email@)),
{
    let accepted = accepts_email(email);
    email_verdict(email, accepted)
}

/// A control character that a header line cannot carry: any but the tab.
pub open spec fn breaks_header(c: char) -> bool {
    is_control(c) && c != '\t'
}

/// What the check of a subject returns.
pub open spec fn subject_check(subject: Seq<char>) -> Result<(), ErrorModel> {
    if byte_len(subject) > MAX_SUBJECT_LENGTH {
        rejected(
            "Subject too long: "@ + decimal(byte_len(subject) as int) + " characters (max 998)"@,
        )
    } else if exists|i: int| 0 <= i < subject.len() && breaks_header(#[trigger] subject[i]) {
        rejected("Subject contains invalid control characters"@)
    } else {
        Ok(())
    }
}

/// Accepts a subject line: at most 998 bytes and free of control characters
/// other than the tab.
pub fn validate_subject(subject: &str) -> (r: Result<(), DEmailError>)
    ensures
        outcome(r) == subject_check(subject@),
{
    let n: usize = byte_length(subject);
    if n > MAX_SUBJECT_LENGTH {
        return reject("Subject too long: ", &decimal_of_usize(n), " characters (max 998)");
    }
    let chars = chars_of(subject);
    let mut i: usize = 0;
    while i < chars.len()
        invariant
            i <= chars.len(),
            chars@ == subject@,
            byte_len(subject@) <= MAX_SUBJECT_LENGTH,
            forall|j: int| 0 <= j < i ==> !breaks_header(#[trigger] chars@[j]),
        decreases chars.len() - i,
    {
        if char_is_control(chars[i]) && chars[i] != '\t' {
            assert(breaks_header(subject@[i as int]));
            return reject_with("Subject contains invalid control characters");
        }
        i += 1;
    }
    Ok(())
}

/// What the check of a body returns.
pub open spec fn body_check(body: Seq<char>) -> Result<(), ErrorModel> {
    if byte_len(body) > MAX_BODY_LENGTH {
        rejected("Body too long: "@ + decimal(byte_len(body) as int) + " bytes (max 10000000)"@)
    } else {
        Ok(())
    }
}

/// Accepts a body of at most ten million bytes.
pub fn validate_body(body: &str) -> (r: Result<(), DEmailError>)
    ensures
        outcome(r) == body_check(body@),
{
    let n: usize = byte_length(body);
    if n > MAX_BODY_LENGTH {
        return reject("Body too long: ", &decimal_of_usize(n), " bytes (max 10000000)");
    }
    Ok(())
}

/// What the check of the identifier of a message returns.
pub open spec fn message_id_check(message_id: i64) -> Result<(), ErrorModel> {
    if message_id <= 0 {
        rejected("Invalid message ID: "@ + decimal(message_id as int))
    } else {
        Ok(())
    }
}

/// Accepts the identifier of a message: a positive number.
pub fn validate_message_id(message_id: i64) -> (r: Result<(), DEmailError>)
    ensures
        outcome(r) == message_id_check(message_id),
{
    if message_id <= 0 {
        return reject_number("Invalid message ID: ", &decimal_of(message_id));
    }
    Ok(())
}

/// What the check of the identifier of an account returns.
pub open spec fn account_id_check(account_id: i64) -> Result<(), ErrorModel> {
    if account_id <= 0 {
        rejected("Invalid account ID: "@ + decimal(account_id as int))
    } else {
        Ok(())
    }
}

/// Accepts the identifier of an account: a positive number.
pub fn validate_account_id(account_id: i64) -> (r: Result<(), DEmailError>)
    ensures
        outcome(r) == account_id_check(account_id),
{
    if account_id <= 0 {
        return reject_number("Invalid account ID: ", &decimal_of(account_id));
    }
    Ok(())
}

/// What the check of the identifier of a folder returns.
pub open spec fn folder_id_check(folder_id: i64) -> Result<(), ErrorModel> {
    if folder_id <= 0 {
        rejected("Invalid folder ID: "@ + decimal(folder_id as int))
    } else {
        Ok(())
    }
}

/// Accepts the identifier of a folder: a positive number.
pub fn validate_folder_id(folder_id: i64) -> (r: Result<(), DEmailError>)
    ensures
        outcome(r) == folder_id_check(folder_id),
{
    if folder_id <= 0 {
        return reject_number("Invalid folder ID: ", &decimal_of(folder_id));
    }
    Ok(())
}

/// What the check of a page returns.
pub open spec fn pagination_check(limit: i64, offset: i64) -> Result<(), ErrorModel> {
    if limit <= 0 || limit > MAX_PAGE_LIMIT {
        rejected("Invalid limit: "@ + decimal(limit as int) + " (must be 1-1000)"@)
    } else if offset < 0 {
        rejected("Invalid offset: "@ + decimal(offset as int) + " (must be >= 0)"@)
    } else if offset > MAX_PAGE_OFFSET {
        rejected("Invalid offset: "@ + decimal(offset as int) + " (must be <= 1000000)"@)
    } else {
        Ok(())
    }
}

/// Accepts a page of 1 to 1000 rows that starts at row 0 to 1000000.
pub fn validate_pagination(limit: i64, offset: i64) -> (r: Result<(), DEmailError>)
    ensures
        outcome(r) == pagination_check(limit, offset),
        r is Ok <==> 1 <= limit <= 1000 && 0 <= offset <= 1_000_000,
{
    if limit <= 0 || limit > MAX_PAGE_LIMIT {
        return reject("Invalid limit: ", &decimal_of(limit), " (must be 1-1000)");
    }
    if offset < 0 {
        return reject("Invalid offset: ", &decimal_of(offset), " (must be >= 0)");
    }
    if offset > MAX_PAGE_OFFSET {
        return reject("Invalid offset: ", &decimal_of(offset), " (must be <= 1000000)");
    }
    Ok(())
}

/// What a function returned, with its text and its error taken by their
/// models.
pub open spec fn text_outcome(r: Result<String, DEmailError>) -> Result<Seq<char>, ErrorModel> {
    match r {
        Ok(v) => Ok(v@),
        Err(e) => Err(e@),
    }
}

/// The first rejection among the entries from index `from` on, or `Ok`
/// where the address rule accepts them all.
pub open spec fn first_rejection(entries: Seq<Seq<char>>, from: int) -> Result<(), ErrorModel>
    decreases entries.len() - from,
{
    if from < 0 || from >= entries.len() {
        Ok(())
    } else {
        let verdict = email_check(entries[from], validator_accepts_email(entries[from]));
        if verdict is Err {
            verdict
        } else {
            first_rejection(entries, from + 1)
        }
    }
}

/// What the check of a list of addresses returns.
pub open spec fn address_list_check(addresses: Seq<char>) -> Result<(), ErrorModel> {
    if addresses.len() == 0 {
        rejected("Address list cannot be empty"@)
    } else if byte_len(addresses) > MAX_TO_ADDRESSES_LENGTH {
        rejected(
            "Address list too long: "@ + decimal(byte_len(addresses) as int)
                + " characters (max 2000)"@,
        )
    } else if list_entries(addresses).len() == 0 {
        rejected("No valid email addresses found in list"@)
    } else {
        first_rejection(list_entries(addresses), 0)
    }
}

/// Accepts a list of addresses with commas or semicolons between them: at
/// most 2000 bytes, with at least one entry, each entry an address that
/// [`validate_email`] accepts. The error is that of the first entry that
/// fails.
pub fn validate_address_list(addresses: &str) -> (r: Result<(), DEmailError>)
    ensures
        outcome(r) == address_list_check(addresses@),
{
    if addresses.is_empty() {
        return reject_with("Address list cannot be empty");
    }
    let n: usize = byte_length(addresses);
    if n > MAX_TO_ADDRESSES_LENGTH {
        return reject("Address list too long: ", &decimal_of_usize(n), " characters (max 2000)");
    }
    let entries = list_entries_of(&chars_of(addresses));
    if entries.len() == 0 {
        return reject_with("No valid email addresses found in list");
    }
    let mut i: usize = 0;
    while i < entries.len()
        invariant
            i <= entries.len(),
            addresses@.len() > 0,
            byte_len(addresses@) <= MAX_TO_ADDRESSES_LENGTH,
            texts(entries@) == list_entries(addresses@),
            entries.len() > 0,
            first_rejection(texts(entries@), 0) == first_rejection(texts(entries@), i as int),
        decreases entries.len() - i,
    {
        let entry = string_of(&entries[i]);
        match validate_email(entry.as_str()) {
            Ok(_) => {},
            Err(e) => {
                return Err(e);
            },
        }
        i += 1;
    }
    Ok(())
}

/// What `sanitize_filename::sanitize_with_options` returns for the name
/// with the options that [`sanitize`] hands it.
pub uninterp spec fn sanitized_name(name: Seq<char>) -> Seq<char>;

/// `sanitize_filename::sanitize_with_options` with fixed options: the rules
/// of Windows off, the name cut at 255 bytes, and nothing put in the place
/// of what is taken out. The name comes back without the characters that
/// file systems refuse and without control characters; a name of dots
/// alone comes back empty. With the options fixed, the result is a
/// function of the name on every build.
#[verifier::external_body]
fn sanitize(name: &str) -> (r: String)
    ensures
        r@ == sanitized_name(name@),
{
    sanitize_filename::sanitize_with_options(
        name,
        sanitize_filename::Options { windows: false, truncate: true, replacement: "" },
    )
}

/// Whether a name could lead out of its directory: it holds two dots in a
/// row, a slash or a backslash.
pub open spec fn is_traversal(name: Seq<char>) -> bool {
    contains_text(name, seq!['.', '.']) || name.contains('/') || name.contains('\\')
}

fn has_traversal(name: &Vec<char>) -> (r: bool)
    ensures
        r == is_traversal(name@),
{
    let mut dots: Vec<char> = Vec::new();
    dots.push('.');
    dots.push('.');
    proof {
        assert(dots@ == seq!['.', '.']);
    }
    contains(name, &dots) || contains_char(name, '/') || contains_char(name, '\\')
}

/// What the check of a file name returns, given the name that the sanitizer
/// made of it.
pub open spec fn filename_check(filename: Seq<char>, sanitized: Seq<char>) -> Result<
    Seq<char>,
    ErrorModel,
> {
    if filename.len() == 0 {
        rejected("Filename cannot be empty"@)
    } else if byte_len(filename) > MAX_FILENAME_LENGTH {
        rejected(
            "Filename too long: "@ + decimal(byte_len(filename) as int) + " characters (max 255)"@,
        )
    } else if filename.contains('\0') {
        rejected("Filename contains null bytes"@)
    } else if is_traversal(filename) {
        rejected("Filename contains path traversal characters"@)
    } else if sanitized.len() == 0 {
        rejected("Filename contains only invalid characters"@)
    } else if is_traversal(sanitized) {
        rejected("Filename contains path traversal characters"@)
    } else {
        Ok(sanitized)
    }
}

/// Judges `filename` with the name `sanitized` that the sanitizer made of
/// it, and returns the sanitized name where both pass.
pub fn filename_verdict(filename: &str, sanitized: String) -> (r: Result<String, DEmailError>)
    ensures
        text_outcome(r) == filename_check(filename@, sanitized@),
{
    if filename.is_empty() {
        return reject_with("Filename cannot be empty");
    }
    let n: usize = byte_length(filename);
    if n > MAX_FILENAME_LENGTH {
        return reject("Filename too long: ", &decimal_of_usize(n), " characters (max 255)");
    }
    let name = chars_of(filename);
    if contains_char(&name, '\0') {
        return reject_with("Filename contains null bytes");
    }
    if has_traversal(&name) {
        return reject_with("Filename contains path traversal characters");
    }
    let clean = chars_of(sanitized.as_str());
    if clean.len() == 0 {
        return reject_with("Filename contains only invalid characters");
    }
    if has_traversal(&clean) {
        return reject_with("Filename contains path traversal characters");
    }
    Ok(sanitized)
}

/// Makes a file name safe to write under: refuses names that are empty,
/// longer than 255 bytes, hold a null byte or could lead out of their
/// directory, and returns what the sanitizer leaves of the others, unless
/// nothing is left or the rest could still lead out.
pub fn sanitize_filename(filename: &str) -> (r: Result<String, DEmailError>)
    ensures
        text_outcome(r) == filename_check(filename@, sanitized_name(filename@)),
{
    let sanitized = sanitize(filename);
    filename_verdict(filename, sanitized)
}

/// Whether a query holds what could end or comment out a statement.
pub open spec fn is_suspicious(lowered: Seq<char>) -> bool {
    contains_text(lowered, seq!['-', '-']) || lowered.contains(';') || contains_text(
        lowered,
        seq!['/', '*'],
    )
}

/// What the check of a search query returns, given the query in lower case.
pub open spec fn query_check(query: Seq<char>, lowered: Seq<char>) -> Result<(), ErrorModel> {
    if query.len() == 0 {
        rejected("Search query cannot be empty"@)
    } else if byte_len(query) > MAX_QUERY_LENGTH {
        rejected(
            "Search query too long: "@ + decimal(byte_len(query) as int) + " characters (max 500)"@,
        )
    } else if is_suspicious(lowered) {
        rejected("Search query contains suspicious characters"@)
    } else {
        Ok(())
    }
}

/// Judges `query` with its lower-case form `lowered`.
pub fn query_verdict(query: &str, lowered: &str) -> (r: Result<(), DEmailError>)
    ensures
        outcome(r) == query_check(query@, lowered@),
{
    if query.is_empty() {
        return reject_with("Search query cannot be empty");
    }
    let n: usize = byte_length(query);
    if n > MAX_QUERY_LENGTH {
        return reject("Search query too long: ", &decimal_of_usize(n), " characters (max 500)");
    }
    let low = chars_of(lowered);
    let mut dashes: Vec<char> = Vec::new();
    dashes.push('-');
    dashes.push('-');
    let mut comment: Vec<char> = Vec::new();
    comment.push('/');
    comment.push('*');
    proof {
        assert(dashes@ == seq!['-', '-']);
        assert(comment@ == seq!['/', '*']);
    }
    if contains(&low, &dashes) || contains_char(&low, ';') || contains(&low, &comment) {
        return reject_with("Search query contains suspicious characters");
    }
    Ok(())
}

/// Accepts a search query: not empty, at most 500 bytes, and without `--`,
/// `;` or `/*` in its lower-case form.
pub fn validate_search_query(query: &str) -> (r: Result<(), DEmailError>)
    ensures
        outcome(r) == query_check(query@, lowercase_of(query@)),
{
    let lowered = lowercase(query);
    query_verdict(query, lowered.as_str())
}

/// What the check of a path against a directory returns.
pub open spec fn path_check(path: Seq<char>, allowed_base: Seq<char>) -> Result<
    Seq<char>,
    ErrorModel,
> {
    if is_within(path, allowed_base) {
        Ok(normal_form(path))
    } else {
        rejected(
            "Path '"@ + normal_form(path) + "' is outside allowed directory '"@ + normal_form(
                allowed_base,
            ) + "'"@,
        )
    }
}

/// Accepts a path that lies in the directory `allowed_base`, and returns it
/// in normal form. Both are taken as text: `.` and `..` are resolved by the
/// components alone, and a path that leaves the directory that way is
/// refused.
pub fn validate_path(path: &str, allowed_base: &str) -> (r: Result<String, DEmailError>)
    ensures
        text_outcome(r) == path_check(path@, allowed_base@),
{
    let target = NormalPath::of(&chars_of(path));
    let base = NormalPath::of(&chars_of(allowed_base));
    let shown = target.render();
    if target.starts_with(&base) {
        return Ok(string_of(&shown));
    }
    let mut m = String::from_str("Path '");
    m.append(string_of(&shown).as_str());
    m.append("' is outside allowed directory '");
    m.append(string_of(&base.render()).as_str());
    m.append("'");
    Err(DEmailError::Validation(m))
}

} // verus!
