//! What a client front end needs beside the group itself: the error strings
//! for failed requests, the lines logged after a mailbox update, and the
//! reference under which a key package is published.

use crate::key_package::KeyPackage;
use vstd::prelude::*;
use vstd::string::*;

verus! {

/// The text reported for a failed call: `"Error: "` followed by the rendering
/// of the error value.
pub open spec fn error_text(rendering: Seq<char>) -> Seq<char> {
    "Error: "@ + rendering
}

/// The text reported when a request could not be built.
pub open spec fn request_error_text(rendering: Seq<char>) -> Seq<char> {
    "Error creating request: "@ + rendering
}

/// The line logged for one received message: nine spaces, the message, a line feed.
pub open spec fn message_line(message: Seq<char>) -> Seq<char> {
    "         "@ + message + "\n"@
}

/// The lines logged after an update, in order: the banner, a heading if there
/// is any message, one line per message, and an empty closing line.
pub open spec fn update_log(messages: Seq<Seq<char>>) -> Seq<Seq<char>> {
    let head = if messages.len() == 0 {
        seq![" >>> Updated client :)\n"@]
    } else {
        seq![" >>> Updated client :)\n"@, "     New messages:\n\n"@]
    };
    head + message_lines(messages) + seq!["\n"@]
}

/// One logged line per message, in the order of the messages.
pub open spec fn message_lines(messages: Seq<Seq<char>>) -> Seq<Seq<char>> {
    Seq::new(messages.len(), |i: int| message_line(messages[i]))
}

/// The views of a vector of strings.
pub open spec fn string_views(v: Seq<String>) -> Seq<Seq<char>> {
    v.map_values(|s: String| s@)
}

/// Passes a successful result through and turns the rendering of a failure
/// into the text reported to the caller.
pub fn handle_jsvalue_error<T>(res: Result<T, String>) -> (out: Result<T, String>)
    ensures
        res matches Ok(r) ==> out == Ok::<T, String>(r),
        res matches Err(e) ==> (out matches Err(text) && text@ == error_text(e@)),
{
    match res {
        Ok(r) => Ok(r),
        Err(e) => Err(String::from_str("Error: ").concat(e.as_str())),
    }
}

/// The error returned when the request object could not be created.
pub fn request_creation_error(rendering: &str) -> (text: String)
    ensures
        text@ == request_error_text(rendering@),
{
    String::from_str("Error creating request: ").concat(rendering)
}

/// The text reported when a key package could not be published.
pub open spec fn publish_error_text(rendering: Seq<char>) -> Seq<char> {
    "Error sending new key package: "@ + rendering
}

/// The text reported when a key package could not be published.
pub fn key_package_publish_error(rendering: &str) -> (text: String)
    ensures
        text@ == publish_error_text(rendering@),
{
    String::from_str("Error sending new key package: ").concat(rendering)
}

/// The reference under which a key package is published and looked up: the
/// hash of its canonical encoding.
pub fn hash_kp(key_package: &KeyPackage) -> (hash: Vec<u8>)
    ensures
        hash@ == key_package@.hash_ref(),
        hash@.len() == crate::crypto::HASH_LEN,
{
    key_package.hash_ref()
}

/// The lines to log after an update that brought `messages`.
pub fn update_log_lines(messages: &Vec<String>) -> (lines: Vec<String>)
    ensures
        string_views(lines@) == update_log(string_views(messages@)),
{
    let mut lines: Vec<String> = Vec::new();
    lines.push(String::from_str(" >>> Updated client :)\n"));
    if messages.len() != 0 {
        lines.push(String::from_str("     New messages:\n\n"));
    }
    let ghost head = string_views(lines@);
    let mut i: usize = 0;
    while i < messages.len()
        invariant
            i <= messages.len(),
            string_views(lines@) =~= head + message_lines(
                string_views(messages@).subrange(0, i as int),
            ),
        decreases messages.len() - i,
    {
        let line = String::from_str("         ").concat(messages[i].as_str()).concat("\n");
        let ghost before = string_views(lines@);
        lines.push(line);
        assert(string_views(lines@) =~= before.push(message_line(messages@[i as int]@)));
        i += 1;
    }
    assert(string_views(messages@).subrange(0, i as int) =~= string_views(messages@));
    let ghost before = string_views(lines@);
    lines.push(String::from_str("\n"));
    assert(string_views(lines@) =~= before.push("\n"@));
    assert(string_views(lines@) =~= update_log(string_views(messages@)));
    lines
}

} // verus!
