//! Checks on what users type in.

use vstd::prelude::*;

verus! {

/// A name is good if it is not empty. A good name is handed back as it is.
pub fn validate_name(name: String) -> (result: Result<String, String>)
    ensures
        match result {
            Ok(good) => name@.len() > 0 && good@ == name@,
            Err(why) => name@.len() == 0 && why@ == "Names must not be empty"@,
        },
{
    if name.as_str().is_empty() {
        Err("Names must not be empty".to_owned())
    } else {
        Ok(name)
    }
}

/// A message is good if it is not empty. A good message is handed back as it
/// is.
pub fn validate_message(text: String) -> (result: Result<String, String>)
    ensures
        match result {
            Ok(good) => text@.len() > 0 && good@ == text@,
            Err(why) => text@.len() == 0 && why@ == "Messages must not be empty"@,
        },
{
    if text.as_str().is_empty() {
        Err("Messages must not be empty".to_owned())
    } else {
        Ok(text)
    }
}

} // verus!
