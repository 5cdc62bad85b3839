//! The "currently processing" line shown by the status ticker.

use vstd::prelude::*;
use vstd::string::*;

verus! {

/// The status line for the shared working-status string: the entry being
/// compressed, or a note that the run is between entries.
pub open spec fn status_line(status: Seq<char>) -> Seq<char> {
    if status.len() == 0 {
        "Switching directories..."@
    } else {
        "Compressing: "@ + status
    }
}

/// Builds the status line for the current working status.
pub fn status_message(status: &String) -> (r: String)
    ensures
        r@ == status_line(status@),
{
    if status.as_str().is_empty() {
        String::from_str("Switching directories...")
    } else {
        let mut s = String::from_str("Compressing: ");
        s.append(status.as_str());
        s
    }
}

/// Whether the ticker has moved on to another entry since its previous
/// line: the display is cleared only then.
pub fn is_new_file(status: &String, message: &String, previous: &String) -> (r: bool)
    ensures
        r == (status@.len() > 0 && message@ != previous@),
{
    !status.as_str().is_empty() && *message != *previous
}

/// The working status shown while a directory is processed.
pub fn directory_status(name: &String) -> (r: String)
    ensures
        r@ == "Processing directory: "@ + name@,
{
    let mut s = String::from_str("Processing directory: ");
    s.append(name.as_str());
    s
}

} // verus!
