use vstd::prelude::*;
use vstd::string::*;

verus! {

/// The line that names the settings file in use, given its name where it can
/// be printed (`None` for a name that cannot).
pub open spec fn notice_text(file: Option<Seq<char>>) -> Seq<char> {
    match file {
        Some(name) => "Using defaults from configuration file: "@ + name,
        None => "Using defaults from configuration file with unprintable name"@,
    }
}

/// Builds the informational line that names the settings file whose values
/// became the defaults.
pub fn notice(file: Option<&str>) -> (r: String)
    ensures
        r@ == notice_text(
            match file {
                Some(name) => Some(name@),
                None => None,
            },
        ),
{
    match file {
        Some(name) => {
            let mut r = String::from_str("Using defaults from configuration file: ");
            r.append(name);
            r
        },
        None => String::from_str("Using defaults from configuration file with unprintable name"),
    }
}

} // verus!
