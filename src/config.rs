//! Client configuration: values read from the environment, with the
//! defaults that stand in for missing ones.
use vstd::prelude::*;
use vstd::string::StringExecFns;
use crate::options::str_eq;

verus! {

/// The backend's address: the configured one, else the local default.
pub fn get_backend_url(configured: Option<String>) -> (r: String)
    ensures
        r@ == match configured {
            Some(v) => v@,
            None => "http://localhost:8000"@,
        },
{
    match configured {
        Some(v) => v,
        None => String::from_str("http://localhost:8000"),
    }
}

/// The application's name: the configured one, else the default title.
pub fn get_app_name(configured: Option<String>) -> (r: String)
    ensures
        r@ == match configured {
            Some(v) => v@,
            None => "Paulsenik's StarCitizen Content Search"@,
        },
{
    match configured {
        Some(v) => v,
        None => String::from_str("Paulsenik's StarCitizen Content Search"),
    }
}

/// Debug mode is on exactly when the configured value is `true`; a missing
/// value or one that is not a boolean means off.
pub fn is_debug_mode(configured: Option<String>) -> (r: bool)
    ensures
        r == (configured matches Some(v) && v@ == "true"@),
{
    match configured {
        Some(v) => str_eq(v.as_str(), "true"),
        None => false,
    }
}

} // verus!
