//! The display-timezone setting: what a write asks for, and when it is
//! refused. Zone names are looked up in jiff's time zone database.
use vstd::prelude::*;
use vstd::string::StringExecFns;
use crate::auth::{ApiError, Identity, require_operator};

verus! {

/// The `timezone` member of a settings write, as the JSON body holds it.
#[derive(Clone, Debug)]
pub enum TimezoneValue {
    /// The member is missing.
    Absent,
    Null,
    Str(String),
    /// Any other JSON value, carried as its JSON rendering.
    Other(String),
}

/// What a settings write asks for: a non-empty string names a zone;
/// null or a missing member clears the setting; anything else (the
/// empty string included, which JSON renders as `""`) is refused.
pub open spec fn timezone_spec(v: TimezoneValue) -> Result<Option<Seq<char>>, Seq<char>> {
    match v {
        TimezoneValue::Absent | TimezoneValue::Null => Ok(None),
        TimezoneValue::Str(s) => if s@.len() > 0 {
            Ok(Some(s@))
        } else {
            Err("timezone must be an IANA name string or null, got \"\""@)
        },
        TimezoneValue::Other(j) => Err("timezone must be an IANA name string or null, got "@ + j@),
    }
}

/// Decide a settings write: operator only (`403`), then the value's
/// shape (`400`, see [`timezone_spec`]). On success, the zone to store
/// (`None` clears it); whether a named zone exists is the caller's
/// zone database's to say (see [`check_zone_known`]).
pub fn timezone_request(identity: &Identity, value: TimezoneValue) -> (r: Result<Option<String>, ApiError>)
    ensures
        !(identity is Operator) ==> (r matches Err(e) && e.status == 403 && e.message@ == "operator token required"@),
        identity is Operator ==> match timezone_spec(value) {
            Ok(z) => r matches Ok(x) && match x { Some(s) => z == Some(s@), None => z is None },
            Err(m) => r matches Err(e) && e.status == 400 && e.message@ == m,
        },
{
    match require_operator(identity) {
        Ok(()) => {},
        Err(e) => return Err(e),
    }
    match value {
        TimezoneValue::Absent | TimezoneValue::Null => Ok(None),
        TimezoneValue::Str(s) => {
            if s.as_str().unicode_len() > 0 {
                Ok(Some(s))
            } else {
                Err(ApiError::bad_request(String::from_str("timezone must be an IANA name string or null, got \"\"")))
            }
        },
        TimezoneValue::Other(j) => Err(ApiError::bad_request(
            String::from_str("timezone must be an IANA name string or null, got ").concat(j.as_str()),
        )),
    }
}

/// A named zone the zone database does not know is refused (`400`).
pub fn check_zone_known(name: &String, known: bool) -> (r: Result<(), ApiError>)
    ensures
        (r is Ok) <==> known,
        r matches Err(e) ==> e.status == 400 && e.message@ == name@ + " is not a valid IANA timezone name"@,
{
    if !known {
        return Err(ApiError::bad_request(name.clone().concat(" is not a valid IANA timezone name")));
    }
    Ok(())
}

/// `jiff::tz::TimeZone::get(name).is_ok()`: whether `name` resolves as
/// an IANA zone in jiff's global time zone database. The database is
/// whatever the machine provides (the system zoneinfo, else the copy
/// bundled into the build), so nothing is stated of the answer: not even
/// `UTC` is promised to resolve.
#[verifier::external_body]
pub fn timezone_name_valid(name: &str) -> (b: bool)
{
    jiff::tz::TimeZone::get(name).is_ok()
}

/// Decide a settings write end to end: the request checks of
/// [`timezone_request`], then a named zone must resolve in the zone
/// database (`400` when it does not). Which names resolve is the
/// database's to say; every other outcome is fixed by the request.
pub fn timezone_write(identity: &Identity, value: TimezoneValue) -> (r: Result<Option<String>, ApiError>)
    ensures
        !(identity is Operator) ==> (r matches Err(e) && e.status == 403 && e.message@ == "operator token required"@),
        identity is Operator ==> match timezone_spec(value) {
            Ok(None) => r matches Ok(None),
            Ok(Some(z)) => (r matches Ok(Some(x)) && x@ == z) || (r matches Err(e) && e.status == 400
                && e.message@ == z + " is not a valid IANA timezone name"@),
            Err(m) => r matches Err(e) && e.status == 400 && e.message@ == m,
        },
{
    let zone = match timezone_request(identity, value) {
        Ok(z) => z,
        Err(e) => return Err(e),
    };
    match zone {
        None => Ok(None),
        Some(name) => {
            let known = timezone_name_valid(name.as_str());
            match check_zone_known(&name, known) {
                Ok(()) => Ok(Some(name)),
                Err(e) => Err(e),
            }
        },
    }
}

} // verus!
