//! Validation and normalisation of account and device input, before any
//! lookup or credential work.
use vstd::prelude::*;

verus! {

/// The string with leading and trailing Unicode white space removed.
pub uninterp spec fn trim_of(s: Seq<char>) -> Seq<char>;

/// The Unicode lower-case form of a string.
pub uninterp spec fn lower_of(s: Seq<char>) -> Seq<char>;

/// Relies on str::trim: a function of the characters alone.
#[verifier::external_body]
fn trim(s: &str) -> (r: String)
    ensures
        r@ == trim_of(s@),
{
    s.trim().to_string()
}

/// Relies on str::to_lowercase: a function of the characters alone; each
/// character maps to at least one, so the result is empty exactly when the
/// input is.
#[verifier::external_body]
fn lowercase(s: &str) -> (r: String)
    ensures
        r@ == lower_of(s@),
        (s@.len() == 0) <==> (r@.len() == 0),
{
    s.to_lowercase()
}

/// A registration's name and e-mail address after normalisation.
pub struct Registration {
    pub user_name: String,
    pub user_mail: String,
}

/// The outcome of registration input already trimmed (and, for the address,
/// lower-cased): the first empty field is reported.
pub open spec fn registration_spec(name: Seq<char>, mail: Seq<char>, password: Seq<char>) -> Result<
    (Seq<char>, Seq<char>),
    Seq<char>,
> {
    if name.len() == 0 {
        Err("Username cannot be empty"@)
    } else if mail.len() == 0 {
        Err("Email cannot be empty"@)
    } else if password.len() == 0 {
        Err("Password cannot be empty"@)
    } else {
        Ok((name, mail))
    }
}

/// Checks normalised registration input: the name, the address and the
/// password must each be non-empty.
pub fn check_registration(name: String, mail: String, trimmed_password: &str) -> (r: Result<
    Registration,
    String,
>)
    ensures
        match registration_spec(name@, mail@, trimmed_password@) {
            Ok((n, m)) => r matches Ok(reg) && reg.user_name@ == n && reg.user_mail@ == m,
            Err(e) => r matches Err(msg) && msg@ == e,
        },
{
    if name.as_str().unicode_len() == 0 {
        Err("Username cannot be empty".to_string())
    } else if mail.as_str().unicode_len() == 0 {
        Err("Email cannot be empty".to_string())
    } else if trimmed_password.unicode_len() == 0 {
        Err("Password cannot be empty".to_string())
    } else {
        Ok(Registration { user_name: name, user_mail: mail })
    }
}

/// Normalises registration input: the name is trimmed, the address trimmed
/// and lower-cased, and the password must not be blank. The address is
/// refused exactly when it is blank.
pub fn normalize_registration(user_name: &str, user_mail: &str, password: &str) -> (r: Result<
    Registration,
    String,
>)
    ensures
        match registration_spec(trim_of(user_name@), trim_of(user_mail@), trim_of(password@)) {
            Ok((n, m)) => r matches Ok(reg) && reg.user_name@ == n && reg.user_mail@ == lower_of(m),
            Err(e) => r matches Err(msg) && msg@ == e,
        },
{
    let name = trim(user_name);
    let trimmed_mail = trim(user_mail);
    let mail = lowercase(trimmed_mail.as_str());
    let pw = trim(password);
    check_registration(name, mail, pw.as_str())
}

/// A login identifier as looked up: first as a user name, then, lower-cased,
/// as an e-mail address.
pub struct LoginLookup {
    pub user_name: String,
    pub user_mail: String,
}

/// The outcome of login input once the identifier is trimmed.
pub open spec fn login_spec(identifier: Seq<char>, password: Seq<char>) -> Option<Seq<char>> {
    if identifier.len() == 0 {
        Some("Identifier cannot be empty"@)
    } else if password.len() == 0 {
        Some("Password cannot be empty"@)
    } else {
        None
    }
}

/// Checks login input: the trimmed identifier and the password (as given)
/// must be non-empty.
pub fn normalize_login(identifier: &str, password: &str) -> (r: Result<LoginLookup, String>)
    ensures
        match login_spec(trim_of(identifier@), password@) {
            Some(e) => r matches Err(msg) && msg@ == e,
            None => r matches Ok(l) && l.user_name@ == trim_of(identifier@) && l.user_mail@
                == lower_of(trim_of(identifier@)),
        },
{
    let trimmed = trim(identifier);
    if trimmed.as_str().unicode_len() == 0 {
        return Err("Identifier cannot be empty".to_string());
    }
    if password.unicode_len() == 0 {
        return Err("Password cannot be empty".to_string());
    }
    let mail = lowercase(trimmed.as_str());
    Ok(LoginLookup { user_name: trimmed, user_mail: mail })
}

/// A device request after normalisation.
pub struct DeviceRequest {
    pub device_type: String,
    pub push_token: Option<String>,
}

/// Normalises a device request: the type is trimmed and must not be empty;
/// a push token is trimmed and dropped when blank.
pub fn normalize_device(device_type: &str, push_token: Option<&str>) -> (r: Result<
    DeviceRequest,
    String,
>)
    ensures
        trim_of(device_type@).len() == 0 ==> (r matches Err(msg) && msg@
            == "Device type cannot be empty"@),
        trim_of(device_type@).len() > 0 ==> (r matches Ok(d) && d.device_type@ == trim_of(
            device_type@,
        ) && match push_token {
            Some(t) => if trim_of(t@).len() == 0 {
                d.push_token is None
            } else {
                d.push_token matches Some(s) && s@ == trim_of(t@)
            },
            None => d.push_token is None,
        }),
{
    let t = trim(device_type);
    if t.as_str().unicode_len() == 0 {
        return Err("Device type cannot be empty".to_string());
    }
    let token = match push_token {
        Some(p) => {
            let tp = trim(p);
            if tp.as_str().unicode_len() == 0 {
                None
            } else {
                Some(tp)
            }
        },
        None => None,
    };
    Ok(DeviceRequest { device_type: t, push_token: token })
}

} // verus!
