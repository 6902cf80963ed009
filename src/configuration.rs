use vstd::prelude::*;

verus! {

/// Where the application listens.
pub struct ApplicationSettings {
    pub port: u16,
    pub host: String,
}

/// The base URL under which the application is reached.
pub struct ApplicationBaseUrl(pub String);

/// The environment the application runs in.
#[derive(Debug, Clone, Copy, PartialEq, Eq, Structural)]
pub enum Environment {
    Local,
    Production,
}

/// The lower-case form of `s`, as `str::to_lowercase` computes it.
pub uninterp spec fn lowercase_of(s: Seq<char>) -> Seq<char>;

/// Relies on `str::to_lowercase`: the result depends on the characters of `s` alone.
#[verifier::external_body]
fn to_lowercase(s: &str) -> (r: String)
    ensures
        r@ == lowercase_of(s@),
{
    s.to_lowercase()
}

/// The environment named by an already lower-cased name.
pub open spec fn environment_named(name: Seq<char>) -> Option<Environment> {
    if name == "local"@ {
        Some(Environment::Local)
    } else if name == "production"@ {
        Some(Environment::Production)
    } else {
        None
    }
}

/// The message for an environment name that is not supported.
pub open spec fn unsupported_message(name: Seq<char>) -> Seq<char> {
    name + " is not a supported environment. Use either 'local' or 'production'."@
}

impl Environment {
    /// The environment's name, as used for its configuration file.
    pub fn as_str(&self) -> (r: &'static str)
        ensures
            r@ == match self {
                Environment::Local => "local"@,
                Environment::Production => "production"@,
            },
    {
        match self {
            Environment::Local => "local",
            Environment::Production => "production",
        }
    }

    /// The environment named by `lowered`, a name already in lower case; an
    /// unknown name gives the message that says which names are supported.
    pub fn from_lowercase_name(lowered: String) -> (r: Result<Environment, String>)
        ensures
            match environment_named(lowered@) {
                Some(e) => r == Ok::<Environment, String>(e),
                None => r matches Err(msg) && msg@ == unsupported_message(lowered@),
            },
    {
        let local = String::from_str("local");
        let production = String::from_str("production");
        if lowered == local {
            Ok(Environment::Local)
        } else if lowered == production {
            Ok(Environment::Production)
        } else {
            let mut msg = lowered;
            msg.append(" is not a supported environment. Use either 'local' or 'production'.");
            Err(msg)
        }
    }

    /// Parses an environment name, in any case.
    pub fn parse_name(s: String) -> (r: Result<Environment, String>)
        ensures
            match environment_named(lowercase_of(s@)) {
                Some(e) => r == Ok::<Environment, String>(e),
                None => r matches Err(msg) && msg@ == unsupported_message(lowercase_of(s@)),
            },
    {
        let lowered = to_lowercase(s.as_str());
        Environment::from_lowercase_name(lowered)
    }
}

} // verus!
