//! The server's settings, from the environment.
use vstd::prelude::*;
use vstd::string::*;

verus! {

/// The server's settings, as texts.
#[derive(Debug)]
pub struct Config {
    /// Where the HTTP API listens.
    pub listen_http: String,
    /// Where the relay listens.
    pub listen_relay: String,
    /// The relay's address as clients reach it.
    pub relay_addr: String,
    /// Where share URLs lead to.
    pub base_url: String,
    /// The file that telemetry is appended to.
    pub telemetry_log: Option<String>,
}

/// A setting, or its default.
pub open spec fn or_default(value: Option<String>, default: Seq<char>) -> Seq<char> {
    match value {
        Some(v) => v@,
        None => default,
    }
}

/// A setting, or its default.
fn setting(value: Option<String>, default: &str) -> (r: String)
    ensures
        r@ == or_default(value, default@),
{
    match value {
        Some(v) => v,
        None => String::from_str(default),
    }
}

/// The address under which the server may be reached: this machine, for want of
/// anything better. In production the relay's address is set.
pub fn public_ip_guess() -> (r: String)
    ensures
        r@ == "127.0.0.1"@,
{
    String::from_str("127.0.0.1")
}

impl Config {
    /// The settings are what the environment gives, and defaults for what it does not.
    pub open spec fn follows(
        self,
        listen_http: Option<String>,
        relay_addr: Option<String>,
        listen_relay: Option<String>,
        base_url: Option<String>,
    ) -> bool {
        &&& self.listen_http@ == or_default(listen_http, "0.0.0.0:8080"@)
        &&& self.relay_addr@ == or_default(relay_addr, "127.0.0.1"@ + ":9090"@)
        &&& self.listen_relay@ == or_default(listen_relay, "0.0.0.0:9090"@)
        &&& self.base_url@ == or_default(base_url, "https://coord.minescale.example.com"@)
    }

    /// The settings that the environment gives; what is not set has a default.
    /// Telemetry is kept only where its file is named.
    pub fn from_env(
        listen_http: Option<String>,
        relay_addr: Option<String>,
        listen_relay: Option<String>,
        base_url: Option<String>,
        telemetry_log: Option<String>,
    ) -> (r: Self)
        ensures
            r.follows(listen_http, relay_addr, listen_relay, base_url),
            r.listen_http@ == or_default(listen_http, "0.0.0.0:8080"@),
            r.relay_addr@ == or_default(relay_addr, "127.0.0.1"@ + ":9090"@),
            r.listen_relay@ == or_default(listen_relay, "0.0.0.0:9090"@),
            r.base_url@ == or_default(base_url, "https://coord.minescale.example.com"@),
            listen_http matches Some(v) ==> r.listen_http@ == v@,
            listen_relay matches Some(v) ==> r.listen_relay@ == v@,
            relay_addr matches Some(v) ==> r.relay_addr@ == v@,
            base_url matches Some(v) ==> r.base_url@ == v@,
            telemetry_log matches Some(v) && v@.len() > 0 ==> r.telemetry_log == telemetry_log,
            match r.telemetry_log {
                Some(p) => telemetry_log matches Some(t) && p@ == t@ && t@.len() > 0,
                None => telemetry_log matches Some(t) ==> t@.len() == 0,
            },
    {
        let mut guess = public_ip_guess();
        guess.append(":9090");
        Self {
            listen_http: setting(listen_http, "0.0.0.0:8080"),
            listen_relay: setting(listen_relay, "0.0.0.0:9090"),
            relay_addr: setting(relay_addr, guess.as_str()),
            base_url: setting(base_url, "https://coord.minescale.example.com"),
            telemetry_log: match telemetry_log {
                Some(p) => if p.as_str().unicode_len() > 0 {
                    Some(p)
                } else {
                    None
                },
                None => None,
            },
        }
    }
}

/// GET /healthz
pub fn health() -> (r: &'static str)
    ensures
        r@ == "ok"@,
{
    "ok"
}

/// What is set is taken as it is, and only what is not set has a default.
pub proof fn law_settings_are_obeyed(value: String, default: Seq<char>)
    ensures
        or_default(Some(value), default) == value@,
        or_default(None, default) == default,
{
}

/// Without settings the server listens on all addresses, the API at port 8080, and clients
/// are sent to the port at which the relay listens.
pub proof fn law_defaults_reach_the_relay(c: Config)
    requires
        c.follows(None, None, None, None),
    ensures
        c.listen_http@ == "0.0.0.0"@ + ":8080"@,
        c.listen_relay@ == "0.0.0.0"@ + ":9090"@,
        c.relay_addr@ == "127.0.0.1"@ + ":9090"@,
        c.base_url@ == "https://coord.minescale.example.com"@,
{
    reveal_strlit("0.0.0.0");
    reveal_strlit(":8080");
    reveal_strlit(":9090");
    reveal_strlit("0.0.0.0:8080");
    reveal_strlit("0.0.0.0:9090");
    assert("0.0.0.0:8080"@ =~= "0.0.0.0"@ + ":8080"@);
    assert("0.0.0.0:9090"@ =~= "0.0.0.0"@ + ":9090"@);
}

/// Each setting has its own effect.
pub proof fn law_settings_have_their_own_effect(
    c: Config,
    http: String,
    relay: String,
    listen: String,
    base: String,
)
    requires
        c.follows(Some(http), Some(relay), Some(listen), Some(base)),
    ensures
        c.listen_http@ == http@,
        c.relay_addr@ == relay@,
        c.listen_relay@ == listen@,
        c.base_url@ == base@,
{
}

} // verus!
