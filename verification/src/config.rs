use vstd::prelude::*;
use vstd::string::*;

use crate::text::{
    lemma_trim_shape, all_ws, chars_of, concat_chars, contains, contains_exec, is_blank, is_ws, lower_equals,
    lowercase_matches, occurs_at, starts_with, starts_with_exec, string_of, trim, trim_chars,
    trim_end_matches, trim_end_matches_chars,
};

verus! {

broadcast use vstd::string::group_string_axioms;

/// Why a configured Laya URL was refused.
#[derive(Debug, Clone, Copy, PartialEq, Eq, Structural)]
pub enum ConfigError {
    /// Nothing but whitespace was given.
    EmptyLayaUrl,
    /// After normalization the URL does not start with `http://` or `https://`.
    LayaUrlNotHttp,
}

impl ConfigError {
    /// The message that the gateway reports for this error.
    pub fn message(&self) -> (m: &'static str)
        ensures
            m@ == self.spec_message(),
    {
        match self {
            ConfigError::EmptyLayaUrl => "laya_url is empty",
            ConfigError::LayaUrlNotHttp => "laya_url must be http(s)",
        }
    }

    pub open spec fn spec_message(&self) -> Seq<char> {
        match self {
            ConfigError::EmptyLayaUrl => "laya_url is empty"@,
            ConfigError::LayaUrlNotHttp => "laya_url must be http(s)"@,
        }
    }
}

/// Settings that the dashboard saves and that override the environment.
#[derive(Debug, Clone)]
pub struct PersistedSettings {
    pub laya_url: String,
    pub laya_api_key: Option<String>,
    pub laya_model: Option<String>,
}

/// The path that every normalized Laya URL holds.
pub open spec fn systemone_path() -> Seq<char> {
    "/v1/systemone"@
}

/// `s` starts with `http://` or `https://`.
pub open spec fn has_http_scheme(s: Seq<char>) -> bool {
    starts_with(s, "http://"@) || starts_with(s, "https://"@)
}

/// What `normalize_laya_url` makes of `raw`: host:port, a base URL or a full
/// `/v1/systemone` URL all become the full URL.
pub open spec fn normalized_laya_url(raw: Seq<char>) -> Result<Seq<char>, ConfigError> {
    let t = trim(raw);
    if t.len() == 0 {
        Err(ConfigError::EmptyLayaUrl)
    } else {
        let w = if has_http_scheme(t) {
            t
        } else {
            "http://"@ + t
        };
        let u0 = trim_end_matches(w, '/');
        let u = if contains(u0, systemone_path()) {
            u0
        } else {
            u0 + systemone_path()
        };
        if has_http_scheme(u) {
            Ok(u)
        } else {
            Err(ConfigError::LayaUrlNotHttp)
        }
    }
}

fn has_http_scheme_exec(v: &Vec<char>) -> (r: bool)
    ensures
        r == has_http_scheme(v@),
{
    let http = chars_of("http://");
    let https = chars_of("https://");
    starts_with_exec(v, &http) || starts_with_exec(v, &https)
}

/// Accepts host:port, a base URL, or a full `/v1/systemone` URL, and returns
/// the full URL of the System One endpoint.
pub fn normalize_laya_url(raw: &str) -> (r: Result<String, ConfigError>)
    ensures
        r matches Ok(u) ==> normalized_laya_url(raw@) == Ok::<Seq<char>, ConfigError>(u@),
        r matches Err(e) ==> normalized_laya_url(raw@) == Err::<Seq<char>, ConfigError>(e),
        r matches Ok(u) ==> has_http_scheme(u@) && contains(u@, systemone_path()),
{
    let t = trim_chars(&chars_of(raw));
    if t.len() == 0 {
        return Err(ConfigError::EmptyLayaUrl);
    }
    let w = if has_http_scheme_exec(&t) {
        t
    } else {
        concat_chars(&chars_of("http://"), &t)
    };
    let u0 = trim_end_matches_chars(&w, '/');
    let path = chars_of("/v1/systemone");
    let u = if contains_exec(&u0, &path) {
        u0
    } else {
        let u1 = concat_chars(&u0, &path);
        proof {
            assert(occurs_at(u1@, path@, u0@.len() as int)) by {
                assert(u1@.subrange(u0@.len() as int, u1@.len() as int) == path@);
            }
        }
        u1
    };
    if has_http_scheme_exec(&u) {
        Ok(string_of(&u))
    } else {
        Err(ConfigError::LayaUrlNotHttp)
    }
}

/// After `trim_end_matches(s, c)` the string is empty or does not end in `c`.
pub proof fn lemma_trim_end_matches_last(s: Seq<char>, c: char)
    ensures
        trim_end_matches(s, c).len() == 0 || trim_end_matches(s, c).last() != c,
        trim_end_matches(s, c).len() <= s.len(),
    decreases s.len(),
{
    if s.len() > 0 && s.last() == c {
        lemma_trim_end_matches_last(s.drop_last(), c);
    }
}

/// A string that neither starts nor ends with whitespace is its own trim.
pub proof fn lemma_trim_fixed(s: Seq<char>)
    requires
        s.len() > 0,
        !is_ws(s[0]),
        !is_ws(s.last()),
    ensures
        trim(s) == s,
{
}

/// Normalizing a normalized URL gives it back, unless the URL ends in
/// whitespace (which a later trim would drop).
pub proof fn lemma_normalize_idempotent(raw: Seq<char>, u: Seq<char>)
    requires
        normalized_laya_url(raw) == Ok::<Seq<char>, ConfigError>(u),
        !(u.len() > 0 && is_ws(u.last())),
    ensures
        normalized_laya_url(u) == Ok::<Seq<char>, ConfigError>(u),
{
    reveal_strlit("http://");
    reveal_strlit("https://");
    reveal_strlit("/v1/systemone");
    let t = trim(raw);
    let w = if has_http_scheme(t) {
        t
    } else {
        "http://"@ + t
    };
    let u0 = trim_end_matches(w, '/');
    lemma_trim_end_matches_last(w, '/');
    assert(has_http_scheme(u));
    assert(u[0] == 'h') by {
        if starts_with(u, "http://"@) {
            assert(u.subrange(0, 7)[0] == u[0]);
        } else {
            assert(u.subrange(0, 8)[0] == u[0]);
        }
    }
    assert(u.len() > 0);
    lemma_trim_fixed(u);
    assert(trim_end_matches(u, '/') == u) by {
        if contains(u0, systemone_path()) {
            assert(u == u0);
        } else {
            assert(u == u0 + systemone_path());
            assert(u.last() == 'e');
        }
    }
    assert(contains(u, systemone_path())) by {
        if !contains(u0, systemone_path()) {
            assert(occurs_at(u, systemone_path(), u0.len() as int)) by {
                assert(u.subrange(u0.len() as int, u.len() as int) == systemone_path());
            }
        }
    }
}

/// A URL is refused as empty exactly when it holds only whitespace; an
/// accepted URL never ends in `/`.
pub proof fn lemma_normalize_empty_and_slash(raw: Seq<char>)
    ensures
        normalized_laya_url(raw) == Err::<Seq<char>, ConfigError>(ConfigError::EmptyLayaUrl) <==> all_ws(
            raw,
        ),
        normalized_laya_url(raw) matches Ok(u) ==> u.len() > 0 && u.last() != '/',
{
    reveal_strlit("/v1/systemone");
    reveal_strlit("http://");
    reveal_strlit("https://");
    let t = trim(raw);
    lemma_trim_shape(raw);
    let (a, b) = choose|a: int, b: int|
        0 <= a <= b <= raw.len() && trim(raw) == raw.subrange(a, b) && (forall|i: int|
            0 <= i < a ==> is_ws(#[trigger] raw[i])) && (forall|i: int|
            b <= i < raw.len() ==> is_ws(#[trigger] raw[i]));
    if t.len() == 0 {
        assert forall|i: int| 0 <= i < raw.len() implies is_ws(#[trigger] raw[i]) by {
            if a <= i < b {
                assert(false);
            }
        }
    } else {
        assert(!is_ws(t[0]));
        assert(t[0] == raw[a]);
        assert(!all_ws(raw));
        let w = if has_http_scheme(t) {
            t
        } else {
            "http://"@ + t
        };
        lemma_trim_end_matches_last(w, '/');
        let u0 = trim_end_matches(w, '/');
        if !contains(u0, systemone_path()) {
            let u = u0 + systemone_path();
            assert(u.last() == 'e');
        } else {
            if u0.len() == 0 {
                assert(!has_http_scheme(u0));
            }
        }
    }
}

/// A bare `host:port` (no slash, no surrounding whitespace) becomes
/// `http://host:port/v1/systemone`.
pub proof fn lemma_normalize_host_port(raw: Seq<char>)
    requires
        raw.len() > 0,
        !is_ws(raw[0]),
        !is_ws(raw.last()),
        forall|i: int| 0 <= i < raw.len() ==> #[trigger] raw[i] != '/',
    ensures
        normalized_laya_url(raw) == Ok::<Seq<char>, ConfigError>("http://"@ + raw + "/v1/systemone"@),
{
    reveal_strlit("/v1/systemone");
    reveal_strlit("http://");
    reveal_strlit("https://");
    lemma_trim_fixed(raw);
    assert(!has_http_scheme(raw)) by {
        if starts_with(raw, "http://"@) {
            assert(raw.subrange(0, 7)[5] == raw[5]);
        }
        if starts_with(raw, "https://"@) {
            assert(raw.subrange(0, 8)[6] == raw[6]);
        }
    }
    let w = "http://"@ + raw;
    assert(w.last() == raw.last());
    assert(trim_end_matches(w, '/') == w);
    let p = systemone_path();
    assert(!contains(w, p)) by {
        if contains(w, p) {
            let k = choose|i: int| occurs_at(w, p, i);
            assert(w.subrange(k, k + p.len())[0] == w[k]);
            assert(w.subrange(k, k + p.len())[1] == w[k + 1]);
            assert(w.subrange(k, k + p.len())[3] == w[k + 3]);
            if k >= 7 {
                assert(w[k] == raw[k - 7]);
            } else if k >= 4 {
                assert(w[k + 3] == raw[k + 3 - 7]);
            } else {
                assert(w[k + 1] == "http://"@[k + 1]);
            }
        }
    }
    let u = w + p;
    assert(u == "http://"@ + raw + "/v1/systemone"@);
    assert(u.subrange(0, 7) == "http://"@);
}

/// `bind` names the loopback interface: its host is exactly `127.0.0.1` or
/// `localhost`, with or without a `:port`.
pub open spec fn loopback_bind(bind: Seq<char>) -> bool {
    ||| bind == "127.0.0.1"@
    ||| bind == "localhost"@
    ||| starts_with(bind, "127.0.0.1:"@)
    ||| starts_with(bind, "localhost:"@)
}

/// Whether `bind` names the loopback interface (host `127.0.0.1` or
/// `localhost`, optionally followed by `:port`).
pub fn bind_is_loopback(bind: &str) -> (r: bool)
    ensures
        r == loopback_bind(bind@),
{
    let v = chars_of(bind);
    let ip = chars_of("127.0.0.1");
    let host = chars_of("localhost");
    let exact = (v.len() == ip.len() && starts_with_exec(&v, &ip)) || (v.len() == host.len()
        && starts_with_exec(&v, &host));
    proof {
        if v@.len() == ip@.len() && starts_with(v@, ip@) {
            assert(v@.subrange(0, ip@.len() as int) == v@);
        }
        if v@.len() == host@.len() && starts_with(v@, host@) {
            assert(v@.subrange(0, host@.len() as int) == v@);
        }
        if v@ == ip@ {
            assert(v@.subrange(0, ip@.len() as int) == v@);
        }
        if v@ == host@ {
            assert(v@.subrange(0, host@.len() as int) == v@);
        }
    }
    exact || starts_with_exec(&v, &chars_of("127.0.0.1:")) || starts_with_exec(
        &v,
        &chars_of("localhost:"),
    )
}

/// The values of `LAYA_GATEWAY_ROUTING` that switch routing on.
pub open spec fn routing_flag_on(raw: Seq<char>) -> bool {
    ||| lowercase_matches(raw, "1"@)
    ||| lowercase_matches(raw, "true"@)
    ||| lowercase_matches(raw, "on"@)
    ||| lowercase_matches(raw, "yes"@)
}

/// Routing is switched on by `1`, `true`, `on` and `yes` in any ASCII case,
/// and by nothing else.
pub proof fn lemma_routing_flag_words(raw: Seq<char>)
    ensures
        routing_flag_on(raw) <==> (lowercase_matches(raw, seq!['1']) || lowercase_matches(
            raw,
            seq!['t', 'r', 'u', 'e'],
        ) || lowercase_matches(raw, seq!['o', 'n']) || lowercase_matches(raw, seq!['y', 'e', 's'])),
{
    reveal_strlit("1");
    reveal_strlit("true");
    reveal_strlit("on");
    reveal_strlit("yes");
    assert("1"@ == seq!['1']);
    assert("true"@ == seq!['t', 'r', 'u', 'e']);
    assert("on"@ == seq!['o', 'n']);
    assert("yes"@ == seq!['y', 'e', 's']);
}

/// Whether a routing switch value turns routing on (`1`, `true`, `on` or
/// `yes`, in any ASCII case).
pub fn routing_flag_enabled(raw: &str) -> (r: bool)
    ensures
        r == routing_flag_on(raw@),
{
    let v = chars_of(raw);
    lower_equals(&v, &chars_of("1")) || lower_equals(&v, &chars_of("true")) || lower_equals(
        &v,
        &chars_of("on"),
    ) || lower_equals(&v, &chars_of("yes"))
}

/// Keeps an optional setting only where it holds more than whitespace.
pub fn non_blank(value: Option<String>) -> (r: Option<String>)
    ensures
        r is Some <==> (value matches Some(s) && !all_ws(s@)),
        r is Some ==> r == value,
{
    match value {
        Some(s) => {
            if is_blank(s.as_str()) {
                None
            } else {
                Some(s)
            }
        },
        None => None,
    }
}

/// `s` without its trailing slashes (used for the upstream base URL).
pub fn trim_trailing_slashes(s: &str) -> (r: String)
    ensures
        r@ == trim_end_matches(s@, '/'),
{
    string_of(&trim_end_matches_chars(&chars_of(s), '/'))
}

impl PersistedSettings {
    /// Settings read back from disk, with the URL normalized and blank
    /// credentials dropped.
    pub fn normalized(self) -> (r: Result<PersistedSettings, ConfigError>)
        ensures
            r matches Err(e) ==> normalized_laya_url(self.laya_url@) == Err::<
                Seq<char>,
                ConfigError,
            >(e),
            r matches Ok(p) ==> {
                &&& normalized_laya_url(self.laya_url@) == Ok::<Seq<char>, ConfigError>(
                    p.laya_url@,
                )
                &&& (p.laya_api_key is Some <==> (self.laya_api_key matches Some(s) && !all_ws(
                    s@,
                )))
                &&& (p.laya_api_key is Some ==> p.laya_api_key == self.laya_api_key)
                &&& (p.laya_model is Some <==> (self.laya_model matches Some(s) && !all_ws(s@)))
                &&& (p.laya_model is Some ==> p.laya_model == self.laya_model)
            },
    {
        let laya_url = match normalize_laya_url(self.laya_url.as_str()) {
            Ok(u) => u,
            Err(e) => {
                return Err(e);
            },
        };
        Ok(
            PersistedSettings {
                laya_url,
                laya_api_key: non_blank(self.laya_api_key),
                laya_model: non_blank(self.laya_model),
            },
        )
    }

    /// The Laya settings from the environment, with saved settings laid over
    /// them: the saved URL always wins, a saved key or model only when set.
    pub fn overlaid_with(self, saved: PersistedSettings) -> (r: PersistedSettings)
        ensures
            r.laya_url == saved.laya_url,
            r.laya_api_key == (if saved.laya_api_key is Some {
                saved.laya_api_key
            } else {
                self.laya_api_key
            }),
            r.laya_model == (if saved.laya_model is Some {
                saved.laya_model
            } else {
                self.laya_model
            }),
    {
        PersistedSettings {
            laya_url: saved.laya_url,
            laya_api_key: if saved.laya_api_key.is_some() {
                saved.laya_api_key
            } else {
                self.laya_api_key
            },
            laya_model: if saved.laya_model.is_some() {
                saved.laya_model
            } else {
                self.laya_model
            },
        }
    }
}

} // verus!
