//! The OpenTelemetry settings derived from `[opentelemetry]`: the OTLP
//! traces endpoint and the service name of the tracer.

use vstd::prelude::*;
use crate::config::OpentelemetryConfig;
use crate::text::{chars_of, push_str, slice_chars, string_of};

verus! {

broadcast use vstd::seq_lib::group_seq_properties;

/// `s` without its trailing slashes.
pub open spec fn trim_end_slashes(s: Seq<char>) -> Seq<char>
    decreases s.len(),
{
    if s.len() > 0 && s.last() == '/' { trim_end_slashes(s.drop_last()) } else { s }
}

/// `s` ends with `suffix`.
pub open spec fn ends_with(s: Seq<char>, suffix: Seq<char>) -> bool {
    s.len() >= suffix.len() && s.subrange(s.len() - suffix.len(), s.len() as int) == suffix
}

/// The OTLP traces endpoint: the default collector where none is given,
/// else the given one without trailing slashes, with `/v1/traces` appended
/// unless it already ends so.
pub open spec fn endpoint_spec(endpoint: Seq<char>) -> Seq<char> {
    if endpoint.len() == 0 {
        "http://localhost:4318/v1/traces"@
    } else {
        let ep = trim_end_slashes(endpoint);
        if ends_with(ep, "/v1/traces"@) { ep } else { ep + "/v1/traces"@ }
    }
}

/// The OTLP traces endpoint of `config`.
pub fn otel_endpoint(config: &OpentelemetryConfig) -> (r: String)
    ensures
        r@ == endpoint_spec(config.endpoint@),
{
    let e = chars_of(config.endpoint.as_str());
    if e.len() == 0 {
        return String::from_str("http://localhost:4318/v1/traces");
    }
    let mut n: usize = e.len();
    while n > 0 && e[n - 1] == '/'
        invariant
            n <= e@.len(),
            trim_end_slashes(e@) == trim_end_slashes(e@.take(n as int)),
        decreases n,
    {
        assert(e@.take(n as int).drop_last() =~= e@.take(n - 1));
        n = n - 1;
    }
    assert(e@.take(n as int) =~= e@.subrange(0, n as int));
    let mut ep = slice_chars(e.as_slice(), 0, n);
    let suffix = chars_of("/v1/traces");
    let m = suffix.len();
    let mut ends = ep.len() >= m;
    if ends {
        let len = ep.len();
        let base = len - m;
        let mut i: usize = 0;
        while i < m
            invariant
                ep@.len() >= m,
                ep@.len() <= usize::MAX,
                base == ep@.len() - m,
                m == suffix@.len(),
                0 <= i <= m,
                ends == (forall|k: int| 0 <= k < i ==> ep@[base + k] == suffix@[k]),
            decreases m - i,
        {
            if ep[base + i] != suffix[i] {
                ends = false;
            }
            i = i + 1;
        }
        assert(ends == (ep@.subrange(base as int, ep@.len() as int) =~= suffix@));
    }
    if !ends {
        push_str(&mut ep, "/v1/traces");
    }
    string_of(ep.as_slice())
}

/// What the exporter's resource records: the service name and the
/// `service.version` attribute, each only where configured.
pub struct OtelResource {
    /// The service name, where one is configured.
    pub service_name: Option<String>,
    /// The service version, where one is configured.
    pub service_version: Option<String>,
}

/// `s`, where it is not empty.
pub open spec fn non_empty(s: Seq<char>) -> Option<Seq<char>> {
    if s.len() == 0 { None } else { Some(s) }
}

/// The resource attributes of `config`.
pub fn otel_resource(config: &OpentelemetryConfig) -> (r: OtelResource)
    ensures
        match r.service_name { Some(n) => Some(n@), None => None::<Seq<char>> } == non_empty(config.service_name@),
        match r.service_version { Some(v) => Some(v@), None => None::<Seq<char>> } == non_empty(config.service_version@),
{
    let service_name = if config.service_name.unicode_len() == 0 { None } else { Some(config.service_name.clone()) };
    let service_version = if config.service_version.unicode_len() == 0 {
        None
    } else {
        Some(config.service_version.clone())
    };
    OtelResource { service_name, service_version }
}

/// The service name of the tracer: the configured one, or the package name.
pub open spec fn service_name_spec(name: Seq<char>) -> Seq<char> {
    if name.len() == 0 { "tracing-config"@ } else { name }
}

/// The service name of the tracer for `config`.
pub fn otel_service_name(config: &OpentelemetryConfig) -> (r: String)
    ensures
        r@ == service_name_spec(config.service_name@),
{
    if config.service_name.unicode_len() == 0 {
        String::from_str("tracing-config")
    } else {
        config.service_name.clone()
    }
}

/// The endpoint always ends with `/v1/traces`.
pub proof fn law_endpoint_ends_with_traces_path(endpoint: Seq<char>)
    ensures
        ends_with(endpoint_spec(endpoint), "/v1/traces"@),
{
    reveal_strlit("/v1/traces");
    reveal_strlit("http://localhost:4318/v1/traces");
    let d = "http://localhost:4318/v1/traces"@;
    assert(d.subrange(d.len() - 10, d.len() as int) =~= "/v1/traces"@);
    if endpoint.len() > 0 {
        let ep = trim_end_slashes(endpoint);
        let r = ep + "/v1/traces"@;
        assert(r.subrange(r.len() - 10, r.len() as int) =~= "/v1/traces"@);
    }
}

} // verus!
