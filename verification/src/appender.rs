//! What the configuration asks of the subscriber: the filter directives and,
//! for each enabled appender, where it writes and at what sampling rate.

use vstd::prelude::*;
use crate::config::{AppenderConfig, Config};
use crate::env_filter::{parse_env_filter, parse_matches, DirectiveFilter};
use crate::error::ConfigError;
use crate::formatter::logback::renderer::{opt_string_view, strings_view};
use crate::text::{chars_eq_str, chars_of, push_str, string_of};

verus! {

broadcast use vstd::seq_lib::group_seq_properties;

// ---------------------------------------------------------------------------
// Filter directives.

/// The default level of the filter: `[filter] default_level`, or the global
/// level where it is empty.
pub open spec fn default_filter_level(c: Config) -> Seq<char> {
    if c.filter.default_level@.len() == 0 { c.global.level@ } else { c.filter.default_level@ }
}

/// `name=level` for each enabled appender with a level of its own.
pub open spec fn appender_directives(apps: Seq<AppenderConfig>) -> Seq<Seq<char>>
    decreases apps.len(),
{
    if apps.len() == 0 {
        Seq::<Seq<char>>::empty()
    } else {
        let prev = appender_directives(apps.drop_last());
        let a = apps.last();
        match a.level {
            Some(l) => if a.enabled { prev.push(a.name@ + seq!['='] + l@) } else { prev },
            None => prev,
        }
    }
}

/// All directives, in order: the default level (where not empty), the
/// `[filter]` directives, then the appenders' levels.
pub open spec fn directive_list(c: Config) -> Seq<Seq<char>> {
    let d = default_filter_level(c);
    (if d.len() == 0 { Seq::<Seq<char>>::empty() } else { seq![d] }) + strings_view(c.filter.directives@)
        + appender_directives(c.appenders@)
}

/// The strings of `s` joined by `sep`.
pub open spec fn joined(s: Seq<Seq<char>>, sep: Seq<char>) -> Seq<char>
    decreases s.len(),
{
    if s.len() == 0 {
        Seq::<char>::empty()
    } else if s.len() == 1 {
        s[0]
    } else {
        joined(s.drop_last(), sep) + sep + s.last()
    }
}

/// The filter string: the directives joined by commas, or `info` where that
/// is empty.
pub open spec fn filter_string(c: Config) -> Seq<char> {
    let s = joined(directive_list(c), seq![',']);
    if s.len() == 0 { "info"@ } else { s }
}

/// Appends `s`, preceded by a comma unless it is the first directive.
fn push_directive(out: &mut Vec<char>, any: bool, s: &str)
    ensures
        final(out)@ == old(out)@ + (if !any { s@ } else { seq![','] + s@ }),
{
    if any {
        out.push(',');
    }
    push_str(out, s);
}

/// The filter string of `config`.
#[verifier::spinoff_prover]
pub fn filter_directives(config: &Config) -> (r: String)
    ensures
        r@ == filter_string(*config),
{
    let ghost list = directive_list(*config);
    let mut out: Vec<char> = Vec::new();
    let mut any: bool = false;
    let default_lvl: &String = if config.filter.default_level.unicode_len() == 0 {
        &config.global.level
    } else {
        &config.filter.default_level
    };
    assert(default_lvl@ == default_filter_level(*config));
    let ghost head: Seq<Seq<char>> = if default_lvl@.len() == 0 { Seq::<Seq<char>>::empty() } else { seq![default_lvl@] };
    if default_lvl.unicode_len() > 0 {
        push_directive(&mut out, any, default_lvl.as_str());
        any = true;
    }
    assert(out@ == joined(head, seq![',']));
    let ghost fd = strings_view(config.filter.directives@);
    let mut i: usize = 0;
    while i < config.filter.directives.len()
        invariant
            0 <= i <= config.filter.directives@.len(),
            fd == strings_view(config.filter.directives@),
            any == ((head + fd.take(i as int)).len() > 0),
            head.len() <= 1,
            out@ == joined(head + fd.take(i as int), seq![',']),
        decreases config.filter.directives@.len() - i,
    {
        let ghost prev = head + fd.take(i as int);
        assert((head + fd.take(i + 1)).drop_last() =~= prev);
        assert(fd[i as int] == config.filter.directives@[i as int]@);
        push_directive(&mut out, any, config.filter.directives[i].as_str());
        any = true;
        i = i + 1;
    }
    assert(fd.take(fd.len() as int) =~= fd);
    let ghost mid = head + fd;
    let ghost ad = appender_directives(config.appenders@);
    let mut j: usize = 0;
    while j < config.appenders.len()
        invariant
            0 <= j <= config.appenders@.len(),
            mid == head + fd,
            ad == appender_directives(config.appenders@),
            out@ == joined(mid + appender_directives(config.appenders@.take(j as int)), seq![',']),
            any == ((mid + appender_directives(config.appenders@.take(j as int))).len() > 0),
        decreases config.appenders@.len() - j,
    {
        assert(config.appenders@.take(j + 1).drop_last() =~= config.appenders@.take(j as int));
        let a = &config.appenders[j];
        if a.enabled {
            if let Some(l) = &a.level {
                let ghost prev = mid + appender_directives(config.appenders@.take(j as int));
                let mut d: Vec<char> = Vec::new();
                push_str(&mut d, a.name.as_str());
                d.push('=');
                push_str(&mut d, l.as_str());
                let ds = string_of(d.as_slice());
                push_directive(&mut out, any, ds.as_str());
                any = true;
                assert((mid + appender_directives(config.appenders@.take(j + 1))).drop_last() =~= prev);
            }
        }
        j = j + 1;
    }
    assert(config.appenders@.take(config.appenders@.len() as int) =~= config.appenders@);
    assert(mid + ad =~= list);
    if out.len() == 0 {
        String::from_str("info")
    } else {
        string_of(out.as_slice())
    }
}

/// `r` is what building an event filter from `directives` gives: the parsed
/// filter, kept with `directives`, or `InvalidConfig` with the text of
/// `parse_env_filter`'s error.
pub open spec fn filter_built(directives: Seq<char>, r: Result<DirectiveFilter, ConfigError>) -> bool {
    match r {
        Ok(f) => parse_matches(directives, Ok(f)),
        Err(e) => e matches ConfigError::InvalidConfig(m) && parse_matches(directives, Err(m@)),
    }
}

/// Builds the event filter of `config` from `filter_string(config)`; a
/// rejected directive becomes `InvalidConfig` with the parser's message.
pub fn build_env_filter(config: &Config) -> (r: Result<DirectiveFilter, ConfigError>)
    ensures
        filter_built(filter_string(*config), r),
{
    let s = filter_directives(config);
    match parse_env_filter(s.as_str()) {
        Ok(f) => Ok(f),
        Err(m) => Err(ConfigError::InvalidConfig(m)),
    }
}

/// The directives of the reloading path: the default level alone, or the
/// default level followed by the `[filter]` directives, joined by commas.
pub open spec fn reload_filter_string(c: Config) -> Seq<char> {
    let d = default_filter_level(c);
    if c.filter.directives@.len() == 0 { d } else { joined(seq![d] + strings_view(c.filter.directives@), seq![',']) }
}

/// The filter string of the reloading path for `config`.
pub fn reload_filter_directives(config: &Config) -> (r: String)
    ensures
        r@ == reload_filter_string(*config),
{
    let default_lvl: &String = if config.filter.default_level.unicode_len() == 0 {
        &config.global.level
    } else {
        &config.filter.default_level
    };
    if config.filter.directives.len() == 0 {
        return default_lvl.clone();
    }
    let ghost fd = strings_view(config.filter.directives@);
    let ghost head = seq![default_lvl@];
    let mut out: Vec<char> = Vec::new();
    push_str(&mut out, default_lvl.as_str());
    assert(out@ == joined(head, seq![',']));
    let mut i: usize = 0;
    while i < config.filter.directives.len()
        invariant
            0 <= i <= config.filter.directives@.len(),
            fd == strings_view(config.filter.directives@),
            head.len() == 1,
            out@ == joined(head + fd.take(i as int), seq![',']),
        decreases config.filter.directives@.len() - i,
    {
        assert((head + fd.take(i + 1)).drop_last() =~= head + fd.take(i as int));
        assert(fd[i as int] == config.filter.directives@[i as int]@);
        push_directive(&mut out, true, config.filter.directives[i].as_str());
        i = i + 1;
    }
    assert(fd.take(fd.len() as int) =~= fd);
    string_of(out.as_slice())
}

/// Builds the event filter of the reloading path from
/// `reload_filter_string(config)`.
pub fn build_reload_env_filter(config: &Config) -> (r: Result<DirectiveFilter, ConfigError>)
    ensures
        filter_built(reload_filter_string(*config), r),
{
    let s = reload_filter_directives(config);
    match parse_env_filter(s.as_str()) {
        Ok(f) => Ok(f),
        Err(m) => Err(ConfigError::InvalidConfig(m)),
    }
}

// ---------------------------------------------------------------------------
// Appenders.

/// Rotation of a rolling file appender.
#[derive(Debug, Clone, Copy, PartialEq, Eq, Structural)]
pub enum Rotation {
    /// A new file each day.
    Daily,
    /// A new file each hour.
    Hourly,
    /// A single file.
    Never,
}

/// Where an enabled appender writes, and its sampling rate (0: no limit).
#[derive(Debug)]
pub enum AppenderPlan {
    /// Standard output.
    Stdout { rate: u64 },
    /// Standard error.
    Stderr { rate: u64 },
    /// A file, appended to or truncated.
    File { path: String, append: bool, rate: u64 },
    /// Rolling files `<prefix>.<suffix>` in `dir`.
    RollingFile { dir: String, rotation: Rotation, file_name: String, rate: u64 },
}

/// The sampling rate of the appenders: the configured rate where sampling
/// is enabled, else 0 (no limit).
pub open spec fn rate_spec(c: Config) -> u64 {
    if c.sampling.enabled { c.sampling.rate_per_second } else { 0 }
}

/// The sampling rate of the appenders.
pub fn sampling_rate(config: &Config) -> (r: u64)
    ensures
        r == rate_spec(*config),
{
    if config.sampling.enabled { config.sampling.rate_per_second } else { 0 }
}

/// The rotation named `r`, if any.
pub open spec fn rotation_named(r: Seq<char>) -> Option<Rotation> {
    if r == "daily"@ {
        Some(Rotation::Daily)
    } else if r == "hourly"@ {
        Some(Rotation::Hourly)
    } else if r == "never"@ {
        Some(Rotation::Never)
    } else {
        None
    }
}

/// `r` is what planning the appender `a` at sampling rate `rate` gives.
pub open spec fn plan_matches(a: AppenderConfig, rate: u64, r: Result<AppenderPlan, ConfigError>) -> bool {
    let k = a.kind@;
    if k == "stdout"@ {
        r matches Ok(AppenderPlan::Stdout { rate: x }) && x == rate
    } else if k == "stderr"@ {
        r matches Ok(AppenderPlan::Stderr { rate: x }) && x == rate
    } else if k == "file"@ {
        match a.path {
            None => r matches Err(ConfigError::InvalidConfig(m)) && m@ == "file appender requires 'path'"@,
            Some(p) => r matches Ok(AppenderPlan::File { path, append, rate: x }) && path@ == p@ && append
                == a.append && x == rate,
        }
    } else if k == "rolling_file"@ {
        match a.dir {
            None => r matches Err(ConfigError::RollingMissingDir),
            Some(d) => {
                let rot = match a.rotation { Some(x) => x@, None => "daily"@ };
                let prefix = match a.prefix { Some(x) => x@, None => "app"@ };
                let suffix = match a.suffix { Some(x) => x@, None => "log"@ };
                match rotation_named(rot) {
                    Some(ro) => r matches Ok(AppenderPlan::RollingFile { dir, rotation, file_name, rate: x })
                        && dir@ == d@ && rotation == ro && file_name@ == prefix + seq!['.'] + suffix && x == rate,
                    None => r matches Err(ConfigError::InvalidConfig(m)) && m@ == "unknown rotation '"@ + rot + "'"@,
                }
            },
        }
    } else {
        r matches Err(ConfigError::UnknownAppenderKind { kind }) && kind@ == k
    }
}

/// An optional string, or `dflt`.
fn opt_or(o: &Option<String>, dflt: &str) -> (r: String)
    ensures
        r@ == match *o { Some(x) => x@, None => dflt@ },
{
    match o {
        Some(x) => x.clone(),
        None => String::from_str(dflt),
    }
}

/// Where the appender `appender_cfg` writes, at sampling rate `global_rate`.
#[verifier::spinoff_prover]
pub fn plan_appender(appender_cfg: &AppenderConfig, global_rate: u64) -> (r: Result<AppenderPlan, ConfigError>)
    ensures
        plan_matches(*appender_cfg, global_rate, r),
{
    proof {
        reveal_strlit("stdout");
        reveal_strlit("stderr");
        reveal_strlit("file");
        reveal_strlit("rolling_file");
        assert("stdout"@[3] != "stderr"@[3]);
        assert("stdout"@.len() != "file"@.len());
        assert("stdout"@.len() != "rolling_file"@.len());
        assert("stderr"@.len() != "file"@.len());
        assert("stderr"@.len() != "rolling_file"@.len());
        assert("file"@.len() != "rolling_file"@.len());
    }
    let rate = global_rate;
    let k = chars_of(appender_cfg.kind.as_str());
    let k = k.as_slice();
    if chars_eq_str(k, "stdout") {
        let r = Ok(AppenderPlan::Stdout { rate });
        assert(plan_matches(*appender_cfg, global_rate, r));
        r
    } else if chars_eq_str(k, "stderr") {
        let r = Ok(AppenderPlan::Stderr { rate });
        assert(plan_matches(*appender_cfg, global_rate, r));
        r
    } else if chars_eq_str(k, "file") {
        let r = match &appender_cfg.path {
            None => Err(ConfigError::InvalidConfig(String::from_str("file appender requires 'path'"))),
            Some(p) => Ok(AppenderPlan::File { path: p.clone(), append: appender_cfg.append, rate }),
        };
        assert(plan_matches(*appender_cfg, global_rate, r));
        r
    } else if chars_eq_str(k, "rolling_file") {
        match &appender_cfg.dir {
            None => Err(ConfigError::RollingMissingDir),
            Some(d) => {
                let rot = opt_or(&appender_cfg.rotation, "daily");
                let rc = chars_of(rot.as_str());
                let rc = rc.as_slice();
                proof {
                    reveal_strlit("daily");
                    reveal_strlit("hourly");
                    reveal_strlit("never");
                    assert("daily"@.len() != "hourly"@.len());
                    assert("daily"@[0] != "never"@[0]);
                    assert("hourly"@.len() != "never"@.len());
                }
                let rotation = if chars_eq_str(rc, "daily") {
                    Rotation::Daily
                } else if chars_eq_str(rc, "hourly") {
                    Rotation::Hourly
                } else if chars_eq_str(rc, "never") {
                    Rotation::Never
                } else {
                    let mut m: Vec<char> = Vec::new();
                    push_str(&mut m, "unknown rotation '");
                    push_str(&mut m, rot.as_str());
                    push_str(&mut m, "'");
                    return Err(ConfigError::InvalidConfig(string_of(m.as_slice())));
                };
                let prefix = opt_or(&appender_cfg.prefix, "app");
                let suffix = opt_or(&appender_cfg.suffix, "log");
                let mut f: Vec<char> = Vec::new();
                push_str(&mut f, prefix.as_str());
                f.push('.');
                push_str(&mut f, suffix.as_str());
                let fname = string_of(f.as_slice());
                assert(fname@ == match appender_cfg.prefix { Some(x) => x@, None => "app"@ } + seq!['.'] + match appender_cfg.suffix { Some(x) => x@, None => "log"@ });
                assert(rotation_named(rot@) == Some(rotation));
                let r = Ok(AppenderPlan::RollingFile { dir: d.clone(), rotation, file_name: fname, rate });
                r
            },
        }
    } else {
        let r = Err(ConfigError::UnknownAppenderKind { kind: appender_cfg.kind.clone() });
        assert(plan_matches(*appender_cfg, global_rate, r));
        r
    }
}

/// How the reloading path lays out the enabled appenders.
#[derive(Debug, Clone, Copy, PartialEq, Eq, Structural)]
pub enum ReloadLayout {
    /// No appender: the plain console layer.
    Console,
    /// One appender.
    Single,
    /// Standard output and the file appender at this index, together.
    StdoutAndFile { file: usize },
}

/// Some kind in `kinds` is `k`.
pub open spec fn has_kind(kinds: Seq<Seq<char>>, k: Seq<char>) -> bool {
    exists|i: int| 0 <= i < kinds.len() && kinds[i] == k
}

/// The reloading path supports no appender, one appender, or exactly a
/// `stdout` and a `file` appender (the first `file` one is written to).
pub open spec fn reload_layout_matches(kinds: Seq<Seq<char>>, r: Result<ReloadLayout, ConfigError>) -> bool {
    if kinds.len() == 0 {
        r == Ok::<ReloadLayout, ConfigError>(ReloadLayout::Console)
    } else if kinds.len() == 1 {
        r == Ok::<ReloadLayout, ConfigError>(ReloadLayout::Single)
    } else if kinds.len() == 2 && has_kind(kinds, "stdout"@) && has_kind(kinds, "file"@) {
        r matches Ok(ReloadLayout::StdoutAndFile { file }) && file < kinds.len() && kinds[file as int] == "file"@
            && forall|j: int| 0 <= j < file ==> kinds[j] != "file"@
    } else {
        r matches Err(ConfigError::InvalidConfig(m)) && m@ == "multi-appender supported only for stdout+file combination"@
    }
}

/// The layout of the reloading path for the kinds of the enabled appenders.
pub fn reload_layout(kinds: &Vec<String>) -> (r: Result<ReloadLayout, ConfigError>)
    ensures
        reload_layout_matches(strings_view(kinds@), r),
{
    let ghost ks = strings_view(kinds@);
    if kinds.len() == 0 {
        return Ok(ReloadLayout::Console);
    }
    if kinds.len() == 1 {
        return Ok(ReloadLayout::Single);
    }
    let mut stdout_seen = false;
    let mut file_at: Option<usize> = None;
    let mut i: usize = 0;
    while i < kinds.len()
        invariant
            0 <= i <= kinds@.len(),
            ks == strings_view(kinds@),
            stdout_seen == exists|j: int| 0 <= j < i && ks[j] == "stdout"@,
            match file_at {
                Some(f) => f < i && ks[f as int] == "file"@ && forall|j: int| 0 <= j < f ==> ks[j] != "file"@,
                None => forall|j: int| 0 <= j < i ==> ks[j] != "file"@,
            },
        decreases kinds@.len() - i,
    {
        let k = chars_of(kinds[i].as_str());
        assert(ks[i as int] == kinds@[i as int]@);
        if chars_eq_str(k.as_slice(), "stdout") {
            stdout_seen = true;
        }
        if file_at.is_none() && chars_eq_str(k.as_slice(), "file") {
            file_at = Some(i);
        }
        i = i + 1;
    }
    if kinds.len() == 2 && stdout_seen {
        if let Some(f) = file_at {
            return Ok(ReloadLayout::StdoutAndFile { file: f });
        }
    }
    Err(ConfigError::InvalidConfig(String::from_str("multi-appender supported only for stdout+file combination")))
}

/// The filter string is never empty: without directives it is `info`.
pub proof fn law_filter_string_not_empty(c: Config)
    ensures
        filter_string(c).len() > 0,
{
    reveal_strlit("info");
}

/// The positions of the enabled appenders among `apps`, in order.
pub open spec fn enabled_positions(apps: Seq<AppenderConfig>) -> Seq<usize>
    decreases apps.len(),
{
    if apps.len() == 0 {
        Seq::<usize>::empty()
    } else if apps.last().enabled {
        enabled_positions(apps.drop_last()).push((apps.len() - 1) as usize)
    } else {
        enabled_positions(apps.drop_last())
    }
}

/// What initialization installs for a configuration: the enabled appenders
/// (by position, in order; their formatter is the first one's), their
/// sampling rate, and whether OpenTelemetry export is on.
pub struct InitPlan {
    /// Positions of the enabled appenders.
    pub appenders: Vec<usize>,
    /// Sampling rate of every appender (0: no limit).
    pub rate: u64,
    /// Whether to install the OpenTelemetry layer.
    pub opentelemetry: bool,
}

/// The initialization plan of `config`.
pub fn plan_init(config: &Config) -> (r: InitPlan)
    ensures
        r.appenders@ == enabled_positions(config.appenders@),
        r.rate == rate_spec(*config),
        r.opentelemetry == config.opentelemetry.enabled,
{
    let mut appenders: Vec<usize> = Vec::new();
    let mut i: usize = 0;
    while i < config.appenders.len()
        invariant
            0 <= i <= config.appenders@.len(),
            appenders@ == enabled_positions(config.appenders@.take(i as int)),
        decreases config.appenders@.len() - i,
    {
        assert(config.appenders@.take(i + 1).drop_last() =~= config.appenders@.take(i as int));
        if config.appenders[i].enabled {
            appenders.push(i);
        }
        i = i + 1;
    }
    assert(config.appenders@.take(config.appenders@.len() as int) =~= config.appenders@);
    InitPlan { appenders, rate: sampling_rate(config), opentelemetry: config.opentelemetry.enabled }
}

/// Every position of `enabled_positions(apps)` is below `apps.len()`.
proof fn lemma_enabled_positions_bound(apps: Seq<AppenderConfig>)
    requires
        apps.len() <= usize::MAX,
    ensures
        forall|k: int| 0 <= k < enabled_positions(apps).len() ==> (#[trigger] enabled_positions(apps)[k]) < apps.len(),
    decreases apps.len(),
{
    if apps.len() > 0 {
        let prev = apps.drop_last();
        lemma_enabled_positions_bound(prev);
        assert forall|k: int| 0 <= k < enabled_positions(apps).len() implies (#[trigger] enabled_positions(apps)[k]) < apps.len() by {
            if k < enabled_positions(prev).len() {
                assert(enabled_positions(apps)[k] == enabled_positions(prev)[k]);
            }
        }
    }
}

/// The enabled appenders are listed in increasing order, and exactly they.
pub proof fn law_enabled_positions(apps: Seq<AppenderConfig>)
    requires
        apps.len() <= usize::MAX,
    ensures
        forall|k: int| 0 <= k < enabled_positions(apps).len() ==> (#[trigger] enabled_positions(apps)[k]) < apps.len()
            && apps[enabled_positions(apps)[k] as int].enabled,
        forall|k: int, l: int| 0 <= k < l < enabled_positions(apps).len() ==> #[trigger] enabled_positions(apps)[k]
            < #[trigger] enabled_positions(apps)[l],
        forall|i: int| 0 <= i < apps.len() && (#[trigger] apps[i]).enabled ==> enabled_positions(apps).contains(i as usize),
    decreases apps.len(),
{
    if apps.len() > 0 {
        let prev = apps.drop_last();
        let e = enabled_positions(apps);
        let ep = enabled_positions(prev);
        law_enabled_positions(prev);
        lemma_enabled_positions_bound(prev);
        assert forall|k: int| 0 <= k < e.len() implies (#[trigger] e[k]) < apps.len() && apps[e[k] as int].enabled by {
            if k < ep.len() {
                assert(e[k] == ep[k]);
                assert(prev[ep[k] as int] == apps[ep[k] as int]);
            }
        }
        assert forall|k: int, l: int| 0 <= k < l < e.len() implies #[trigger] e[k] < #[trigger] e[l] by {
            if l < ep.len() {
                assert(e[k] == ep[k] && e[l] == ep[l]);
            } else {
                assert(e[k] == ep[k]);
            }
        }
        assert forall|i: int| 0 <= i < apps.len() && (#[trigger] apps[i]).enabled implies e.contains(i as usize) by {
            if i < apps.len() - 1 {
                assert(prev[i] == apps[i]);
                assert(ep.contains(i as usize));
                let k = choose|k: int| 0 <= k < ep.len() && ep[k] == i as usize;
                assert(e[k] == ep[k]);
            } else {
                assert(e[e.len() - 1] == i as usize);
            }
        }
    }
}

} // verus!
