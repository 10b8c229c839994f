//! The functions offered to templates, and the safety gate on the secrets backend.
use vstd::prelude::*;

verus! {

/// Log verbosity, from least to most verbose.
#[derive(Clone, Copy, Debug, PartialEq, Eq, Structural)]
pub enum Verbosity {
    Off,
    Error,
    Warn,
    Info,
    Debug,
    Trace,
}

/// Why the template context could not be built.
#[derive(Clone, Copy, Debug, PartialEq, Eq, Structural)]
pub enum GateError {
    /// The secrets backend was asked for while debug logging is on in CI.
    VaultWithVerboseLogsInCi,
}

/// Debug logging or more is on.
pub open spec fn logs_debug(v: Verbosity) -> bool {
    v == Verbosity::Debug || v == Verbosity::Trace
}

/// Secrets are wanted while debug logs are kept in a CI build: the context is refused.
pub open spec fn gate_trips(vault_enabled: bool, verbosity: Verbosity, in_ci: bool) -> bool {
    vault_enabled && logs_debug(verbosity) && in_ci
}

/// Name of the environment lookup offered to every template.
pub open spec fn get_env_name() -> Seq<char> {
    seq!['g', 'e', 't', '_', 'e', 'n', 'v']
}

/// Name of the secrets-client constructor offered when secrets are enabled.
pub open spec fn vault_fn_name() -> Seq<char> {
    seq!['m', 'a', 'k', 'e', '_', 'v', 'a', 'u', 'l', 't', '_', 'c', 'l', 'i', 'e', 'n', 't']
}

/// The set of functions that rendered templates can call. It is built only
/// through the safety gate.
pub struct TemplateContext {
    vault_enabled: bool,
}

impl TemplateContext {
    /// Whether the secrets-client constructor is offered.
    pub closed spec fn vault(&self) -> bool {
        self.vault_enabled
    }

    /// Whether templates rendered with this context can call `name`.
    pub open spec fn offers(&self, name: Seq<char>) -> bool {
        name == get_env_name() || (self.vault() && name == vault_fn_name())
    }

    pub fn vault_enabled(&self) -> (r: bool)
        ensures
            r == self.vault(),
    {
        self.vault_enabled
    }

    /// Whether templates can call the function `name`.
    pub fn provides(&self, name: &str) -> (r: bool)
        ensures
            r == self.offers(name@),
    {
        let g = "get_env";
        let v = "make_vault_client";
        proof {
            reveal_strlit("get_env");
            reveal_strlit("make_vault_client");
            assert(g@ =~= get_env_name());
            assert(v@ =~= vault_fn_name());
        }
        same_text(name, g) || (self.vault_enabled && same_text(name, v))
    }

    /// The names of the functions to register, the environment lookup first.
    pub fn function_names(&self) -> (r: Vec<String>)
        ensures
            r@.len() == if self.vault() { 2int } else { 1int },
            r@[0]@ == get_env_name(),
            self.vault() ==> r@[1]@ == vault_fn_name(),
            forall|i: int| 0 <= i < r@.len() ==> self.offers((#[trigger] r@[i])@),
    {
        proof {
            reveal_strlit("get_env");
            reveal_strlit("make_vault_client");
        }
        let mut r: Vec<String> = Vec::new();
        r.push(String::from_str("get_env"));
        if self.vault_enabled {
            r.push(String::from_str("make_vault_client"));
        }
        assert(r@[0]@ =~= get_env_name());
        if self.vault_enabled {
            assert(r@[1]@ =~= vault_fn_name());
        }
        r
    }
}

/// Whether `a` and `b` hold the same characters.
pub fn same_text(a: &str, b: &str) -> (r: bool)
    ensures
        r == (a@ == b@),
{
    let n = a.unicode_len();
    if n != b.unicode_len() {
        return false;
    }
    let mut i: usize = 0;
    while i < n
        invariant
            n == a@.len(),
            n == b@.len(),
            i <= n,
            a@.subrange(0, i as int) == b@.subrange(0, i as int),
        decreases n - i,
    {
        if a.get_char(i) != b.get_char(i) {
            return false;
        }
        assert(a@.subrange(0, i + 1) =~= a@.subrange(0, i as int).push(a@[i as int]));
        assert(b@.subrange(0, i + 1) =~= b@.subrange(0, i as int).push(b@[i as int]));
        i = i + 1;
    }
    assert(a@ =~= a@.subrange(0, n as int));
    assert(b@ =~= b@.subrange(0, n as int));
    true
}

/// Whether debug logging or more is on.
pub fn is_debug_or_more(v: Verbosity) -> (r: bool)
    ensures
        r == logs_debug(v),
{
    v == Verbosity::Debug || v == Verbosity::Trace
}

/// Builds the template context, refusing the secrets backend while debug
/// logging is on in CI, where secret values could reach the build logs.
pub fn build_context(vault_enabled: bool, verbosity: Verbosity, in_ci: bool) -> (r: Result<
    TemplateContext,
    GateError,
>)
    ensures
        r is Err <==> gate_trips(vault_enabled, verbosity, in_ci),
        r matches Ok(c) ==> c.vault() == vault_enabled,
{
    if vault_enabled && is_debug_or_more(verbosity) && in_ci {
        Err(GateError::VaultWithVerboseLogsInCi)
    } else {
        Ok(TemplateContext { vault_enabled })
    }
}

/// Relies on ci_info::is_ci: whether the process runs under a known CI service.
#[verifier::external_body]
fn running_in_ci() -> (r: bool) {
    ci_info::is_ci()
}

/// Relies on log::max_level (re-exported by tracing): the most verbose level
/// that logging lets through.
#[verifier::external_body]
fn log_verbosity() -> (r: Verbosity) {
    match tracing::log::max_level() {
        tracing::log::LevelFilter::Off => Verbosity::Off,
        tracing::log::LevelFilter::Error => Verbosity::Error,
        tracing::log::LevelFilter::Warn => Verbosity::Warn,
        tracing::log::LevelFilter::Info => Verbosity::Info,
        tracing::log::LevelFilter::Debug => Verbosity::Debug,
        tracing::log::LevelFilter::Trace => Verbosity::Trace,
    }
}

/// Builds the template context for this process, reading its log level and
/// whether it runs in CI. Without the secrets backend it always succeeds.
pub fn context_for_process(vault_enabled: bool) -> (r: Result<TemplateContext, GateError>)
    ensures
        !vault_enabled ==> r is Ok,
        r matches Ok(c) ==> c.vault() == vault_enabled,
{
    let verbosity = log_verbosity();
    let in_ci = running_in_ci();
    build_context(vault_enabled, verbosity, in_ci)
}

/// Every template can call the environment lookup; without the secrets
/// backend no template can call the secrets-client constructor.
pub proof fn lemma_context_complete(ctx: TemplateContext)
    ensures
        ctx.offers(get_env_name()),
        !ctx.vault() ==> !ctx.offers(vault_fn_name()),
{
    assert(get_env_name() != vault_fn_name()) by {
        assert(get_env_name().len() != vault_fn_name().len());
    }
}

} // verus!
