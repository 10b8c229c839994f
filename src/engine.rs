//! Rendering through minijinja, and migrations for refinery.
use vstd::prelude::*;
use crate::context::TemplateContext;
use crate::discovery::MigrationSource;
use crate::pipeline::{PendingMigration, RenderOutcome};

verus! {

#[verifier::external_type_specification]
#[verifier::external_body]
pub struct ExEnvironment<'source>(minijinja::Environment<'source>);

#[verifier::external_type_specification]
#[verifier::external_body]
pub struct ExTemplateError(minijinja::Error);

#[verifier::external_type_specification]
#[verifier::external_body]
pub struct ExMigration(refinery::Migration);

#[verifier::external_type_specification]
#[verifier::external_body]
pub struct ExMigrationError(refinery::Error);

/// Whether refinery accepts `name` as a migration name: its `{prefix}{version}__{name}`
/// form, with a version that fits an `i32`. Its pattern writes the prefix as the
/// class `[U|V]`, which also lets `|` through; refinery then panics on that prefix.
pub uninterp spec fn migration_name_accepted(name: Seq<char>) -> bool;

/// The migration that refinery builds, unapplied, from `name` and `sql`.
pub uninterp spec fn migration_for(name: Seq<char>, sql: Seq<char>) -> refinery::Migration;

/// `name` starts with `|`, a prefix on which refinery panics.
pub open spec fn bar_prefixed(name: Seq<char>) -> bool {
    name.len() > 0 && name[0] == '|'
}

/// refinery takes `name` as a migration name without panicking.
pub open spec fn queueable(name: Seq<char>) -> bool {
    !bar_prefixed(name) && migration_name_accepted(name)
}

/// Relies on minijinja::Environment::new: an environment with the default settings.
#[verifier::external_body]
fn new_environment() -> (r: minijinja::Environment<'static>) {
    minijinja::Environment::new()
}

/// Relies on minijinja::Environment::set_auto_escape_callback: rendered text is
/// never escaped.
#[verifier::external_body]
fn disable_auto_escape(env: &mut minijinja::Environment<'static>) {
    env.set_auto_escape_callback(|_| minijinja::AutoEscape::None)
}

/// Relies on minijinja::Environment::render_named_str: renders `source` under
/// `name` with no template variables. The result depends on the functions
/// registered in `env`, which may read the process environment.
#[verifier::external_body]
fn render_named(env: &minijinja::Environment<'static>, name: &str, source: &str) -> (r: Result<String, minijinja::Error>) {
    env.render_named_str(name, source, ())
}

/// Relies on minijinja::Error's Display: the error's kind and detail.
#[verifier::external_body]
fn template_error_text(e: &minijinja::Error) -> (r: String) {
    e.to_string()
}

/// Relies on refinery::Migration::unapplied: it succeeds exactly when the name
/// parses as a migration name, and its result depends on the name and the SQL
/// alone. It panics on a name that starts with `|`.
#[verifier::external_body]
fn unapplied_migration(name: &str, sql: &str) -> (r: Result<refinery::Migration, refinery::Error>)
    requires
        !bar_prefixed(name@),
    ensures
        r is Ok <==> migration_name_accepted(name@),
        r matches Ok(m) ==> m == migration_for(name@, sql@),
{
    refinery::Migration::unapplied(name, sql)
}

/// An environment for rendering SQL templates: nothing is escaped. It can
/// only be had with a template context, that is after the safety gate.
pub fn template_environment(_ctx: &TemplateContext) -> (r: minijinja::Environment<'static>) {
    let mut env = new_environment();
    disable_auto_escape(&mut env);
    env
}

/// The outcome of a render attempt of the migration `name`: the text, or a
/// failure that names the migration and gives the error's text.
pub fn outcome_of(name: &str, rendered: Result<String, String>) -> (r: RenderOutcome)
    ensures
        match rendered {
            Ok(t) => r == RenderOutcome::Rendered(t),
            Err(d) => r matches RenderOutcome::RenderFailed { name: n, detail } && n@ == name@ && detail == d,
        },
{
    match rendered {
        Ok(t) => RenderOutcome::Rendered(t),
        Err(d) => RenderOutcome::RenderFailed { name: name.to_string(), detail: d },
    }
}

/// Renders the template `text` of `source`. A failure stays with this one
/// migration and names it.
pub fn render_source(env: &minijinja::Environment<'static>, source: &MigrationSource, text: &str) -> (r: RenderOutcome)
    ensures
        r matches RenderOutcome::RenderFailed { name, .. } ==> name@ == source.name@,
{
    let rendered = match render_named(env, source.name.as_str(), text) {
        Ok(t) => Ok(t),
        Err(e) => Err(template_error_text(&e)),
    };
    outcome_of(source.name.as_str(), rendered)
}

/// Why the queue could not be handed to the migration engine.
#[derive(Debug)]
pub enum QueueError {
    /// The migration engine refuses this migration name.
    InvalidName { name: String },
}

/// All names of `pending` before position `n` can be queued.
pub open spec fn names_accepted(pending: Seq<PendingMigration>, n: int) -> bool {
    forall|i: int| 0 <= i < n ==> queueable((#[trigger] pending[i]).name@)
}

/// `v` holds, position by position, the migrations built from `pending`.
pub open spec fn built_from(v: Seq<refinery::Migration>, pending: Seq<PendingMigration>) -> bool {
    &&& v.len() == pending.len()
    &&& forall|i: int| 0 <= i < v.len() ==> #[trigger] v[i] == migration_for(pending[i].name@, pending[i].sql@)
}

/// Turns the queue into refinery migrations, in the same order. Fails on the
/// first name that refinery refuses, or on which it would panic.
pub fn to_migrations(pending: &Vec<PendingMigration>) -> (r: Result<Vec<refinery::Migration>, QueueError>)
    ensures
        r is Ok <==> names_accepted(pending@, pending@.len() as int),
        r matches Ok(v) ==> built_from(v@, pending@),
        r matches Err(QueueError::InvalidName { name }) ==> exists|i: int|
            0 <= i < pending@.len() && (#[trigger] pending@[i]).name@ == name@ && names_accepted(pending@, i)
                && !queueable(name@),
{
    let mut out: Vec<refinery::Migration> = Vec::new();
    let n = pending.len();
    let mut i: usize = 0;
    while i < n
        invariant
            n == pending@.len(),
            i <= n,
            built_from(out@, pending@.subrange(0, i as int)),
            names_accepted(pending@, i as int),
        decreases n - i,
    {
        let m = &pending[i];
        if m.name.unicode_len() > 0 && m.name.get_char(0) == '|' {
            assert(!names_accepted(pending@, n as int));
            return Err(QueueError::InvalidName { name: m.name.clone() });
        }
        let ghost before = out@;
        match unapplied_migration(m.name.as_str(), m.sql.as_str()) {
            Ok(mig) => out.push(mig),
            Err(_) => {
                assert(!names_accepted(pending@, n as int));
                return Err(QueueError::InvalidName { name: m.name.clone() });
            },
        }
        assert(built_from(out@, pending@.subrange(0, i + 1))) by {
            assert forall|k: int| 0 <= k < out@.len() implies #[trigger] out@[k] == migration_for(
                pending@.subrange(0, i + 1)[k].name@,
                pending@.subrange(0, i + 1)[k].sql@,
            ) by {
                if k < i {
                    assert(out@[k] == before[k]);
                    assert(pending@.subrange(0, i as int)[k] == pending@.subrange(0, i + 1)[k]);
                }
            }
        }
        i = i + 1;
    }
    assert(pending@.subrange(0, n as int) =~= pending@);
    Ok(out)
}

} // verus!
