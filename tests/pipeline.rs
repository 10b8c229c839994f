use jinja_migrate::context::{build_context, same_text, is_debug_or_more, GateError, Verbosity};
use jinja_migrate::discovery::{discover, DiscoveryError, MigrationSource};
use jinja_migrate::engine::{outcome_of, render_source, template_environment, to_migrations, QueueError};
use jinja_migrate::naming::{find_last, logical_name};
use jinja_migrate::order::name_precedes;
use jinja_migrate::pipeline::{artifact_path, plan_run, PendingMigration, RenderOutcome, RunMode, RunPlan};

fn source(name: &str) -> MigrationSource {
    MigrationSource { path: format!("migrations/{}.sql.j2", name), name: name.to_string() }
}

fn rendered(t: &str) -> RenderOutcome {
    RenderOutcome::Rendered(t.to_string())
}

fn failed(name: &str) -> RenderOutcome {
    RenderOutcome::RenderFailed { name: name.to_string(), detail: "unknown function".to_string() }
}

#[test]
fn logical_name_drops_template_and_sql_extensions() {
    assert_eq!(logical_name("migrations/001_init.sql.j2").as_deref(), Some("001_init"));
    assert_eq!(logical_name("/a/b/V1__init.sql").as_deref(), Some("V1__init"));
    assert_eq!(logical_name("V1.1__add_users.sql").as_deref(), Some("V1.1__add_users"));
    assert_eq!(logical_name("dir/002_bad.j2").as_deref(), Some("002_bad"));
    assert_eq!(logical_name("dir/.hidden").as_deref(), Some(".hidden"));
}

#[test]
fn logical_name_empty_is_none() {
    assert_eq!(logical_name("dir/"), None);
    assert_eq!(logical_name(""), None);
}

#[test]
fn find_last_positions() {
    assert_eq!(find_last("a/b/c", '/'), Some(3));
    assert_eq!(find_last("abc", '/'), None);
}

#[test]
fn lexicographic_order() {
    assert!(name_precedes("001_init", "002_bad"));
    assert!(!name_precedes("002_bad", "001_init"));
    assert!(name_precedes("V1", "V1__x"));
    assert!(!name_precedes("same", "same"));
    assert!(name_precedes("", "a"));
}

#[test]
fn discover_orders_by_name() {
    let paths = vec![
        "m/V3__c.sql".to_string(),
        "m/sub/V1__a.sql".to_string(),
        "m/V2__b.sql".to_string(),
    ];
    let v = discover(&paths).unwrap();
    let names: Vec<&str> = v.iter().map(|s| s.name.as_str()).collect();
    assert_eq!(names, vec!["V1__a", "V2__b", "V3__c"]);
    assert_eq!(v[0].path, "m/sub/V1__a.sql");
}

#[test]
fn discover_empty() {
    assert!(discover(&Vec::new()).unwrap().is_empty());
}

#[test]
fn discover_rejects_unnamed_file() {
    let paths = vec!["m/V1__a.sql".to_string(), "m/".to_string()];
    match discover(&paths) {
        Err(DiscoveryError::Unnamed { path }) => assert_eq!(path, "m/"),
        other => panic!("unexpected: {:?}", other.map(|v| v.len())),
    }
}

#[test]
fn discover_rejects_duplicate_names() {
    let paths = vec![
        "m/V1__a.sql".to_string(),
        "m/V2__b.sql".to_string(),
        "m/other/V1__a.sql.j2".to_string(),
    ];
    match discover(&paths) {
        Err(DiscoveryError::DuplicateName { name }) => assert_eq!(name, "V1__a"),
        other => panic!("unexpected: {:?}", other.map(|v| v.len())),
    }
}

#[test]
fn gate_trips_only_with_vault_debug_and_ci() {
    assert_eq!(
        build_context(true, Verbosity::Debug, true).err(),
        Some(GateError::VaultWithVerboseLogsInCi)
    );
    assert_eq!(
        build_context(true, Verbosity::Trace, true).err(),
        Some(GateError::VaultWithVerboseLogsInCi)
    );
    assert!(build_context(true, Verbosity::Info, true).is_ok());
    assert!(build_context(true, Verbosity::Trace, false).is_ok());
    assert!(build_context(false, Verbosity::Trace, true).is_ok());
    assert!(is_debug_or_more(Verbosity::Debug));
    assert!(!is_debug_or_more(Verbosity::Info));
}

#[test]
fn context_offers_get_env_always() {
    let plain = build_context(false, Verbosity::Info, false).unwrap();
    assert!(plain.provides("get_env"));
    assert!(!plain.provides("make_vault_client"));
    assert!(!plain.vault_enabled());
    assert_eq!(plain.function_names(), vec!["get_env".to_string()]);

    let vault = build_context(true, Verbosity::Info, true).unwrap();
    assert!(vault.provides("get_env"));
    assert!(vault.provides("make_vault_client"));
    assert!(!vault.provides("get_en"));
    assert_eq!(vault.function_names(), vec!["get_env".to_string(), "make_vault_client".to_string()]);
}

#[test]
fn same_text_compares_characters() {
    assert!(same_text("abc", "abc"));
    assert!(!same_text("abc", "abd"));
    assert!(!same_text("abc", "ab"));
}

#[test]
fn artifact_path_joins_directory_name_and_extension() {
    assert_eq!(artifact_path("./target/migrations", "001_init"), "./target/migrations/001_init.sql");
}

#[test]
fn dry_run_scenario_writes_only_rendered_file() {
    let sources = vec![source("001_init"), source("002_bad")];
    let outcomes = vec![rendered("SELECT 'prod'"), failed("002_bad")];
    let mode = RunMode::DryRun { output_dir: "out".to_string() };
    let plan = plan_run(&sources, outcomes, &mode);
    assert_eq!(plan.artifacts.len(), 1);
    assert_eq!(plan.artifacts[0].path, "out/001_init.sql");
    assert_eq!(plan.artifacts[0].contents, "SELECT 'prod'");
    assert!(plan.pending.is_empty());
    assert_eq!(plan.failures.len(), 1);
    assert_eq!(plan.failures[0].name, "002_bad");
}

#[test]
fn apply_queue_keeps_discovery_order_around_failures() {
    let sources = vec![source("V1__a"), source("V2__b"), source("V3__c"), source("V4__d")];
    let outcomes = vec![rendered("A"), failed("V2__b"), rendered("C"), rendered("D")];
    let plan = plan_run(&sources, outcomes, &RunMode::Apply);
    let names: Vec<&str> = plan.pending.iter().map(|m| m.name.as_str()).collect();
    let sql: Vec<&str> = plan.pending.iter().map(|m| m.sql.as_str()).collect();
    assert_eq!(names, vec!["V1__a", "V3__c", "V4__d"]);
    assert_eq!(sql, vec!["A", "C", "D"]);
    assert!(plan.artifacts.is_empty());
    assert_eq!(plan.failures[0].name, "V2__b");
}

#[test]
fn one_failure_keeps_every_other_migration() {
    let sources = vec![source("V1__a"), source("V2__b"), source("V3__c")];
    let all_ok = plan_run(&sources, vec![rendered("A"), rendered("B"), rendered("C")], &RunMode::Apply);
    let one_bad = plan_run(&sources, vec![rendered("A"), failed("V2__b"), rendered("C")], &RunMode::Apply);
    assert_eq!(all_ok.pending.len(), 3);
    assert_eq!(one_bad.pending.len(), 2);
    assert_eq!(one_bad.pending[0].name, "V1__a");
    assert_eq!(one_bad.pending[1].name, "V3__c");
    assert_eq!(one_bad.pending[1].sql, "C");
}

#[test]
fn dry_run_twice_gives_same_files() {
    let sources = vec![source("001_init"), source("002_more")];
    let mode = RunMode::DryRun { output_dir: "out".to_string() };
    let a = plan_run(&sources, vec![rendered("X"), rendered("Y")], &mode);
    let b = plan_run(&sources, vec![rendered("X"), rendered("Y")], &mode);
    assert_eq!(a.artifacts.len(), 2);
    assert_eq!(a.artifacts.len(), b.artifacts.len());
    assert_ne!(a.artifacts[0].path, a.artifacts[1].path);
    for (x, y) in a.artifacts.iter().zip(b.artifacts.iter()) {
        assert_eq!(x.path, y.path);
        assert_eq!(x.contents, y.contents);
    }
}

#[test]
fn record_reports_when_a_file_is_to_be_written() {
    let mut plan = RunPlan::new();
    let dry = RunMode::DryRun { output_dir: "d".to_string() };
    assert!(plan.record("001_init", rendered("S"), &dry));
    assert!(!plan.record("002_bad", failed("002_bad"), &dry));
    assert!(!plan.record("V1__a", rendered("S"), &RunMode::Apply));
    assert_eq!(plan.artifacts.len(), 1);
    assert_eq!(plan.pending.len(), 1);
    assert_eq!(plan.failures.len(), 1);
}

#[test]
fn outcome_of_names_failed_migration() {
    match outcome_of("002_bad", Err("boom".to_string())) {
        RenderOutcome::RenderFailed { name, detail } => {
            assert_eq!(name, "002_bad");
            assert_eq!(detail, "boom");
        }
        RenderOutcome::Rendered(_) => panic!("expected a failure"),
    }
    assert!(matches!(outcome_of("a", Ok("x".to_string())), RenderOutcome::Rendered(t) if t == "x"));
}

#[test]
fn rendering_scenario_with_get_env() {
    let ctx = build_context(false, Verbosity::Info, false).unwrap();
    let mut env = template_environment(&ctx);
    env.add_function("get_env", |name: &str| -> Result<String, minijinja::Error> {
        if name == "ENV" {
            Ok("prod".to_string())
        } else {
            Err(minijinja::Error::new(minijinja::ErrorKind::InvalidOperation, "env var not found"))
        }
    });
    let good = render_source(&env, &source("001_init"), "SELECT '{{ get_env(\"ENV\") }}'");
    assert!(matches!(good, RenderOutcome::Rendered(ref t) if t == "SELECT 'prod'"));
    let bad = render_source(&env, &source("002_bad"), "SELECT '{{ make_vault_client() }}'");
    match bad {
        RenderOutcome::RenderFailed { name, detail } => {
            assert_eq!(name, "002_bad");
            assert!(!detail.is_empty());
        }
        RenderOutcome::Rendered(t) => panic!("rendered: {}", t),
    }
    let missing = render_source(&env, &source("003_missing"), "{{ get_env(\"NOPE\") }}");
    assert!(matches!(missing, RenderOutcome::RenderFailed { .. }));
}

#[test]
fn rendering_does_not_escape() {
    let ctx = build_context(false, Verbosity::Info, false).unwrap();
    let env = template_environment(&ctx);
    let out = render_source(&env, &source("x.html"), "{{ '<a>' }}");
    assert!(matches!(out, RenderOutcome::Rendered(ref t) if t == "<a>"));
}

#[test]
fn queue_becomes_refinery_migrations() {
    let pending = vec![
        PendingMigration { name: "V1__init".to_string(), sql: "CREATE TABLE t (x INT);".to_string() },
        PendingMigration { name: "V2__more".to_string(), sql: "SELECT 1;".to_string() },
    ];
    let migs = to_migrations(&pending).unwrap();
    assert_eq!(migs.len(), 2);
    assert_eq!(migs[0].version(), 1);
    assert_eq!(migs[1].name(), "more");
}

#[test]
fn queue_with_bad_name_is_refused() {
    let pending = vec![
        PendingMigration { name: "V1__init".to_string(), sql: "SELECT 1;".to_string() },
        PendingMigration { name: "001_init".to_string(), sql: "SELECT 1;".to_string() },
    ];
    match to_migrations(&pending) {
        Err(QueueError::InvalidName { name }) => assert_eq!(name, "001_init"),
        Ok(_) => panic!("expected a refusal"),
    }
}

#[test]
fn queue_with_bar_prefixed_name_is_refused_without_panic() {
    let pending = vec![
        PendingMigration { name: "V1__init".to_string(), sql: "SELECT 1;".to_string() },
        PendingMigration { name: "|2__x".to_string(), sql: "SELECT 2;".to_string() },
    ];
    match to_migrations(&pending) {
        Err(QueueError::InvalidName { name }) => assert_eq!(name, "|2__x"),
        Ok(_) => panic!("expected a refusal"),
    }
}

#[test]
fn queue_keeps_its_order() {
    let pending = vec![
        PendingMigration { name: "V2__second".to_string(), sql: "SELECT 2;".to_string() },
        PendingMigration { name: "V1__first".to_string(), sql: "SELECT 1;".to_string() },
    ];
    let migs = to_migrations(&pending).unwrap();
    assert_eq!(migs[0].name(), "second");
    assert_eq!(migs[0].sql(), Some("SELECT 2;"));
    assert_eq!(migs[1].name(), "first");
    assert_eq!(migs[1].version(), 1);
}
