use artisan_comp::config::queue_names;
use artisan_comp::project::ProjectFiles;
use artisan_comp::scan::{is_php_file, is_skippable_dir};
use artisan_comp::testscan::{preceded_by_test_docblock, scan_tests};
use artisan_comp::values::Kind;
use artisan_comp::wellknown::Catalog;

fn empty_project() -> ProjectFiles {
    ProjectFiles {
        models: Vec::new(),
        seeders: Vec::new(),
        providers: Vec::new(),
        config: Vec::new(),
        tests: Vec::new(),
        migration_names: Vec::new(),
        migrations: Vec::new(),
        root_names: Vec::new(),
        events: Vec::new(),
        routes: Vec::new(),
        phpunit: Vec::new(),
    }
}

const CACHE_CONFIG: &str = r#"<?php
return [
    'default' => env('CACHE_STORE', 'database'),
    'stores' => [
        'array' => ['driver' => 'array'],
        'database' => ['driver' => 'database'],
        'redis' => ['driver' => 'redis'],
    ],
];
"#;

#[test]
fn reads_config_keys_and_class_stems() {
    let mut p = empty_project();
    p.config.push(("cache".to_string(), CACHE_CONFIG.as_bytes().to_vec()));
    p.models.push("User.php".to_string());
    p.models.push("Invoice.php".to_string());

    let cat = Catalog::build(&p);
    assert_eq!(
        cat.values("cache:clear", &Kind::Argument, "store"),
        vec!["array", "database", "redis"]
    );
    assert_eq!(
        cat.values("make:controller", &Kind::Option, "model"),
        vec!["Invoice", "User"]
    );
    let dotted = cat.values("config:show", &Kind::Argument, "config");
    for k in ["cache", "cache.default", "cache.stores", "cache.stores.redis"] {
        assert!(dotted.iter().any(|s| s == k), "missing dotted key {k}: {dotted:?}");
    }

    let restored = Catalog::from_tsv(&cat.to_tsv());
    assert_eq!(restored.values("config:show", &Kind::Argument, "config"), dotted);
}

#[test]
fn detects_test_attribute_and_docblock() {
    let (out, _groups) = scan_tests(
        br#"<?php
class ThingTest extends TestCase
{
    public function testClassic() {}

    #[Test]
    public function itUsesAttribute() {}

    #[PHPUnit\Framework\Attributes\Test]
    public function itUsesFqcnAttribute() {}

    /** @test */
    public function itUsesDocblock() {}

    public function notATest() {}

    /** just a comment */
    public function alsoNotATest() {}
}
"#,
    );
    for t in ["testClassic", "itUsesAttribute", "itUsesFqcnAttribute", "itUsesDocblock"] {
        assert!(out.iter().any(|s| s == t), "missing test {t}: {out:?}");
    }
    assert!(!out.iter().any(|s| s == "notATest"));
    assert!(!out.iter().any(|s| s == "alsoNotATest"));
}

#[test]
fn reads_tests_migrations_env_providers() {
    let mut p = empty_project();
    p.tests.push(
        br#"<?php
it('adds numbers', function () {});
test('subtracts numbers', function () {});
"#
        .to_vec(),
    );
    p.migration_names
        .push("2024_01_01_000000_create_users_table.php".to_string());
    p.migrations.push(b"<?php".to_vec());
    for name in [".env.local", ".env.production", ".env.example", "database", "tests", "app"] {
        p.root_names.push(name.to_string());
    }
    p.providers
        .push(b"<?php\nnamespace App\\Providers;\nclass AppServiceProvider {}".to_vec());

    let cat = Catalog::build(&p);
    let tests = cat.values("test", &Kind::Option, "filter");
    for t in ["adds numbers", "subtracts numbers"] {
        assert!(tests.iter().any(|s| s == t), "missing test name {t}: {tests:?}");
    }
    assert_eq!(
        cat.values("migrate", &Kind::Option, "path"),
        vec!["database/migrations/2024_01_01_000000_create_users_table.php"]
    );
    assert_eq!(cat.values("app:sync", &Kind::Option, "env"), vec!["local", "production"]);
    assert_eq!(
        cat.values("vendor:publish", &Kind::Option, "provider"),
        vec!["App\\Providers\\AppServiceProvider"]
    );
    assert!(cat
        .values("route:list", &Kind::Option, "method")
        .iter()
        .any(|s| s == "GET"));
}

#[test]
fn reads_tables_suites_groups_routes_queues_events() {
    let mut p = empty_project();
    p.migration_names
        .push("2024_01_01_000000_create_users_table.php".to_string());
    p.migrations.push(
        br#"<?php
Schema::create('users', function (Blueprint $table) {});
Schema::create("orders", function (Blueprint $table) {});
"#
        .to_vec(),
    );
    p.routes.push((
        "web.php".to_string(),
        br#"<?php
Route::get('/', HomeController::class)->name('home');
Route::name('admin.')->group(function () {
    Route::get('/admin', AdminController::class)->name('dashboard');
});
"#
        .to_vec(),
    ));
    p.phpunit.push(
        br#"<phpunit>
  <testsuites>
    <testsuite name="Unit"><directory>tests/Unit</directory></testsuite>
    <testsuite name="Feature"><directory>tests/Feature</directory></testsuite>
  </testsuites>
</phpunit>
"#
        .to_vec(),
    );
    p.tests.push(
        br#"<?php
use PHPUnit\Framework\Attributes\Group;

#[Group('slow')]
class GroupTest extends TestCase
{
    #[Group('integration')]
    public function testOne() {}

    /** @group legacy */
    public function testTwo() {}
}
"#
        .to_vec(),
    );
    p.config.push((
        "queue".to_string(),
        br#"<?php
return [
    'connections' => [
        'redis' => ['driver' => 'redis', 'queue' => env('REDIS_QUEUE', 'default')],
        'database' => ['driver' => 'database', 'queue' => 'jobs'],
    ],
];
"#
        .to_vec(),
    ));
    p.events.push("UserRegistered.php".to_string());

    let cat = Catalog::build(&p);
    assert_eq!(cat.values("db:table", &Kind::Argument, "table"), vec!["orders", "users"]);
    assert_eq!(cat.values("test", &Kind::Option, "testsuite"), vec!["Feature", "Unit"]);
    assert_eq!(
        cat.values("test", &Kind::Option, "group"),
        vec!["integration", "legacy", "slow"]
    );
    assert_eq!(
        cat.values("route:list", &Kind::Option, "name"),
        vec!["admin.dashboard", "home"]
    );
    assert_eq!(cat.values("queue:work", &Kind::Option, "queue"), vec!["default", "jobs"]);
    assert_eq!(
        cat.values("make:listener", &Kind::Option, "event"),
        vec!["UserRegistered"]
    );

    let restored = Catalog::from_tsv(&cat.to_tsv());
    assert_eq!(
        restored.values("test", &Kind::Option, "group"),
        vec!["integration", "legacy", "slow"]
    );
    assert_eq!(
        restored.values("queue:work", &Kind::Option, "queue"),
        vec!["default", "jobs"]
    );
}

#[test]
fn console_routes_and_group_prefixes_are_left_out() {
    let mut p = empty_project();
    p.routes.push((
        "console.php".to_string(),
        b"<?php\nSchedule::command('x')->name('nightly');\n".to_vec(),
    ));
    p.routes.push((
        "api.php".to_string(),
        b"<?php\nRoute::name('api.')->group(function () {});\nRoute::get('/x', X::class)->name('x.');\n"
            .to_vec(),
    ));
    let cat = Catalog::build(&p);
    assert!(cat.values("route:list", &Kind::Option, "name").is_empty());
}

#[test]
fn skips_hidden_and_vendor_directories() {
    assert!(is_skippable_dir(".git"));
    assert!(is_skippable_dir("vendor"));
    assert!(is_skippable_dir("node_modules"));
    assert!(!is_skippable_dir("Models"));
    assert!(is_php_file("User.php"));
    assert!(!is_php_file(".php"));
    assert!(!is_php_file("notes.txt"));
}

#[test]
fn docblock_marks_a_test_only_when_closest_and_after_the_previous_method() {
    let ds = vec![(10, true), (50, false), (80, true)];
    assert!(preceded_by_test_docblock(20, 0, &ds));
    assert!(preceded_by_test_docblock(10, 0, &ds));
    assert!(!preceded_by_test_docblock(20, 15, &ds));
    assert!(!preceded_by_test_docblock(60, 0, &ds));
    assert!(preceded_by_test_docblock(90, 60, &ds));
    assert!(!preceded_by_test_docblock(5, 0, &ds));
}

#[test]
fn queue_names_are_a_sorted_set() {
    let src = br#"<?php
return [
    'connections' => [
        'database' => ['driver' => 'database', 'queue' => 'jobs'],
        'redis' => ['driver' => 'redis', 'queue' => env('REDIS_QUEUE', 'default')],
        'sqs' => ['driver' => 'sqs', 'queue' => 'jobs'],
    ],
];
"#;
    assert_eq!(queue_names(src), vec!["default".to_string(), "jobs".to_string()]);
}
