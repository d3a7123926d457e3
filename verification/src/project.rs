//! The project files the catalog is built from, and the catalog built.

use vstd::prelude::*;
use crate::wellknown::{Catalog, strs, catalog_values};
use crate::values::Kind;
use crate::bytes::lossy_text;
use crate::sorted::{sorted_set, sorted_list, strs_of, sorted_set_exec, strictly_sorted, lemma_sorted_set};
use crate::scan::{
    stems_of, class_stems, migrations_of, migration_paths, envs_of, env_names, quoted_calls,
    scan_quoted_calls, suites_from, testsuite_names_in,
};
use crate::config::{
    class_fqns_of, class_fqns, file_dotted_keys, config_file_dotted, config_keys_of, config_keys,
    queue_names_of, queue_names,
};
use crate::routes::{route_names_of, route_names_in};
use crate::testscan::{scan_tests_of, scan_tests};
use crate::tree::{assoc_get, keys_of, find_key, lemma_key_index_keys};
use crate::text::{str_chars, is_lit};
use vstd::utf8::encode_utf8;

verus! {

broadcast use vstd::string::group_string_axioms;

/// What a project's files hold, as far as the catalog reads them.
pub struct ProjectFiles {
    /// Names of the PHP files under `app/Models`, at any depth.
    pub models: Vec<String>,
    /// Names of the PHP files under `database/seeders`.
    pub seeders: Vec<String>,
    /// Contents of the PHP files under `app/Providers`.
    pub providers: Vec<Vec<u8>>,
    /// Each PHP file directly in `config`: its stem and its contents.
    pub config: Vec<(String, Vec<u8>)>,
    /// Contents of the PHP files under `tests`.
    pub tests: Vec<Vec<u8>>,
    /// Names of the entries of `database/migrations`.
    pub migration_names: Vec<String>,
    /// Contents of the PHP files under `database/migrations`.
    pub migrations: Vec<Vec<u8>>,
    /// Names of the entries of the project directory.
    pub root_names: Vec<String>,
    /// Names of the PHP files under `app/Events`.
    pub events: Vec<String>,
    /// Each PHP file under `routes`: its file name and its contents.
    pub routes: Vec<(String, Vec<u8>)>,
    /// Contents of `phpunit.xml`, `phpunit.xml.dist` and `phpunit.dist.xml`,
    /// those that could be read, in that order.
    pub phpunit: Vec<Vec<u8>>,
}

/// The project files, as values.
pub struct ProjectView {
    pub models: Seq<Seq<char>>,
    pub seeders: Seq<Seq<char>>,
    pub providers: Seq<Seq<u8>>,
    pub config: Seq<(Seq<char>, Seq<u8>)>,
    pub tests: Seq<Seq<u8>>,
    pub migration_names: Seq<Seq<char>>,
    pub migrations: Seq<Seq<u8>>,
    pub root_names: Seq<Seq<char>>,
    pub events: Seq<Seq<char>>,
    pub routes: Seq<(Seq<char>, Seq<u8>)>,
    pub phpunit: Seq<Seq<u8>>,
}

pub open spec fn bytes_of(v: Seq<Vec<u8>>) -> Seq<Seq<u8>> {
    v.map_values(|b: Vec<u8>| b@)
}

pub open spec fn named_bytes_of(v: Seq<(String, Vec<u8>)>) -> Seq<(Seq<char>, Seq<u8>)> {
    v.map_values(|e: (String, Vec<u8>)| (e.0@, e.1@))
}

impl View for ProjectFiles {
    type V = ProjectView;

    open spec fn view(&self) -> ProjectView {
        ProjectView {
            models: strs_of(self.models@),
            seeders: strs_of(self.seeders@),
            providers: bytes_of(self.providers@),
            config: named_bytes_of(self.config@),
            tests: bytes_of(self.tests@),
            migration_names: strs_of(self.migration_names@),
            migrations: bytes_of(self.migrations@),
            root_names: strs_of(self.root_names@),
            events: strs_of(self.events@),
            routes: named_bytes_of(self.routes@),
            phpunit: bytes_of(self.phpunit@),
        }
    }
}

/// The classes the provider files declare, file after file.
pub open spec fn all_fqns(srcs: Seq<Seq<u8>>) -> Seq<Seq<char>>
    decreases srcs.len(),
{
    if srcs.len() == 0 {
        seq![]
    } else {
        all_fqns(srcs.drop_last()) + class_fqns_of(lossy_text(srcs.last()))
    }
}

/// The dotted keys of the configuration files, file after file.
pub open spec fn all_dotted(cfg: Seq<(Seq<char>, Seq<u8>)>) -> Seq<Seq<char>>
    decreases cfg.len(),
{
    if cfg.len() == 0 {
        seq![]
    } else {
        all_dotted(cfg.drop_last()) + file_dotted_keys(cfg.last().0, lossy_text(cfg.last().1))
    }
}

/// The test names of the test files, file after file.
pub open spec fn all_test_names(srcs: Seq<Seq<u8>>) -> Seq<Seq<char>>
    decreases srcs.len(),
{
    if srcs.len() == 0 {
        seq![]
    } else {
        all_test_names(srcs.drop_last()) + scan_tests_of(lossy_text(srcs.last())).0
    }
}

/// The group names of the test files, file after file.
pub open spec fn all_test_groups(srcs: Seq<Seq<u8>>) -> Seq<Seq<char>>
    decreases srcs.len(),
{
    if srcs.len() == 0 {
        seq![]
    } else {
        all_test_groups(srcs.drop_last()) + scan_tests_of(lossy_text(srcs.last())).1
    }
}

/// The tables `Schema::create('x')` creates in the migration files.
pub open spec fn all_tables(srcs: Seq<Seq<u8>>) -> Seq<Seq<char>>
    decreases srcs.len(),
{
    if srcs.len() == 0 {
        seq![]
    } else {
        all_tables(srcs.drop_last()) + quoted_calls(srcs.last(), encode_utf8("Schema::create("@), 0)
    }
}

/// The test suites of the PHPUnit configurations.
pub open spec fn all_suites(srcs: Seq<Seq<u8>>) -> Seq<Seq<char>>
    decreases srcs.len(),
{
    if srcs.len() == 0 {
        seq![]
    } else {
        all_suites(srcs.drop_last()) + suites_from(srcs.last(), 0)
    }
}

/// The route names of the routes files, but `console.php` (which names
/// scheduled tasks, not routes).
pub open spec fn all_routes(files: Seq<(Seq<char>, Seq<u8>)>) -> Seq<Seq<char>>
    decreases files.len(),
{
    if files.len() == 0 {
        seq![]
    } else {
        all_routes(files.drop_last()) + if files.last().0 == "console.php"@ {
            seq![]
        } else {
            route_names_of(lossy_text(files.last().1))
        }
    }
}

/// The names that do not end in `.` (group name prefixes).
pub open spec fn without_prefixes(names: Seq<Seq<char>>) -> Seq<Seq<char>>
    decreases names.len(),
{
    if names.len() == 0 {
        seq![]
    } else {
        let before = without_prefixes(names.drop_last());
        let n = names.last();
        if n.len() > 0 && n.last() == '.' {
            before
        } else {
            before.push(n)
        }
    }
}

proof fn lemma_without_prefixes(names: Seq<Seq<char>>)
    ensures
        forall|y: Seq<char>| #[trigger] without_prefixes(names).contains(y) <==> (names.contains(y) && !(y.len()
            > 0 && y.last() == '.')),
        strictly_sorted(names) ==> strictly_sorted(without_prefixes(names)),
    decreases names.len(),
{
    if names.len() > 0 {
        let init = names.drop_last();
        let n = names.last();
        let before = without_prefixes(init);
        let r = without_prefixes(names);
        lemma_without_prefixes(init);
        assert forall|y: Seq<char>| names.contains(y) <==> (init.contains(y) || y == n) by {
            if names.contains(y) {
                let k = choose|k: int| 0 <= k < names.len() && names[k] == y;
                if k < names.len() - 1 {
                    assert(init[k] == y);
                }
            }
            if init.contains(y) {
                let k = choose|k: int| 0 <= k < init.len() && init[k] == y;
                assert(names[k] == y);
            }
        }
        let keep = !(n.len() > 0 && n.last() == '.');
        assert(r == if keep { before.push(n) } else { before });
        assert forall|y: Seq<char>| r.contains(y) <==> (before.contains(y) || (keep && y == n)) by {
            if keep {
                if r.contains(y) {
                    let k = choose|k: int| 0 <= k < r.len() && r[k] == y;
                    if k < before.len() {
                        assert(before[k] == y);
                    }
                }
                if before.contains(y) {
                    let k = choose|k: int| 0 <= k < before.len() && before[k] == y;
                    assert(r[k] == y);
                }
                if y == n {
                    assert(r[before.len() as int] == y);
                }
            }
        }
        assert forall|y: Seq<char>| #[trigger] r.contains(y) <==> (names.contains(y) && !(y.len() > 0 && y.last()
            == '.')) by {
            assert(before.contains(y) <==> (init.contains(y) && !(y.len() > 0 && y.last() == '.')));
        }
        if keep && strictly_sorted(names) {
            assert(strictly_sorted(init)) by {
                assert forall|i: int, j: int| 0 <= i < j < init.len() implies crate::sorted::lex_lt(
                    #[trigger] init[i],
                    #[trigger] init[j],
                ) by {
                    assert(init[i] == names[i] && init[j] == names[j]);
                }
            }
            assert forall|i: int, j: int| 0 <= i < j < r.len() implies crate::sorted::lex_lt(
                #[trigger] r[i],
                #[trigger] r[j],
            ) by {
                if j < before.len() {
                    assert(r[i] == before[i] && r[j] == before[j]);
                } else {
                    let x = before[i];
                    assert(r[i] == x);
                    assert(before.contains(x));
                    assert(before.contains(x) <==> (init.contains(x) && !(x.len() > 0 && x.last() == '.')));
                    let k = choose|k: int| 0 <= k < init.len() && init[k] == x;
                    assert(names[k] == init[k]);
                    assert(r[j] == names[names.len() - 1]);
                }
            }
        }
        if !keep && strictly_sorted(names) {
            assert(strictly_sorted(init)) by {
                assert forall|i: int, j: int| 0 <= i < j < init.len() implies crate::sorted::lex_lt(
                    #[trigger] init[i],
                    #[trigger] init[j],
                ) by {
                    assert(init[i] == names[i] && init[j] == names[j]);
                }
            }
        }
    }
}

/// The route names a catalog offers are sorted, each once, none is a group
/// name prefix (ending in `.`), and each is declared in a routes file other
/// than `console.php`.
pub proof fn lemma_route_names_offered(routes: Seq<(Seq<char>, Seq<u8>)>)
    ensures
        strictly_sorted(without_prefixes(sorted_set(all_routes(routes)))),
        forall|y: Seq<char>|
            without_prefixes(sorted_set(all_routes(routes))).contains(y) <==> (all_routes(routes).contains(y)
                && !(y.len() > 0 && y.last() == '.')),
{
    let all = all_routes(routes);
    lemma_sorted_set(all);
    lemma_without_prefixes(sorted_set(all));
    assert forall|y: Seq<char>|
        without_prefixes(sorted_set(all)).contains(y) <==> (all.contains(y) && !(y.len() > 0 && y.last()
            == '.')) by {
        assert(sorted_set(all).contains(y) <==> all.contains(y));
    }
}

/// The top-level keys under `top` of the configuration file `stem`, or none
/// when there is no such file.
pub open spec fn keys_in_config(cfg: Seq<(Seq<char>, Seq<u8>)>, stem: Seq<char>, top: Seq<char>) -> Seq<Seq<char>> {
    match assoc_get(cfg, stem) {
        Some(b) => config_keys_of(lossy_text(b), top),
        None => seq![],
    }
}

/// The queue names of the configuration file `queue`.
pub open spec fn queues_in_config(cfg: Seq<(Seq<char>, Seq<u8>)>) -> Seq<Seq<char>> {
    match assoc_get(cfg, "queue"@) {
        Some(b) => sorted_set(queue_names_of(lossy_text(b))),
        None => seq![],
    }
}

/// The catalog of a project, set by set.
pub open spec fn catalog_of(p: ProjectView) -> Seq<Seq<Seq<char>>> {
    seq![
        sorted_set(stems_of(p.models)),
        sorted_set(stems_of(p.seeders)),
        sorted_set(all_fqns(p.providers)),
        sorted_set(all_dotted(p.config)),
        keys_in_config(p.config, "queue"@, "connections"@),
        keys_in_config(p.config, "database"@, "connections"@),
        keys_in_config(p.config, "cache"@, "stores"@),
        keys_in_config(p.config, "filesystems"@, "disks"@),
        keys_in_config(p.config, "auth"@, "guards"@),
        sorted_set(all_test_names(p.tests)),
        sorted_list(migrations_of(p.migration_names)),
        sorted_set(envs_of(p.root_names)),
        sorted_set(stems_of(p.events)),
        sorted_set(all_tables(p.migrations)),
        sorted_set(all_suites(p.phpunit)),
        sorted_set(all_test_groups(p.tests)),
        without_prefixes(sorted_set(all_routes(p.routes))),
        queues_in_config(p.config),
    ]
}

/// What a catalog built from a project offers, parameter by parameter:
/// model classes for `model`; seeder classes for `db:seed --class`; the
/// service providers for `vendor:publish --provider`; the queue connections
/// of `config/queue.php` for `connection`; the database connections of
/// `config/database.php` for the `--database` option; the stores, disks and
/// guards of `config/cache.php`, `config/filesystems.php` and
/// `config/auth.php`; dotted configuration keys for `config:show config`;
/// test names for `test --filter`; environments for `env`; event classes for
/// `make:listener --event`; table names for `table`; test suites for
/// `testsuite`; test groups for `test --group`/`--exclude-group`; route
/// names for `route:list --name`; and the queue names for `queue`.
pub proof fn lemma_catalog_offers(p: ProjectView, subcmd: Seq<char>, kind: Kind)
    ensures
        catalog_values(catalog_of(p), subcmd, kind, "model"@) == sorted_set(stems_of(p.models)),
        subcmd == "db:seed"@ ==> catalog_values(catalog_of(p), subcmd, kind, "class"@) == sorted_set(
            stems_of(p.seeders),
        ),
        subcmd == "vendor:publish"@ ==> catalog_values(catalog_of(p), subcmd, kind, "provider"@) == sorted_set(
            all_fqns(p.providers),
        ),
        catalog_values(catalog_of(p), subcmd, kind, "connection"@) == keys_in_config(
            p.config,
            "queue"@,
            "connections"@,
        ),
        kind == Kind::Option ==> catalog_values(catalog_of(p), subcmd, kind, "database"@) == keys_in_config(
            p.config,
            "database"@,
            "connections"@,
        ),
        catalog_values(catalog_of(p), subcmd, kind, "store"@) == keys_in_config(p.config, "cache"@, "stores"@),
        catalog_values(catalog_of(p), subcmd, kind, "disk"@) == keys_in_config(p.config, "filesystems"@, "disks"@),
        catalog_values(catalog_of(p), subcmd, kind, "guard"@) == keys_in_config(p.config, "auth"@, "guards"@),
        subcmd == "config:show"@ ==> catalog_values(catalog_of(p), subcmd, kind, "config"@) == sorted_set(
            all_dotted(p.config),
        ),
        subcmd == "test"@ ==> catalog_values(catalog_of(p), subcmd, kind, "filter"@) == sorted_set(
            all_test_names(p.tests),
        ),
        catalog_values(catalog_of(p), subcmd, kind, "env"@) == sorted_set(envs_of(p.root_names)),
        subcmd == "make:listener"@ ==> catalog_values(catalog_of(p), subcmd, kind, "event"@) == sorted_set(
            stems_of(p.events),
        ),
        catalog_values(catalog_of(p), subcmd, kind, "table"@) == sorted_set(all_tables(p.migrations)),
        catalog_values(catalog_of(p), subcmd, kind, "testsuite"@) == sorted_set(all_suites(p.phpunit)),
        subcmd == "test"@ ==> catalog_values(catalog_of(p), subcmd, kind, "group"@) == sorted_set(
            all_test_groups(p.tests),
        ),
        subcmd == "test"@ ==> catalog_values(catalog_of(p), subcmd, kind, "exclude-group"@) == sorted_set(
            all_test_groups(p.tests),
        ),
        subcmd == "route:list"@ ==> catalog_values(catalog_of(p), subcmd, kind, "name"@) == without_prefixes(
            sorted_set(all_routes(p.routes)),
        ),
        catalog_values(catalog_of(p), subcmd, kind, "queue"@) == queues_in_config(p.config),
{
    reveal_strlit("model");
    reveal_strlit("class");
    reveal_strlit("provider");
    reveal_strlit("connection");
    reveal_strlit("database");
    reveal_strlit("store");
    reveal_strlit("disk");
    reveal_strlit("guard");
    reveal_strlit("config");
    reveal_strlit("filter");
    reveal_strlit("path");
    reveal_strlit("method");
    reveal_strlit("env");
    reveal_strlit("event");
    reveal_strlit("table");
    reveal_strlit("testsuite");
    reveal_strlit("group");
    reveal_strlit("exclude-group");
    reveal_strlit("name");
    reveal_strlit("queue");
    reveal_strlit("db:seed");
    reveal_strlit("vendor:publish");
    reveal_strlit("config:show");
    reveal_strlit("test");
    reveal_strlit("route:list");
    reveal_strlit("make:listener");
    reveal_strlit("migrate");
    assert("model"@[0] == 'm' && "model"@[1] == 'o');
    assert("class"@[0] == 'c' && "class"@[1] == 'l');
    assert("provider"@[0] == 'p' && "provider"@[1] == 'r');
    assert("connection"@[0] == 'c' && "connection"@[1] == 'o');
    assert("database"@[0] == 'd' && "database"@[1] == 'a');
    assert("store"@[0] == 's' && "store"@[1] == 't');
    assert("disk"@[0] == 'd' && "disk"@[1] == 'i');
    assert("guard"@[0] == 'g' && "guard"@[1] == 'u');
    assert("config"@[0] == 'c' && "config"@[1] == 'o');
    assert("config"@[3] == 'f' && "connection"@[3] == 'n');
    assert("filter"@[0] == 'f' && "filter"@[1] == 'i');
    assert("path"@[0] == 'p' && "path"@[1] == 'a');
    assert("method"@[0] == 'm' && "method"@[1] == 'e');
    assert("env"@[0] == 'e' && "env"@[1] == 'n');
    assert("event"@[0] == 'e' && "event"@[1] == 'v');
    assert("table"@[0] == 't' && "table"@[1] == 'a');
    assert("testsuite"@[0] == 't' && "testsuite"@[1] == 'e');
    assert("group"@[0] == 'g' && "group"@[1] == 'r');
    assert("exclude-group"@[0] == 'e' && "exclude-group"@[1] == 'x');
    assert("name"@[0] == 'n' && "name"@[1] == 'a');
    assert("queue"@[0] == 'q' && "queue"@[1] == 'u');
}

fn push_all(out: &mut Vec<String>, more: Vec<String>)
    ensures
        strs_of(final(out)@) == strs_of(old(out)@) + strs_of(more@),
{
    let ghost before = strs_of(out@);
    let mut k: usize = 0;
    while k < more.len()
        invariant
            k <= more.len(),
            strs_of(out@) == before + strs_of(more@).take(k as int),
        decreases more.len() - k,
    {
        let ghost b = out@;
        out.push(more[k].clone());
        assert(strs_of(out@) == strs_of(b).push(more@[k as int]@));
        assert(strs_of(more@).take(k + 1) == strs_of(more@).take(k as int).push(more@[k as int]@));
        k = k + 1;
    }
    assert(strs_of(more@).take(more.len() as int) == strs_of(more@));
}

fn empty_strings() -> (r: Vec<String>)
    ensures
        strs_of(r@) == Seq::<Seq<char>>::empty(),
{
    let r: Vec<String> = Vec::new();
    assert(strs_of(r@) =~= Seq::<Seq<char>>::empty());
    r
}

fn provider_fqns(srcs: &Vec<Vec<u8>>) -> (r: Vec<String>)
    ensures
        strs_of(r@) == sorted_set(all_fqns(bytes_of(srcs@))),
{
    let ghost bs = bytes_of(srcs@);
    let mut all = empty_strings();
    let mut i: usize = 0;
    while i < srcs.len()
        invariant
            i <= srcs.len(),
            bs == bytes_of(srcs@),
            strs_of(all@) == all_fqns(bs.take(i as int)),
        decreases srcs.len() - i,
    {
        assert(bs.take(i + 1).drop_last() == bs.take(i as int));
        assert(bs.take(i + 1).last() == srcs@[i as int]@);
        push_all(&mut all, class_fqns(srcs[i].as_slice()));
        i = i + 1;
    }
    assert(bs.take(srcs.len() as int) == bs);
    sorted_set_exec(&all)
}

fn config_dotted_keys(cfg: &Vec<(String, Vec<u8>)>) -> (r: Vec<String>)
    ensures
        strs_of(r@) == sorted_set(all_dotted(named_bytes_of(cfg@))),
{
    let ghost bs = named_bytes_of(cfg@);
    let mut all = empty_strings();
    let mut i: usize = 0;
    while i < cfg.len()
        invariant
            i <= cfg.len(),
            bs == named_bytes_of(cfg@),
            strs_of(all@) == all_dotted(bs.take(i as int)),
        decreases cfg.len() - i,
    {
        assert(bs.take(i + 1).drop_last() == bs.take(i as int));
        assert(bs.take(i + 1).last() == (cfg@[i as int].0@, cfg@[i as int].1@));
        push_all(&mut all, config_file_dotted(&cfg[i].0, cfg[i].1.as_slice()));
        i = i + 1;
    }
    assert(bs.take(cfg.len() as int) == bs);
    sorted_set_exec(&all)
}

fn test_names_and_groups(srcs: &Vec<Vec<u8>>) -> (r: (Vec<String>, Vec<String>))
    ensures
        strs_of(r.0@) == sorted_set(all_test_names(bytes_of(srcs@))),
        strs_of(r.1@) == sorted_set(all_test_groups(bytes_of(srcs@))),
{
    let ghost bs = bytes_of(srcs@);
    let mut names = empty_strings();
    let mut groups = empty_strings();
    let mut i: usize = 0;
    while i < srcs.len()
        invariant
            i <= srcs.len(),
            bs == bytes_of(srcs@),
            strs_of(names@) == all_test_names(bs.take(i as int)),
            strs_of(groups@) == all_test_groups(bs.take(i as int)),
        decreases srcs.len() - i,
    {
        assert(bs.take(i + 1).drop_last() == bs.take(i as int));
        assert(bs.take(i + 1).last() == srcs@[i as int]@);
        let (n, g) = scan_tests(srcs[i].as_slice());
        push_all(&mut names, n);
        push_all(&mut groups, g);
        i = i + 1;
    }
    assert(bs.take(srcs.len() as int) == bs);
    (sorted_set_exec(&names), sorted_set_exec(&groups))
}

fn table_names(srcs: &Vec<Vec<u8>>) -> (r: Vec<String>)
    ensures
        strs_of(r@) == sorted_set(all_tables(bytes_of(srcs@))),
{
    let ghost bs = bytes_of(srcs@);
    let needle = "Schema::create(".as_bytes();
    proof {
        reveal_strlit("Schema::create(");
    }
    assert(needle@.len() > 0);
    let mut all = empty_strings();
    let mut i: usize = 0;
    while i < srcs.len()
        invariant
            i <= srcs.len(),
            bs == bytes_of(srcs@),
            needle@ == encode_utf8("Schema::create("@),
            needle@.len() > 0,
            strs_of(all@) == all_tables(bs.take(i as int)),
        decreases srcs.len() - i,
    {
        assert(bs.take(i + 1).drop_last() == bs.take(i as int));
        assert(bs.take(i + 1).last() == srcs@[i as int]@);
        push_all(&mut all, scan_quoted_calls(srcs[i].as_slice(), needle));
        i = i + 1;
    }
    assert(bs.take(srcs.len() as int) == bs);
    sorted_set_exec(&all)
}

fn testsuite_names(srcs: &Vec<Vec<u8>>) -> (r: Vec<String>)
    ensures
        strs_of(r@) == sorted_set(all_suites(bytes_of(srcs@))),
{
    let ghost bs = bytes_of(srcs@);
    let mut all = empty_strings();
    let mut i: usize = 0;
    while i < srcs.len()
        invariant
            i <= srcs.len(),
            bs == bytes_of(srcs@),
            strs_of(all@) == all_suites(bs.take(i as int)),
        decreases srcs.len() - i,
    {
        assert(bs.take(i + 1).drop_last() == bs.take(i as int));
        assert(bs.take(i + 1).last() == srcs@[i as int]@);
        push_all(&mut all, testsuite_names_in(srcs[i].as_slice()));
        i = i + 1;
    }
    assert(bs.take(srcs.len() as int) == bs);
    sorted_set_exec(&all)
}

fn route_names(files: &Vec<(String, Vec<u8>)>) -> (r: Vec<String>)
    ensures
        strs_of(r@) == without_prefixes(sorted_set(all_routes(named_bytes_of(files@)))),
{
    let ghost bs = named_bytes_of(files@);
    let mut all = empty_strings();
    let mut i: usize = 0;
    while i < files.len()
        invariant
            i <= files.len(),
            bs == named_bytes_of(files@),
            strs_of(all@) == all_routes(bs.take(i as int)),
        decreases files.len() - i,
    {
        assert(bs.take(i + 1).drop_last() == bs.take(i as int));
        assert(bs.take(i + 1).last() == (files@[i as int].0@, files@[i as int].1@));
        let name = str_chars(files[i].0.as_str());
        if is_lit(&name, "console.php") {
            assert(strs_of(all@) + Seq::<Seq<char>>::empty() == strs_of(all@));
        } else {
            push_all(&mut all, route_names_in(files[i].1.as_slice()));
        }
        i = i + 1;
    }
    assert(bs.take(files.len() as int) == bs);
    let set = sorted_set_exec(&all);
    let ghost ss = strs_of(set@);
    let mut out = empty_strings();
    let mut j: usize = 0;
    while j < set.len()
        invariant
            j <= set.len(),
            ss == strs_of(set@),
            strs_of(out@) == without_prefixes(ss.take(j as int)),
        decreases set.len() - j,
    {
        assert(ss.take(j + 1).drop_last() == ss.take(j as int));
        assert(ss.take(j + 1).last() == set@[j as int]@);
        let c = str_chars(set[j].as_str());
        if !(c.len() > 0 && c[c.len() - 1] == '.') {
            let ghost before = out@;
            out.push(set[j].clone());
            assert(strs_of(out@) == strs_of(before).push(set@[j as int]@));
        }
        j = j + 1;
    }
    assert(ss.take(set.len() as int) == ss);
    out
}

fn config_file<'a>(cfg: &'a Vec<(String, Vec<u8>)>, stem: &str) -> (r: Option<&'a Vec<u8>>)
    ensures
        match r {
            Some(b) => assoc_get(named_bytes_of(cfg@), stem@) == Some(b@),
            None => assoc_get(named_bytes_of(cfg@), stem@) is None,
        },
{
    let key = String::from_str(stem);
    proof {
        let a = named_bytes_of(cfg@);
        let b = keys_of(cfg@);
        assert forall|i: int| 0 <= i < a.len() implies a[i].0 == b[i].0 by {}
        lemma_key_index_keys(a, b, key@);
    }
    match find_key(cfg, &key) {
        Some(i) => Some(&cfg[i].1),
        None => None,
    }
}

fn keys_in_config_exec(cfg: &Vec<(String, Vec<u8>)>, stem: &str, top: &str) -> (r: Vec<String>)
    ensures
        strs_of(r@) == keys_in_config(named_bytes_of(cfg@), stem@, top@),
{
    match config_file(cfg, stem) {
        Some(b) => config_keys(b.as_slice(), top),
        None => empty_strings(),
    }
}

impl Catalog {
    /// Builds the catalog from what the project's files hold (see
    /// `catalog_of`).
    pub fn build(p: &ProjectFiles) -> (c: Catalog)
        ensures
            c@ == catalog_of(p@),
    {
        let (tests, groups) = test_names_and_groups(&p.tests);
        let queues = match config_file(&p.config, "queue") {
            Some(b) => queue_names(b.as_slice()),
            None => empty_strings(),
        };
        let c = Catalog::from_sets(
            class_stems(&p.models),
            class_stems(&p.seeders),
            provider_fqns(&p.providers),
            config_dotted_keys(&p.config),
            keys_in_config_exec(&p.config, "queue", "connections"),
            keys_in_config_exec(&p.config, "database", "connections"),
            keys_in_config_exec(&p.config, "cache", "stores"),
            keys_in_config_exec(&p.config, "filesystems", "disks"),
            keys_in_config_exec(&p.config, "auth", "guards"),
            tests,
            migration_paths(&p.migration_names),
            env_names(&p.root_names),
            class_stems(&p.events),
            table_names(&p.migrations),
            testsuite_names(&p.phpunit),
            groups,
            route_names(&p.routes),
            queues,
        );
        assert(c@ =~= catalog_of(p@));
        c
    }
}

} // verus!
