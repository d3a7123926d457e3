use artisan_comp::args::{complete_args, ArgsStep, Native};
use artisan_comp::cache::{bump, fnv_hex, is_stale, native_cache_fresh, newest_of};
use artisan_comp::command::{
    clean, command_lines, complete_commands, hints, CommandInfo, CommandList, DefaultValue,
    Definition, Param, ParamEntry,
};
use artisan_comp::native::{enabled, native_values};
use artisan_comp::values::{Kind, Values};
use artisan_comp::wellknown::Catalog;

fn param(name: &str) -> Param {
    Param {
        name: Some(name.to_string()),
        shortcut: None,
        description: None,
        accept_value: None,
        is_value_required: None,
        is_multiple: None,
        is_array: None,
        is_required: None,
        default: None,
    }
}

fn sync_list() -> CommandList {
    let mut source = param("source");
    source.description = Some("Where\tfrom".to_string());
    source.is_required = Some(true);
    let mut target = param("target");
    target.is_array = Some(true);
    let mut mode = param("--mode");
    mode.shortcut = Some("-m".to_string());
    mode.accept_value = Some(true);
    mode.description = Some("Mode".to_string());
    let mut force = param("--force");
    force.description = Some("Force it".to_string());
    let help = param("--help");
    CommandList {
        commands: Some(vec![
            CommandInfo {
                name: Some("app:sync".to_string()),
                description: Some("Sync\nthings".to_string()),
                definition: Some(Definition {
                    arguments: Some(vec![
                        ParamEntry { key: "command".to_string(), param: Some(param("command")) },
                        ParamEntry { key: "source".to_string(), param: Some(source) },
                        ParamEntry { key: "target".to_string(), param: Some(target) },
                    ]),
                    options: Some(vec![
                        ParamEntry { key: "force".to_string(), param: Some(force) },
                        ParamEntry { key: "help".to_string(), param: Some(help) },
                        ParamEntry { key: "mode".to_string(), param: Some(mode) },
                    ]),
                }),
            },
            CommandInfo {
                name: Some("_complete".to_string()),
                description: Some("hidden".to_string()),
                definition: None,
            },
            CommandInfo { name: Some("app:other".to_string()), description: None, definition: None },
        ]),
    }
}

fn words(ws: &[&str]) -> Vec<String> {
    ws.iter().map(|w| w.to_string()).collect()
}

fn done(step: ArgsStep) -> Option<String> {
    match step {
        ArgsStep::Done(out) => out,
        ArgsStep::NeedNative => panic!("runtime values were not expected"),
    }
}

#[test]
fn lists_visible_commands() {
    let list = sync_list();
    assert_eq!(command_lines(&list), "app:sync\tSync things\napp:other\t\n");
    assert_eq!(
        complete_commands(&list),
        "Artisan Command\napp:sync\tSync things\napp:other\t\n"
    );
}

#[test]
fn cleans_and_hints() {
    assert_eq!(clean("a\tb\nc"), "a b c");
    let mut p = param("--queue");
    p.accept_value = Some(true);
    p.is_value_required = Some(false);
    p.is_multiple = Some(true);
    p.default = Some(DefaultValue::Str("default".to_string()));
    assert_eq!(hints(&p), " [optional value] [repeatable] (default: default)");
    p.default = Some(DefaultValue::Bool(false));
    assert_eq!(hints(&p), " [optional value] [repeatable]");
    p.default = Some(DefaultValue::Number("3".to_string()));
    p.accept_value = Some(false);
    p.is_multiple = None;
    assert_eq!(hints(&p), " (default: 3)");
}

#[test]
fn offers_namespace_commands_for_unknown_command() {
    let list = sync_list();
    let out = done(complete_args(
        &list,
        3,
        &words(&["artisan", "app", ""]),
        &Values::new(),
        &Catalog::empty(),
        &Native::Off,
    ));
    assert_eq!(out.as_deref(), Some("Artisan Namespace\napp:sync\tSync things\napp:other\t\n"));
    let none = done(complete_args(
        &list,
        3,
        &words(&["artisan", "zzz", ""]),
        &Values::new(),
        &Catalog::empty(),
        &Native::Off,
    ));
    assert_eq!(none.as_deref(), Some(""));
}

#[test]
fn lists_arguments_with_values_and_unused_options() {
    let list = sync_list();
    let mut vals = Values::new();
    vals.add((Kind::Argument, "source".to_string()), "github".to_string());
    let out = done(complete_args(
        &list,
        3,
        &words(&["artisan", "app:sync", ""]),
        &vals,
        &Catalog::empty(),
        &Native::Off,
    ))
    .unwrap();
    assert_eq!(
        out,
        "Artisan Args\n<source>\tWhere from\ngithub\t<source> value\n<target...>\t\n--force\tForce it\n--mode=\t(-m) Mode\n-m=\tMode\n"
    );

    // A filled positional and a used option drop out.
    let out = done(complete_args(
        &list,
        5,
        &words(&["artisan", "app:sync", "github", "--force", ""]),
        &vals,
        &Catalog::empty(),
        &Native::Off,
    ))
    .unwrap();
    assert_eq!(out, "Artisan Args\n<target...>\t\n--mode=\t(-m) Mode\n-m=\tMode\n");
}

#[test]
fn completes_option_values_inline_and_after_space() {
    let list = sync_list();
    let mut vals = Values::new();
    vals.add((Kind::Option, "mode".to_string()), "fast".to_string());
    vals.add((Kind::Option, "mode".to_string()), "slow".to_string());
    let inline = done(complete_args(
        &list,
        3,
        &words(&["artisan", "app:sync", "--mode=f"]),
        &vals,
        &Catalog::empty(),
        &Native::Off,
    ))
    .unwrap();
    assert_eq!(
        inline,
        "Artisan --mode\n--mode=fast\tvalue for --mode\n--mode=slow\tvalue for --mode\n"
    );
    let spaced = done(complete_args(
        &list,
        4,
        &words(&["artisan", "app:sync", "-m", ""]),
        &vals,
        &Catalog::empty(),
        &Native::Off,
    ))
    .unwrap();
    assert_eq!(spaced, "Artisan --mode\nfast\tvalue for --mode\nslow\tvalue for --mode\n");
}

#[test]
fn asks_for_runtime_values_only_when_static_ones_are_missing() {
    let list = sync_list();
    let w = words(&["artisan", "app:sync", "--mode="]);
    match complete_args(&list, 3, &w, &Values::new(), &Catalog::empty(), &Native::Pending) {
        ArgsStep::NeedNative => {}
        ArgsStep::Done(_) => panic!("expected a request for runtime values"),
    }
    let fetched = Native::Ready(vec!["turbo".to_string()]);
    let out = done(complete_args(&list, 3, &w, &Values::new(), &Catalog::empty(), &fetched)).unwrap();
    assert_eq!(out, "Artisan --mode\n--mode=turbo\tvalue for --mode\n");
}

#[test]
fn no_completion_without_a_command_word() {
    let list = sync_list();
    let out = done(complete_args(
        &list,
        3,
        &words(&["artisan", "", ""]),
        &Values::new(),
        &Catalog::empty(),
        &Native::Off,
    ));
    assert!(out.is_none());
}

#[test]
fn fnv_hex_known_values() {
    assert_eq!(fnv_hex(b""), "cbf29ce484222325");
    assert_eq!(fnv_hex(b"a"), "af63dc4c8601ec8c");
    assert_eq!(fnv_hex(b"foobar").len(), 16);
}

#[test]
fn staleness_rules() {
    assert!(is_stale(None, Some(10), None));
    assert!(is_stale(Some(5), None, None));
    assert!(is_stale(Some(5), Some(0), None));
    assert!(is_stale(Some(5), Some(10), Some(6)));
    assert!(!is_stale(Some(5), Some(10), Some(5)));
    assert!(!is_stale(Some(5), Some(10), None));
    let mut newest = None;
    bump(&mut newest, Some(3));
    bump(&mut newest, None);
    bump(&mut newest, Some(2));
    assert_eq!(newest, Some(3));
    assert_eq!(newest_of(&[None, Some(-4), Some(7), Some(1)]), Some(7));
}

#[test]
fn values_cache_round_trip() {
    let mut vals = Values::new();
    vals.add((Kind::Argument, "source".to_string()), "github".to_string());
    vals.add((Kind::Option, "mode".to_string()), "fast".to_string());
    vals.add((Kind::Argument, "source".to_string()), "gitlab".to_string());
    let text = vals.to_cache_text();
    let back = Values::from_cache_text(&text);
    assert_eq!(
        back.get(&Kind::Argument, "source").unwrap(),
        &vec!["github".to_string(), "gitlab".to_string()]
    );
    assert_eq!(back.get(&Kind::Option, "mode").unwrap(), &vec!["fast".to_string()]);
}

#[test]
fn values_are_kept_once_and_clean() {
    let mut vals = Values::new();
    let key = (Kind::Option, "mode".to_string());
    vals.add(key.clone(), "fast".to_string());
    vals.add(key.clone(), "fast".to_string());
    vals.add(key.clone(), String::new());
    vals.add(key.clone(), "a\tb".to_string());
    vals.add(key.clone(), "a\nb".to_string());
    assert_eq!(vals.get(&Kind::Option, "mode").unwrap(), &vec!["fast".to_string()]);
    assert!(vals.get(&Kind::Argument, "mode").is_none());
}

#[test]
fn runtime_values_from_complete_output() {
    assert!(enabled(Some("1")));
    assert!(enabled(Some("yes")));
    assert!(!enabled(Some("no")));
    assert!(!enabled(None));
    let out = b"home\nadmin.dashboard\tRoute\n  home  \n\n";
    assert_eq!(native_values(out), vec!["home".to_string(), "admin.dashboard".to_string()]);
}

#[test]
fn static_values_win_over_runtime_values() {
    let list = sync_list();
    let mut vals = Values::new();
    vals.add((Kind::Option, "mode".to_string()), "fast".to_string());
    let w = words(&["artisan", "app:sync", "--mode="]);
    let off = done(complete_args(&list, 3, &w, &vals, &Catalog::empty(), &Native::Off));
    let pending = done(complete_args(&list, 3, &w, &vals, &Catalog::empty(), &Native::Pending));
    let fetched = Native::Ready(vec!["turbo".to_string()]);
    let ready = done(complete_args(&list, 3, &w, &vals, &Catalog::empty(), &fetched));
    assert_eq!(off.as_deref(), Some("Artisan --mode\n--mode=fast\tvalue for --mode\n"));
    assert_eq!(pending, off);
    assert_eq!(ready, off);
}

#[test]
fn filled_arguments_are_not_offered_again() {
    let mut list = sync_list();
    if let Some(cmds) = list.commands.as_mut() {
        if let Some(def) = cmds[0].definition.as_mut() {
            if let Some(args) = def.arguments.as_mut() {
                if let Some(p) = args[2].param.as_mut() {
                    p.is_array = Some(false);
                }
            }
        }
    }
    let out = done(complete_args(
        &list,
        5,
        &words(&["artisan", "app:sync", "github", "backup", ""]),
        &Values::new(),
        &Catalog::empty(),
        &Native::Off,
    ))
    .unwrap();
    assert_eq!(out, "Artisan Args\n--force\tForce it\n--mode=\t(-m) Mode\n-m=\tMode\n");
}

fn test_list(options: Option<Vec<ParamEntry>>) -> CommandList {
    CommandList {
        commands: Some(vec![CommandInfo {
            name: Some("test".to_string()),
            description: Some("Run the application tests".to_string()),
            definition: Some(Definition { arguments: None, options }),
        }]),
    }
}

#[test]
fn test_command_offers_forwarded_phpunit_options() {
    let list = test_list(None);
    let out = done(complete_args(
        &list,
        3,
        &words(&["artisan", "test", ""]),
        &Values::new(),
        &Catalog::empty(),
        &Native::Off,
    ))
    .unwrap();
    assert_eq!(
        out,
        "Artisan Args\n--filter=\tFilter which tests to run\n--group=\tOnly run tests from the specified group(s)\n--exclude-group=\tExclude tests from the specified group(s)\n--testsuite=\tOnly run tests from the specified test suite(s)\n"
    );

    // One already typed drops out, and it takes the next word as its value.
    let out = done(complete_args(
        &list,
        5,
        &words(&["artisan", "test", "--filter", "Users", ""]),
        &Values::new(),
        &Catalog::empty(),
        &Native::Off,
    ))
    .unwrap();
    assert!(!out.contains("--filter="));
    assert!(out.contains("--group="));

    // A declared option is listed from the definition, not twice.
    let mut filter = param("--filter");
    filter.accept_value = Some(true);
    filter.description = Some("Declared".to_string());
    let list = test_list(Some(vec![ParamEntry { key: "filter".to_string(), param: Some(filter) }]));
    let out = done(complete_args(
        &list,
        3,
        &words(&["artisan", "test", ""]),
        &Values::new(),
        &Catalog::empty(),
        &Native::Off,
    ))
    .unwrap();
    assert_eq!(out.matches("--filter=").count(), 1);
    assert!(out.contains("--filter=\tDeclared\n"));

    // Other commands get none of them.
    let out = done(complete_args(
        &sync_list(),
        3,
        &words(&["artisan", "app:sync", ""]),
        &Values::new(),
        &Catalog::empty(),
        &Native::Off,
    ))
    .unwrap();
    assert!(!out.contains("--testsuite="));
}

#[test]
fn forwarded_option_values_come_from_the_catalog() {
    let list = test_list(None);
    let mut none = Native::Pending;
    let step = complete_args(
        &list,
        3,
        &words(&["artisan", "test", "--group="]),
        &Values::new(),
        &Catalog::empty(),
        &none,
    );
    assert!(matches!(step, ArgsStep::NeedNative));
    none = Native::Off;
    let out = done(complete_args(
        &list,
        3,
        &words(&["artisan", "test", "--group="]),
        &Values::new(),
        &Catalog::empty(),
        &none,
    ));
    assert!(out.unwrap().starts_with("Artisan Args\n"));
}

#[test]
fn runtime_values_are_reused_for_a_minute() {
    let t: i128 = 1_000_000_000_000;
    assert!(native_cache_fresh(Some(t), t));
    assert!(native_cache_fresh(Some(t), t + 59_999_999_999));
    assert!(!native_cache_fresh(Some(t), t + 60_000_000_000));
    assert!(!native_cache_fresh(Some(t + 1), t));
    assert!(!native_cache_fresh(None, t));
    assert!(!native_cache_fresh(Some(i128::MIN), i128::MAX));
}
