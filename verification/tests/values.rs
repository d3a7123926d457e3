use artisan_comp::bytes::defines_command;
use artisan_comp::collect::{extract, extract_from};
use artisan_comp::values::{Kind, Values};

const FIXTURE: &str = r#"<?php
class SyncCommand extends Command
{
    protected $signature = 'app:sync {source} {--mode=}';

    private const MODE_HIDDEN = 'hidden';
    private const EXTRA_MODES = ['debug', 'trace'];

    public function handle(): int
    {
        $src = $this->argument('source');
        if ($src === 'github' || $src == 'gitlab') {
            return 1;
        }
        if ($this->argument('source') !== 'bitbucket') {
            return 1;
        }
        if (in_array($this->argument('source'), ['svn', 'hg'], true)) {
            return 1;
        }
        if (!in_array($this->argument('source'), ['zip', 'rar'])) {
            return 1;
        }
        $n = match ($src) {
            'a', 'b' => 1,
            'c' => 2,
            default => 0,
        };
        switch ($this->option('mode')) {
            case 'fast':
                break;
            case 'slow':
                break;
        }
        $mode = $this->option('mode') ?? 'ignored-default';
        if ($mode === 'medium') {
            return 1;
        }
        if ('turbo' === $mode) {
            return 1;
        }
        if ($mode === self::MODE_HIDDEN) {
            return 1;
        }
        if (in_array($mode, self::EXTRA_MODES)) {
            return 1;
        }
        return 0;
    }
}
"#;

fn extract_fixture(src: &str) -> Values {
    let mut out = Values::new();
    let pending = extract_from(src.as_bytes(), &Vec::new(), &mut out);
    assert!(pending.is_none());
    out
}

#[test]
fn extracts_all_patterns() {
    let out = extract_fixture(FIXTURE);

    let source = out.get(&Kind::Argument, "source").expect("source values");
    for v in ["github", "gitlab", "bitbucket", "svn", "hg", "zip", "rar", "a", "b", "c"] {
        assert!(source.iter().any(|s| s == v), "missing argument value {v}: {source:?}");
    }

    let mode = out.get(&Kind::Option, "mode").expect("mode values");
    for v in ["fast", "slow", "medium", "turbo", "hidden", "debug", "trace"] {
        assert!(mode.iter().any(|s| s == v), "missing option value {v}: {mode:?}");
    }
    assert!(!mode.iter().any(|s| s == "ignored-default"));
}

#[test]
fn finds_command_definitions() {
    assert!(defines_command(FIXTURE.as_bytes(), "app:sync"));
    assert!(!defines_command(FIXTURE.as_bytes(), "app:other"));
    assert!(defines_command(
        br#"Artisan::command('mail:send {user}', function () {});"#,
        "mail:send"
    ));
}

const ENUM_SOURCE: &str = r#"<?php

namespace App\Enums;

enum Source: string
{
    case Github = 'github';
    case Gitlab = 'gitlab';
    case Svn = 'svn';
}
"#;

const ENUM_COMMAND: &str = r#"<?php

namespace App\Console\Commands;

use App\Enums\Source;

class SyncCommand extends Command
{
    protected $signature = 'app:sync {source} {--kind=}';

    public function handle(): int
    {
        if ($this->argument('source') === Source::Github->value) {
            return 1;
        }
        Source::tryFrom($this->option('kind'));
        if (in_array($this->argument('source'), array_column(Source::cases(), 'value'))) {
            return 1;
        }
        return 0;
    }
}
"#;

#[test]
fn resolves_enums_across_files() {
    let mut files: Vec<(String, Option<String>)> = Vec::new();
    let mut out = Values::new();
    let mut asked = Vec::new();
    loop {
        match extract_from(ENUM_COMMAND.as_bytes(), &files, &mut out) {
            None => break,
            Some(path) => {
                assert!(asked.len() < 5, "asked too often: {asked:?}");
                asked.push(path.clone());
                let text = if path == "app/Enums/Source.php" {
                    Some(ENUM_SOURCE.to_string())
                } else {
                    None
                };
                files.push((path, text));
            }
        }
    }
    assert_eq!(asked, vec!["app/Enums/Source.php".to_string()]);

    let source = out.get(&Kind::Argument, "source").expect("source values");
    for v in ["github", "gitlab", "svn"] {
        assert!(source.iter().any(|s| s == v), "missing enum value {v}: {source:?}");
    }
    let kind = out.get(&Kind::Option, "kind").expect("kind values");
    for v in ["github", "gitlab", "svn"] {
        assert!(kind.iter().any(|s| s == v), "missing tryFrom value {v}: {kind:?}");
    }
}

#[test]
fn unread_enum_file_leaves_values_untouched() {
    let mut out = Values::new();
    out.add((Kind::Option, "x".to_string()), "keep".to_string());
    let pending = extract_from(ENUM_COMMAND.as_bytes(), &Vec::new(), &mut out);
    assert_eq!(pending.as_deref(), Some("app/Enums/Source.php"));
    assert_eq!(out.get(&Kind::Option, "x").unwrap(), &vec!["keep".to_string()]);
    assert!(out.get(&Kind::Argument, "source").is_none());
}

#[test]
fn missing_enum_file_resolves_to_nothing() {
    let files = vec![("app/Enums/Source.php".to_string(), None)];
    let mut out = Values::new();
    assert!(extract_from(ENUM_COMMAND.as_bytes(), &files, &mut out).is_none());
    assert!(out.get(&Kind::Option, "kind").is_none());
}

#[test]
fn extract_reads_only_sources_defining_the_command() {
    let other = FIXTURE.replace("app:sync", "app:other").replace("'fast'", "'other-fast'");
    let sources = vec![other.into_bytes(), FIXTURE.as_bytes().to_vec()];
    let out = extract(&sources, "app:sync", &Vec::new()).expect("no enum needed");
    let mode = out.get(&Kind::Option, "mode").expect("mode values");
    assert!(mode.iter().any(|s| s == "fast"));
    assert!(!mode.iter().any(|s| s == "other-fast"));

    let none = extract(&sources, "app:missing", &Vec::new()).expect("nothing to read");
    assert!(none.get(&Kind::Option, "mode").is_none());
}

#[test]
fn extract_asks_for_enum_files_then_resolves() {
    let sources = vec![FIXTURE.as_bytes().to_vec(), ENUM_COMMAND.as_bytes().to_vec()];
    let asked = extract(&sources, "app:sync", &Vec::new());
    assert_eq!(asked.err().as_deref(), Some("app/Enums/Source.php"));

    let files = vec![("app/Enums/Source.php".to_string(), Some(ENUM_SOURCE.to_string()))];
    let out = extract(&sources, "app:sync", &files).expect("all files read");
    let source = out.get(&Kind::Argument, "source").expect("source values");
    for v in ["github", "gitlab", "svn", "bitbucket", "zip"] {
        assert!(source.iter().any(|s| s == v), "missing value {v}: {source:?}");
    }
    assert!(out.get(&Kind::Option, "kind").is_some());
    assert!(out.get(&Kind::Option, "mode").is_some());
}

const RULES_COMMAND: &str = r#"<?php
use Illuminate\Validation\Rule;

class ImportCommand extends Command
{
    protected $signature = 'app:import {source} {--mode=} {--format=}';

    public function handle(): int
    {
        $validator = Validator::make($this->options(), [
            'mode' => 'required|in:fast,slow',
            'format' => ['required', Rule::in(['csv', 'json'])],
            'other' => 'required|string',
        ]);
        return 0;
    }
}
"#;

#[test]
fn validation_rules_give_values() {
    let out = extract_fixture(RULES_COMMAND);
    let mode = out.get(&Kind::Option, "mode").expect("mode values");
    assert_eq!(mode, &vec!["fast".to_string(), "slow".to_string()]);
    let format = out.get(&Kind::Option, "format").expect("format values");
    assert_eq!(format, &vec!["csv".to_string(), "json".to_string()]);
    assert!(out.get(&Kind::Option, "other").is_none());
    // The rule names the parameter, not its kind.
    assert!(out.get(&Kind::Argument, "mode").is_some());
}

const PROMPT_COMMAND: &str = r#"<?php
use function Laravel\Prompts\select;

class DeployCommand extends Command
{
    protected $signature = 'app:deploy {--env=} {--region=} {--tier=}';

    public function handle(): int
    {
        $env = $this->option('env') ?? $this->choice('Which?', ['local', 'prod']);
        $region = $this->option('region') ?: select('Region', ['eu', 'us']);
        $tier = $this->option('tier') ?? 'basic';
        return 0;
    }
}
"#;

#[test]
fn prompt_fallbacks_give_values() {
    let out = extract_fixture(PROMPT_COMMAND);
    let env = out.get(&Kind::Option, "env").expect("env values");
    assert_eq!(env, &vec!["local".to_string(), "prod".to_string()]);
    let region = out.get(&Kind::Option, "region").expect("region values");
    assert_eq!(region, &vec!["eu".to_string(), "us".to_string()]);
    assert!(out.get(&Kind::Option, "tier").is_none());
}

const COMPLETE_COMMAND: &str = r#"<?php
class ExportCommand extends Command
{
    protected $signature = 'app:export {target} {--format=}';

    public function complete(CompletionInput $input, CompletionSuggestions $suggestions): void
    {
        if ($input->mustSuggestOptionValuesFor('format')) {
            $suggestions->suggestValues(['json', 'xml']);
            return;
        }
        if ($input->mustSuggestArgumentValuesFor('target')) {
            $suggestions->suggestValues(['s3', 'local']);
        }
    }
}
"#;

#[test]
fn completion_overrides_give_values() {
    let out = extract_fixture(COMPLETE_COMMAND);
    let format = out.get(&Kind::Option, "format").expect("format values");
    assert_eq!(format, &vec!["json".to_string(), "xml".to_string()]);
    let target = out.get(&Kind::Argument, "target").expect("target values");
    assert_eq!(target, &vec!["s3".to_string(), "local".to_string()]);
}
