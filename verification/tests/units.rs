//! Unit-level behavior: glob matching, pattern splitting, the exclusion
//! decision, path handling, output naming, materialization and the
//! configuration surface.

use jockey_cli::cli::{Commands, Config, OutputFormat};
use jockey_cli::filter::IgnoreRuleSet;
use jockey_cli::glob::glob_match;
use jockey_cli::materialize::{assemble_records, Reading};
use jockey_cli::naming::candidate_filename;
use jockey_cli::paths::{basename, join_path, parent_dir};
use jockey_cli::root::directory_is_root;
use jockey_cli::text::trim;
use jockey_cli::tree::TreeBuilder;
use jockey_cli::walker::DirChild;
use jockey_cli::JockeyError;

fn child(name: &str, is_dir: bool) -> DirChild {
    DirChild { name: String::from(name), is_dir }
}

fn generate_config(path: Option<&str>, flags: (bool, bool, bool), exclude: Option<&str>) -> Config {
    let (json, txt, yaml) = flags;
    Config {
        command: Commands::Generate {
            path: path.map(String::from),
            md: true,
            json,
            txt,
            yaml,
            exclude: exclude.map(String::from),
            parallel: false,
            verbose: false,
        },
    }
}

#[test]
fn glob_matches_stars_and_question_marks() {
    assert!(glob_match("*.tmp", "junk.tmp"));
    assert!(!glob_match("*.tmp", "junk.tmp.bak"));
    assert!(glob_match("*", ""));
    assert!(glob_match("a?c", "abc"));
    assert!(!glob_match("a?c", "ac"));
    assert!(glob_match("*.t*", "x.tar.gz"));
    assert!(!glob_match("", "x"));
    assert!(glob_match("", ""));
}

#[test]
fn glob_matches_character_classes() {
    assert!(glob_match("[ab]c", "ac"));
    assert!(glob_match("[ab]c", "bc"));
    assert!(!glob_match("[ab]c", "cc"));
    assert!(glob_match("[!a]c", "bc"));
    assert!(!glob_match("[!a]c", "ac"));
    assert!(glob_match("x[0-9]", "x5"));
    assert!(!glob_match("x[0-9]", "xa"));
    assert!(glob_match("[a-cx]y", "xy"));
    assert!(glob_match("*.[ch]", "main.c"));
    assert!(!glob_match("*.[ch]", "main.rs"));
}

#[test]
fn malformed_classes_never_match_and_never_abort() {
    // An unclosed or empty class makes that one pattern match nothing.
    assert!(!glob_match("[ab", "a"));
    assert!(!glob_match("[]x", "x"));
    // In a rule set, the malformed pattern is inert while the others
    // still apply.
    let user = String::from("[oops,*.tmp");
    let rules = IgnoreRuleSet::new(Some(&user));
    assert!(rules.is_excluded("junk.tmp", "junk.tmp", false));
    assert!(!rules.is_excluded("kept.txt", "kept.txt", false));
}

#[test]
fn trim_strips_ascii_whitespace() {
    assert_eq!(trim("  spaced  "), "spaced");
    assert_eq!(trim("\t tabbed\r\n"), "tabbed");
    assert_eq!(trim("plain"), "plain");
    assert_eq!(trim("   "), "");
}

#[test]
fn user_patterns_are_split_trimmed_and_additive() {
    let user = String::from(" *.tmp , node_modules,exact.txt");
    let rules = IgnoreRuleSet::new(Some(&user));
    // Additive: the defaults still apply.
    assert!(rules.is_excluded("app.log", "app.log", false));
    // Split and trimmed user patterns apply too.
    assert!(rules.is_excluded("junk.tmp", "junk.tmp", false));
    assert!(rules.is_excluded("node_modules", "node_modules", true));
    assert!(rules.is_excluded("exact.txt", "exact.txt", false));
    assert!(!rules.is_excluded("kept.txt", "kept.txt", false));
}

#[test]
fn directory_suffix_rules_match_directories_only() {
    let rules = IgnoreRuleSet::new(None);
    assert!(rules.is_excluded("target", "target", true));
    assert!(!rules.is_excluded("target", "target", false));
    assert!(rules.is_excluded(".hidden", ".hidden", false));
}

#[test]
fn exact_rules_match_the_relative_path_too() {
    let user = String::from("docs/inner.txt");
    let rules = IgnoreRuleSet::new(Some(&user));
    assert!(rules.is_excluded("inner.txt", "docs/inner.txt", false));
    assert!(!rules.is_excluded("inner.txt", "other/inner.txt", false));
}

#[test]
fn path_helpers_split_and_join() {
    assert_eq!(join_path("/a/b", "c.txt"), "/a/b/c.txt");
    assert_eq!(basename("/a/b/c.txt"), "c.txt");
    assert_eq!(basename("plain"), "plain");
    assert_eq!(parent_dir("/a/b/c.txt"), Some(String::from("/a/b")));
    assert_eq!(parent_dir("plain"), None);
}

#[test]
fn candidate_filenames_disambiguate_same_day_runs() {
    let first = candidate_filename("proj", "10-12-25", "md", 0);
    let second = candidate_filename("proj", "10-12-25", "md", 1);
    let third = candidate_filename("proj", "10-12-25", "md", 12);
    assert_eq!(first, "proj_10-12-25.md");
    assert_eq!(second, "proj_10-12-25(1).md");
    assert_eq!(third, "proj_10-12-25(12).md");
    assert_ne!(first, second);
    assert_ne!(second, third);
}

#[test]
fn root_markers_are_recognized() {
    assert!(directory_is_root(&vec![
        child("Cargo.toml", false),
        child("notes.txt", false)
    ]));
    assert!(directory_is_root(&vec![child("thing.sln", false)]));
    assert!(directory_is_root(&vec![child(".git", true)]));
    // The fallback: any subdirectory counts.
    assert!(directory_is_root(&vec![child("anything", true)]));
    assert!(!directory_is_root(&vec![child("loose.bin", false)]));
    assert!(!directory_is_root(&Vec::new()));
}

#[test]
fn format_selection_follows_precedence() {
    assert_eq!(
        generate_config(None, (false, false, false), None).format(),
        OutputFormat::Md
    );
    assert_eq!(
        generate_config(None, (true, false, false), None).format(),
        OutputFormat::Json
    );
    assert_eq!(
        generate_config(None, (false, true, false), None).format(),
        OutputFormat::Txt
    );
    assert_eq!(
        generate_config(None, (false, false, true), None).format(),
        OutputFormat::Yaml
    );
}

#[test]
fn target_dir_resolution_checks_existence_and_containment() {
    let root = String::from("/proj");
    let none = generate_config(None, (false, false, false), None);
    assert_eq!(none.get_target_dir(&root, None).unwrap(), "/proj");

    let sub = generate_config(Some("src"), (false, false, false), None);
    let canonical_sub = String::from("/proj/src");
    assert_eq!(
        sub.get_target_dir(&root, Some(&canonical_sub)).unwrap(),
        "/proj/src"
    );
    // A path that does not resolve to a directory is rejected.
    assert!(matches!(
        sub.get_target_dir(&root, None),
        Err(JockeyError::Config(_))
    ));

    // A relative path that climbs out resolves to a canonical path
    // outside the root and is rejected.
    let climb = generate_config(Some("../elsewhere"), (false, false, false), None);
    let canonical_out = String::from("/elsewhere");
    assert!(matches!(
        climb.get_target_dir(&root, Some(&canonical_out)),
        Err(JockeyError::Config(_))
    ));

    // A sibling whose name merely extends the root is still outside it.
    let sibling = generate_config(Some("/projx"), (false, false, false), None);
    let canonical_sibling = String::from("/projx");
    assert!(matches!(
        sibling.get_target_dir(&root, Some(&canonical_sibling)),
        Err(JockeyError::Config(_))
    ));

    let abs_inside = generate_config(Some("/proj/deep"), (false, false, false), None);
    let canonical_deep = String::from("/proj/deep");
    assert_eq!(
        abs_inside
            .get_target_dir(&root, Some(&canonical_deep))
            .unwrap(),
        "/proj/deep"
    );
}

#[test]
fn node_names_follow_file_name_semantics() {
    assert_eq!(TreeBuilder::new("/proj/sub").name, "sub");
    assert_eq!(TreeBuilder::new("/proj/").name, "proj");
    assert_eq!(TreeBuilder::new("a/.").name, "a");
    assert_eq!(TreeBuilder::new("..").name, "");
    assert_eq!(TreeBuilder::new("a/..").name, "");
    assert_eq!(TreeBuilder::new("/").name, "");
}

#[test]
fn materialization_is_order_insensitive() {
    let paths = vec![String::from("/p/a"), String::from("/p/b"), String::from("/p/c")];
    let in_order = vec![
        Reading { index: 0, content: String::from("A") },
        Reading { index: 1, content: String::from("B") },
        Reading { index: 2, content: String::from("C") },
    ];
    let shuffled = vec![
        Reading { index: 2, content: String::from("C") },
        Reading { index: 0, content: String::from("A") },
        Reading { index: 1, content: String::from("B") },
    ];
    let v1 = assemble_records(&paths, &in_order).unwrap();
    let v2 = assemble_records(&paths, &shuffled).unwrap();
    assert_eq!(v1.len(), v2.len());
    for (a, b) in v1.iter().zip(v2.iter()) {
        assert_eq!(a.path, b.path);
        assert_eq!(a.content, b.content);
    }
    assert_eq!(v1[0].content, "A");
    assert_eq!(v1[2].path, "/p/c");
}

#[test]
fn missing_or_stray_readings_fail_materialization() {
    let paths = vec![String::from("/p/a"), String::from("/p/b")];
    let missing = vec![Reading { index: 0, content: String::from("A") }];
    assert!(matches!(
        assemble_records(&paths, &missing),
        Err(JockeyError::Processing(_))
    ));
    let stray = vec![
        Reading { index: 0, content: String::from("A") },
        Reading { index: 5, content: String::from("X") },
    ];
    assert!(matches!(
        assemble_records(&paths, &stray),
        Err(JockeyError::Processing(_))
    ));
}

#[test]
fn error_messages_are_reachable() {
    let e = JockeyError::Config(String::from("no project root"));
    assert_eq!(e.message().as_str(), "no project root");
}
