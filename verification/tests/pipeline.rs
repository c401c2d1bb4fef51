//! End-to-end scenarios: walking a simulated directory, assembling and
//! rendering the tree, materializing contents and formatting documents.

use jockey_cli::cli::OutputFormat;
use jockey_cli::filter::IgnoreRuleSet;
use jockey_cli::materialize::{assemble_records, Reading};
use jockey_cli::output::{render_document, FileEntry, Repository};
use jockey_cli::tree::TreeBuilder;
use jockey_cli::walker::{DirChild, Walker};

fn child(name: &str, is_dir: bool) -> DirChild {
    DirChild { name: String::from(name), is_dir }
}

/// Walks a simulated tree: the walker hands out directories, we hand
/// back listings.
fn walk(root: &str, rules: IgnoreRuleSet, dirs: &[(&str, Vec<DirChild>)]) -> Walker {
    let empty: Vec<DirChild> = Vec::new();
    let mut walker = Walker::new(String::from(root), rules);
    while let Some(dir) = walker.next_dir() {
        let listing = dirs
            .iter()
            .find(|(p, _)| *p == dir.as_str())
            .map(|(_, l)| l)
            .unwrap_or(&empty);
        walker.feed_listing(listing);
    }
    walker
}

#[test]
fn markdown_document_lists_tree_and_contents() {
    let rules = IgnoreRuleSet::new(None);
    let walker = walk(
        "/proj",
        rules,
        &[
            (
                "/proj",
                vec![child("file1.txt", false), child("dir1", true)],
            ),
            ("/proj/dir1", vec![child("file2.txt", false)]),
        ],
    );
    let (tree, files) = TreeBuilder::process_directory("/proj", walker.entries());
    assert!(tree.contains("proj"));
    assert!(tree.contains("file1.txt"));
    assert!(tree.contains("dir1"));
    assert!(tree.contains("file2.txt"));
    assert_eq!(
        files,
        vec![
            String::from("/proj/file1.txt"),
            String::from("/proj/dir1/file2.txt")
        ]
    );

    let readings = vec![
        Reading {
            index: 0,
            content: String::from("Hello, World!"),
        },
        Reading {
            index: 1,
            content: String::from("Test content"),
        },
    ];
    let records = assemble_records(&files, &readings).unwrap();
    let repo = Repository {
        tree,
        files: records,
    };
    let doc = render_document(&repo, OutputFormat::Md, "01-02-2026 at 03:04:05");
    assert!(doc.contains("Repository Structure"));
    assert!(doc.contains("file1.txt"));
    assert!(doc.contains("dir1"));
    assert!(doc.contains("file2.txt"));
    assert!(doc.contains("Hello, World!"));
    assert!(doc.contains("Test content"));
    assert!(doc.contains("Generated: 01-02-2026 at 03:04:05"));
}

#[test]
fn exclude_patterns_prune_files_and_directories() {
    let user = String::from("*.tmp,node_modules");
    let rules = IgnoreRuleSet::new(Some(&user));
    let walker = walk(
        "/proj",
        rules,
        &[
            (
                "/proj",
                vec![
                    child("include.txt", false),
                    child("exclude.tmp", false),
                    child("node_modules", true),
                ],
            ),
            ("/proj/node_modules", vec![child("test.js", false)]),
        ],
    );
    // The excluded directory was never handed out for listing.
    assert_eq!(walker.entries().len(), 1);
    let (tree, files) = TreeBuilder::process_directory("/proj", walker.entries());
    let readings = vec![Reading {
        index: 0,
        content: String::from("Include this"),
    }];
    let records = assemble_records(&files, &readings).unwrap();
    let repo = Repository {
        tree,
        files: records,
    };
    let doc = render_document(&repo, OutputFormat::Md, "ts");
    assert!(doc.contains("include.txt"));
    assert!(!doc.contains("exclude.tmp"));
    assert!(!doc.contains("node_modules"));
}

#[test]
fn exact_rules_apply_to_root_relative_paths_during_the_walk() {
    let user = String::from("dir1/file2.txt");
    let rules = IgnoreRuleSet::new(Some(&user));
    let walker = walk(
        "/proj",
        rules,
        &[
            ("/proj", vec![child("dir1", true)]),
            (
                "/proj/dir1",
                vec![child("file2.txt", false), child("keep.txt", false)],
            ),
        ],
    );
    let paths: Vec<&str> = walker.entries().iter().map(|e| e.path.as_str()).collect();
    assert_eq!(paths, vec!["/proj/dir1", "/proj/dir1/keep.txt"]);
}

#[test]
fn format_output_stamps_the_document_with_the_clock() {
    let repo = Repository {
        tree: String::from("p\n"),
        files: vec![FileEntry {
            path: String::from("/p/a.txt"),
            content: String::from("body"),
        }],
    };
    let doc = jockey_cli::output::format_output(repo, OutputFormat::Md).unwrap();
    assert!(doc.contains("Repository Structure"));
    assert!(doc.contains("Generated: "));
    assert!(doc.contains("body"));

    let date = jockey_cli::time::datestamp_now();
    assert_eq!(date.len(), 8);
    assert_eq!(date.matches('-').count(), 2);
}

#[test]
fn default_rules_prune_hidden_and_build_directories() {
    let rules = IgnoreRuleSet::new(None);
    let walker = walk(
        "/proj",
        rules,
        &[(
            "/proj",
            vec![
                child("src", true),
                child("target", true),
                child(".git", true),
                child("app.log", false),
                child("main.rs", false),
            ],
        )],
    );
    let paths: Vec<&str> = walker
        .entries()
        .iter()
        .map(|e| e.path.as_str())
        .collect();
    assert_eq!(paths, vec!["/proj/src", "/proj/main.rs"]);
}

#[test]
fn whole_pipeline_produces_one_document() {
    let rules = IgnoreRuleSet::new(None);
    let walker = walk(
        "/proj",
        rules,
        &[
            ("/proj", vec![child("file1.txt", false), child("dir1", true)]),
            ("/proj/dir1", vec![child("file2.txt", false)]),
        ],
    );
    let readings = vec![
        Reading { index: 1, content: String::from("Test content") },
        Reading { index: 0, content: String::from("Hello, World!") },
    ];
    let doc = jockey_cli::processor::generate_document(
        &String::from("/proj"),
        walker.entries(),
        &readings,
        OutputFormat::Md,
        "ts",
    )
    .unwrap();
    assert!(doc.contains("## File: /proj/file1.txt"));
    assert!(doc.contains("Hello, World!"));
    assert!(doc.contains("## File: /proj/dir1/file2.txt"));
    assert!(doc.contains("Test content"));

    // An incomplete set of readings is refused.
    let missing = vec![Reading { index: 0, content: String::from("only one") }];
    let r = jockey_cli::processor::generate_document(
        &String::from("/proj"),
        walker.entries(),
        &missing,
        OutputFormat::Md,
        "ts",
    );
    assert!(r.is_err());
}

#[test]
fn tree_rendering_is_deterministic() {
    let rules1 = IgnoreRuleSet::new(None);
    let rules2 = IgnoreRuleSet::new(None);
    let layout: &[(&str, Vec<DirChild>)] = &[
        (
            "/p",
            vec![child("b.txt", false), child("a", true), child("c.txt", false)],
        ),
        ("/p/a", vec![child("z.txt", false)]),
    ];
    let w1 = walk("/p", rules1, layout);
    let w2 = walk("/p", rules2, layout);
    let (t1, f1) = TreeBuilder::process_directory("/p", w1.entries());
    let (t2, f2) = TreeBuilder::process_directory("/p", w2.entries());
    assert_eq!(t1, t2);
    assert_eq!(f1, f2);
}

#[test]
fn fence_is_lengthened_for_contents_with_backticks() {
    let repo = Repository {
        tree: String::from("p\n"),
        files: vec![FileEntry {
            path: String::from("/p/a.md"),
            content: String::from("before ``` after"),
        }],
    };
    let doc = render_document(&repo, OutputFormat::Md, "ts");
    assert!(doc.contains("````md\n"));
    assert!(doc.contains("before ``` after\n"));
    assert!(doc.contains("\n````\n"));
}

#[test]
fn fence_always_exceeds_the_longest_backtick_run() {
    let repo = Repository {
        tree: String::from("p\n"),
        files: vec![FileEntry {
            path: String::from("/p/a.txt"),
            content: String::from("x ```` y"),
        }],
    };
    let doc = render_document(&repo, OutputFormat::Md, "ts");
    // Four backticks in the content force a five-backtick fence, so the
    // content cannot terminate its own block.
    assert!(doc.contains("`````txt\n"));
    assert!(doc.contains("x ```` y\n"));
    assert!(doc.contains("\n`````\n"));
    assert!(!doc.contains("``````"));
}

#[test]
fn plain_fence_for_contents_without_backticks() {
    let repo = Repository {
        tree: String::from("p\n"),
        files: vec![FileEntry {
            path: String::from("/p/a.rs"),
            content: String::from("fn main() {}"),
        }],
    };
    let doc = render_document(&repo, OutputFormat::Md, "ts");
    assert!(doc.contains("```rs\n"));
    assert!(!doc.contains("````"));
}

#[test]
fn text_document_carries_sections() {
    let repo = Repository {
        tree: String::from("p\n"),
        files: vec![FileEntry {
            path: String::from("/p/a.txt"),
            content: String::from("line one\r\nline two"),
        }],
    };
    let doc = render_document(&repo, OutputFormat::Txt, "ts");
    assert!(doc.starts_with("Jockey Image\n============\n\n"));
    assert!(doc.contains("File: /p/a.txt\n"));
    assert!(doc.contains("line one\nline two\n"));
    assert!(!doc.contains('\r'));
}

#[test]
fn json_document_is_valid_and_exact() {
    let repo = Repository {
        tree: String::from("p\n\u{2514}\u{2500}\u{2500} a \"quoted\".txt\n"),
        files: vec![FileEntry {
            path: String::from("/p/a \"quoted\".txt"),
            content: String::from("one\ntwo\ttab \\ backslash \u{1} ctl"),
        }],
    };
    let doc = render_document(&repo, OutputFormat::Json, "01-02-2026 at 03:04:05");
    let parsed: serde_json::Value = serde_json::from_str(&doc).unwrap();
    assert_eq!(parsed["timestamp"], "01-02-2026 at 03:04:05");
    assert_eq!(
        parsed["repository"]["tree"],
        "p\n\u{2514}\u{2500}\u{2500} a \"quoted\".txt\n"
    );
    assert_eq!(parsed["repository"]["files"][0]["path"], "/p/a \"quoted\".txt");
    assert_eq!(
        parsed["repository"]["files"][0]["content"],
        "one\ntwo\ttab \\ backslash \u{1} ctl"
    );
}

#[test]
fn yaml_document_is_valid_and_exact() {
    let repo = Repository {
        tree: String::from("p\n"),
        files: vec![
            FileEntry {
                path: String::from("/p/a.txt"),
                content: String::from("alpha: beta\n- not a list"),
            },
            FileEntry {
                path: String::from("/p/b.txt"),
                content: String::from("second \"file\""),
            },
        ],
    };
    let doc = render_document(&repo, OutputFormat::Yaml, "ts");
    let parsed: serde_yaml::Value = serde_yaml::from_str(&doc).unwrap();
    assert_eq!(parsed["timestamp"].as_str(), Some("ts"));
    assert_eq!(parsed["repository"]["tree"].as_str(), Some("p\n"));
    assert_eq!(
        parsed["repository"]["files"][0]["content"].as_str(),
        Some("alpha: beta\n- not a list")
    );
    assert_eq!(
        parsed["repository"]["files"][1]["path"].as_str(),
        Some("/p/b.txt")
    );
}
