use ut_compare::audit::{
    artifact, counted_kind, documentation_path, excluded_path, line_count, source_info,
    split_cfg_tests, static_analysis, SourceFile,
};
use ut_compare::config::ContenderConfig;
use ut_compare::manifest::{dependency_count, direct_dependencies, manifest_string, preferred};
use ut_compare::paths;
use ut_compare::text::count_occurrences;
use ut_compare::textmap::TextMap;

fn file(path: &str, text: &str) -> SourceFile {
    SourceFile {
        path: path.to_owned(),
        text: text.to_owned(),
    }
}

fn contender() -> ContenderConfig {
    ContenderConfig {
        id: "first".to_owned(),
        display_name: "First".to_owned(),
        adapter: "uniterm".to_owned(),
        binary: "/unused/ut".to_owned(),
        source: "/unused/source".to_owned(),
        environment: TextMap::new(),
        assurance: Vec::new(),
    }
}

#[test]
fn cfg_test_suffix_is_excluded_from_production() {
    let source = "fn production() { unsafe { call(); } }\n#[cfg(test)]\nmod tests { fn test() { x.unwrap(); } }";
    let (production, tests) = split_cfg_tests(source);
    assert!(production.contains("unsafe"));
    assert!(!production.contains("unwrap"));
    assert!(tests.contains("unwrap"));
}

#[test]
fn translated_and_versioned_docs_are_excluded_symmetrically() {
    let root = "/repo";
    assert!(excluded_path(
        root,
        &paths::join(root, "docs/next/website/src/content/docs/ja/x.mdx")
    ));
    assert!(excluded_path(
        root,
        &paths::join(root, "docs/versions/0.8.2/website/src/x.mdx")
    ));
    assert!(excluded_path(root, &paths::join(root, "docs/preview/README.md")));
    assert!(excluded_path(root, &paths::join(root, "README.zh-CN.md")));
    assert!(!excluded_path(
        root,
        &paths::join(root, "docs/next/website/src/content/docs/x.mdx")
    ));
    assert!(!excluded_path(
        root,
        &paths::join(root, "docs/03-system-architecture.md")
    ));
    assert!(!excluded_path(
        root,
        &paths::join(root, "skills/manage-uniterm/SKILL.md")
    ));
}

#[test]
fn occurrence_count_does_not_overlap() {
    assert_eq!(count_occurrences("aaaa", "aa"), 2);
}

#[test]
fn non_rust_counts_are_null_while_measured_rust_zeroes_are_zero() {
    let root = "/tree";
    let main_c = paths::join(root, "main.c");
    let mut files = vec![file(&main_c, "int main(void) { return 0; }\n")];
    let c = static_analysis(root, &files, &None, &None);
    assert_eq!(c.unsafe_blocks, None);
    assert_eq!(c.direct_dependencies, None);
    assert_eq!(c.notes.len(), 4);
    let main_rs = paths::join(root, "main.rs");
    files.push(file(&main_rs, "fn main() {}\n"));
    let rust = static_analysis(root, &files, &None, &None);
    assert_eq!(rust.unsafe_blocks, Some(0));
    assert_eq!(rust.rust_test_lines, Some(0));
    assert_eq!(rust.first_party_rust_lines, Some(1));
    assert_eq!(rust.notes.len(), 3);
}

#[test]
fn counts_add_up_in_any_order() {
    let root = "/r";
    let files = vec![
        file("/r/src/a.rs", "use reqwest;\nlet x = y.unwrap();\nunsafe { z }\n\n#[cfg(test)]\nmod t {}\n"),
        file("/r/tests/b.rs", "one\ntwo\n"),
        file("/r/README.md", "a\nb\nc\n"),
        file("/r/.github/x.md", "a\n"),
        file("/r/target/c.rs", "a\n"),
        file("/r/x.zh-CN.d/e.rs", "a\n"),
        file("/elsewhere/f.rs", "a\n"),
        file("/r/src/g.rs", "Command::new(TcpStream, \"http://\", \"https://\")"),
    ];
    let lock = Some("[[package]]\nname = \"a\"\n[[package]]\n".to_owned());
    let manifest = Some("[dependencies]\na = \"1\"\nb = \"2\"\n".to_owned());
    let found = static_analysis(root, &files, &lock, &manifest);
    assert_eq!(found.rust_source_files, Some(3));
    assert_eq!(found.first_party_rust_lines, Some(4));
    assert_eq!(found.rust_test_lines, Some(5));
    assert_eq!(found.documentation_lines, 3);
    assert_eq!(found.unsafe_blocks, Some(1));
    assert_eq!(found.production_unwrap_calls, Some(1));
    assert_eq!(found.network_api_references, Some(4));
    assert_eq!(found.process_launch_references, Some(1));
    assert_eq!(found.lockfile_packages, Some(2));
    assert_eq!(found.direct_dependencies, Some(2));
    let mut reversed: Vec<SourceFile> = Vec::new();
    for f in files.iter().rev() {
        reversed.push(file(&f.path, &f.text));
    }
    let again = static_analysis(root, &reversed, &lock, &manifest);
    assert_eq!(format!("{found:?}"), format!("{again:?}"));
}

#[test]
fn documentation_outside_hidden_directories_counts() {
    assert!(documentation_path("/r", "/r/docs/a.md"));
    assert!(!documentation_path("/r", "/r/.github/a.md"));
    assert!(!documentation_path("/r", "/r/.local/a.md"));
    assert!(!documentation_path("/r", "/s/a.md"));
    assert!(excluded_path("/r", "/s/a.md"));
    assert!(excluded_path("/r", "/r/src/ghostty/bindings.rs"));
    assert!(!excluded_path("/r", "/r/src/ghostty/bindings.rs/x"));
}

#[test]
fn lines_are_counted_without_a_final_empty_one() {
    assert_eq!(line_count(""), 0);
    assert_eq!(line_count("a"), 1);
    assert_eq!(line_count("a\n"), 1);
    assert_eq!(line_count("a\n\nb"), 3);
}

#[test]
fn manifests_are_read_with_their_workspace_as_fallback() {
    let own = Some("[package]\nversion = \"1.2.3\"\nlicense = 4\n[workspace.package]\nversion = \"9\"\nlicense = \"MIT\"\n".to_owned());
    assert_eq!(manifest_string(&own, "version"), Some("1.2.3".to_owned()));
    assert_eq!(manifest_string(&own, "license"), Some("MIT".to_owned()));
    assert_eq!(manifest_string(&own, "edition"), None);
    assert_eq!(manifest_string(&None, "version"), None);
    assert_eq!(manifest_string(&Some("not toml [".to_owned()), "version"), None);
    assert_eq!(direct_dependencies(&own), Some(0));
    let shared = Some("[workspace.dependencies]\na = \"1\"\n".to_owned());
    assert_eq!(direct_dependencies(&shared), Some(1));
    assert_eq!(direct_dependencies(&Some("= broken".to_owned())), None);
    assert_eq!(direct_dependencies(&None), None);
    assert_eq!(dependency_count(Some(3), Some(4)), 3);
    assert_eq!(dependency_count(None, Some(4)), 4);
    assert_eq!(dependency_count(None, None), 0);
    assert_eq!(
        preferred(None, Some("b".to_owned())),
        Some("b".to_owned())
    );
    assert_eq!(
        preferred(Some("a".to_owned()), Some("b".to_owned())),
        Some("a".to_owned())
    );
}

#[test]
fn artifacts_carry_the_digest_of_their_bytes() {
    let found = artifact(&contender(), b"abc", "uniterm 1.0.0");
    assert_eq!(found.path, "/unused/ut");
    assert_eq!(found.bytes, 3);
    assert_eq!(found.version_output, "uniterm 1.0.0");
    assert_eq!(
        found.sha256,
        "ba7816bf8f01cfea414140de5dae2223b00361a396177a9cb410ff61f20015ad"
    );
}

#[test]
fn revisions_are_recorded_as_far_as_they_are_known() {
    let manifest = Some("[package]\nversion = \"0.3.0\"\n".to_owned());
    let found = source_info(
        &contender(),
        Some("b".repeat(40)),
        None,
        &Some(" M src/lib.rs\n".to_owned()),
        &manifest,
    );
    assert_eq!(found.path, "/unused/source");
    assert_eq!(found.dirty, Some(true));
    assert_eq!(found.package_version, Some("0.3.0".to_owned()));
    assert_eq!(found.license, None);
    let clean = source_info(&contender(), None, None, &Some(" \n".to_owned()), &None);
    assert_eq!(clean.dirty, Some(false));
    let unknown = source_info(&contender(), None, None, &None, &None);
    assert_eq!(unknown.dirty, None);
    assert_eq!(unknown.commit, None);
}

#[test]
fn only_sources_and_documentation_are_read() {
    for path in ["/p/src/a.rs", "/p/README.md", "/p/docs/x.y.mdx"] {
        assert!(counted_kind(path), "{path}");
    }
    for path in ["/p/Cargo.toml", "/p/rs", "/p/.rs", "/p/a.RS", "/p/a.rs.bak", "/p/a.", ""] {
        assert!(!counted_kind(path), "{path}");
    }
}
