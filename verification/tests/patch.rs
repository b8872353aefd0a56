use rewriter_queue::patch::{
    apply_hunks, apply_patch, format_multi_file_numbered, is_dev_null, parse_patch,
    strip_diff_prefix, Hunk,
};
use rewriter_queue::sections::Sections;

fn sections(pairs: &[(&str, &str)]) -> Sections {
    let mut s = Sections::new();
    for (path, content) in pairs {
        s.insert(path.to_string(), content.to_string());
    }
    s
}

fn at<'a>(s: &'a Sections, path: &str) -> &'a String {
    s.get(path).expect("the file stands in the sections")
}


#[test]
fn applies_a_single_hunk_with_context() {
    let before = sections(&[("src/main.rs", "fn add(a: i32, b: i32) -> i32 {\n    a - b\n}\n")]);
    let patch = "\
--- a/src/main.rs
+++ b/src/main.rs
@@ ... @@
 fn add(a: i32, b: i32) -> i32 {
-    a - b
+    a + b
 }
";
    let after = apply_patch(&before, patch).unwrap();
    assert_eq!(at(&after, "src/main.rs"), "fn add(a: i32, b: i32) -> i32 {\n    a + b\n}\n");
}

#[test]
fn applies_edits_across_multiple_files() {
    let before = sections(&[
        ("src/main.rs", "fn a() -> i32 { 1 }\n"),
        ("src/lib.rs", "fn b() -> i32 { 2 }\n"),
    ]);
    let patch = "\
--- a/src/main.rs
+++ b/src/main.rs
@@ ... @@
-fn a() -> i32 { 1 }
+fn a() -> i32 { 10 }
--- a/src/lib.rs
+++ b/src/lib.rs
@@ ... @@
-fn b() -> i32 { 2 }
+fn b() -> i32 { 20 }
";
    let after = apply_patch(&before, patch).unwrap();
    assert_eq!(at(&after, "src/main.rs"), "fn a() -> i32 { 10 }\n");
    assert_eq!(at(&after, "src/lib.rs"), "fn b() -> i32 { 20 }\n");
}

#[test]
fn applies_multiple_hunks_in_one_file() {
    let before = sections(&[("src/main.rs", "1\n2\n3\n4\n5\n")]);
    let patch = "\
--- a/src/main.rs
+++ b/src/main.rs
@@ ... @@
-2
+TWO
@@ ... @@
-4
+FOUR
";
    let after = apply_patch(&before, patch).unwrap();
    assert_eq!(at(&after, "src/main.rs"), "1\nTWO\n3\nFOUR\n5\n");
}

#[test]
fn a_pure_insertion_hunk_adds_without_removing() {
    let before = sections(&[("src/main.rs", "fn a() {}\nfn c() {}\n")]);
    let patch = "\
--- a/src/main.rs
+++ b/src/main.rs
@@ ... @@
 fn a() {}
+fn b() {}
 fn c() {}
";
    let after = apply_patch(&before, patch).unwrap();
    assert_eq!(at(&after, "src/main.rs"), "fn a() {}\nfn b() {}\nfn c() {}\n");
}

#[test]
fn a_pure_deletion_hunk_removes_without_adding() {
    let before = sections(&[("src/main.rs", "fn a() {}\nfn dead() {}\nfn b() {}\n")]);
    let patch = "\
--- a/src/main.rs
+++ b/src/main.rs
@@ ... @@
 fn a() {}
-fn dead() {}
 fn b() {}
";
    let after = apply_patch(&before, patch).unwrap();
    assert_eq!(at(&after, "src/main.rs"), "fn a() {}\nfn b() {}\n");
}

#[test]
fn creates_a_brand_new_file_diffed_against_dev_null() {
    let before = sections(&[("src/main.rs", "fn main() {}\n")]);
    let patch = "\
--- /dev/null
+++ b/src/helper.rs
@@ ... @@
+pub fn helper() -> i32 {
+    42
+}
";
    let after = apply_patch(&before, patch).unwrap();
    assert_eq!(at(&after, "src/helper.rs"), "pub fn helper() -> i32 {\n    42\n}\n");
    assert_eq!(at(&after, "src/main.rs"), "fn main() {}\n"); // untouched
}

#[test]
fn rejects_a_dev_null_diff_for_a_file_that_already_exists() {
    let before = sections(&[("src/main.rs", "fn main() {}\n")]);
    let patch = "--- /dev/null\n+++ b/src/main.rs\n@@ ... @@\n+fn main() {}\n";
    let err = apply_patch(&before, patch).unwrap_err();
    assert!(err.contains("already exists"), "got: {err}");
}

#[test]
fn rejects_a_patch_targeting_a_missing_file() {
    let before = sections(&[("src/main.rs", "fn f() {}\n")]);
    let patch = "--- a/src/lib.rs\n+++ b/src/lib.rs\n@@ ... @@\n-fn f() {}\n+fn g() {}\n";
    let err = apply_patch(&before, patch).unwrap_err();
    assert!(err.contains("doesn't exist yet"), "got: {err}");
    assert!(err.contains("/dev/null"), "got: {err}");
}

#[test]
fn rejects_context_that_does_not_match() {
    let before = sections(&[("src/main.rs", "fn f() {}\n")]);
    let patch = "--- a/src/main.rs\n+++ b/src/main.rs\n@@ ... @@\n-fn g() {}\n+fn h() {}\n";
    let err = apply_patch(&before, patch).unwrap_err();
    assert!(err.contains("not found"), "got: {err}");
}

#[test]
fn rejects_ambiguous_context_matching_more_than_once() {
    let before = sections(&[("src/main.rs", "let x = 1;\nlet x = 1;\n")]);
    let patch = "--- a/src/main.rs\n+++ b/src/main.rs\n@@ ... @@\n-let x = 1;\n+let x = 2;\n";
    let err = apply_patch(&before, patch).unwrap_err();
    assert!(err.contains("2 places"), "got: {err}");
}

#[test]
fn rejects_a_hunk_with_no_context_or_removed_lines() {
    let before = sections(&[("src/main.rs", "fn f() {}\n")]);
    let patch = "--- a/src/main.rs\n+++ b/src/main.rs\n@@ ... @@\n+fn g() {}\n";
    let err = apply_patch(&before, patch).unwrap_err();
    assert!(err.contains("/dev/null"), "got: {err}");
}

#[test]
fn tolerates_a_bare_a_and_b_prefix_being_omitted() {
    let before = sections(&[("src/main.rs", "fn f() {}\n")]);
    let patch = "--- src/main.rs\n+++ src/main.rs\n@@ ... @@\n-fn f() {}\n+fn g() {}\n";
    let after = apply_patch(&before, patch).unwrap();
    assert_eq!(at(&after, "src/main.rs"), "fn g() {}\n");
}

#[test]
fn tolerates_a_context_line_missing_its_leading_space() {
    // Some models drop the leading space on a genuinely blank context line -- the single
    // blank line here is unchanged context shared by both sides, not doubled.
    let before = sections(&[("src/main.rs", "fn a() {}\n\nfn b() {}\n")]);
    let patch = "--- a/src/main.rs\n+++ b/src/main.rs\n@@ ... @@\n-fn a() {}\n+fn a2() {}\n\n fn b() {}\n";
    let after = apply_patch(&before, patch).unwrap();
    assert_eq!(at(&after, "src/main.rs"), "fn a2() {}\n\nfn b() {}\n");
}

#[test]
fn no_diff_markers_at_all_is_a_clear_error() {
    let before = sections(&[("src/main.rs", "fn f() {}\n")]);
    let err = apply_patch(&before, "just some prose, no diff here").unwrap_err();
    assert!(err.contains("no diffs found"), "got: {err}");
}

#[test]
fn missing_plus_plus_plus_line_is_a_clear_error() {
    let before = sections(&[("src/main.rs", "fn f() {}\n")]);
    let err = apply_patch(&before, "--- a/src/main.rs\nnot a plus plus plus line\n").unwrap_err();
    assert!(err.contains("expected `+++"), "got: {err}");
}

#[test]
fn a_path_is_read_up_to_a_tab_and_without_its_prefix() {
    assert_eq!(strip_diff_prefix(" a/src/main.rs\t2024-01-01"), "src/main.rs");
    assert_eq!(strip_diff_prefix("b/src/lib.rs"), "src/lib.rs");
    assert_eq!(strip_diff_prefix("src/lib.rs"), "src/lib.rs");
    assert!(is_dev_null("/dev/null "));
    assert!(!is_dev_null("a/dev/nulls"));
}

#[test]
fn the_numbers_of_a_hunk_header_are_not_read() {
    let before = sections(&[("a.rs", "1\n2\n3\n")]);
    let some = apply_patch(&before, "--- a/a.rs\n+++ b/a.rs\n@@ -77,9 +1,2 @@\n-2\n+two\n");
    let none = apply_patch(&before, "--- a/a.rs\n+++ b/a.rs\n@@\n-2\n+two\n");
    assert_eq!(some, none);
    assert_eq!(at(&some.unwrap(), "a.rs"), "1\ntwo\n3\n");
}

#[test]
fn a_header_without_hunks_and_a_hunk_without_lines_are_errors() {
    let before = sections(&[("a.rs", "1\n")]);
    let err = apply_patch(&before, "--- a/a.rs\n+++ b/a.rs\n").unwrap_err();
    assert_eq!(err, "diff for \"a.rs\" has no `@@ ... @@` hunks");
    let err = apply_patch(&before, "--- a/a.rs\n+++ b/a.rs\n@@ ... @@\n").unwrap_err();
    assert!(err.contains("empty hunk"), "got: {err}");
    let err = apply_patch(&before, "--- a/a.rs\n").unwrap_err();
    assert_eq!(err, "expected `+++ <path>` right after `--- a/a.rs`, got end of input");
    let err = apply_patch(&before, "--- a/a.rs\nx \"y\"\n").unwrap_err();
    assert_eq!(err, "expected `+++ <path>` right after `--- a/a.rs`, got \"x \\\"y\\\"\"");
    let err = apply_patch(&before, "--- a/a.rs\n+++ \n@@\n-1\n").unwrap_err();
    assert!(err.contains("could not read a file path"), "got: {err}");
}

#[test]
fn a_remark_on_a_missing_newline_is_no_line_of_the_file() {
    let before = sections(&[("a.rs", "1\n2")]);
    let patch = "--- a/a.rs\n+++ b/a.rs\n@@\n-2\n\\ No newline at end of file\n+two\n";
    assert_eq!(at(&apply_patch(&before, patch).unwrap(), "a.rs"), "1\ntwo");
}

#[test]
fn a_search_block_replaces_the_one_place_that_it_finds() {
    let before = sections(&[("a.rs", "1\n2\n3\n"), ("b.rs", "x\n")]);
    let patch = "Some words.\n## FILE: a.rs \n<<<<<<< SEARCH\n1\n2\n=======\none\n>>>>>>> REPLACE\n\
<<<<<<< SEARCH\n3\n=======\nthree\n>>>>>>> REPLACE\n## FILE: b.rs\n<<<<<<< SEARCH\nx\n=======\ny\n>>>>>>> REPLACE\n";
    let after = apply_patch(&before, patch).unwrap();
    assert_eq!(at(&after, "a.rs"), "one\nthree\n");
    assert_eq!(at(&after, "b.rs"), "y\n");
    assert_eq!(parse_patch(patch).unwrap().len(), 3);
}

#[test]
fn a_search_block_that_is_ambiguous_or_unfinished_is_an_error() {
    let before = sections(&[("a.rs", "1\n1\n")]);
    let err = apply_patch(
        &before,
        "## FILE: a.rs\n<<<<<<< SEARCH\n1\n=======\n2\n>>>>>>> REPLACE\n",
    )
    .unwrap_err();
    assert!(err.contains("2 places"), "got: {err}");
    let err = apply_patch(
        &before,
        "## FILE: a.rs\n<<<<<<< SEARCH\n7\n=======\n2\n>>>>>>> REPLACE\n",
    )
    .unwrap_err();
    assert!(err.contains("not found"), "got: {err}");
    let err = apply_patch(&before, "## FILE: a.rs\n<<<<<<< SEARCH\n1\n=======\n2\n").unwrap_err();
    assert!(err.contains("no diffs found"), "got: {err}");
    let err =
        apply_patch(&before, "<<<<<<< SEARCH\n1\n=======\n2\n>>>>>>> REPLACE\n").unwrap_err();
    assert!(err.contains("no diffs found"), "got: {err}");
}

#[test]
fn lines_are_numbered_for_reference() {
    let shown = format_multi_file_numbered(&sections(&[("b.rs", "x\ny\n"), ("a.rs", "z")]));
    assert!(shown.find("a.rs") < shown.find("b.rs"), "got: {shown}");
    assert!(shown.contains("1"), "got: {shown}");
    assert!(shown.contains("y"), "got: {shown}");
}

#[test]
fn a_block_that_overlaps_with_itself_is_ambiguous() {
    let hunk = Hunk { old_block: "x\nx".into(), new_block: "y".into() };
    let refused = apply_hunks("f", "x\nx\nx\n".into(), &[hunk]).unwrap_err();
    assert!(refused.contains("matches 2 places"), "got: {refused}");
    let hunk = Hunk { old_block: "x\nx".into(), new_block: "y".into() };
    assert_eq!(apply_hunks("f", "x\nx\n".into(), &[hunk]), Ok("y\n".to_string()));
}

#[test]
fn a_header_pair_can_be_repeated_between_hunks() {
    let before = sections(&[("src/main.rs", "1\n2\n3\n")]);
    let once = "--- a/src/main.rs\n+++ b/src/main.rs\n@@ ... @@\n-1\n+one\n@@ ... @@\n-3\n+three\n";
    let twice = "--- a/src/main.rs\n+++ b/src/main.rs\n@@ ... @@\n-1\n+one\n\
--- a/src/main.rs\n+++ b/src/main.rs\n@@ ... @@\n-3\n+three\n";
    let a = apply_patch(&before, once).unwrap();
    let b = apply_patch(&before, twice).unwrap();
    assert_eq!(at(&a, "src/main.rs"), "one\n2\nthree\n");
    assert_eq!(a, b);
    let other = sections(&[("src/lib.rs", "")]);
    assert_eq!(apply_patch(&other, once), apply_patch(&other, twice));
    assert!(apply_patch(&other, once).is_err());
}

#[test]
fn a_diff_is_read_as_one_whatever_lines_stand_around_it() {
    let before = sections(&[("a.rs", "1\n<<<<<<< SEARCH\n")]);
    let patch = "<<<<<<< SEARCH is not used here.\n--- a/a.rs\n+++ b/a.rs\n@@\n-1\n+one\n<<<<<<< SEARCH\n";
    let after = apply_patch(&before, patch).unwrap();
    assert_eq!(at(&after, "a.rs"), "one\n<<<<<<< SEARCH\n");
}
