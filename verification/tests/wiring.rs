use rewriter_queue::sections::Sections;
use rewriter_queue::wiring::ensure_module_declarations;

fn sections(pairs: &[(&str, &str)]) -> Sections {
    let mut s = Sections::new();
    for (path, content) in pairs {
        s.insert(path.to_string(), content.to_string());
    }
    s
}

fn at<'a>(s: &'a Sections, path: &str) -> &'a String {
    s.get(path).expect("the file stands in the sections")
}


#[test]
fn adds_mod_declarations_for_every_other_top_level_file() {
    let mut s = sections(&[
        ("src/main.rs", "fn main() {}\n"),
        ("src/collector.rs", "pub struct Collector;\n"),
        ("src/database.rs", "pub struct Database;\n"),
    ]);
    ensure_module_declarations(&mut s);
    let main = at(&s, "src/main.rs");
    assert!(main.contains("mod collector;"));
    assert!(main.contains("mod database;"));
    assert!(main.contains("fn main() {}"));
}

#[test]
fn does_not_duplicate_an_already_present_declaration() {
    let mut s = sections(&[
        ("src/main.rs", "mod collector;\nfn main() {}\n"),
        ("src/collector.rs", "pub struct Collector;\n"),
    ]);
    ensure_module_declarations(&mut s);
    assert_eq!(at(&s, "src/main.rs").matches("mod collector;").count(), 1);
}

#[test]
fn a_pub_mod_declaration_also_counts_as_already_present() {
    let mut s = sections(&[
        ("src/main.rs", "pub mod collector;\nfn main() {}\n"),
        ("src/collector.rs", "pub struct Collector;\n"),
    ]);
    ensure_module_declarations(&mut s);
    assert_eq!(at(&s, "src/main.rs").matches("mod collector;").count(), 1);
}

#[test]
fn no_entry_file_is_a_no_op() {
    let mut s = sections(&[("src/collector.rs", "pub struct Collector;\n")]);
    ensure_module_declarations(&mut s);
    assert_eq!(s.len(), 1);
}

#[test]
fn falls_back_to_lib_rs_when_there_is_no_main_rs() {
    let mut s = sections(&[
        ("src/lib.rs", "pub fn hello() {}\n"),
        ("src/collector.rs", "pub struct Collector;\n"),
    ]);
    ensure_module_declarations(&mut s);
    assert!(at(&s, "src/lib.rs").contains("mod collector;"));
}

#[test]
fn adds_pub_use_reexports_for_every_other_top_level_file() {
    let mut s = sections(&[
        ("src/main.rs", "fn main() {}\n"),
        ("src/collector.rs", "pub struct Collector;\n"),
        ("src/database.rs", "pub struct Database;\n"),
    ]);
    ensure_module_declarations(&mut s);
    let main = at(&s, "src/main.rs");
    assert!(main.contains("pub use collector::*;"), "{main}");
    assert!(main.contains("pub use database::*;"), "{main}");
}

#[test]
fn does_not_duplicate_an_already_present_reexport() {
    let mut s = sections(&[
        ("src/main.rs", "mod collector;\npub use collector::*;\nfn main() {}\n"),
        ("src/collector.rs", "pub struct Collector;\n"),
    ]);
    ensure_module_declarations(&mut s);
    assert_eq!(at(&s, "src/main.rs").matches("pub use collector::*;").count(), 1);
}

#[test]
fn a_module_with_the_mod_line_already_present_still_gets_its_reexport_added() {
    // The module is declared but not re-exported, so a sibling's `crate::TypeName` would not
    // resolve.
    let mut s = sections(&[
        ("src/main.rs", "mod collector;\nfn main() {}\n"),
        ("src/collector.rs", "pub struct Error;\n"),
    ]);
    ensure_module_declarations(&mut s);
    let main = at(&s, "src/main.rs");
    assert_eq!(main.matches("mod collector;").count(), 1, "{main}");
    assert!(main.contains("pub use collector::*;"), "{main}");
}

#[test]
fn falls_back_to_lib_rs_reexports_when_there_is_no_main_rs() {
    let mut s = sections(&[
        ("src/lib.rs", "pub fn hello() {}\n"),
        ("src/collector.rs", "pub struct Collector;\n"),
    ]);
    ensure_module_declarations(&mut s);
    assert!(at(&s, "src/lib.rs").contains("pub use collector::*;"));
}

#[test]
fn wiring_twice_changes_nothing_more() {
    let mut s = sections(&[
        ("src/main.rs", "fn main() {}\n"),
        ("src/b.rs", ""),
        ("src/a.rs", ""),
        ("src/deep/c.rs", ""),
        ("tests/t.rs", ""),
    ]);
    ensure_module_declarations(&mut s);
    let once = at(&s, "src/main.rs").clone();
    assert!(once.contains("mod a;") && once.contains("mod b;"));
    assert!(!once.contains("mod c;") && !once.contains("mod t;"));
    assert!(once.find("mod a;") < once.find("mod b;"));
    ensure_module_declarations(&mut s);
    assert_eq!(at(&s, "src/main.rs"), &once);
}
