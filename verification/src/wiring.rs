//! The entry file of a draft crate: which modules it declares and re-exports.

use crate::order::{lemma_sorted, sort, sorted};
use crate::sections::{is_listing, lemma_listing, listing, Listed, Sections};
use crate::text::{
    after_prefix, before_suffix, contains, has, occurs_at, strip_prefix, strip_suffix, texts,
};
use vstd::prelude::*;
use vstd::string::StringExecFns;

verus! {

/// The entry file of a crate, where it has one.
pub open spec fn entry_path(files: Map<Seq<char>, Seq<char>>) -> Option<Seq<char>> {
    if files.contains_key("src/main.rs"@) {
        Some("src/main.rs"@)
    } else if files.contains_key("src/lib.rs"@) {
        Some("src/lib.rs"@)
    } else {
        None
    }
}

/// The module that a file directly under `src/` is.
pub open spec fn module_name(path: Seq<char>) -> Option<Seq<char>> {
    match after_prefix(path, "src/"@) {
        None => None,
        Some(rel) => match before_suffix(rel, ".rs"@) {
            None => None,
            Some(name) => if has(name, "/"@) {
                None
            } else {
                Some(name)
            },
        },
    }
}

/// The modules of a crate beside its entry file.
pub open spec fn module_names(list: Seq<Listed>, entry: Seq<char>) -> Seq<Seq<char>>
    decreases list.len(),
{
    if list.len() == 0 {
        Seq::empty()
    } else {
        let less = module_names(list.drop_last(), entry);
        match module_name(list.last().0) {
            Some(name) => if list.last().0 != entry {
                less.push(name)
            } else {
                less
            },
            None => less,
        }
    }
}

/// The line that declares a module, without its newline.
pub open spec fn declaration(name: Seq<char>) -> Seq<char> {
    "mod "@ + name + ";"@
}

/// The line that re-exports a module, without its newline.
pub open spec fn reexport(name: Seq<char>) -> Seq<char> {
    "pub use "@ + name + "::*;"@
}

/// Whether `text` declares module `name`, in public or not.
pub open spec fn declares(text: Seq<char>, name: Seq<char>) -> bool {
    has(text, declaration(name)) || has(text, "pub mod "@ + name + ";"@)
}

/// Whether `text` re-exports module `name`.
pub open spec fn reexports(text: Seq<char>, name: Seq<char>) -> bool {
    has(text, reexport(name))
}

/// Those of `names` that `text` does not declare.
pub open spec fn undeclared(names: Seq<Seq<char>>, text: Seq<char>) -> Seq<Seq<char>>
    decreases names.len(),
{
    if names.len() == 0 {
        Seq::empty()
    } else if declares(text, names.last()) {
        undeclared(names.drop_last(), text)
    } else {
        undeclared(names.drop_last(), text).push(names.last())
    }
}

/// Those of `names` that `text` does not re-export.
pub open spec fn unexported(names: Seq<Seq<char>>, text: Seq<char>) -> Seq<Seq<char>>
    decreases names.len(),
{
    if names.len() == 0 {
        Seq::empty()
    } else if reexports(text, names.last()) {
        unexported(names.drop_last(), text)
    } else {
        unexported(names.drop_last(), text).push(names.last())
    }
}

/// The lines that declare `names`.
pub open spec fn declarations(names: Seq<Seq<char>>) -> Seq<char>
    decreases names.len(),
{
    if names.len() == 0 {
        Seq::empty()
    } else {
        declarations(names.drop_last()) + "mod "@ + names.last() + ";\n"@
    }
}

/// The lines that re-export `names`.
pub open spec fn reexport_lines(names: Seq<Seq<char>>) -> Seq<char>
    decreases names.len(),
{
    if names.len() == 0 {
        Seq::empty()
    } else {
        reexport_lines(names.drop_last()) + "pub use "@ + names.last() + "::*;\n"@
    }
}

/// An entry file with what it lacks of `names` put before it, in the order of names.
pub open spec fn wired_entry(names: Seq<Seq<char>>, text: Seq<char>) -> Seq<char> {
    declarations(sorted(undeclared(names, text))) + reexport_lines(sorted(unexported(names, text)))
        + text
}

/// A crate whose entry file declares and re-exports every module that stands directly under
/// `src/`. A crate without an entry file stays as it is.
pub open spec fn wired(files: Map<Seq<char>, Seq<char>>) -> Map<Seq<char>, Seq<char>> {
    match entry_path(files) {
        None => files,
        Some(entry) => files.insert(
            entry,
            wired_entry(module_names(listing(files), entry), files[entry]),
        ),
    }
}

/// The module that a file directly under `src/` is.
fn name_of_module(path: &str) -> (r: Option<String>)
    ensures
        match r {
            Some(name) => module_name(path@) == Some(name@),
            None => module_name(path@) is None,
        },
{
    match strip_prefix(path, "src/") {
        None => None,
        Some(rel) => match strip_suffix(rel.as_str(), ".rs") {
            None => None,
            Some(name) => {
                if contains(name.as_str(), "/") {
                    None
                } else {
                    Some(name)
                }
            },
        },
    }
}

fn names_beside(sections: &Sections, entry: &str) -> (r: Vec<String>)
    ensures
        texts(r@) == module_names(listing(sections@), entry@),
{
    let ghost list = listing(sections@);
    let n: usize = sections.len();
    let mut out: Vec<String> = Vec::new();
    let mut i: usize = 0;
    assert(texts(out@) =~= Seq::<Seq<char>>::empty());
    while i < n
        invariant
            i <= n == list.len(),
            list == listing(sections@),
            texts(out@) == module_names(list.take(i as int), entry@),
        decreases n - i,
    {
        let ghost had = out@;
        let file = sections.at(i);
        assert(list.take(i + 1).drop_last() =~= list.take(i as int));
        assert(list.take(i + 1).last() == list[i as int]);
        if let Some(name) = name_of_module(file.path.as_str()) {
            if !crate::text::same(file.path.as_str(), entry) {
                out.push(name);
                assert(texts(out@) =~= texts(had).push(name@));
            }
        }
        i += 1;
    }
    assert(list.take(i as int) =~= list);
    out
}

fn lacking_declarations(names: &[String], text: &str) -> (r: Vec<String>)
    ensures
        texts(r@) == undeclared(texts(names@), text@),
{
    let ghost all = texts(names@);
    let mut out: Vec<String> = Vec::new();
    let mut i: usize = 0;
    assert(texts(out@) =~= Seq::<Seq<char>>::empty());
    assert(all.take(0) =~= Seq::<Seq<char>>::empty());
    while i < names.len()
        invariant
            i <= names@.len(),
            all == texts(names@),
            texts(out@) == undeclared(all.take(i as int), text@),
        decreases names@.len() - i,
    {
        let ghost had = out@;
        let name = names[i].as_str();
        assert(all.take(i + 1).drop_last() =~= all.take(i as int));
        assert(all.take(i + 1).last() == name@);
        let private = "mod ".to_owned().concat(name).concat(";");
        let public = "pub mod ".to_owned().concat(name).concat(";");
        if !contains(text, private.as_str()) && !contains(text, public.as_str()) {
            out.push(names[i].clone());
            assert(texts(out@) =~= texts(had).push(name@));
        }
        i += 1;
    }
    assert(all.take(i as int) =~= all);
    out
}

fn lacking_reexports(names: &[String], text: &str) -> (r: Vec<String>)
    ensures
        texts(r@) == unexported(texts(names@), text@),
{
    let ghost all = texts(names@);
    let mut out: Vec<String> = Vec::new();
    let mut i: usize = 0;
    assert(texts(out@) =~= Seq::<Seq<char>>::empty());
    assert(all.take(0) =~= Seq::<Seq<char>>::empty());
    while i < names.len()
        invariant
            i <= names@.len(),
            all == texts(names@),
            texts(out@) == unexported(all.take(i as int), text@),
        decreases names@.len() - i,
    {
        let ghost had = out@;
        let name = names[i].as_str();
        assert(all.take(i + 1).drop_last() =~= all.take(i as int));
        assert(all.take(i + 1).last() == name@);
        let line = "pub use ".to_owned().concat(name).concat("::*;");
        if !contains(text, line.as_str()) {
            out.push(names[i].clone());
            assert(texts(out@) =~= texts(had).push(name@));
        }
        i += 1;
    }
    assert(all.take(i as int) =~= all);
    out
}

fn declare(names: &[String]) -> (r: String)
    ensures
        r@ == declarations(texts(names@)),
{
    let ghost all = texts(names@);
    let mut out = String::new();
    let mut i: usize = 0;
    assert(all.take(0) =~= Seq::<Seq<char>>::empty());
    while i < names.len()
        invariant
            i <= names@.len(),
            all == texts(names@),
            out@ == declarations(all.take(i as int)),
        decreases names@.len() - i,
    {
        out.append("mod ");
        out.append(names[i].as_str());
        out.append(";\n");
        assert(all.take(i + 1).drop_last() =~= all.take(i as int));
        i += 1;
    }
    assert(all.take(i as int) =~= all);
    out
}

fn export(names: &[String]) -> (r: String)
    ensures
        r@ == reexport_lines(texts(names@)),
{
    let ghost all = texts(names@);
    let mut out = String::new();
    let mut i: usize = 0;
    assert(all.take(0) =~= Seq::<Seq<char>>::empty());
    while i < names.len()
        invariant
            i <= names@.len(),
            all == texts(names@),
            out@ == reexport_lines(all.take(i as int)),
        decreases names@.len() - i,
    {
        out.append("pub use ");
        out.append(names[i].as_str());
        out.append("::*;\n");
        assert(all.take(i + 1).drop_last() =~= all.take(i as int));
        i += 1;
    }
    assert(all.take(i as int) =~= all);
    out
}

/// Declares and re-exports every module that stands directly under `src/` in the crate's entry
/// file: `src/main.rs`, or `src/lib.rs` where there is none. Lines that are there already are
/// not repeated. Milestones are built without sight of each other, so none of them can do this.
pub fn ensure_module_declarations(sections: &mut Sections)
    ensures
        final(sections)@ == wired(old(sections)@),
{
    let entry: &str = if sections.contains_key("src/main.rs") {
        "src/main.rs"
    } else if sections.contains_key("src/lib.rs") {
        "src/lib.rs"
    } else {
        return ;
    };
    let text = match sections.get(entry) {
        Some(text) => text.clone(),
        None => {
            return ;
        },
    };
    let names = names_beside(sections, entry);
    let decls = declare(sort(lacking_declarations(names.as_slice(), text.as_str())).as_slice());
    let uses = export(sort(lacking_reexports(names.as_slice(), text.as_str())).as_slice());
    sections.insert(entry.to_owned(), decls.concat(uses.as_str()).concat(text.as_str()));
}

proof fn lemma_has_in_parts(a: Seq<char>, b: Seq<char>, pat: Seq<char>)
    ensures
        has(a, pat) || has(b, pat) ==> has(a + b, pat),
{
    if has(a, pat) {
        let i = choose|i: int| occurs_at(a, pat, i);
        assert((a + b).subrange(i, i + pat.len()) =~= a.subrange(i, i + pat.len()));
        assert(occurs_at(a + b, pat, i));
    }
    if has(b, pat) {
        let i = choose|i: int| occurs_at(b, pat, i);
        assert((a + b).subrange(a.len() + i, a.len() + i + pat.len()) =~= b.subrange(
            i,
            i + pat.len(),
        ));
        assert(occurs_at(a + b, pat, a.len() + i));
    }
}

proof fn lemma_undeclared(names: Seq<Seq<char>>, text: Seq<char>, i: int)
    requires
        0 <= i < names.len(),
        !declares(text, names[i]),
    ensures
        undeclared(names, text).contains(names[i]),
    decreases names.len(),
{
    let less = undeclared(names.drop_last(), text);
    let all = undeclared(names, text);
    if i < names.len() - 1 {
        lemma_undeclared(names.drop_last(), text, i);
        let k = choose|k: int| 0 <= k < less.len() && less[k] == names[i];
        assert(all[k] == names[i]);
    } else {
        assert(all[less.len() as int] == names[i]);
    }
}

proof fn lemma_unexported(names: Seq<Seq<char>>, text: Seq<char>, i: int)
    requires
        0 <= i < names.len(),
        !reexports(text, names[i]),
    ensures
        unexported(names, text).contains(names[i]),
    decreases names.len(),
{
    let less = unexported(names.drop_last(), text);
    let all = unexported(names, text);
    if i < names.len() - 1 {
        lemma_unexported(names.drop_last(), text, i);
        let k = choose|k: int| 0 <= k < less.len() && less[k] == names[i];
        assert(all[k] == names[i]);
    } else {
        assert(all[less.len() as int] == names[i]);
    }
}

proof fn lemma_declarations_have(names: Seq<Seq<char>>, i: int)
    requires
        0 <= i < names.len(),
    ensures
        has(declarations(names), declaration(names[i])),
    decreases names.len(),
{
    let less = declarations(names.drop_last());
    if i < names.len() - 1 {
        lemma_declarations_have(names.drop_last(), i);
        lemma_has_in_parts(less, "mod "@ + names.last() + ";\n"@, declaration(names[i]));
        assert(declarations(names) =~= less + ("mod "@ + names.last() + ";\n"@));
    } else {
        reveal_strlit(";\n");
        reveal_strlit(";");
        let line = declaration(names[i]);
        let all = declarations(names);
        assert(all.subrange(less.len() as int, (less.len() + line.len()) as int) =~= line);
        assert(occurs_at(all, line, less.len() as int));
    }
}

proof fn lemma_reexports_have(names: Seq<Seq<char>>, i: int)
    requires
        0 <= i < names.len(),
    ensures
        has(reexport_lines(names), reexport(names[i])),
    decreases names.len(),
{
    let less = reexport_lines(names.drop_last());
    if i < names.len() - 1 {
        lemma_reexports_have(names.drop_last(), i);
        lemma_has_in_parts(less, "pub use "@ + names.last() + "::*;\n"@, reexport(names[i]));
        assert(reexport_lines(names) =~= less + ("pub use "@ + names.last() + "::*;\n"@));
    } else {
        reveal_strlit("::*;\n");
        reveal_strlit("::*;");
        let line = reexport(names[i]);
        let all = reexport_lines(names);
        assert(all.subrange(less.len() as int, (less.len() + line.len()) as int) =~= line);
        assert(occurs_at(all, line, less.len() as int));
    }
}

/// A wired entry file declares and re-exports every module, and ends with what it was before.
pub proof fn law_every_module_is_wired(names: Seq<Seq<char>>, text: Seq<char>, i: int)
    requires
        0 <= i < names.len(),
    ensures
        declares(wired_entry(names, text), names[i]),
        reexports(wired_entry(names, text), names[i]),
        text.is_suffix_of(wired_entry(names, text)),
{
    let name = names[i];
    let mods = sorted(undeclared(names, text));
    let uses = sorted(unexported(names, text));
    let head = declarations(mods);
    let middle = reexport_lines(uses);
    assert(wired_entry(names, text) == head + middle + text);
    if declares(text, name) {
        lemma_has_in_parts(head + middle, text, declaration(name));
        lemma_has_in_parts(head + middle, text, "pub mod "@ + name + ";"@);
    } else {
        lemma_undeclared(names, text, i);
        lemma_sorted(undeclared(names, text));
        assert(mods.contains(name));
        let k = choose|k: int| 0 <= k < mods.len() && mods[k] == name;
        lemma_declarations_have(mods, k);
        lemma_has_in_parts(head, middle, declaration(name));
        lemma_has_in_parts(head + middle, text, declaration(name));
    }
    if reexports(text, name) {
        lemma_has_in_parts(head + middle, text, reexport(name));
    } else {
        lemma_unexported(names, text, i);
        lemma_sorted(unexported(names, text));
        assert(uses.contains(name));
        let k = choose|k: int| 0 <= k < uses.len() && uses[k] == name;
        lemma_reexports_have(uses, k);
        lemma_has_in_parts(head, middle, reexport(name));
        lemma_has_in_parts(head + middle, text, reexport(name));
    }
}

proof fn lemma_nothing_lacking(names: Seq<Seq<char>>, text: Seq<char>)
    requires
        forall|i: int|
            0 <= i < names.len() ==> declares(text, #[trigger] names[i]) && reexports(text, names[i]),
    ensures
        undeclared(names, text) == Seq::<Seq<char>>::empty(),
        unexported(names, text) == Seq::<Seq<char>>::empty(),
        wired_entry(names, text) == text,
    decreases names.len(),
{
    let none = Seq::<Seq<char>>::empty();
    if names.len() > 0 {
        assert forall|i: int| 0 <= i < names.drop_last().len() implies declares(
            text,
            #[trigger] names.drop_last()[i],
        ) && reexports(text, names.drop_last()[i]) by {
            assert(names.drop_last()[i] == names[i]);
        }
        lemma_nothing_lacking(names.drop_last(), text);
        assert(names.last() == names[names.len() - 1]);
    }
    lemma_sorted(none);
    assert(sorted(none) =~= none);
    assert(wired_entry(names, text) =~= text);
}

/// The paths of a list decide its modules.
proof fn lemma_same_modules(a: Seq<Listed>, b: Seq<Listed>, entry: Seq<char>)
    requires
        a.len() == b.len(),
        forall|i: int| 0 <= i < a.len() ==> (#[trigger] a[i]).0 == b[i].0,
    ensures
        module_names(a, entry) == module_names(b, entry),
    decreases a.len(),
{
    if a.len() > 0 {
        assert forall|i: int| 0 <= i < a.drop_last().len() implies (#[trigger] a.drop_last()[i]).0
            == b.drop_last()[i].0 by {
            assert(a.drop_last()[i] == a[i]);
        }
        lemma_same_modules(a.drop_last(), b.drop_last(), entry);
        assert(a[a.len() - 1].0 == b[a.len() - 1].0);
    }
}

/// Wiring a crate twice is wiring it once.
pub proof fn law_wiring_is_idempotent(files: Map<Seq<char>, Seq<char>>, list: Seq<Listed>)
    requires
        is_listing(list, files),
    ensures
        wired(wired(files)) == wired(files),
{
    lemma_listing(list, files);
    if let Some(entry) = entry_path(files) {
        let names = module_names(list, entry);
        let text = wired_entry(names, files[entry]);
        let next = files.insert(entry, text);
        let relisted = list.map_values(
            |f: Listed|
                (
                    f.0,
                    if f.0 == entry {
                        text
                    } else {
                        f.1
                    },
                ),
        );
        assert(is_listing(relisted, next)) by {
            assert forall|i: int, j: int| 0 <= i < j < relisted.len() implies crate::order::before(
                #[trigger] relisted[i].0,
                #[trigger] relisted[j].0,
            ) by {
                assert(crate::order::before(list[i].0, list[j].0));
            }
            assert forall|i: int| 0 <= i < relisted.len() implies next.contains_key(
                #[trigger] relisted[i].0,
            ) && next[relisted[i].0] == relisted[i].1 by {
                assert(files.contains_key(list[i].0));
            }
            assert forall|p: Seq<char>| #[trigger] next.contains_key(p) implies exists|i: int|
                0 <= i < relisted.len() && #[trigger] relisted[i].0 == p by {
                assert(files.contains_key(p));
                let i = choose|i: int| 0 <= i < list.len() && #[trigger] list[i].0 == p;
                assert(relisted[i].0 == p);
            }
        }
        lemma_listing(relisted, next);
        lemma_same_modules(list, relisted, entry);
        assert(entry_path(next) == Some(entry));
        assert forall|i: int| 0 <= i < names.len() implies declares(text, #[trigger] names[i])
            && reexports(text, names[i]) by {
            law_every_module_is_wired(names, files[entry], i);
        }
        lemma_nothing_lacking(names, text);
        assert(next.insert(entry, text) =~= next);
    }
}

proof fn lemma_module_is_named(list: Seq<Listed>, entry: Seq<char>, i: int, name: Seq<char>)
    requires
        0 <= i < list.len(),
        list[i].0 != entry,
        module_name(list[i].0) == Some(name),
    ensures
        module_names(list, entry).contains(name),
    decreases list.len(),
{
    let all = module_names(list, entry);
    if i == list.len() - 1 {
        assert(all.last() == name);
    } else {
        lemma_module_is_named(list.drop_last(), entry, i, name);
        let less = module_names(list.drop_last(), entry);
        let k = choose|k: int| 0 <= k < less.len() && less[k] == name;
        assert(all[k] == name);
    }
}

/// Every file directly under `src/` is wired: the entry file of the crate, which is `src/main.rs`, or
/// else `src/lib.rs`, declares it as a module and re-exports what is in it. What the entry file said
/// before stands at its end.
pub proof fn law_every_source_file_is_a_module(
    files: Map<Seq<char>, Seq<char>>,
    list: Seq<Listed>,
    name: Seq<char>,
    entry: Seq<char>,
)
    requires
        is_listing(list, files),
        entry == (if files.contains_key("src/main.rs"@) {
            "src/main.rs"@
        } else {
            "src/lib.rs"@
        }),
        files.contains_key(entry),
        files.contains_key("src/"@ + name + ".rs"@),
        !name.contains('/'),
        "src/"@ + name + ".rs"@ != entry,
    ensures
        wired(files).contains_key(entry),
        has(wired(files)[entry], "mod "@ + name + ";"@) || has(
            wired(files)[entry],
            "pub mod "@ + name + ";"@,
        ),
        has(wired(files)[entry], "pub use "@ + name + "::*;"@),
        files[entry].is_suffix_of(wired(files)[entry]),
{
    reveal_strlit("src/");
    reveal_strlit(".rs");
    reveal_strlit("/");
    let path = "src/"@ + name + ".rs"@;
    lemma_listing(list, files);
    assert("src/"@.is_prefix_of(path));
    let rel = path.skip(4);
    assert(rel =~= name + ".rs"@);
    assert(".rs"@.is_suffix_of(rel));
    assert(rel.take(rel.len() - 3) =~= name);
    assert(!(has(name, "/"@))) by {
        if has(name, "/"@) {
            let k = choose|k: int| occurs_at(name, "/"@, k);
            assert(name.subrange(k, k + 1)[0] == "/"@[0]);
            assert(name[k] == '/');
        }
    }
    assert(module_name(path) == Some(name));
    let i = choose|i: int| 0 <= i < list.len() && #[trigger] list[i].0 == path;
    lemma_module_is_named(list, entry, i, name);
    let names = module_names(list, entry);
    let k = choose|k: int| 0 <= k < names.len() && names[k] == name;
    law_every_module_is_wired(names, files[entry], k);
}

} // verus!
