//! The manifest of the crate that is built: what it takes over from the source's manifest, and
//! from that of the workspace around the source.

use crate::sections::Sections;
use crate::text::{
    contains, has, is_blank, is_space, join, joined, lines, lines_of, occurs_at, opt, parted,
    pieces, same,
    split, split_once, starts_with, texts, trim, trim_start, trimmed, trimmed_start,
};
use vstd::prelude::*;
use vstd::string::StringExecFns;

verus! {

/// The manifest of a crate whose source has none to take over.
pub const BARE_MANIFEST: &'static str =
    "[package]\nname = \"v2\"\nversion = \"0.1.0\"\nedition = \"2021\"\n\n[dependencies]\n";

/// A manifest that a search comes by.
#[derive(Debug)]
pub enum Candidate {
    Missing,
    Unreadable,
    Read(String),
}

/// The first manifest of a workspace among `candidates` from `k` on. One that cannot be read
/// ends the search.
pub open spec fn workspace_manifest(candidates: Seq<Candidate>, k: int) -> Option<Seq<char>>
    decreases candidates.len() - k,
{
    if k < 0 || k >= candidates.len() {
        None
    } else {
        match candidates[k] {
            Candidate::Missing => workspace_manifest(candidates, k + 1),
            Candidate::Unreadable => None,
            Candidate::Read(content) => if has(content@, "[workspace]"@) {
                Some(content@)
            } else {
                workspace_manifest(candidates, k + 1)
            },
        }
    }
}

/// The first manifest of a workspace, going up from the source: `candidates` are those of the
/// directories above it, nearest first.
pub fn find_workspace_cargo(candidates: &[Candidate]) -> (r: Option<String>)
    ensures
        opt(r) == workspace_manifest(candidates@, 0),
{
    let mut k: usize = 0;
    while k < candidates.len()
        invariant
            k <= candidates@.len(),
            workspace_manifest(candidates@, 0) == workspace_manifest(candidates@, k as int),
        decreases candidates@.len() - k,
    {
        match &candidates[k] {
            Candidate::Missing => {},
            Candidate::Unreadable => {
                return None;
            },
            Candidate::Read(content) => {
                if contains(content.as_str(), "[workspace]") {
                    return Some(content.clone());
                }
            },
        }
        k += 1;
    }
    None
}

/// What the lines from `k` on add to the dependencies of a workspace; `inside` says whether
/// they stand in the section of dependencies.
pub open spec fn dependencies_from(
    lines: Seq<Seq<char>>,
    k: int,
    inside: bool,
    found: Map<Seq<char>, Seq<char>>,
) -> Map<Seq<char>, Seq<char>>
    decreases lines.len() - k,
{
    if k < 0 || k >= lines.len() {
        found
    } else if trimmed(lines[k]) == "[workspace.dependencies]"@ {
        dependencies_from(lines, k + 1, true, found)
    } else {
        let inside = inside && !"["@.is_prefix_of(lines[k]);
        let next = if inside && trimmed(lines[k]).len() > 0 && !"#"@.is_prefix_of(lines[k]) {
            match parted(lines[k], "="@) {
                Some((name, spec)) => found.insert(trimmed(name), trimmed(spec)),
                None => found,
            }
        } else {
            found
        };
        dependencies_from(lines, k + 1, inside, next)
    }
}

/// The dependencies of a workspace, each under its name.
pub open spec fn workspace_dependencies(manifest: Seq<char>) -> Map<Seq<char>, Seq<char>> {
    dependencies_from(lines_of(manifest), 0, false, Map::empty())
}

/// The dependencies of a workspace, each under its name.
pub fn parse_workspace_deps(workspace_toml: &str) -> (r: Sections)
    ensures
        r@ == workspace_dependencies(workspace_toml@),
{
    let list = lines(workspace_toml);
    let ghost all = lines_of(workspace_toml@);
    let mut deps = Sections::new();
    let mut inside = false;
    let mut k: usize = 0;
    while k < list.len()
        invariant
            k <= list@.len(),
            texts(list@) == all,
            dependencies_from(all, k as int, inside, deps@) == dependencies_from(
                all,
                0,
                false,
                Map::empty(),
            ),
        decreases list@.len() - k,
    {
        let line = list[k].as_str();
        assert(all[k as int] == line@);
        if same(trim(line).as_str(), "[workspace.dependencies]") {
            inside = true;
        } else {
            if starts_with(line, "[") {
                inside = false;
            }
            if inside && !is_blank(line) && !starts_with(line, "#") {
                if let Some((name, spec)) = split_once(line, "=") {
                    deps.insert(trim(name.as_str()), trim(spec.as_str()));
                }
            }
        }
        k += 1;
    }
    deps
}

/// Whether `line` opens a section of dependencies.
pub open spec fn opens_dependencies(line: Seq<char>) -> bool {
    ||| line == "[dependencies]"@
    ||| line == "[dev-dependencies]"@
    ||| "[dependencies."@.is_prefix_of(line)
    ||| "[dev-dependencies."@.is_prefix_of(line)
}

/// The name of the dependency that a line speaks of.
pub open spec fn dependency_name(line: Seq<char>) -> Seq<char> {
    trimmed(pieces(line, '=')[0])
}

/// A line of the new manifest, `inside` a section of dependencies or not: a dependency that is
/// taken from the workspace is written out.
pub open spec fn written_out(
    line: Seq<char>,
    inside: bool,
    deps: Map<Seq<char>, Seq<char>>,
) -> Seq<char> {
    let name = dependency_name(line);
    if inside && has(line, "workspace = true"@) && deps.contains_key(name) {
        name + " = "@ + deps[name]
    } else {
        line
    }
}

/// The lines of the new manifest from `k` on. The first name before any dependencies is the
/// package's: it becomes `new_name`.
pub open spec fn manifest_from(
    lines: Seq<Seq<char>>,
    k: int,
    inside: bool,
    named: bool,
    new_name: Seq<char>,
    deps: Map<Seq<char>, Seq<char>>,
) -> Seq<Seq<char>>
    decreases lines.len() - k,
{
    if k < 0 || k >= lines.len() {
        Seq::empty()
    } else if !named && !inside && "name ="@.is_prefix_of(trimmed_start(lines[k])) {
        seq!["name = \""@ + new_name + "\""@] + manifest_from(
            lines,
            k + 1,
            inside,
            true,
            new_name,
            deps,
        )
    } else {
        let inside = if "["@.is_prefix_of(lines[k]) {
            opens_dependencies(lines[k])
        } else {
            inside
        };
        seq![written_out(lines[k], inside, deps)] + manifest_from(
            lines,
            k + 1,
            inside,
            named,
            new_name,
            deps,
        )
    }
}

/// `manifest`, out of any workspace around it.
pub open spec fn opted_out(manifest: Seq<char>) -> Seq<char> {
    if has(manifest, "[workspace]"@) {
        manifest
    } else {
        manifest + "\n\n[workspace]\n"@
    }
}

/// The manifest of a package called `new_name` that stands by itself.
pub open spec fn standalone_manifest(
    source: Seq<char>,
    workspace: Seq<char>,
    new_name: Seq<char>,
) -> Seq<char> {
    opted_out(
        joined(
            manifest_from(
                lines_of(source),
                0,
                false,
                false,
                new_name,
                workspace_dependencies(workspace),
            ),
            "\n"@,
        ),
    )
}

fn write_out(line: &str, inside: bool, deps: &Sections) -> (r: String)
    ensures
        r@ == written_out(line@, inside, deps@),
{
    if inside && contains(line, "workspace = true") {
        let parts = split(line, '=');
        assert(pieces(line@, '=')[0] == parts@[0]@);
        let name = trim(parts[0].as_str());
        if let Some(spec) = deps.get(name.as_str()) {
            return name.concat(" = ").concat(spec.as_str());
        }
    }
    line.to_owned()
}

/// The manifest of a package called `new_name` that stands by itself: dependencies that are
/// taken from the workspace are written out.
pub fn resolve_cargo_toml(source_toml: &str, workspace_toml: &str, new_name: &str) -> (r: String)
    ensures
        r@ == standalone_manifest(source_toml@, workspace_toml@, new_name@),
{
    let deps = parse_workspace_deps(workspace_toml);
    let list = lines(source_toml);
    let ghost all = lines_of(source_toml@);
    let ghost whole = manifest_from(all, 0, false, false, new_name@, deps@);
    let mut out: Vec<String> = Vec::new();
    let mut inside = false;
    let mut named = false;
    let mut k: usize = 0;
    assert(texts(out@) + whole =~= whole);
    while k < list.len()
        invariant
            k <= list@.len(),
            texts(list@) == all,
            texts(out@) + manifest_from(all, k as int, inside, named, new_name@, deps@) == whole,
        decreases list@.len() - k,
    {
        let line = list[k].as_str();
        let ghost had = out@;
        assert(all[k as int] == line@);
        if !named && !inside && starts_with(trim_start(line).as_str(), "name =") {
            let renamed = "name = \"".to_owned().concat(new_name).concat("\"");
            out.push(renamed);
            named = true;
            proof {
                let rest = manifest_from(all, k + 1, inside, true, new_name@, deps@);
                assert(texts(out@) + rest =~= texts(had) + (seq![renamed@] + rest));
            }
        } else {
            if starts_with(line, "[") {
                inside = same(line, "[dependencies]") || same(line, "[dev-dependencies]")
                    || starts_with(line, "[dependencies.") || starts_with(
                    line,
                    "[dev-dependencies.",
                );
            }
            let next = write_out(line, inside, &deps);
            out.push(next);
            proof {
                let rest = manifest_from(all, k + 1, inside, named, new_name@, deps@);
                assert(texts(out@) + rest =~= texts(had) + (seq![next@] + rest));
            }
        }
        k += 1;
    }
    assert(texts(out@) + Seq::<Seq<char>>::empty() =~= texts(out@));
    let result = join(out.as_slice(), "\n");
    if contains(result.as_str(), "[workspace]") {
        result
    } else {
        result.concat("\n\n[workspace]\n")
    }
}

/// The manifest that the new crate starts from, given the source's own manifest (empty where
/// there is none) and that of the workspace around it.
pub fn v2_manifest(source_toml: &str, workspace_toml: Option<String>) -> (r: String)
    ensures
        r@ == (if trimmed(source_toml@).len() == 0 {
            BARE_MANIFEST@
        } else {
            standalone_manifest(
                source_toml@,
                match opt(workspace_toml) {
                    Some(text) => text,
                    None => Seq::empty(),
                },
                "v2"@,
            )
        }),
{
    if is_blank(source_toml) {
        return BARE_MANIFEST.to_owned();
    }
    let around = match workspace_toml {
        Some(text) => text,
        None => {
            let none = String::new();
            assert(none@ =~= Seq::<char>::empty());
            none
        },
    };
    resolve_cargo_toml(source_toml, around.as_str(), "v2")
}

/// A manifest that was resolved never belongs to a workspace around it.
pub proof fn law_manifests_stand_alone(
    source: Seq<char>,
    workspace: Seq<char>,
    new_name: Seq<char>,
)
    ensures
        has(standalone_manifest(source, workspace, new_name), "[workspace]"@),
{
    let body = joined(
        manifest_from(
            lines_of(source),
            0,
            false,
            false,
            new_name,
            workspace_dependencies(workspace),
        ),
        "\n"@,
    );
    if has(body, "[workspace]"@) {
    } else {
        reveal_strlit("[workspace]");
        reveal_strlit("\n\n[workspace]\n");
        let at = (body.len() + 2) as int;
        assert(opted_out(body).subrange(at, at + 11) =~= "[workspace]"@);
        assert(occurs_at(opted_out(body), "[workspace]"@, at));
    }
}

/// No line of a manifest is lost: each is kept, but for the one that names the package, and for
/// dependencies that are taken from the workspace, which are written out.
pub proof fn law_manifest_lines_are_kept(
    lines: Seq<Seq<char>>,
    k: int,
    inside: bool,
    named: bool,
    new_name: Seq<char>,
    deps: Map<Seq<char>, Seq<char>>,
    i: int,
)
    requires
        0 <= k <= i < lines.len(),
    ensures
        ({
            let out = manifest_from(lines, k, inside, named, new_name, deps);
            &&& out.len() == lines.len() - k
            &&& {
                ||| out[i - k] == lines[i]
                ||| "name ="@.is_prefix_of(trimmed_start(lines[i])) && out[i - k] == "name = \""@
                    + new_name + "\""@
                ||| has(lines[i], "workspace = true"@) && deps.contains_key(
                    dependency_name(lines[i]),
                ) && out[i - k] == dependency_name(lines[i]) + " = "@ + deps[dependency_name(
                    lines[i],
                )]
            }
        }),
    decreases lines.len() - k,
{
    let (later, renamed) = if !named && !inside && "name ="@.is_prefix_of(trimmed_start(lines[k])) {
        (inside, true)
    } else {
        (
            if "["@.is_prefix_of(lines[k]) {
                opens_dependencies(lines[k])
            } else {
                inside
            },
            named,
        )
    };
    lemma_manifest_len(lines, k + 1, later, renamed, new_name, deps);
    if k < i {
        law_manifest_lines_are_kept(lines, k + 1, later, renamed, new_name, deps, i);
    }
}

proof fn lemma_manifest_len(
    lines: Seq<Seq<char>>,
    k: int,
    inside: bool,
    named: bool,
    new_name: Seq<char>,
    deps: Map<Seq<char>, Seq<char>>,
)
    requires
        0 <= k <= lines.len(),
    ensures
        manifest_from(lines, k, inside, named, new_name, deps).len() == lines.len() - k,
    decreases lines.len() - k,
{
    if k < lines.len() {
        lemma_manifest_len(lines, k + 1, inside, true, new_name, deps);
        lemma_manifest_len(lines, k + 1, inside, named, new_name, deps);
        lemma_manifest_len(lines, k + 1, opens_dependencies(lines[k]), named, new_name, deps);
    }
}

/// A dependency that is taken from the workspace, wherever it stands in a section of dependencies, is
/// written out as the workspace has it.
pub proof fn law_workspace_dependencies_are_written_out(
    lines: Seq<Seq<char>>,
    k: int,
    inside: bool,
    named: bool,
    new_name: Seq<char>,
    deps: Map<Seq<char>, Seq<char>>,
    j: int,
    i: int,
)
    requires
        0 <= k <= i < lines.len(),
        k <= j < i || (inside && j < k),
        k <= j ==> lines[j] == "[dependencies]"@ || lines[j] == "[dev-dependencies]"@,
        forall|m: int|
            #![trigger lines[m]]
            j < m <= i && k <= m ==> !("["@.is_prefix_of(lines[m])),
        has(lines[i], "workspace = true"@),
        deps.contains_key(dependency_name(lines[i])),
    ensures
        manifest_from(lines, k, inside, named, new_name, deps).len() == lines.len() - k,
        manifest_from(lines, k, inside, named, new_name, deps)[i - k] == dependency_name(lines[i])
            + " = "@ + deps[dependency_name(lines[i])],
    decreases lines.len() - k,
{
    reveal_strlit("[");
    reveal_strlit("[dependencies]");
    reveal_strlit("[dev-dependencies]");
    reveal_strlit("name =");
    lemma_manifest_len(lines, k, inside, named, new_name, deps);
    if k == j {
        assert(lines[k][0] == '[');
        assert(!is_space('['));
        assert(trimmed_start(lines[k]) == lines[k]);
        assert("["@.is_prefix_of(lines[k]));
        if "name ="@.is_prefix_of(lines[k]) {
            assert(lines[k][0] == "name ="@[0]);
        }
        law_workspace_dependencies_are_written_out(
            lines,
            k + 1,
            true,
            named,
            new_name,
            deps,
            j,
            i,
        );
    } else if k < j {
        let renamed = !named && !inside && "name ="@.is_prefix_of(trimmed_start(lines[k]));
        let later = if renamed {
            inside
        } else if "["@.is_prefix_of(lines[k]) {
            opens_dependencies(lines[k])
        } else {
            inside
        };
        law_workspace_dependencies_are_written_out(
            lines,
            k + 1,
            later,
            named || renamed,
            new_name,
            deps,
            j,
            i,
        );
    } else {
        assert(!("["@.is_prefix_of(lines[k])));
        if k < i {
            law_workspace_dependencies_are_written_out(
                lines,
                k + 1,
                true,
                named,
                new_name,
                deps,
                j,
                i,
            );
        }
    }
}

/// The package gets its new name: the first name that stands before any dependencies is replaced.
pub proof fn law_the_package_is_renamed(
    lines: Seq<Seq<char>>,
    k: int,
    new_name: Seq<char>,
    deps: Map<Seq<char>, Seq<char>>,
    i: int,
)
    requires
        0 <= k <= i < lines.len(),
        "name ="@.is_prefix_of(trimmed_start(lines[i])),
        forall|j: int|
            k <= j < i ==> !("name ="@.is_prefix_of(trimmed_start(#[trigger] lines[j])))
                && !opens_dependencies(lines[j]),
    ensures
        manifest_from(lines, k, false, false, new_name, deps).len() == lines.len() - k,
        manifest_from(lines, k, false, false, new_name, deps)[i - k] == "name = \""@ + new_name
            + "\""@,
    decreases lines.len() - k,
{
    lemma_manifest_len(lines, k, false, false, new_name, deps);
    if k < i {
        assert(!opens_dependencies(lines[k]));
        law_the_package_is_renamed(lines, k + 1, new_name, deps, i);
    }
}

proof fn lemma_dependencies_keep(
    lines: Seq<Seq<char>>,
    k: int,
    inside: bool,
    found: Map<Seq<char>, Seq<char>>,
    name: Seq<char>,
)
    requires
        0 <= k,
        found.contains_key(name),
        forall|i: int|
            k <= i < lines.len() ==> (parted(#[trigger] lines[i], "="@) matches Some((n, _))
                ==> trimmed(n) != name),
    ensures
        dependencies_from(lines, k, inside, found).contains_key(name),
        dependencies_from(lines, k, inside, found)[name] == found[name],
    decreases lines.len() - k,
{
    if k < lines.len() {
        let line = lines[k];
        assert(parted(line, "="@) matches Some((n, _)) ==> trimmed(n) != name);
        if trimmed(line) == "[workspace.dependencies]"@ {
            lemma_dependencies_keep(lines, k + 1, true, found, name);
        } else {
            let inside = inside && !"["@.is_prefix_of(line);
            let next = if inside && trimmed(line).len() > 0 && !"#"@.is_prefix_of(line) {
                match parted(line, "="@) {
                    Some((n, spec)) => found.insert(trimmed(n), trimmed(spec)),
                    None => found,
                }
            } else {
                found
            };
            lemma_dependencies_keep(lines, k + 1, inside, next, name);
        }
    }
}

/// A dependency of a workspace is found under its name, as it is written behind the first equals sign.
pub proof fn law_workspace_dependencies_are_found(
    lines: Seq<Seq<char>>,
    k: int,
    inside: bool,
    found: Map<Seq<char>, Seq<char>>,
    j: int,
    i: int,
    name: Seq<char>,
    spec: Seq<char>,
)
    requires
        0 <= k <= i < lines.len(),
        k <= j < i || (inside && j < k),
        k <= j ==> trimmed(lines[j]) == "[workspace.dependencies]"@,
        forall|m: int|
            #![trigger lines[m]]
            j < m <= i && k <= m ==> !("["@.is_prefix_of(lines[m])) && trimmed(lines[m])
                != "[workspace.dependencies]"@,
        trimmed(lines[i]).len() > 0,
        !("#"@.is_prefix_of(lines[i])),
        parted(lines[i], "="@) matches Some((n, s)) && trimmed(n) == name && trimmed(s) == spec,
        forall|m: int|
            i < m < lines.len() ==> (parted(#[trigger] lines[m], "="@) matches Some((n, _))
                ==> trimmed(n) != name),
    ensures
        dependencies_from(lines, k, inside, found).contains_key(name),
        dependencies_from(lines, k, inside, found)[name] == spec,
    decreases lines.len() - k,
{
    let line = lines[k];
    if trimmed(line) == "[workspace.dependencies]"@ {
        law_workspace_dependencies_are_found(lines, k + 1, true, found, j, i, name, spec);
    } else {
        let now = inside && !"["@.is_prefix_of(line);
        let next = if now && trimmed(line).len() > 0 && !"#"@.is_prefix_of(line) {
            match parted(line, "="@) {
                Some((n, s)) => found.insert(trimmed(n), trimmed(s)),
                None => found,
            }
        } else {
            found
        };
        if k == i {
            lemma_dependencies_keep(lines, k + 1, now, next, name);
        } else {
            law_workspace_dependencies_are_found(lines, k + 1, now, next, j, i, name, spec);
        }
    }
}

} // verus!
