//! Which tools are installed, and where the helpers that a toolkit bundles
//! are found.

use vstd::prelude::*;

use crate::breakpoints;
use crate::breakpoints::resolve_breakpoint_path_from;
use crate::text;
use crate::text::{chars_of, cut, extend_str, rfind_chars, starts_with_chars, string_of};

verus! {

// ---------------------------------------------------------------------------
// Dependencies
// ---------------------------------------------------------------------------

/// How to tell whether a dependency is installed.
#[derive(Debug)]
pub enum DependencyCheck {
    /// A binary exists under one of the names. Where a version command is
    /// given it also has to run.
    Binary {
        name: &'static str,
        alternatives: &'static [&'static str],
        version_cmd: Option<(&'static str, &'static [&'static str])>,
    },
    /// A command succeeds.
    Command { program: &'static str, args: &'static [&'static str] },
}

/// A dependency, how to check it and how to install it.
#[derive(Debug)]
pub struct Dependency {
    pub name: &'static str,
    pub check: DependencyCheck,
    pub install: &'static str,
}

/// What a check found.
#[derive(Debug)]
pub struct DepStatus {
    pub name: &'static str,
    pub ok: bool,
    pub detail: String,
    pub install: &'static str,
    /// The tool works, but less well than it should.
    pub warning: Option<String>,
}

/// The first path in `found`, from position `k` on.
pub open spec fn first_found(found: Seq<Option<String>>, k: int) -> Option<Seq<char>>
    decreases found.len() - k,
{
    if k < 0 || k >= found.len() {
        None
    } else {
        match found[k] {
            Some(p) => Some(p@),
            None => first_found(found, k + 1),
        }
    }
}

/// Whether a dependency is installed, and what is shown of it. `found` holds
/// the path of each alternative that exists, and `runs` says whether the
/// command, or the version command, succeeds.
pub open spec fn check_result(
    check: DependencyCheck,
    found: Seq<Option<String>>,
    runs: bool,
) -> (bool, Seq<char>) {
    match check {
        DependencyCheck::Binary { version_cmd, .. } => match first_found(found, 0) {
            Some(path) => match version_cmd {
                Some((probe, _)) => if runs {
                    (true, path)
                } else {
                    (false, path + " (found but broken — `"@ + probe@ + "` failed to run)"@)
                },
                None => (true, path),
            },
            None => (false, "not found"@),
        },
        DependencyCheck::Command { .. } => (
            runs,
            if runs {
                "ok"@
            } else {
                "failed"@
            },
        ),
    }
}

/// The status of a dependency.
pub fn check_dep(dep: Dependency, found: &[Option<String>], runs: bool) -> (r: DepStatus)
    ensures
        r.name@ == dep.name@,
        r.install@ == dep.install@,
        r.warning is None,
        (r.ok, r.detail@) == check_result(dep.check, found@, runs),
{
    match &dep.check {
        DependencyCheck::Binary { version_cmd, .. } => {
            let mut i: usize = 0;
            while i < found.len()
                invariant
                    i <= found@.len(),
                    dep.check matches DependencyCheck::Binary { version_cmd: v, .. } && v
                        == *version_cmd,
                    first_found(found@, 0) == first_found(found@, i as int),
                decreases found@.len() - i,
            {
                if let Some(path) = &found[i] {
                    if let Some((probe, _)) = version_cmd {
                        if !runs {
                            let mut out = chars_of(path.as_str());
                            extend_str(&mut out, " (found but broken — `");
                            extend_str(&mut out, probe);
                            extend_str(&mut out, "` failed to run)");
                            return DepStatus {
                                name: dep.name,
                                ok: false,
                                detail: string_of(&out),
                                install: dep.install,
                                warning: None,
                            };
                        }
                    }
                    return DepStatus {
                        name: dep.name,
                        ok: true,
                        detail: path.clone(),
                        install: dep.install,
                        warning: None,
                    };
                }
                i = i + 1;
            }
            DepStatus {
                name: dep.name,
                ok: false,
                detail: "not found".to_owned(),
                install: dep.install,
                warning: None,
            }
        },
        DependencyCheck::Command { .. } => DepStatus {
            name: dep.name,
            ok: runs,
            detail: if runs {
                "ok".to_owned()
            } else {
                "failed".to_owned()
            },
            install: dep.install,
            warning: None,
        },
    }
}

/// The path to run a tool by: where it was found, or else its name.
pub fn find_bin(name: &str, found: &[Option<String>]) -> (r: String)
    ensures
        r@ == match first_found(found@, 0) {
            Some(p) => p,
            None => name@,
        },
{
    let mut i: usize = 0;
    while i < found.len()
        invariant
            i <= found@.len(),
            first_found(found@, 0) == first_found(found@, i as int),
        decreases found@.len() - i,
    {
        if let Some(path) = &found[i] {
            return path.clone();
        }
        i = i + 1;
    }
    name.to_owned()
}

/// The directories, besides those on the path, where tools are looked for.
pub open spec fn tool_dirs(home: Option<Seq<char>>) -> Seq<Seq<char>> {
    match home {
        Some(h) => seq![
            breakpoints::joined_path(h, ".dotnet/tools"@),
            breakpoints::joined_path(h, ".ghcup/bin"@),
            breakpoints::joined_path(h, ".cargo/bin"@),
            breakpoints::joined_path(h, ".local/bin"@),
        ],
        None => Seq::empty(),
    }
}

/// The directories, besides those on the path, where tools are looked for.
pub fn extra_tool_dirs(home: Option<&str>) -> (r: Vec<String>)
    ensures
        text::texts(r@) == tool_dirs(text::opt_str(home)),
{
    let mut dirs: Vec<String> = Vec::new();
    if let Some(h) = home {
        proof {
            reveal_strlit(".dotnet/tools");
            reveal_strlit(".ghcup/bin");
            reveal_strlit(".cargo/bin");
            reveal_strlit(".local/bin");
        }
        dirs.push(resolve_breakpoint_path_from(Some(h), ".dotnet/tools"));
        dirs.push(resolve_breakpoint_path_from(Some(h), ".ghcup/bin"));
        dirs.push(resolve_breakpoint_path_from(Some(h), ".cargo/bin"));
        dirs.push(resolve_breakpoint_path_from(Some(h), ".local/bin"));
    }
    assert(text::texts(dirs@) =~= tool_dirs(text::opt_str(home)));
    dirs
}

// ---------------------------------------------------------------------------
// Bundled toolkits
// ---------------------------------------------------------------------------

/// A directory that a toolkit may be installed in.
#[derive(Debug)]
pub struct ToolkitRoot {
    pub path: &'static str,
    /// How many levels below `path` are searched.
    pub max_depth: usize,
    /// The beginnings of the names that are searched; all where it is empty.
    pub dir_filter: &'static [&'static str],
}

/// A binary on the path from which the search goes up.
#[derive(Debug)]
pub struct ToolkitAnchor {
    pub bin: &'static str,
    /// How many levels above the binary's directory are searched. With 1 the
    /// search reaches the directory that holds the binary's directory, and so
    /// what lies beside it.
    pub walk_up: usize,
}

/// A toolkit with helpers in a directory of its own.
#[derive(Debug)]
pub struct BundledToolkit {
    pub name: &'static str,
    pub bin_subdir: &'static str,
    /// Where it may be installed, in order of preference.
    pub roots: &'static [ToolkitRoot],
    pub anchor: Option<ToolkitAnchor>,
}

/// A directory as it was found.
#[derive(Debug)]
pub struct DirNode {
    pub path: String,
    pub name: String,
    pub is_dir: bool,
    /// The helper stands in the toolkit's directory below this one.
    pub holds_tool: bool,
    /// What the directory holds, in the order in which it is listed.
    pub entries: Vec<DirNode>,
}

/// The name begins in one of the ways that are searched.
pub open spec fn passes_filter(filter: Seq<&'static str>, name: Seq<char>) -> bool {
    filter.len() == 0 || exists|i: int|
        0 <= i < filter.len() && text::starts_with(name, (#[trigger] filter[i])@)
}

/// Whether a directory of that name is searched.
pub fn wanted_directory(filter: &[&'static str], name: &str) -> (r: bool)
    ensures
        r == passes_filter(filter@, name@),
{
    if filter.len() == 0 {
        return true;
    }
    let chars = chars_of(name);
    let mut i: usize = 0;
    while i < filter.len()
        invariant
            i <= filter@.len(),
            chars@ == name@,
            forall|k: int|
                0 <= k < i ==> !text::starts_with(name@, (#[trigger] filter@[k])@),
        decreases filter@.len() - i,
    {
        let prefix = chars_of(filter[i]);
        if starts_with_chars(&chars, &prefix) {
            return true;
        }
        i = i + 1;
    }
    false
}

/// A path below a directory; an absolute path stands for itself.
pub open spec fn below(base: Seq<char>, path: Seq<char>) -> Seq<char> {
    breakpoints::resolved_path(Some(base), path)
}

/// The helper's path in a toolkit installed at `prefix`.
pub open spec fn tool_path(prefix: Seq<char>, subdir: Seq<char>, tool: Seq<char>) -> Seq<char> {
    below(below(prefix, subdir), tool)
}

fn tool_path_of(prefix: &str, subdir: &str, tool: &str) -> (r: String)
    ensures
        r@ == tool_path(prefix@, subdir@, tool@),
{
    let dir = resolve_breakpoint_path_from(Some(prefix), subdir);
    resolve_breakpoint_path_from(Some(dir.as_str()), tool)
}

/// The install prefix found at a directory or at most `depth` levels below it,
/// a directory before what it holds.
pub open spec fn prefix_below(
    node: DirNode,
    depth: nat,
    filter: Seq<&'static str>,
) -> Option<Seq<char>>
    decreases depth, 0int, 0int,
{
    if node.holds_tool {
        Some(node.path@)
    } else if depth == 0 {
        None
    } else {
        prefix_among(node.entries@, 0, (depth - 1) as nat, filter)
    }
}

/// The install prefix found in the entries from `k` on.
pub open spec fn prefix_among(
    entries: Seq<DirNode>,
    k: int,
    depth: nat,
    filter: Seq<&'static str>,
) -> Option<Seq<char>>
    decreases depth, 1int, entries.len() - k,
{
    if k < 0 || k >= entries.len() {
        None
    } else {
        let here = if entries[k].is_dir && passes_filter(filter, entries[k].name@) {
            prefix_below(entries[k], depth, filter)
        } else {
            None
        };
        match here {
            Some(p) => Some(p),
            None => prefix_among(entries, k + 1, depth, filter),
        }
    }
}

fn probe_root(node: &DirNode, depth: usize, filter: &[&'static str]) -> (r: Option<String>)
    ensures
        match r {
            Some(p) => prefix_below(*node, depth as nat, filter@) == Some(p@),
            None => prefix_below(*node, depth as nat, filter@) is None,
        },
    decreases depth,
{
    if node.holds_tool {
        return Some(node.path.clone());
    }
    if depth == 0 {
        return None;
    }
    let entries = &node.entries;
    let mut k: usize = 0;
    while k < entries.len()
        invariant
            k <= entries@.len(),
            depth > 0,
            *entries == node.entries,
            !node.holds_tool,
            prefix_below(*node, depth as nat, filter@) == prefix_among(
                entries@,
                k as int,
                (depth - 1) as nat,
                filter@,
            ),
        decreases entries@.len() - k,
    {
        if entries[k].is_dir && wanted_directory(filter, entries[k].name.as_str()) {
            if let Some(p) = probe_root(&entries[k], depth - 1, filter) {
                return Some(p);
            }
        }
        k = k + 1;
    }
    None
}

/// The directory that holds a file or directory; the root has none. The path
/// is one that was resolved: absolute, without empty or dot components.
pub open spec fn parent_of(path: Seq<char>) -> Option<Seq<char>> {
    if path == "/"@ || path.len() == 0 {
        None
    } else {
        match text::rfind(path, "/"@) {
            Some(i) => if i == 0 {
                Some("/"@)
            } else {
                Some(path.take(i))
            },
            None => None,
        }
    }
}

fn parent_dir(path: &str) -> (r: Option<String>)
    ensures
        match r {
            Some(p) => parent_of(path@) == Some(p@),
            None => parent_of(path@) is None,
        },
{
    let chars = chars_of(path);
    let slash = chars_of("/");
    if chars.len() == 0 || crate::text::same_text(path, "/") {
        return None;
    }
    match rfind_chars(&chars, &slash) {
        Some(i) => if i == 0 {
            Some("/".to_owned())
        } else {
            let p = cut(&chars, 0, i);
            assert(p@ =~= path@.take(i as int));
            Some(string_of(&p))
        },
        None => None,
    }
}

/// A path, its parent, and so on: at most `n` above it.
pub open spec fn ancestors(path: Seq<char>, n: nat) -> Seq<Seq<char>>
    decreases n,
{
    if n == 0 {
        seq![path]
    } else {
        match parent_of(path) {
            Some(p) => seq![path] + ancestors(p, (n - 1) as nat),
            None => seq![path],
        }
    }
}

/// A path and those above it, at most `n` of them.
pub fn ancestors_of(path: &str, n: usize) -> (r: Vec<String>)
    ensures
        text::texts(r@) == ancestors(path@, n as nat),
{
    let mut out: Vec<String> = Vec::new();
    let mut current: String = path.to_owned();
    let mut left: usize = n;
    loop
        invariant
            left <= n,
            text::texts(out@) + ancestors(current@, left as nat) =~= ancestors(path@, n as nat),
        decreases left,
    {
        let ghost before = out@;
        let ghost here = current@;
        out.push(current.clone());
        assert(text::texts(out@) =~= text::texts(before).push(here));
        if left == 0 {
            return out;
        }
        match parent_dir(current.as_str()) {
            Some(p) => {
                current = p;
                left = left - 1;
            },
            None => {
                return out;
            },
        }
    }
}

proof fn parents_are_shorter(path: Seq<char>)
    ensures
        parent_of(path) matches Some(p) ==> p.len() < path.len(),
{
    reveal_strlit("/");
    text::rfind_from_is_last(path, "/"@, path.len() - 1);
    if path.len() == 1 && text::rfind(path, "/"@) is Some {
        assert(path.subrange(0, 1) =~= path);
    }
}

/// A path has no more ancestors than characters.
proof fn ancestors_end(path: Seq<char>, n: nat, m: nat)
    requires
        path.len() <= n,
        path.len() <= m,
    ensures
        ancestors(path, n) == ancestors(path, m),
    decreases path.len(),
{
    parents_are_shorter(path);
    match parent_of(path) {
        Some(p) => {
            ancestors_end(p, (n - 1) as nat, (m - 1) as nat);
        },
        None => {},
    }
}

/// The last `/` of a path stands before its last part.
proof fn parent_of_entry(dir: Seq<char>, name: Seq<char>)
    requires
        dir.len() > 0,
        !name.contains('/'),
    ensures
        parent_of(dir + "/"@ + name) == Some(dir),
{
    reveal_strlit("/");
    let path = dir + "/"@ + name;
    let i = dir.len() as int;
    assert(text::occurs_at(path, "/"@, i)) by {
        assert(path.subrange(i, i + 1) =~= "/"@);
    }
    assert forall|j: int| i < j <= path.len() - 1 implies !text::occurs_at(path, "/"@, j) by {
        assert(path[j] == name[j - i - 1]);
        if text::occurs_at(path, "/"@, j) {
            assert(path.subrange(j, j + 1)[0] == '/');
            assert(name.contains(name[j - i - 1]));
        }
    }
    text::rfind_from_is_last(path, "/"@, path.len() - 1);
    assert(path.take(i) =~= dir);
    assert(path.len() > 1);
}

/// A helper in a directory beside the anchor's own is looked for as soon as the
/// search goes one level up.
pub proof fn a_helper_beside_the_anchor_is_a_candidate(
    prefix: Seq<char>,
    dir: Seq<char>,
    bin: Seq<char>,
    walk_up: nat,
)
    requires
        prefix.len() > 0,
        !dir.contains('/'),
        !bin.contains('/'),
        walk_up >= 1,
    ensures
        ancestors(prefix + "/"@ + dir + "/"@ + bin, walk_up + 1).contains(prefix),
{
    let home = prefix + "/"@ + dir;
    let path = home + "/"@ + bin;
    parent_of_entry(prefix, dir);
    parent_of_entry(home, bin);
    let a = ancestors(path, walk_up + 1);
    let b = ancestors(home, walk_up);
    let c = ancestors(prefix, (walk_up - 1) as nat);
    assert(a == seq![path] + b);
    assert(b == seq![home] + c);
    assert(c.len() > 0 && c[0] == prefix);
    assert(a[2] == prefix);
}

/// Where the helper may be, seen from the resolved path of the anchor: below
/// the path itself, below its directory, and below each directory that is at
/// most `walk_up` levels above that one.
pub fn anchor_candidates(resolved: &str, walk_up: usize, bin_subdir: &str, tool: &str) -> (r: Vec<
    String,
>)
    ensures
        text::texts(r@) == Seq::new(
            ancestors(resolved@, walk_up as nat + 1).len(),
            |i: int|
                tool_path(ancestors(resolved@, walk_up as nat + 1)[i], bin_subdir@, tool@),
        ),
{
    let length: usize = chars_of(resolved).len();
    let levels: usize = if walk_up < length {
        walk_up + 1
    } else {
        length
    };
    proof {
        if walk_up >= length {
            ancestors_end(resolved@, length as nat, walk_up as nat + 1);
        }
    }
    let dirs = ancestors_of(resolved, levels);
    let ghost all = ancestors(resolved@, walk_up as nat + 1);
    let mut out: Vec<String> = Vec::new();
    let mut i: usize = 0;
    while i < dirs.len()
        invariant
            i <= dirs@.len(),
            text::texts(dirs@) == all,
            text::texts(out@) =~= Seq::new(
                i as nat,
                |k: int| tool_path(all[k], bin_subdir@, tool@),
            ),
        decreases dirs@.len() - i,
    {
        assert(all[i as int] == dirs@[i as int]@);
        let path = tool_path_of(dirs[i].as_str(), bin_subdir, tool);
        let ghost before = out@;
        out.push(path);
        assert(text::texts(out@) =~= text::texts(before).push(path@));
        i = i + 1;
    }
    out
}

/// The first of the paths that is there.
pub open spec fn first_there(paths: Seq<String>, there: Seq<bool>, k: int) -> Option<Seq<char>>
    decreases paths.len() - k,
{
    if k < 0 || k >= paths.len() || k >= there.len() {
        None
    } else if there[k] {
        Some(paths[k]@)
    } else {
        first_there(paths, there, k + 1)
    }
}

/// What was found in a root of a toolkit, from root `k` on: the helper's path.
pub open spec fn tool_in_roots(
    roots: Seq<ToolkitRoot>,
    nodes: Seq<DirNode>,
    subdir: Seq<char>,
    tool: Seq<char>,
    k: int,
) -> Option<Seq<char>>
    decreases roots.len() - k,
{
    if k < 0 || k >= roots.len() || k >= nodes.len() {
        None
    } else {
        match prefix_below(nodes[k], roots[k].max_depth as nat, roots[k].dir_filter@) {
            Some(p) => Some(tool_path(p, subdir, tool)),
            None => tool_in_roots(roots, nodes, subdir, tool, k + 1),
        }
    }
}

/// The path of a helper in a toolkit. The roots are searched in order, then
/// what can be seen from the anchor. `nodes` is what was found at each root;
/// `candidates` are the paths seen from the anchor, where it was found, and
/// `there` says which of them exist.
pub fn find_bundled_tool(
    toolkit: &BundledToolkit,
    nodes: &[DirNode],
    candidates: &[String],
    there: &[bool],
    tool: &str,
) -> (r: Option<String>)
    ensures
        ({
            let in_roots = tool_in_roots(
                toolkit.roots@,
                nodes@,
                toolkit.bin_subdir@,
                tool@,
                0,
            );
            let want = match in_roots {
                Some(p) => Some(p),
                None => match toolkit.anchor {
                    Some(_) => first_there(candidates@, there@, 0),
                    None => None,
                },
            };
            match r {
                Some(p) => want == Some(p@),
                None => want is None,
            }
        }),
{
    let mut k: usize = 0;
    while k < toolkit.roots.len() && k < nodes.len()
        invariant
            k <= toolkit.roots@.len(),
            k <= nodes@.len(),
            tool_in_roots(toolkit.roots@, nodes@, toolkit.bin_subdir@, tool@, 0)
                == tool_in_roots(toolkit.roots@, nodes@, toolkit.bin_subdir@, tool@, k as int),
        decreases nodes@.len() - k,
    {
        let root = &toolkit.roots[k];
        if let Some(prefix) = probe_root(&nodes[k], root.max_depth, root.dir_filter) {
            return Some(tool_path_of(prefix.as_str(), toolkit.bin_subdir, tool));
        }
        k = k + 1;
    }
    if toolkit.anchor.is_none() {
        return None;
    }
    let mut i: usize = 0;
    while i < candidates.len() && i < there.len()
        invariant
            i <= candidates@.len(),
            i <= there@.len(),
            first_there(candidates@, there@, 0) == first_there(candidates@, there@, i as int),
            toolkit.anchor is Some,
            tool_in_roots(toolkit.roots@, nodes@, toolkit.bin_subdir@, tool@, 0) is None,
        decreases candidates@.len() - i,
    {
        if there[i] {
            return Some(candidates[i].clone());
        }
        i = i + 1;
    }
    None
}

/// What was found at one level above a tool.
#[derive(Clone, Copy, Debug, PartialEq, Eq, Structural)]
pub struct SiblingFound {
    pub is_dir: bool,
    /// The file that proves it to be the right directory is there, or none is
    /// asked for.
    pub has_marker: bool,
}

/// The first level at which the sibling was accepted, from level `k` on.
pub open spec fn accepted_level(found: Seq<SiblingFound>, n: int, k: int) -> Option<int>
    decreases n - k,
{
    if k < 0 || k >= n || k >= found.len() {
        None
    } else if found[k].is_dir && found[k].has_marker {
        Some(k)
    } else {
        accepted_level(found, n, k + 1)
    }
}

/// The root of an installation: the preferred sibling at the first level above
/// the tool's resolved path where it is accepted, or else the directory that
/// holds the tool.
pub fn find_tool_root(
    resolved: &str,
    preferred_sibling: Option<&str>,
    found: &[SiblingFound],
    walk_up: usize,
) -> (r: Option<String>)
    ensures
        ({
            let levels = ancestors(resolved@, walk_up as nat);
            let want = match preferred_sibling {
                Some(sibling) => match accepted_level(found@, levels.len() as int, 0) {
                    Some(k) => Some(below(levels[k], sibling@)),
                    None => parent_of(resolved@),
                },
                None => parent_of(resolved@),
            };
            match r {
                Some(p) => want == Some(p@),
                None => want is None,
            }
        }),
{
    if let Some(sibling) = preferred_sibling {
        let dirs = ancestors_of(resolved, walk_up);
        let ghost levels = ancestors(resolved@, walk_up as nat);
        let mut k: usize = 0;
        while k < dirs.len() && k < found.len()
            invariant
                k <= dirs@.len(),
                k <= found@.len(),
                text::texts(dirs@) == levels,
                levels == ancestors(resolved@, walk_up as nat),
                preferred_sibling == Some(sibling),
                accepted_level(found@, levels.len() as int, 0) == accepted_level(
                    found@,
                    levels.len() as int,
                    k as int,
                ),
            decreases dirs@.len() - k,
        {
            if found[k].is_dir && found[k].has_marker {
                assert(levels[k as int] == dirs@[k as int]@);
                return Some(resolve_breakpoint_path_from(Some(dirs[k].as_str()), sibling));
            }
            k = k + 1;
        }
    }
    parent_dir(resolved)
}

// ---------------------------------------------------------------------------
// Results
// ---------------------------------------------------------------------------

/// What is shown of one dependency.
pub open spec fn status_text(s: DepStatus) -> Seq<char> {
    let head = "  "@ + s.name@ + ": "@ + (if s.ok {
        "ok"@
    } else {
        "MISSING"@
    }) + " ("@ + s.detail@ + ")\n"@;
    let with_install = if s.ok {
        head
    } else {
        head + "    install: "@ + s.install@ + "\n"@
    };
    match s.warning {
        Some(w) => with_install + "    WARNING: "@ + w@ + "\n"@,
        None => with_install,
    }
}

pub open spec fn statuses_text(statuses: Seq<DepStatus>) -> Seq<char>
    decreases statuses.len(),
{
    if statuses.len() == 0 {
        Seq::empty()
    } else {
        statuses_text(statuses.drop_last()) + status_text(statuses.last())
    }
}

/// What is shown of all groups of dependencies.
pub open spec fn results_text(results: Seq<(&str, Vec<DepStatus>)>) -> Seq<char>
    decreases results.len(),
{
    if results.len() == 0 {
        Seq::empty()
    } else {
        results_text(results.drop_last()) + results.last().0@ + ":\n"@ + statuses_text(
            results.last().1@,
        )
    }
}

fn push_status(out: &mut Vec<char>, s: &DepStatus)
    ensures
        final(out)@ == old(out)@ + status_text(*s),
{
    extend_str(out, "  ");
    extend_str(out, s.name);
    extend_str(out, ": ");
    if s.ok {
        extend_str(out, "ok");
    } else {
        extend_str(out, "MISSING");
    }
    extend_str(out, " (");
    extend_str(out, s.detail.as_str());
    extend_str(out, ")\n");
    if !s.ok {
        extend_str(out, "    install: ");
        extend_str(out, s.install);
        extend_str(out, "\n");
    }
    if let Some(w) = &s.warning {
        extend_str(out, "    WARNING: ");
        extend_str(out, w.as_str());
        extend_str(out, "\n");
    }
    assert(out@ =~= old(out)@ + status_text(*s));
}

/// What is shown of the checks.
pub fn format_results(results: &[(&str, Vec<DepStatus>)]) -> (r: String)
    ensures
        r@ == results_text(results@),
{
    let mut out: Vec<char> = Vec::new();
    let mut i: usize = 0;
    while i < results.len()
        invariant
            i <= results@.len(),
            out@ == results_text(results@.take(i as int)),
        decreases results@.len() - i,
    {
        assert(results@.take(i + 1).drop_last() =~= results@.take(i as int));
        extend_str(&mut out, results[i].0);
        extend_str(&mut out, ":\n");
        let ghost head = out@;
        let statuses = &results[i].1;
        let mut k: usize = 0;
        assert(out@ =~= head + statuses_text(statuses@.take(0)));
        while k < statuses.len()
            invariant
                k <= statuses@.len(),
                out@ == head + statuses_text(statuses@.take(k as int)),
            decreases statuses@.len() - k,
        {
            assert(statuses@.take(k + 1).drop_last() =~= statuses@.take(k as int));
            push_status(&mut out, &statuses[k]);
            k = k + 1;
            assert(out@ =~= head + statuses_text(statuses@.take(k as int)));
        }
        assert(statuses@.take(statuses@.len() as int) =~= statuses@);
        assert(out@ =~= results_text(results@.take(i + 1)));
        i = i + 1;
    }
    assert(results@.take(results@.len() as int) =~= results@);
    string_of(&out)
}

// ---------------------------------------------------------------------------
// Laws
// ---------------------------------------------------------------------------

/// The first alternative that exists is taken, whatever follows it; nothing is
/// found where none exists.
pub proof fn the_first_alternative_is_taken(found: Seq<Option<String>>, i: int, k: int)
    requires
        0 <= i <= k <= found.len(),
        forall|j: int| i <= j < k ==> #[trigger] found[j] is None,
        k < found.len() ==> found[k] is Some,
    ensures
        first_found(found, i) == if k < found.len() {
            text::opt_text(found[k])
        } else {
            None
        },
    decreases k - i,
{
    if i < k {
        the_first_alternative_is_taken(found, i + 1, k);
    }
}

/// A binary is there where it was found and, if it is asked for its version,
/// also runs; its path is shown either way. One that was not found is missing
/// whatever runs. A command is there where it succeeds.
pub proof fn a_tool_is_there_where_it_was_found_and_runs(
    name: &'static str,
    alternatives: &'static [&'static str],
    probe: (&'static str, &'static [&'static str]),
    found: Seq<Option<String>>,
    runs: bool,
)
    ensures
        ({
            let plain = DependencyCheck::Binary { name, alternatives, version_cmd: None };
            let run = DependencyCheck::Binary { name, alternatives, version_cmd: Some(probe) };
            let command = DependencyCheck::Command { program: probe.0, args: probe.1 };
            let path = first_found(found, 0);
            &&& check_result(plain, found, runs).0 <==> path is Some
            &&& check_result(run, found, runs).0 <==> path is Some && runs
            &&& path is Some ==> check_result(plain, found, runs).1 == path->0
            &&& path is Some ==> text::starts_with(check_result(run, found, runs).1, path->0)
            &&& path is Some && runs ==> check_result(run, found, runs).1 == path->0
            &&& path is None ==> check_result(run, found, runs) == (false, "not found"@)
            &&& check_result(command, found, runs).0 <==> runs
        }),
{
    let run = DependencyCheck::Binary { name, alternatives, version_cmd: Some(probe) };
    if first_found(found, 0) is Some {
        let path = first_found(found, 0)->0;
        let r = check_result(run, found, runs).1;
        assert(r.subrange(0, path.len() as int) == path);
    }
}

/// Tools are also looked for in these directories of the user.
pub proof fn tools_of_the_user_are_looked_for(home: Seq<char>)
    requires
        home.len() > 0,
        home.last() != '/',
    ensures
        tool_dirs(Some(home)) == seq![
            home + "/"@ + ".dotnet/tools"@,
            home + "/"@ + ".ghcup/bin"@,
            home + "/"@ + ".cargo/bin"@,
            home + "/"@ + ".local/bin"@,
        ],
        tool_dirs(None).len() == 0,
{
}

/// A directory that holds the tool is the prefix, whatever it holds besides.
/// Else the first directory in it that passes the filter and leads to the tool
/// counts; below the last level nothing is searched.
pub proof fn the_first_directory_that_leads_to_the_tool_counts(
    node: DirNode,
    depth: nat,
    filter: Seq<&'static str>,
    k: int,
)
    requires
        0 <= k < node.entries@.len(),
        node.entries@[k].is_dir,
        passes_filter(filter, node.entries@[k].name@),
        prefix_below(node.entries@[k], depth, filter) is Some,
        forall|j: int|
            0 <= j < k ==> !(#[trigger] node.entries@[j]).is_dir || !passes_filter(
                filter,
                node.entries@[j].name@,
            ) || prefix_below(node.entries@[j], depth, filter) is None,
    ensures
        prefix_below(node, depth + 1, filter) == if node.holds_tool {
            Some(node.path@)
        } else {
            prefix_below(node.entries@[k], depth, filter)
        },
        !node.holds_tool ==> prefix_below(node, 0, filter) is None,
{
    first_prefix_among(node.entries@, 0, k, depth, filter);
}

proof fn first_prefix_among(
    entries: Seq<DirNode>,
    i: int,
    k: int,
    depth: nat,
    filter: Seq<&'static str>,
)
    requires
        0 <= i <= k < entries.len(),
        entries[k].is_dir,
        passes_filter(filter, entries[k].name@),
        prefix_below(entries[k], depth, filter) is Some,
        forall|j: int|
            i <= j < k ==> !(#[trigger] entries[j]).is_dir || !passes_filter(
                filter,
                entries[j].name@,
            ) || prefix_below(entries[j], depth, filter) is None,
    ensures
        prefix_among(entries, i, depth, filter) == prefix_below(entries[k], depth, filter),
    decreases k - i,
{
    if i < k {
        first_prefix_among(entries, i + 1, k, depth, filter);
    }
}

/// The directory above a path is what stands before its last slash; that of
/// what lies in the root is the root, which has none above it.
pub proof fn a_path_lies_in_its_directory(dir: Seq<char>, name: Seq<char>)
    requires
        !name.contains('/'),
    ensures
        dir.len() > 0 ==> parent_of(dir + "/"@ + name) == Some(dir),
        name.len() > 0 ==> parent_of("/"@ + name) == Some("/"@),
        parent_of("/"@) is None,
        parent_of(name) is None,
{
    reveal_strlit("/");
    the_last_slash(dir, name);
    the_last_slash(Seq::empty(), name);
    let s = dir + "/"@ + name;
    assert(s.take(dir.len() as int) == dir);
    assert(Seq::<char>::empty() + "/"@ + name == "/"@ + name);
    if dir.len() > 0 {
        assert(s.len() > 1);
    }
    if name.len() > 0 {
        assert(("/"@ + name).len() > 1);
    }
    text::rfind_from_is_last(name, "/"@, name.len() - 1);
    if text::rfind(name, "/"@) is Some {
        let i = text::rfind(name, "/"@)->0;
        assert(name.subrange(i, i + 1)[0] == name[i]);
    }
}

proof fn the_last_slash(dir: Seq<char>, name: Seq<char>)
    requires
        !name.contains('/'),
    ensures
        text::rfind(dir + "/"@ + name, "/"@) == Some(dir.len() as int),
{
    reveal_strlit("/");
    let s = dir + "/"@ + name;
    let n = dir.len() as int;
    text::rfind_from_is_last(s, "/"@, s.len() - 1);
    assert(s.subrange(n, n + 1) == "/"@);
    assert(text::occurs_at(s, "/"@, n));
    assert forall|j: int| n < j implies !text::occurs_at(s, "/"@, j) by {
        if text::occurs_at(s, "/"@, j) {
            assert(s.subrange(j, j + 1)[0] == s[j]);
            assert(s[j] == name[j - n - 1]);
        }
    }
}

/// The paths above a path are its directory and those above that one, as far
/// as asked for.
pub proof fn what_lies_above_goes_up_directory_by_directory(
    dir: Seq<char>,
    name: Seq<char>,
    n: nat,
)
    requires
        dir.len() > 0,
        !name.contains('/'),
    ensures
        ancestors(dir + "/"@ + name, n + 1) == seq![dir + "/"@ + name] + ancestors(dir, n),
        ancestors(dir, 0) == seq![dir],
{
    a_path_lies_in_its_directory(dir, name);
}

/// Of the paths seen from the anchor the first one that is there is taken.
pub proof fn the_first_path_that_is_there_is_taken(
    paths: Seq<String>,
    there: Seq<bool>,
    i: int,
    k: int,
)
    requires
        paths.len() == there.len(),
        0 <= i <= k <= paths.len(),
        forall|j: int| i <= j < k ==> !#[trigger] there[j],
        k < paths.len() ==> there[k],
    ensures
        first_there(paths, there, i) == if k < paths.len() {
            Some(paths[k]@)
        } else {
            None
        },
    decreases k - i,
{
    if i < k {
        the_first_path_that_is_there_is_taken(paths, there, i + 1, k);
    }
}

/// The first root that leads to the helper counts, searched to its own depth
/// and by its own filter.
pub proof fn the_first_root_that_leads_to_the_helper_counts(
    roots: Seq<ToolkitRoot>,
    nodes: Seq<DirNode>,
    subdir: Seq<char>,
    tool: Seq<char>,
    i: int,
    k: int,
)
    requires
        roots.len() == nodes.len(),
        0 <= i <= k <= roots.len(),
        forall|j: int|
            i <= j < k ==> prefix_below(
                #[trigger] nodes[j],
                roots[j].max_depth as nat,
                roots[j].dir_filter@,
            ) is None,
        k < roots.len() ==> prefix_below(
            nodes[k],
            roots[k].max_depth as nat,
            roots[k].dir_filter@,
        ) is Some,
    ensures
        tool_in_roots(roots, nodes, subdir, tool, i) == if k < roots.len() {
            Some(
                tool_path(
                    prefix_below(nodes[k], roots[k].max_depth as nat, roots[k].dir_filter@)->0,
                    subdir,
                    tool,
                ),
            )
        } else {
            None
        },
    decreases k - i,
{
    if i < k {
        assert(prefix_below(nodes[i], roots[i].max_depth as nat, roots[i].dir_filter@) is None);
        the_first_root_that_leads_to_the_helper_counts(roots, nodes, subdir, tool, i + 1, k);
    }
}

/// A helper stands in the toolkit's directory below the prefix.
pub proof fn a_helper_stands_below_the_prefix(prefix: Seq<char>, subdir: Seq<char>, tool: Seq<char>)
    requires
        prefix.len() > 0,
        prefix.last() != '/',
        subdir.len() > 0,
        subdir[0] != '/',
        subdir.last() != '/',
        tool.len() > 0,
        tool[0] != '/',
    ensures
        tool_path(prefix, subdir, tool) == prefix + "/"@ + subdir + "/"@ + tool,
{
    let d = prefix + "/"@ + subdir;
    assert(d.last() == subdir.last());
}

/// The first level at which the sibling is a directory with the marker counts.
pub proof fn the_first_level_that_is_accepted_counts(
    found: Seq<SiblingFound>,
    n: int,
    i: int,
    k: int,
)
    requires
        0 <= i <= k <= n <= found.len(),
        forall|j: int| i <= j < k ==> !((#[trigger] found[j]).is_dir && found[j].has_marker),
        k < n ==> found[k].is_dir && found[k].has_marker,
    ensures
        accepted_level(found, n, i) == if k < n {
            Some(k)
        } else {
            None
        },
    decreases k - i,
{
    if i < k {
        the_first_level_that_is_accepted_counts(found, n, i + 1, k);
    }
}

/// What is shown of a tool begins with its name and says whether it is there;
/// how to install it is told of a missing one alone, and a warning of any.
pub proof fn a_missing_tool_is_told_how_to_install(s: DepStatus)
    ensures
        s.ok && s.warning is None ==> status_text(s) == "  "@ + s.name@ + ": "@ + "ok"@ + " ("@
            + s.detail@ + ")\n"@,
        !s.ok && s.warning is None ==> status_text(s) == "  "@ + s.name@ + ": "@ + "MISSING"@
            + " ("@ + s.detail@ + ")\n"@ + "    install: "@ + s.install@ + "\n"@,
        s.warning matches Some(w) ==> text::ends_with(
            status_text(s),
            "    WARNING: "@ + w@ + "\n"@,
        ),
{
    if s.warning is Some {
        let w = "    WARNING: "@ + s.warning->0@ + "\n"@;
        let t = status_text(s);
        assert(t.subrange(t.len() - w.len(), t.len() as int) == w);
    }
}

/// Every tool is shown, in its order.
pub proof fn every_tool_is_shown(statuses: Seq<DepStatus>, s: DepStatus)
    ensures
        statuses_text(statuses.push(s)) == statuses_text(statuses) + status_text(s),
        statuses_text(Seq::empty()).len() == 0,
{
    assert(statuses.push(s).drop_last() == statuses);
}

/// Every group is shown under its name, in its order.
pub proof fn every_group_is_shown(
    results: Seq<(&str, Vec<DepStatus>)>,
    group: (&str, Vec<DepStatus>),
)
    ensures
        results_text(results.push(group)) == results_text(results) + group.0@ + ":\n"@
            + statuses_text(group.1@),
        results_text(Seq::empty()).len() == 0,
{
    assert(results.push(group).drop_last() == results);
}

/// A command that was run says how it went.
pub proof fn a_command_says_how_it_went(
    program: &'static str,
    args: &'static [&'static str],
    found: Seq<Option<String>>,
)
    ensures
        check_result(DependencyCheck::Command { program, args }, found, true) == (true, "ok"@),
        check_result(DependencyCheck::Command { program, args }, found, false) == (
            false,
            "failed"@,
        ),
{
}

} // verus!
