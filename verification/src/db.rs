//! The rules of session databases: filters, names, schema and layers. What is
//! read from and written to the database itself is the caller's.

use vstd::prelude::*;

use crate::breakpoints::resolve_breakpoint_path_from;
use crate::deps;
use crate::deps::ancestors_of;
use crate::order;
use crate::order::order;
use crate::text;
use crate::text::{
    chars_of, cut, decimal_chars, earlier_chars, ends_with_chars, extend_chars, extend_str, find_chars,
    join_strings, rfind_chars, same_text, signed_decimal_chars, split_chars, string_of,
};

verus! {

/// The version of the schema. A database of another version is refused: it is
/// built again from the captures.
pub const GDBG_SCHEMA_VERSION: i64 = 2;

// ---------------------------------------------------------------------------
// Patterns
// ---------------------------------------------------------------------------

/// One character of a pattern: quotes are doubled, and the wildcard `%` is
/// marked by a backslash.
pub open spec fn escaped_char(c: char) -> Seq<char> {
    if c == '\'' {
        seq!['\'', '\'']
    } else if c == '%' {
        seq!['\\', '%']
    } else {
        seq![c]
    }
}

/// A pattern with each character escaped.
pub open spec fn escaped(s: Seq<char>) -> Seq<char>
    decreases s.len(),
{
    if s.len() == 0 {
        Seq::empty()
    } else {
        escaped(s.drop_last()) + escaped_char(s.last())
    }
}

/// Escapes a pattern for a `LIKE` with `ESCAPE '\'`. An underscore keeps its
/// meaning: it matches any character, so also itself.
pub fn escape_sql_like(s: &str) -> (r: String)
    ensures
        r@ == escaped(s@),
{
    let chars = chars_of(s);
    let mut out: Vec<char> = Vec::new();
    let mut i: usize = 0;
    while i < chars.len()
        invariant
            i <= chars@.len(),
            out@ == escaped(chars@.take(i as int)),
        decreases chars@.len() - i,
    {
        assert(chars@.take(i + 1).drop_last() =~= chars@.take(i as int));
        let ghost before = out@;
        let c: char = chars[i];
        if c == '\'' {
            out.push('\'');
            out.push('\'');
        } else if c == '%' {
            out.push('\\');
            out.push('%');
        } else {
            out.push(c);
        }
        assert(out@ =~= before + escaped_char(c));
        i = i + 1;
    }
    assert(chars@.take(chars@.len() as int) =~= chars@);
    string_of(&out)
}

/// The parameter of a `LIKE` that looks for a pattern anywhere.
pub fn like_param(pattern: &str) -> (r: String)
    ensures
        r@ == "%"@ + escaped(pattern@) + "%"@,
{
    let inner = escape_sql_like(pattern);
    let mut out = chars_of("%");
    extend_str(&mut out, inner.as_str());
    extend_str(&mut out, "%");
    string_of(&out)
}

/// In an escaped pattern every wildcard is marked.
pub proof fn wildcards_are_marked(s: Seq<char>, i: int)
    requires
        0 <= i < escaped(s).len(),
        escaped(s)[i] == '%',
    ensures
        i > 0 && escaped(s)[i - 1] == '\\',
    decreases s.len(),
{
    let a = escaped(s.drop_last());
    let b = escaped_char(s.last());
    if i < a.len() {
        assert(escaped(s)[i] == a[i]);
        wildcards_are_marked(s.drop_last(), i);
        assert(escaped(s)[i - 1] == a[i - 1]);
    } else {
        assert(escaped(s)[i] == b[i - a.len()]);
    }
}

// ---------------------------------------------------------------------------
// Filters
// ---------------------------------------------------------------------------

/// A condition of a query, with the parameters that it binds.
#[derive(Debug)]
pub struct SqlFilter {
    pub clause: String,
    pub params: Vec<String>,
}

impl Default for SqlFilter {
    fn default() -> (r: SqlFilter)
        ensures
            r.clause@.len() == 0,
            r.params@.len() == 0,
    {
        SqlFilter { clause: String::new(), params: Vec::new() }
    }
}

impl SqlFilter {
    /// The condition; one that always holds where there is none.
    pub fn clause(&self) -> (r: &str)
        ensures
            r@ == if self.clause@.len() == 0 {
                "1=1"@
            } else {
                self.clause@
            },
    {
        let chars = chars_of(self.clause.as_str());
        if chars.len() == 0 {
            "1=1"
        } else {
            self.clause.as_str()
        }
    }

    /// The parameters, in the order of the condition.
    pub fn params(&self) -> (r: &Vec<String>)
        ensures
            *r == self.params,
    {
        &self.params
    }
}

/// What the user has restricted the reports to.
#[derive(Debug)]
pub struct Filters {
    pub focus: Option<String>,
    pub ignore: Option<String>,
    pub region_filter: Option<String>,
}

pub struct FiltersV {
    pub focus: Option<Seq<char>>,
    pub ignore: Option<Seq<char>>,
    pub region_filter: Option<Seq<char>>,
}

/// The conditions that the filters make.
pub open spec fn filter_clauses(f: FiltersV) -> Seq<Seq<char>> {
    (if f.focus is Some {
        seq![r"launches.kernel_name LIKE ? ESCAPE '\'"@]
    } else {
        Seq::empty()
    }) + (if f.ignore is Some {
        seq![r"launches.kernel_name NOT LIKE ? ESCAPE '\'"@]
    } else {
        Seq::empty()
    }) + (if f.region_filter is Some {
        seq![
            r"launches.start_us IS NOT NULL AND EXISTS (
                   SELECT 1 FROM regions
                   WHERE name LIKE ? ESCAPE '\'
                     AND launches.start_us >= regions.start_us
                     AND launches.start_us <= regions.start_us + regions.duration_us
                 )"@,
        ]
    } else {
        Seq::empty()
    })
}

pub open spec fn like_opt(s: Option<Seq<char>>) -> Seq<Seq<char>> {
    match s {
        Some(p) => seq!["%"@ + escaped(p) + "%"@],
        None => Seq::empty(),
    }
}

/// The parameters that the conditions bind, in order.
pub open spec fn filter_params(f: FiltersV) -> Seq<Seq<char>> {
    like_opt(f.focus) + like_opt(f.ignore) + like_opt(f.region_filter)
}

impl Filters {
    pub open spec fn view(&self) -> FiltersV {
        FiltersV {
            focus: text::opt_text(self.focus),
            ignore: text::opt_text(self.ignore),
            region_filter: text::opt_text(self.region_filter),
        }
    }

    pub fn new() -> (r: Filters)
        ensures
            r.view() == (FiltersV { focus: None, ignore: None, region_filter: None }),
    {
        Filters { focus: None, ignore: None, region_filter: None }
    }

    /// Shows only kernels whose name holds the pattern.
    pub fn set_focus(&mut self, pattern: &str)
        ensures
            final(self).view() == (FiltersV { focus: Some(pattern@), ..old(self).view() }),
    {
        self.focus = Some(pattern.to_owned());
    }

    /// Leaves out kernels whose name holds the pattern.
    pub fn set_ignore(&mut self, pattern: &str)
        ensures
            final(self).view() == (FiltersV { ignore: Some(pattern@), ..old(self).view() }),
    {
        self.ignore = Some(pattern.to_owned());
    }

    /// Shows only launches within regions whose name holds the pattern.
    pub fn set_region(&mut self, pattern: &str)
        ensures
            final(self).view() == (FiltersV { region_filter: Some(pattern@), ..old(self).view() }),
    {
        self.region_filter = Some(pattern.to_owned());
    }

    /// Shows everything again.
    pub fn reset(&mut self)
        ensures
            final(self).view() == (FiltersV { focus: None, ignore: None, region_filter: None }),
    {
        self.focus = None;
        self.ignore = None;
        self.region_filter = None;
    }

    /// The condition on launches that the filters make.
    pub fn kernel_filter_params(&self) -> (r: SqlFilter)
        ensures
            r.clause@ == text::join(filter_clauses(self.view()), " AND "@),
            text::texts(r.params@) == filter_params(self.view()),
    {
        let mut clauses: Vec<String> = Vec::new();
        let mut params: Vec<String> = Vec::new();
        if let Some(f) = &self.focus {
            clauses.push(r"launches.kernel_name LIKE ? ESCAPE '\'".to_owned());
            params.push(like_param(f.as_str()));
        }
        if let Some(f) = &self.ignore {
            clauses.push(r"launches.kernel_name NOT LIKE ? ESCAPE '\'".to_owned());
            params.push(like_param(f.as_str()));
        }
        if let Some(f) = &self.region_filter {
            clauses.push(
                r"launches.start_us IS NOT NULL AND EXISTS (
                   SELECT 1 FROM regions
                   WHERE name LIKE ? ESCAPE '\'
                     AND launches.start_us >= regions.start_us
                     AND launches.start_us <= regions.start_us + regions.duration_us
                 )".to_owned(),
            );
            params.push(like_param(f.as_str()));
        }
        assert(text::texts(clauses@) =~= filter_clauses(self.view()));
        assert(text::texts(params@) =~= filter_params(self.view()));
        SqlFilter { clause: join_strings(&clauses, " AND "), params: params }
    }
}

/// A condition binds one parameter for each clause.
pub proof fn one_parameter_for_each_clause(f: FiltersV)
    ensures
        filter_clauses(f).len() == filter_params(f).len(),
{
}

// ---------------------------------------------------------------------------
// Names
// ---------------------------------------------------------------------------

pub open spec fn is_ascii_letter(c: char) -> bool {
    'a' <= c <= 'z' || 'A' <= c <= 'Z'
}

pub open spec fn is_ascii_alphanumeric(c: char) -> bool {
    is_ascii_letter(c) || text::is_digit(c)
}

/// A name under which a session may be saved: letters, digits, `-` and `_`.
pub open spec fn is_session_name(name: Seq<char>) -> bool {
    &&& name.len() > 0
    &&& forall|i: int|
        0 <= i < name.len() ==> is_ascii_alphanumeric(#[trigger] name[i]) || name[i] == '-'
            || name[i] == '_'
}

fn letter(c: char) -> (r: bool)
    ensures
        r == is_ascii_letter(c),
{
    ('a' <= c && c <= 'z') || ('A' <= c && c <= 'Z')
}

fn alphanumeric(c: char) -> (r: bool)
    ensures
        r == is_ascii_alphanumeric(c),
{
    letter(c) || ('0' <= c && c <= '9')
}

/// A name that is not allowed.
#[derive(Debug)]
pub struct InvalidName {
    pub name: String,
}

/// Whether a session may be saved under that name.
pub fn validate_saved_session_name(name: &str) -> (r: Result<(), InvalidName>)
    ensures
        match r {
            Ok(_) => is_session_name(name@),
            Err(e) => !is_session_name(name@) && e.name@ == name@,
        },
{
    let chars = chars_of(name);
    if chars.len() == 0 {
        return Err(InvalidName { name: name.to_owned() });
    }
    let mut i: usize = 0;
    while i < chars.len()
        invariant
            i <= chars@.len(),
            chars@ == name@,
            forall|k: int|
                0 <= k < i ==> is_ascii_alphanumeric(#[trigger] chars@[k]) || chars@[k] == '-'
                    || chars@[k] == '_',
        decreases chars@.len() - i,
    {
        let c: char = chars[i];
        if !(alphanumeric(c) || c == '-' || c == '_') {
            assert(!(is_ascii_alphanumeric(name@[i as int]) || name@[i as int] == '-'
                || name@[i as int] == '_'));
            return Err(InvalidName { name: name.to_owned() });
        }
        i = i + 1;
    }
    Ok(())
}

/// A saved session stays in its directory: its name neither leads out of the
/// directory nor into another.
pub proof fn session_names_stay_in_the_directory(name: Seq<char>)
    requires
        is_session_name(name),
    ensures
        forall|i: int| 0 <= i < name.len() ==> #[trigger] name[i] != '/' && name[i] != '\\' && name[i]
            != '.' && name[i] != '\0',
        name != "."@,
        name != ".."@,
{
    reveal_strlit(".");
    reveal_strlit("..");
    assert forall|i: int| 0 <= i < name.len() implies #[trigger] name[i] != '/' && name[i] != '\\'
        && name[i] != '.' && name[i] != '\0' by {
        assert(is_ascii_alphanumeric(name[i]) || name[i] == '-' || name[i] == '_');
    }
    if name == "."@ {
        assert(name[0] == '.');
    }
    if name == ".."@ {
        assert(name[0] == '.');
    }
}

/// A name that may stand in a statement as it is.
pub open spec fn is_sql_identifier(s: Seq<char>) -> bool {
    &&& s.len() > 0
    &&& (s[0] == '_' || is_ascii_letter(s[0]))
    &&& forall|i: int|
        0 <= i < s.len() ==> #[trigger] s[i] == '_' || is_ascii_alphanumeric(s[i])
}

/// Whether a name may stand in a statement as it is.
pub fn validate_sql_identifier(identifier: &str) -> (r: Result<(), InvalidName>)
    ensures
        match r {
            Ok(_) => is_sql_identifier(identifier@),
            Err(e) => !is_sql_identifier(identifier@) && e.name@ == identifier@,
        },
{
    let chars = chars_of(identifier);
    if chars.len() == 0 || !(chars[0] == '_' || letter(chars[0])) {
        return Err(InvalidName { name: identifier.to_owned() });
    }
    let mut i: usize = 0;
    while i < chars.len()
        invariant
            i <= chars@.len(),
            chars@ == identifier@,
            forall|k: int|
                0 <= k < i ==> #[trigger] chars@[k] == '_' || is_ascii_alphanumeric(chars@[k]),
        decreases chars@.len() - i,
    {
        let c: char = chars[i];
        if !(c == '_' || alphanumeric(c)) {
            assert(!(identifier@[i as int] == '_' || is_ascii_alphanumeric(
                identifier@[i as int],
            )));
            return Err(InvalidName { name: identifier.to_owned() });
        }
        i = i + 1;
    }
    Ok(())
}

/// The file name of a saved session.
pub fn saved_file_name(name: &str) -> (r: String)
    ensures
        r@ == name@ + ".gpu.db"@,
{
    let mut out = chars_of(name);
    extend_str(&mut out, ".gpu.db");
    string_of(&out)
}

/// What a session is loaded from.
#[derive(Debug)]
pub enum LoadTarget {
    /// A saved session, by name.
    Saved(String),
    /// A database, by path.
    Path(String),
}

/// A name with a slash is a path; any other is that of a saved session, with
/// or without the extension.
pub open spec fn load_target(s: Seq<char>) -> (bool, Seq<char>) {
    if text::contains(s, "/"@) {
        (false, s)
    } else if text::ends_with(s, ".gpu.db"@) {
        (true, s.take(s.len() - ".gpu.db"@.len()))
    } else {
        (true, s)
    }
}

/// What a session is loaded from.
pub fn parse_load_target(name_or_path: &str) -> (r: LoadTarget)
    ensures
        match r {
            LoadTarget::Saved(n) => load_target(name_or_path@) == (true, n@),
            LoadTarget::Path(p) => load_target(name_or_path@) == (false, p@),
        },
{
    let chars = chars_of(name_or_path);
    let slash = chars_of("/");
    let suffix = chars_of(".gpu.db");
    if find_chars(&chars, &slash, 0).is_some() {
        return LoadTarget::Path(name_or_path.to_owned());
    }
    if ends_with_chars(&chars, &suffix) {
        let n: usize = chars.len() - suffix.len();
        let name = cut(&chars, 0, n);
        assert(name@ =~= name_or_path@.take(n as int));
        return LoadTarget::Saved(string_of(&name));
    }
    LoadTarget::Saved(name_or_path.to_owned())
}

/// The database to compare with: a path, or a saved session by name.
pub open spec fn comparison_path(session_dir: Seq<char>, name: Seq<char>) -> Seq<char> {
    if text::ends_with(name, ".gpu.db"@) || text::contains(name, "/"@) {
        name
    } else {
        deps::below(session_dir, name + ".gpu.db"@)
    }
}

/// The database to compare with.
pub fn other_session_path(session_dir: &str, name: &str) -> (r: String)
    ensures
        r@ == comparison_path(session_dir@, name@),
{
    let chars = chars_of(name);
    let slash = chars_of("/");
    let suffix = chars_of(".gpu.db");
    if ends_with_chars(&chars, &suffix) || find_chars(&chars, &slash, 0).is_some() {
        return name.to_owned();
    }
    let file = saved_file_name(name);
    resolve_breakpoint_path_from(Some(session_dir), file.as_str())
}

/// The part of a file name before its extension, and the extension. A dot at
/// the beginning is part of the name.
pub open spec fn stem_and_extension(file: Seq<char>) -> (Seq<char>, Option<Seq<char>>) {
    match text::rfind(file, "."@) {
        Some(i) => if i > 0 {
            (file.take(i), Some(file.skip(i + 1)))
        } else {
            (file, None)
        },
        None => (file, None),
    }
}

/// The name of the session in a file of the session directory, where the file
/// is one.
pub open spec fn session_in_file(path: Seq<char>, file: Seq<char>) -> Option<Seq<char>> {
    let (stem, extension) = stem_and_extension(file);
    if extension == Some("db"@) && text::contains(path, ".gpu."@) {
        if text::ends_with(stem, ".gpu"@) {
            Some(stem.take(stem.len() - ".gpu"@.len()))
        } else {
            Some(Seq::empty())
        }
    } else {
        None
    }
}

/// The name of the session in a file of the session directory.
pub fn saved_session_name(path: &str, file: &str) -> (r: Option<String>)
    ensures
        match r {
            Some(n) => session_in_file(path@, file@) == Some(n@),
            None => session_in_file(path@, file@) is None,
        },
{
    proof {
        reveal_strlit(".");
    }
    let chars = chars_of(file);
    let dot = chars_of(".");
    let at: usize = match rfind_chars(&chars, &dot) {
        Some(i) => if i > 0 {
            i
        } else {
            return None;
        },
        None => {
            return None;
        },
    };
    let stem = cut(&chars, 0, at);
    let extension = cut(&chars, at + 1, chars.len());
    assert(stem@ =~= file@.take(at as int));
    assert(extension@ =~= file@.skip(at + 1));
    let extension_text = string_of(&extension);
    let path_chars = chars_of(path);
    let mark = chars_of(".gpu.");
    if !same_text(extension_text.as_str(), "db") || find_chars(&path_chars, &mark, 0).is_none() {
        return None;
    }
    let suffix = chars_of(".gpu");
    if ends_with_chars(&stem, &suffix) {
        let n: usize = stem.len() - suffix.len();
        let name = cut(&stem, 0, n);
        assert(name@ =~= stem@.take(n as int));
        Some(string_of(&name))
    } else {
        Some(String::new())
    }
}

// ---------------------------------------------------------------------------
// Directories
// ---------------------------------------------------------------------------

/// The first of the directories that is a project's root, from `k` on.
pub open spec fn first_root(dirs: Seq<Seq<char>>, has_git: Seq<bool>, k: int) -> Option<Seq<char>>
    decreases dirs.len() - k,
{
    if k < 0 || k >= dirs.len() || k >= has_git.len() {
        None
    } else if has_git[k] {
        Some(dirs[k])
    } else {
        first_root(dirs, has_git, k + 1)
    }
}

/// The project's root: the nearest directory above the working directory that
/// holds a repository, or else the working directory. `has_git` says of the
/// working directory and of each one above it whether it holds a repository.
pub fn find_project_root(cwd: &str, has_git: &[bool]) -> (r: String)
    ensures
        r@ == match first_root(deps::ancestors(cwd@, cwd@.len()), has_git@, 0) {
            Some(d) => d,
            None => cwd@,
        },
{
    let chars = chars_of(cwd);
    let dirs = ancestors_of(cwd, chars.len());
    let ghost all = deps::ancestors(cwd@, cwd@.len());
    let mut k: usize = 0;
    while k < dirs.len() && k < has_git.len()
        invariant
            k <= dirs@.len(),
            k <= has_git@.len(),
            text::texts(dirs@) == all,
            all == deps::ancestors(cwd@, cwd@.len()),
            first_root(all, has_git@, 0) == first_root(all, has_git@, k as int),
        decreases dirs@.len() - k,
    {
        if has_git[k] {
            assert(all[k as int] == dirs@[k as int]@);
            return dirs[k].clone();
        }
        k = k + 1;
    }
    cwd.to_owned()
}

/// The directory of saved sessions in a project.
pub fn session_dir(root: &str) -> (r: String)
    ensures
        r@ == deps::below(deps::below(root@, ".dbg"@), "gpu"@),
{
    let dbg = resolve_breakpoint_path_from(Some(root), ".dbg");
    resolve_breakpoint_path_from(Some(dbg.as_str()), "gpu")
}

/// The names, in order, that lead from the root to a directory: empty parts
/// and `.` stand for nothing.
pub open spec fn components_in(parts: Seq<Seq<char>>) -> Seq<Seq<char>>
    decreases parts.len(),
{
    if parts.len() == 0 {
        Seq::empty()
    } else {
        let rest = components_in(parts.drop_last());
        if parts.last().len() == 0 || parts.last() == "."@ {
            rest
        } else {
            rest.push(parts.last())
        }
    }
}

/// A path that goes up again.
pub open spec fn goes_up(parts: Seq<Seq<char>>) -> bool {
    exists|i: int| 0 <= i < parts.len() && #[trigger] parts[i] == ".."@
}

/// The names that lead from the root to a directory, one to be opened within
/// the other. A path that goes up again is refused.
pub fn anchored_components(absolute: &str) -> (r: Option<Vec<String>>)
    ensures
        ({
            let parts = text::split(absolute@, "/"@);
            match r {
                Some(v) => !goes_up(parts) && text::texts(v@) == components_in(parts),
                None => goes_up(parts),
            }
        }),
{
    proof {
        reveal_strlit("/");
    }
    let chars = chars_of(absolute);
    let slash = chars_of("/");
    let parts = split_chars(&chars, &slash);
    let ghost all = text::split(absolute@, "/"@);
    let mut out: Vec<String> = Vec::new();
    let mut i: usize = 0;
    while i < parts.len()
        invariant
            i <= parts@.len(),
            text::pieces(parts@) == all,
            all == text::split(absolute@, "/"@),
            forall|k: int| 0 <= k < i ==> #[trigger] all[k] != ".."@,
            text::texts(out@) =~= components_in(all.take(i as int)),
        decreases parts@.len() - i,
    {
        assert(all.take(i + 1).drop_last() =~= all.take(i as int));
        assert(all.take(i + 1).last() == parts@[i as int]@);
        assert(all[i as int] == parts@[i as int]@);
        let part = string_of(&parts[i]);
        if same_text(part.as_str(), "..") {
            return None;
        }
        if parts[i].len() > 0 && !same_text(part.as_str(), ".") {
            let ghost before = out@;
            out.push(part);
            assert(text::texts(out@) =~= text::texts(before).push(part@));
        }
        i = i + 1;
    }
    assert(all.take(all.len() as int) =~= all);
    Some(out)
}

// ---------------------------------------------------------------------------
// Schema
// ---------------------------------------------------------------------------

/// The tables that a session database holds.
pub open spec fn required_tables() -> Seq<Seq<char>> {
    seq![
        "meta"@,
        "layers"@,
        "launches"@,
        "metrics"@,
        "transfers"@,
        "ops"@,
        "op_kernel_map"@,
        "allocations"@,
        "regions"@,
        "failures"@,
    ]
}

/// The tables that a session database holds.
pub fn schema_tables() -> (r: Vec<String>)
    ensures
        text::texts(r@) == required_tables(),
{
    let mut v: Vec<String> = Vec::new();
    v.push("meta".to_owned());
    v.push("layers".to_owned());
    v.push("launches".to_owned());
    v.push("metrics".to_owned());
    v.push("transfers".to_owned());
    v.push("ops".to_owned());
    v.push("op_kernel_map".to_owned());
    v.push("allocations".to_owned());
    v.push("regions".to_owned());
    v.push("failures".to_owned());
    assert(text::texts(v@) =~= required_tables());
    v
}

/// Why a database is refused.
#[derive(Debug)]
pub enum SchemaError {
    Version { found: i64 },
    /// Tables are missing.
    Missing(Vec<String>),
}

/// Those of the required tables that are not there exactly once.
pub open spec fn missing_tables(counts: Seq<i64>, n: int) -> Seq<Seq<char>>
    decreases n,
{
    if n <= 0 {
        Seq::empty()
    } else {
        let rest = missing_tables(counts, n - 1);
        if counts[n - 1] != 1 {
            rest.push(required_tables()[n - 1])
        } else {
            rest
        }
    }
}

/// Whether a database can be used: it has the version of this schema, and each
/// required table. `counts` says how often each table was found.
pub fn validate_schema(found: i64, counts: &[i64]) -> (r: Result<(), SchemaError>)
    requires
        counts@.len() == required_tables().len(),
    ensures
        ({
            let missing = missing_tables(counts@, required_tables().len() as int);
            match r {
                Ok(_) => found == GDBG_SCHEMA_VERSION && missing.len() == 0,
                Err(SchemaError::Version { found: f }) => f == found && found
                    != GDBG_SCHEMA_VERSION,
                Err(SchemaError::Missing(v)) => {
                    &&& found == GDBG_SCHEMA_VERSION
                    &&& missing.len() > 0
                    &&& text::texts(v@) == missing
                },
            }
        }),
{
    if found != GDBG_SCHEMA_VERSION {
        return Err(SchemaError::Version { found: found });
    }
    let tables = schema_tables();
    let mut missing: Vec<String> = Vec::new();
    let mut i: usize = 0;
    while i < tables.len()
        invariant
            i <= tables@.len(),
            text::texts(tables@) == required_tables(),
            counts@.len() == tables@.len(),
            text::texts(missing@) =~= missing_tables(counts@, i as int),
        decreases tables@.len() - i,
    {
        assert(required_tables()[i as int] == tables@[i as int]@);
        if counts[i] != 1 {
            let ghost before = missing@;
            let name = tables[i].clone();
            missing.push(name);
            assert(text::texts(missing@) =~= text::texts(before).push(name@));
        }
        i = i + 1;
    }
    if missing.len() > 0 {
        Err(SchemaError::Missing(missing))
    } else {
        Ok(())
    }
}

/// The message that is shown for a refused database.
pub open spec fn schema_error_text(path: Seq<char>, e: SchemaError) -> Seq<char> {
    match e {
        SchemaError::Version { found } => "gdbg session DB at "@ + path + " has schema_version="@
            + text::signed_decimal(found as int) + ", expected "@ + text::signed_decimal(
            GDBG_SCHEMA_VERSION as int,
        )
            + ". No migration path — delete it and re-run `gdbg <target>` to rebuild from the raw captures."@,
        SchemaError::Missing(tables) => "gdbg session DB "@ + path
            + " is missing required table(s): "@ + text::join(text::texts(tables@), ", "@),
    }
}

impl SchemaError {
    /// The message that is shown for a refused database.
    pub fn message(&self, path: &str) -> (r: String)
        ensures
            r@ == schema_error_text(path@, *self),
    {
        match self {
            SchemaError::Version { found } => {
                let mut out = chars_of("gdbg session DB at ");
                extend_str(&mut out, path);
                extend_str(&mut out, " has schema_version=");
                let d = signed_decimal_chars(*found);
                extend_chars(&mut out, &d);
                extend_str(&mut out, ", expected ");
                let e = signed_decimal_chars(GDBG_SCHEMA_VERSION);
                extend_chars(&mut out, &e);
                extend_str(
                    &mut out,
                    ". No migration path — delete it and re-run `gdbg <target>` to rebuild from the raw captures.",
                );
                string_of(&out)
            },
            SchemaError::Missing(tables) => {
                let mut out = chars_of("gdbg session DB ");
                extend_str(&mut out, path);
                extend_str(&mut out, " is missing required table(s): ");
                let names = join_strings(tables, ", ");
                extend_str(&mut out, names.as_str());
                string_of(&out)
            },
        }
    }
}

// ---------------------------------------------------------------------------
// Layers
// ---------------------------------------------------------------------------

/// A layer: one profile of a target.
#[derive(Debug)]
pub struct Layer {
    pub id: i64,
    pub source: String,
}

pub struct LayerV {
    pub id: i64,
    pub source: Seq<char>,
}

pub open spec fn layer_views(s: Seq<Layer>) -> Seq<LayerV> {
    Seq::new(s.len(), |i: int| LayerV { id: s[i].id, source: s[i].source@ })
}

/// Some layer comes from that profiler.
pub open spec fn has_source(layers: Seq<LayerV>, source: Seq<char>) -> bool {
    exists|i: int| 0 <= i < layers.len() && (#[trigger] layers[i]).source == source
}

/// `id` is the smallest id of a layer from that profiler.
pub open spec fn is_first_layer(layers: Seq<LayerV>, source: Seq<char>, id: i64) -> bool {
    &&& exists|i: int|
        0 <= i < layers.len() && (#[trigger] layers[i]).source == source && layers[i].id == id
    &&& forall|i: int|
        0 <= i < layers.len() && (#[trigger] layers[i]).source == source ==> id <= layers[i].id
}

/// Whether a layer comes from that profiler.
pub fn has_layer(layers: &[Layer], source: &str) -> (r: bool)
    ensures
        r == has_source(layer_views(layers@), source@),
{
    first_layer(layers, source).is_some()
}

fn first_layer(layers: &[Layer], source: &str) -> (r: Option<i64>)
    ensures
        match r {
            Some(id) => has_source(layer_views(layers@), source@) && is_first_layer(
                layer_views(layers@),
                source@,
                id,
            ),
            None => !has_source(layer_views(layers@), source@),
        },
{
    let ghost all = layer_views(layers@);
    let mut best: Option<i64> = None;
    let mut i: usize = 0;
    while i < layers.len()
        invariant
            i <= layers@.len(),
            all == layer_views(layers@),
            match best {
                Some(id) => {
                    &&& exists|k: int|
                        0 <= k < i && (#[trigger] all[k]).source == source@ && all[k].id == id
                    &&& forall|k: int|
                        0 <= k < i && (#[trigger] all[k]).source == source@ ==> id <= all[k].id
                },
                None => forall|k: int| 0 <= k < i ==> (#[trigger] all[k]).source != source@,
            },
        decreases layers@.len() - i,
    {
        assert(all[i as int].source == layers@[i as int].source@);
        if same_text(layers[i].source.as_str(), source) {
            let id: i64 = layers[i].id;
            let better = match best {
                Some(b) => id < b,
                None => true,
            };
            assert(all[i as int].id == id);
            if better {
                best = Some(id);
            }
        }
        i = i + 1;
    }
    best
}

/// The layer that the timeline is taken from: a trace of the system before one
/// of the framework.
pub fn timeline_layer_id(layers: &[Layer]) -> (r: Option<i64>)
    ensures
        ({
            let all = layer_views(layers@);
            match r {
                Some(id) => if has_source(all, "nsys"@) {
                    is_first_layer(all, "nsys"@, id)
                } else if has_source(all, "torch"@) {
                    is_first_layer(all, "torch"@, id)
                } else {
                    has_source(all, "proton"@) && is_first_layer(all, "proton"@, id)
                },
                None => !has_source(all, "nsys"@) && !has_source(all, "torch"@) && !has_source(
                    all,
                    "proton"@,
                ),
            }
        }),
{
    if let Some(id) = first_layer(layers, "nsys") {
        return Some(id);
    }
    if let Some(id) = first_layer(layers, "torch") {
        return Some(id);
    }
    first_layer(layers, "proton")
}

/// The condition that restricts launches to a layer.
pub open spec fn layer_clause(alias: Seq<char>, layer: Option<i64>) -> Seq<char> {
    match layer {
        Some(id) => alias + ".layer_id = "@ + text::signed_decimal(id as int),
        None => "1=1"@,
    }
}

/// The condition that restricts launches to the timeline's layer.
pub fn timeline_filter_for(alias: &str, layer: Option<i64>) -> (r: String)
    ensures
        r@ == layer_clause(alias@, layer),
{
    match layer {
        Some(id) => {
            let mut out = chars_of(alias);
            extend_str(&mut out, ".layer_id = ");
            let d = signed_decimal_chars(id);
            extend_chars(&mut out, &d);
            string_of(&out)
        },
        None => "1=1".to_owned(),
    }
}

/// Whether the operators' GPU times have to be taken from the timeline's layer
/// anew: not where that layer is the one that the operators come from.
pub fn needs_recompute(op_layers: &[String], timeline_source: &str) -> (r: bool)
    ensures
        r == !(op_layers@.len() == 1 && op_layers@[0]@ == timeline_source@),
{
    !(op_layers.len() == 1 && same_text(op_layers[0].as_str(), timeline_source))
}

/// Whether operators can be shown.
pub fn has_op_layer(layers: &[Layer]) -> (r: bool)
    ensures
        r == (has_source(layer_views(layers@), "torch"@) || has_source(
            layer_views(layers@),
            "proton"@,
        )),
{
    has_layer(layers, "torch") || has_layer(layers, "proton")
}

// ---------------------------------------------------------------------------
// Consistency
// ---------------------------------------------------------------------------

/// The sources, in order, whose target is not the first one's.
pub open spec fn changed_sources(rows: Seq<(String, String)>, first: Seq<char>) -> Seq<Seq<char>>
    decreases rows.len(),
{
    if rows.len() == 0 {
        Seq::empty()
    } else {
        let rest = changed_sources(rows.drop_last(), first);
        if rows.last().1@ != first {
            rest.push(rows.last().0@)
        } else {
            rest
        }
    }
}

/// The warning where the target changed between two profiles. Each row is a
/// source and the hash of its target.
pub fn check_target_consistency(rows: &[(String, String)]) -> (r: Option<String>)
    ensures
        ({
            let changed = changed_sources(rows@, rows@[0].1@);
            match r {
                Some(w) => {
                    &&& rows@.len() >= 2
                    &&& changed.len() > 0
                    &&& w@ == "target file changed between collection phases: "@ + rows@[0].0@
                        + " vs "@ + text::join(changed, ", "@)
                },
                None => rows@.len() < 2 || changed.len() == 0,
            }
        }),
{
    if rows.len() < 2 {
        return None;
    }
    let first: &str = rows[0].1.as_str();
    let mut changed: Vec<String> = Vec::new();
    let mut i: usize = 0;
    while i < rows.len()
        invariant
            i <= rows@.len(),
            text::texts(changed@) =~= changed_sources(rows@.take(i as int), first@),
        decreases rows@.len() - i,
    {
        assert(rows@.take(i + 1).drop_last() =~= rows@.take(i as int));
        if !same_text(rows[i].1.as_str(), first) {
            let ghost before = changed@;
            let name = rows[i].0.clone();
            changed.push(name);
            assert(text::texts(changed@) =~= text::texts(before).push(name@));
        }
        i = i + 1;
    }
    assert(rows@.take(rows@.len() as int) =~= rows@);
    if changed.len() == 0 {
        return None;
    }
    let mut out = chars_of("target file changed between collection phases: ");
    extend_str(&mut out, rows[0].0.as_str());
    extend_str(&mut out, " vs ");
    let names = join_strings(&changed, ", ");
    extend_str(&mut out, names.as_str());
    Some(string_of(&out))
}

/// At most the first three.
pub open spec fn first_three(names: Seq<Seq<char>>) -> Seq<Seq<char>> {
    if names.len() > 3 {
        names.take(3)
    } else {
        names
    }
}

/// The warning that the framework saw kernels which the system trace did not.
pub open spec fn orphan_warning(orphans: Seq<Seq<char>>) -> Seq<char> {
    text::decimal(orphans.len()) + " kernels in torch layer but not nsys (different run?): "@
        + text::join(first_three(orphans), ", "@)
}

/// Warnings about kernels that the framework saw and the system trace did not.
pub fn check_kernel_consistency(has_nsys: bool, has_torch: bool, orphans: &[String]) -> (r: Vec<
    String,
>)
    ensures
        text::texts(r@) == if has_nsys && has_torch && orphans@.len() > 0 {
            seq![orphan_warning(text::texts(orphans@))]
        } else {
            Seq::empty()
        },
{
    let mut warnings: Vec<String> = Vec::new();
    if !has_nsys || !has_torch || orphans.len() == 0 {
        assert(text::texts(warnings@) =~= Seq::empty());
        return warnings;
    }
    let mut shown: Vec<String> = Vec::new();
    let mut i: usize = 0;
    while i < orphans.len() && i < 3
        invariant
            i <= orphans@.len(),
            i <= 3,
            text::texts(shown@) =~= text::texts(orphans@).take(i as int),
        decreases orphans@.len() - i,
    {
        let ghost before = shown@;
        let name = orphans[i].clone();
        shown.push(name);
        assert(text::texts(shown@) =~= text::texts(before).push(name@));
        i = i + 1;
    }
    assert(text::texts(shown@) =~= first_three(text::texts(orphans@)));
    let mut out = decimal_chars(orphans.len() as u64);
    extend_str(&mut out, " kernels in torch layer but not nsys (different run?): ");
    let names = join_strings(&shown, ", ");
    extend_str(&mut out, names.as_str());
    let warning = string_of(&out);
    warnings.push(warning);
    assert(text::texts(warnings@) =~= seq![orphan_warning(text::texts(orphans@))]);
    warnings
}

// ---------------------------------------------------------------------------
// Saved sessions
// ---------------------------------------------------------------------------

/// What a list of sessions shows of one.
#[derive(Debug)]
pub struct SavedSession {
    pub name: String,
    pub device: String,
    pub kernel_count: usize,
    pub layers: Vec<String>,
    pub created: String,
}

#[verifier::ext_equal]
pub struct SavedSessionV {
    pub name: Seq<char>,
    pub device: Seq<char>,
    pub kernel_count: usize,
    pub layers: Seq<Seq<char>>,
    pub created: Seq<char>,
}

impl View for SavedSession {
    type V = SavedSessionV;

    open spec fn view(&self) -> SavedSessionV {
        SavedSessionV {
            name: self.name@,
            device: self.device@,
            kernel_count: self.kernel_count,
            layers: text::texts(self.layers@),
            created: self.created@,
        }
    }
}

pub open spec fn session_views(v: Seq<SavedSession>) -> Seq<SavedSessionV> {
    Seq::new(v.len(), |i: int| v[i]@)
}

/// How many of the first `n` sessions were created after a moment.
pub open spec fn created_later(v: Seq<SavedSessionV>, created: Seq<char>, n: int) -> int
    decreases n,
{
    if n <= 0 {
        0
    } else {
        created_later(v, created, n - 1) + (if text::earlier(created, v[n - 1].created) {
            1int
        } else {
            0
        })
    }
}

pub open spec fn ages(v: Seq<SavedSessionV>) -> Seq<int> {
    Seq::new(v.len(), |i: int| created_later(v, v[i].created, v.len() as int))
}

fn age_of(sessions: &[SavedSession], created: &str) -> (r: usize)
    ensures
        r == created_later(session_views(sessions@), created@, sessions@.len() as int),
{
    let c = chars_of(created);
    let mut count: usize = 0;
    let mut k: usize = 0;
    while k < sessions.len()
        invariant
            k <= sessions@.len(),
            count <= k,
            c@ == created@,
            count == created_later(session_views(sessions@), created@, k as int),
        decreases sessions@.len() - k,
    {
        if earlier_chars(&c, &chars_of(sessions[k].created.as_str())) {
            count = count + 1;
        }
        k = k + 1;
    }
    count
}

fn copy_texts(v: &[String]) -> (r: Vec<String>)
    ensures
        text::texts(r@) == text::texts(v@),
{
    let mut out: Vec<String> = Vec::new();
    let mut i: usize = 0;
    while i < v.len()
        invariant
            i <= v@.len(),
            text::texts(out@) =~= text::texts(v@).take(i as int),
        decreases v@.len() - i,
    {
        let ghost before = out@;
        out.push(v[i].clone());
        assert(text::texts(out@) =~= text::texts(before).push(v@[i as int]@));
        i = i + 1;
    }
    assert(text::texts(v@).take(i as int) =~= text::texts(v@));
    out
}

/// The sessions, the newest first. Sessions of one moment keep their order.
pub fn newest_first(sessions: &[SavedSession]) -> (r: Vec<SavedSession>)
    ensures
        ({
            let all = session_views(sessions@);
            let p = order::order_of(ages(all));
            session_views(r@) == Seq::new(p.len(), |i: int| all[p[i]])
        }),
{
    let ghost all = session_views(sessions@);
    let mut keys: Vec<i128> = Vec::new();
    let mut i: usize = 0;
    while i < sessions.len()
        invariant
            i <= sessions@.len(),
            all == session_views(sessions@),
            order::ints(keys@) =~= ages(all).take(i as int),
        decreases sessions@.len() - i,
    {
        let ghost before = keys@;
        let age: usize = age_of(sessions, sessions[i].created.as_str());
        assert(all[i as int].created == sessions@[i as int].created@);
        keys.push(age as i128);
        assert(order::ints(keys@) =~= order::ints(before).push(ages(all)[i as int]));
        i = i + 1;
    }
    assert(order::ints(keys@) =~= ages(all));
    let p = order(&keys);
    let mut out: Vec<SavedSession> = Vec::new();
    let mut k: usize = 0;
    while k < p.len()
        invariant
            k <= p@.len(),
            all == session_views(sessions@),
            keys@.len() == sessions@.len(),
            forall|j: int| 0 <= j < p@.len() ==> (#[trigger] p@[j]) < keys@.len(),
            session_views(out@) =~= Seq::new(k as nat, |j: int| all[order::positions(p@)[j]]),
        decreases p@.len() - k,
    {
        let s = &sessions[p[k]];
        let ghost before = out@;
        let copy = SavedSession {
            name: s.name.clone(),
            device: s.device.clone(),
            kernel_count: s.kernel_count,
            layers: copy_texts(&s.layers),
            created: s.created.clone(),
        };
        assert(copy@ =~= all[order::positions(p@)[k as int]]);
        out.push(copy);
        assert(session_views(out@) =~= session_views(before).push(copy@));
        k = k + 1;
    }
    out
}

} // verus!
