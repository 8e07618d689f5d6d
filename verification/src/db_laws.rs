//! What the rules of session databases promise.

use vstd::prelude::*;

use crate::db;
use crate::db::{FiltersV, SavedSessionV};
use crate::deps;
use crate::order;
use crate::text;

verus! {

/// A pattern is escaped character by character: a quote is doubled, a wildcard
/// is marked, and any other character stays.
pub proof fn a_pattern_is_escaped_character_by_character(s: Seq<char>, c: char)
    ensures
        db::escaped(Seq::empty()) == Seq::<char>::empty(),
        db::escaped(s.push('\'')) == db::escaped(s) + seq!['\'', '\''],
        db::escaped(s.push('%')) == db::escaped(s) + seq!['\\', '%'],
        c != '\'' && c != '%' ==> db::escaped(s.push(c)) == db::escaped(s).push(c),
{
    assert(s.push(c).drop_last() == s);
    assert(s.push('\'').drop_last() == s);
    assert(s.push('%').drop_last() == s);
}

/// Each filter makes its own condition with its own parameter at the same
/// place: first the focus, then what is left out, then the region.
pub proof fn each_filter_makes_its_condition(focus: Seq<char>, ignore: Seq<char>, region: Seq<char>)
    ensures
        db::filter_clauses(
            (FiltersV { focus: None, ignore: None, region_filter: None }),
        ).len() == 0,
        ({
            let f = FiltersV { focus: Some(focus), ignore: None, region_filter: None };
            db::filter_clauses(f) == seq![r"launches.kernel_name LIKE ? ESCAPE '\'"@]
                && db::filter_params(f) == seq!["%"@ + db::escaped(focus) + "%"@]
        }),
        ({
            let f = FiltersV { focus: None, ignore: Some(ignore), region_filter: None };
            db::filter_clauses(f) == seq![r"launches.kernel_name NOT LIKE ? ESCAPE '\'"@]
                && db::filter_params(f) == seq!["%"@ + db::escaped(ignore) + "%"@]
        }),
        ({
            let f = FiltersV { focus: None, ignore: None, region_filter: Some(region) };
            db::filter_clauses(f).len() == 1 && db::filter_params(f) == seq![
                "%"@ + db::escaped(region) + "%"@,
            ]
        }),
{
    let empty = Seq::<Seq<char>>::empty();
    let a = FiltersV { focus: Some(focus), ignore: None, region_filter: None };
    let b = FiltersV { focus: None, ignore: Some(ignore), region_filter: None };
    let c = FiltersV { focus: None, ignore: None, region_filter: Some(region) };
    let p = "%"@ + db::escaped(focus) + "%"@;
    let q = "%"@ + db::escaped(ignore) + "%"@;
    let r = "%"@ + db::escaped(region) + "%"@;
    assert(db::filter_params(a) == seq![p]) by {
        assert(seq![p] + empty + empty == seq![p]);
    }
    assert(db::filter_params(b) == seq![q]) by {
        assert(empty + seq![q] + empty == seq![q]);
    }
    assert(db::filter_params(c) == seq![r]) by {
        assert(empty + empty + seq![r] == seq![r]);
    }
}

/// Filters add up: their conditions and parameters are those of each filter
/// alone, one after the other.
pub proof fn filters_add_up(f: FiltersV)
    ensures
        db::filter_clauses(f) == db::filter_clauses(
            (FiltersV { focus: f.focus, ignore: None, region_filter: None }),
        ) + db::filter_clauses((FiltersV { focus: None, ignore: f.ignore, region_filter: None }))
            + db::filter_clauses(
            (FiltersV { focus: None, ignore: None, region_filter: f.region_filter }),
        ),
        db::filter_params(f) == db::filter_params(
            (FiltersV { focus: f.focus, ignore: None, region_filter: None }),
        ) + db::filter_params((FiltersV { focus: None, ignore: f.ignore, region_filter: None }))
            + db::filter_params(
            (FiltersV { focus: None, ignore: None, region_filter: f.region_filter }),
        ),
{
}

/// A saved session is loaded by its name, with or without the extension of its
/// file; a name with a slash is a path.
pub proof fn a_saved_session_is_loaded_by_its_name(name: Seq<char>)
    requires
        !text::contains(name, "/"@),
    ensures
        db::load_target(name + ".gpu.db"@) == (true, name),
        !text::ends_with(name, ".gpu.db"@) ==> db::load_target(name) == (true, name),
        forall|dir: Seq<char>, file: Seq<char>|
            db::load_target(#[trigger] (dir + "/"@ + file)) == (false, dir + "/"@ + file),
{
    reveal_strlit("/");
    reveal_strlit(".gpu.db");
    let s = name + ".gpu.db"@;
    text::find_from_is_first(s, "/"@, 0);
    text::find_from_is_first(name, "/"@, 0);
    if text::contains(s, "/"@) {
        let i = text::find(s, "/"@)->0;
        assert(s.subrange(i, i + 1)[0] == s[i]);
        if i < name.len() {
            assert(name.subrange(i, i + 1) == "/"@);
            assert(text::occurs_at(name, "/"@, i));
        } else {
            assert(s[i] == ".gpu.db"@[i - name.len()]);
        }
    }
    assert(s.subrange(s.len() - 7, s.len() as int) == ".gpu.db"@);
    assert(s.take(s.len() - 7) == name);
    assert forall|dir: Seq<char>, file: Seq<char>| text::contains(
        #[trigger] (dir + "/"@ + file),
        "/"@,
    ) by {
        text::what_is_found_stands_there(dir + "/"@ + file, "/"@);
    }
}

/// What is compared with is a saved session of the directory, by its name, or
/// the database at a path.
pub proof fn a_comparison_is_by_name_or_path(dir: Seq<char>, name: Seq<char>)
    requires
        dir.len() > 0,
        dir.last() != '/',
        name.len() > 0,
    ensures
        text::contains(name, "/"@) || text::ends_with(name, ".gpu.db"@) ==> db::comparison_path(
            dir,
            name,
        ) == name,
        !text::contains(name, "/"@) && !text::ends_with(name, ".gpu.db"@) ==> db::comparison_path(
            dir,
            name,
        ) == dir + "/"@ + name + ".gpu.db"@,
{
    reveal_strlit("/");
    if !text::contains(name, "/"@) && !text::ends_with(name, ".gpu.db"@) {
        if name[0] == '/' {
            assert(name.subrange(0, 1) == "/"@);
            text::found_where_it_stands(name, "/"@, 0);
        }
        let file = name + ".gpu.db"@;
        assert(file[0] == name[0]);
        assert(deps::below(dir, file) == dir + "/"@ + file);
        assert(dir + "/"@ + file == dir + "/"@ + name + ".gpu.db"@);
    }
}

proof fn the_last_dot(stem: Seq<char>, extension: Seq<char>)
    requires
        !extension.contains('.'),
    ensures
        text::rfind(stem + "."@ + extension, "."@) == Some(stem.len() as int),
{
    reveal_strlit(".");
    let s = stem + "."@ + extension;
    let n = stem.len() as int;
    text::rfind_from_is_last(s, "."@, s.len() - 1);
    assert(s.subrange(n, n + 1) == "."@);
    assert(text::occurs_at(s, "."@, n));
    assert forall|j: int| n < j implies !text::occurs_at(s, "."@, j) by {
        if text::occurs_at(s, "."@, j) {
            assert(s.subrange(j, j + 1)[0] == s[j]);
            assert(s[j] == extension[j - n - 1]);
        }
    }
}

/// The extension is what follows the last dot; a dot at the beginning makes
/// none.
pub proof fn the_extension_follows_the_last_dot(stem: Seq<char>, extension: Seq<char>)
    requires
        !extension.contains('.'),
    ensures
        stem.len() > 0 ==> db::stem_and_extension(stem + "."@ + extension) == (
            stem,
            Some(extension),
        ),
        db::stem_and_extension(extension) == (extension, None::<Seq<char>>),
        db::stem_and_extension("."@ + extension) == ("."@ + extension, None::<Seq<char>>),
{
    reveal_strlit(".");
    the_last_dot(stem, extension);
    let s = stem + "."@ + extension;
    assert(s.take(stem.len() as int) == stem);
    assert(s.skip(stem.len() as int + 1) == extension);
    the_last_dot(Seq::empty(), extension);
    assert(Seq::<char>::empty() + "."@ + extension == "."@ + extension);
    text::rfind_from_is_last(extension, "."@, extension.len() - 1);
    if text::rfind(extension, "."@) is Some {
        let i = text::rfind(extension, "."@)->0;
        assert(extension.subrange(i, i + 1)[0] == extension[i]);
    }
}

/// A session is listed under the name under which it was saved.
pub proof fn a_session_is_listed_under_its_name(dir: Seq<char>, name: Seq<char>)
    ensures
        db::session_in_file(dir + (name + ".gpu.db"@), name + ".gpu.db"@) == Some(name),
{
    reveal_strlit(".gpu.db");
    reveal_strlit(".gpu");
    reveal_strlit(".gpu.");
    reveal_strlit(".");
    reveal_strlit("db");
    let file = name + ".gpu.db"@;
    let stem = name + ".gpu"@;
    assert(file == stem + "."@ + "db"@);
    assert(!"db"@.contains('.'));
    the_extension_follows_the_last_dot(stem, "db"@);
    let path = dir + file;
    assert(path == (dir + name) + ".gpu."@ + "db"@);
    text::what_is_found_stands_there(path, ".gpu."@);
    assert(stem.subrange(stem.len() - 4, stem.len() as int) == ".gpu"@);
    assert(stem.take(stem.len() - 4) == name);
}

/// The nearest directory that holds a repository is the root; none is where
/// none holds one.
pub proof fn the_nearest_repository_is_the_root(
    dirs: Seq<Seq<char>>,
    has_git: Seq<bool>,
    i: int,
    k: int,
)
    requires
        dirs.len() == has_git.len(),
        0 <= i <= k <= dirs.len(),
        forall|j: int| i <= j < k ==> !#[trigger] has_git[j],
        k < dirs.len() ==> has_git[k],
    ensures
        db::first_root(dirs, has_git, i) == if k < dirs.len() {
            Some(dirs[k])
        } else {
            None
        },
    decreases k - i,
{
    if i < k {
        the_nearest_repository_is_the_root(dirs, has_git, i + 1, k);
    }
}

/// Every part of a path that names something is a component, in its order;
/// empty parts and single dots are none.
pub proof fn components_are_the_names_of_a_path(parts: Seq<Seq<char>>, part: Seq<char>)
    ensures
        part.len() > 0 && part != "."@ ==> db::components_in(parts.push(part))
            == db::components_in(parts).push(part),
        part.len() == 0 || part == "."@ ==> db::components_in(parts.push(part))
            == db::components_in(parts),
        db::components_in(Seq::empty()).len() == 0,
{
    assert(parts.push(part).drop_last() == parts);
}

/// A table that is not there exactly once is missing, and no other is.
pub proof fn a_table_is_missing_where_it_is_not_there_once(counts: Seq<i64>, n: int, k: int)
    requires
        0 <= k < n <= db::required_tables().len(),
        counts.len() == db::required_tables().len(),
    ensures
        counts[k] != 1 ==> db::missing_tables(counts, n).contains(db::required_tables()[k]),
        (forall|i: int| 0 <= i < n ==> #[trigger] counts[i] == 1) <==> db::missing_tables(
            counts,
            n,
        ).len() == 0,
    decreases n,
{
    let rest = db::missing_tables(counts, n - 1);
    let all = db::missing_tables(counts, n);
    if n > 1 {
        let j = if k < n - 1 {
            k
        } else {
            0
        };
        a_table_is_missing_where_it_is_not_there_once(counts, n - 1, j);
    } else {
        assert(db::missing_tables(counts, 0).len() == 0);
    }
    let t = db::required_tables()[k];
    if counts[k] != 1 {
        if k < n - 1 {
            let i = choose|i: int| 0 <= i < rest.len() && rest[i] == t;
            assert(all[i] == t);
        } else {
            assert(all[all.len() - 1] == t);
        }
    }
    if all.len() == 0 {
        assert(counts[n - 1] == 1);
        assert(rest.len() == 0);
        assert forall|i: int| 0 <= i < n implies #[trigger] counts[i] == 1 by {
            if i < n - 1 {
                assert(n > 1);
            }
        }
    }
}

/// What a session database holds.
pub proof fn a_database_holds_these_tables()
    ensures
        db::required_tables().contains("meta"@),
        db::required_tables().contains("layers"@),
        db::required_tables().contains("launches"@),
        db::required_tables().contains("metrics"@),
        db::required_tables().contains("transfers"@),
        db::required_tables().contains("ops"@),
        db::required_tables().contains("op_kernel_map"@),
        db::required_tables().contains("allocations"@),
        db::required_tables().contains("regions"@),
        db::required_tables().contains("failures"@),
        db::required_tables().len() == 10,
{
    let t = db::required_tables();
    assert(t[0] == "meta"@ && t[1] == "layers"@ && t[2] == "launches"@ && t[3] == "metrics"@ && t[4]
        == "transfers"@ && t[5] == "ops"@ && t[6] == "op_kernel_map"@ && t[7] == "allocations"@
        && t[8] == "regions"@ && t[9] == "failures"@);
}

/// A source has changed where its target is not that of the first; each such
/// source is named, in its order.
pub proof fn changed_targets_are_named(
    rows: Seq<(String, String)>,
    row: (String, String),
    first: Seq<char>,
)
    ensures
        row.1@ != first ==> db::changed_sources(rows.push(row), first) == db::changed_sources(
            rows,
            first,
        ).push(row.0@),
        row.1@ == first ==> db::changed_sources(rows.push(row), first) == db::changed_sources(
            rows,
            first,
        ),
        db::changed_sources(Seq::empty(), first).len() == 0,
{
    assert(rows.push(row).drop_last() == rows);
}

/// A warning about kernels tells how many there are, and names the first three.
pub proof fn a_warning_names_the_first_three(orphans: Seq<Seq<char>>, k: int)
    requires
        0 <= k < orphans.len(),
    ensures
        text::starts_with(
            db::orphan_warning(orphans),
            text::decimal(orphans.len()) + " kernels in torch layer but not nsys"@,
        ),
        k < 3 ==> text::contains(db::orphan_warning(orphans), orphans[k]),
        db::first_three(orphans).len() <= 3,
        orphans.len() <= 3 ==> db::first_three(orphans) == orphans,
{
    reveal_strlit(" kernels in torch layer but not nsys (different run?): ");
    reveal_strlit(" kernels in torch layer but not nsys");
    let w = db::orphan_warning(orphans);
    let said = text::decimal(orphans.len()) + " kernels in torch layer but not nsys"@;
    assert(w.subrange(0, said.len() as int) == said);
    if k < 3 {
        let shown = db::first_three(orphans);
        assert(shown[k] == orphans[k]);
        text::join_holds_each_part(shown, ", "@, k);
        let j = text::join(shown, ", "@);
        text::what_is_found_stands_there(j, orphans[k]);
        let (a, b) = choose|a: Seq<char>, b: Seq<char>| j == #[trigger] (a + orphans[k] + b);
        let before = text::decimal(orphans.len())
            + " kernels in torch layer but not nsys (different run?): "@;
        assert(w == (before + a) + orphans[k] + b);
        text::what_is_found_stands_there(w, orphans[k]);
    }
}

proof fn later_sessions_have_fewer_after_them(
    v: Seq<SavedSessionV>,
    a: Seq<char>,
    b: Seq<char>,
    n: int,
)
    requires
        0 <= n <= v.len(),
        text::earlier(a, b),
    ensures
        db::created_later(v, b, n) <= db::created_later(v, a, n),
        (exists|k: int| 0 <= k < n && (#[trigger] v[k]).created == b) ==> db::created_later(v, b, n)
            < db::created_later(v, a, n),
    decreases n,
{
    if n > 0 {
        later_sessions_have_fewer_after_them(v, a, b, n - 1);
        let c = v[n - 1].created;
        if text::earlier(b, c) {
            text::the_order_of_texts_is_transitive(a, b, c);
        }
        text::the_order_of_texts_is_total(b, b, 0);
        if exists|k: int| 0 <= k < n && (#[trigger] v[k]).created == b {
            let k = choose|k: int| 0 <= k < n && (#[trigger] v[k]).created == b;
            if k < n - 1 {
                assert(v[k].created == b);
            }
        }
    }
}

/// Of two sessions in the list, the one that stands first is not the older one.
/// Sessions of one moment keep their order.
pub proof fn newer_sessions_come_first(v: Seq<SavedSessionV>, i: int, j: int)
    requires
        0 <= i < j < v.len(),
    ensures
        ({
            let p = order::order_of(db::ages(v));
            &&& p.len() == v.len()
            &&& !text::earlier(v[p[i]].created, v[p[j]].created)
            &&& v[p[i]].created == v[p[j]].created ==> p[i] < p[j]
        }),
{
    let keys = db::ages(v);
    order::there_is_an_order(keys);
    let p = order::order_of(keys);
    let a = p[i];
    let b = p[j];
    assert(order::before(keys, a, b));
    if text::earlier(v[a].created, v[b].created) {
        assert(v[b].created == v[b].created);
        later_sessions_have_fewer_after_them(v, v[a].created, v[b].created, v.len() as int);
    }
}

/// A condition on a layer names the table and the layer; without a layer
/// nothing is left out.
pub proof fn a_layer_is_asked_for_by_its_id(alias: Seq<char>, id: i64)
    ensures
        db::layer_clause(alias, Some(id)) == alias + ".layer_id = "@ + text::signed_decimal(
            id as int,
        ),
        db::layer_clause(alias, None) == "1=1"@,
{
}

} // verus!
