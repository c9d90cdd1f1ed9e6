//! Which databases and tables a scheduled backup covers.
use vstd::prelude::*;
use vstd::string::StringSliceAdditionalSpecFns;

use crate::text::{
    chars_of, concat3, kw, lower_bytes, lower_copy, string_push_str, strings_view, token_is,
};

verus! {

broadcast use vstd::string::group_string_axioms;

/// The kinds of database that the backup rules tell apart.
#[derive(Debug, Clone, Copy, PartialEq, Eq, Structural)]
pub enum DatabaseType {
    Mysql,
    Postgres,
    Other,
}

/// The databases that the server itself keeps, named case-insensitively.
pub open spec fn spec_is_system_database(database_type: DatabaseType, name: Seq<u8>) -> bool {
    let l = lower_bytes(name);
    match database_type {
        DatabaseType::Mysql => l == kw("information_schema") || l == kw("mysql") || l == kw(
            "performance_schema",
        ) || l == kw("sys"),
        DatabaseType::Postgres => l == kw("template0") || l == kw("template1"),
        DatabaseType::Other => false,
    }
}

pub fn is_system_database(database_type: DatabaseType, database: &str) -> (r: bool)
    ensures
        r == spec_is_system_database(database_type, database.spec_bytes()),
{
    let lower = lower_copy(database.as_bytes());
    let l = lower.as_slice();
    proof {
        reveal_strlit("information_schema");
        reveal_strlit("mysql");
        reveal_strlit("performance_schema");
        reveal_strlit("sys");
        reveal_strlit("template0");
        reveal_strlit("template1");
    }
    match database_type {
        DatabaseType::Mysql => token_is(l, "information_schema") || token_is(l, "mysql") || token_is(
            l,
            "performance_schema",
        ) || token_is(l, "sys"),
        DatabaseType::Postgres => token_is(l, "template0") || token_is(l, "template1"),
        DatabaseType::Other => false,
    }
}

/// The databases of `vs` that are not system databases, in order.
pub open spec fn user_databases(vs: Seq<Seq<char>>, database_type: DatabaseType) -> Seq<Seq<char>>
    decreases vs.len(),
{
    if vs.len() == 0 {
        Seq::empty()
    } else {
        let prev = user_databases(vs.drop_last(), database_type);
        if spec_is_system_database(database_type, vstd::utf8::encode_utf8(vs.last())) {
            prev
        } else {
            prev.push(vs.last())
        }
    }
}

/// The values of `configured` that `available` lacks, in order.
pub open spec fn missing_databases(configured: Seq<Seq<char>>, available: Seq<Seq<char>>) -> Seq<Seq<char>>
    decreases configured.len(),
{
    if configured.len() == 0 {
        Seq::empty()
    } else {
        let prev = missing_databases(configured.drop_last(), available);
        if available.contains(configured.last()) {
            prev
        } else {
            prev.push(configured.last())
        }
    }
}

/// `list` joined with `sep` between neighbours.
pub open spec fn join_with(list: Seq<Seq<char>>, sep: Seq<char>) -> Seq<char>
    decreases list.len(),
{
    if list.len() == 0 {
        Seq::empty()
    } else if list.len() == 1 {
        list[0]
    } else {
        join_with(list.drop_last(), sep) + sep + list.last()
    }
}

/// The databases a backup covers: every user database when none is
/// configured, otherwise exactly the configured ones, all of which must exist.
pub open spec fn spec_resolve_database_targets(
    configured: Seq<Seq<char>>,
    available: Seq<Seq<char>>,
    database_type: DatabaseType,
) -> Result<Seq<Seq<char>>, Seq<char>> {
    if configured.len() == 0 {
        Ok(user_databases(available, database_type))
    } else if missing_databases(configured, available).len() > 0 {
        Err(
            "Configured backup databases are unavailable: "@ + join_with(
                missing_databases(configured, available),
                ", "@,
            ),
        )
    } else {
        Ok(configured)
    }
}

fn contains_string(v: &Vec<String>, s: &String) -> (r: bool)
    ensures
        r == strings_view(v@).contains(s@),
{
    let mut k: usize = 0;
    while k < v.len()
        invariant
            k <= v.len(),
            forall|m: int| 0 <= m < k ==> v@[m]@ != s@,
        decreases v.len() - k,
    {
        if v[k] == *s {
            assert(strings_view(v@)[k as int] == s@);
            return true;
        }
        k += 1;
    }
    proof {
        if strings_view(v@).contains(s@) {
            let m = choose|m: int| 0 <= m < v@.len() && strings_view(v@)[m] == s@;
            assert(v@[m]@ == s@);
        }
    }
    false
}

fn join_strings(list: &Vec<String>, sep: &str) -> (r: String)
    ensures
        r@ == join_with(strings_view(list@), sep@),
{
    let ghost l = strings_view(list@);
    let mut r = String::new();
    let mut k: usize = 0;
    while k < list.len()
        invariant
            k <= list.len(),
            l == strings_view(list@),
            r@ == join_with(l.take(k as int), sep@),
        decreases list.len() - k,
    {
        proof {
            assert(l.take(k + 1).drop_last() =~= l.take(k as int));
        }
        if k > 0 {
            string_push_str(&mut r, sep);
        }
        string_push_str(&mut r, list[k].as_str());
        proof {
            if k == 0 {
                assert(r@ =~= l.take(1)[0]);
            }
        }
        k += 1;
    }
    proof {
        assert(l.take(k as int) =~= l);
    }
    r
}

/// Resolves the databases that a backup of a `database_type` server covers.
pub fn resolve_database_targets(configured: &[String], available: Vec<String>, database_type: DatabaseType) -> (r:
    Result<Vec<String>, String>)
    ensures
        match spec_resolve_database_targets(
            strings_view(configured@),
            strings_view(available@),
            database_type,
        ) {
            Ok(v) => r matches Ok(w) && strings_view(w@) == v,
            Err(m) => r matches Err(e) && e@ == m,
        },
{
    let ghost conf = strings_view(configured@);
    let ghost avail = strings_view(available@);
    if configured.len() == 0 {
        let mut kept: Vec<String> = Vec::new();
        let mut k: usize = 0;
        while k < available.len()
            invariant
                k <= available.len(),
                avail == strings_view(available@),
                strings_view(kept@) == user_databases(avail.take(k as int), database_type),
            decreases available.len() - k,
        {
            proof {
                assert(avail.take(k + 1).drop_last() =~= avail.take(k as int));
            }
            if !is_system_database(database_type, available[k].as_str()) {
                let ghost before = strings_view(kept@);
                kept.push(available[k].clone());
                assert(strings_view(kept@) =~= before.push(avail[k as int]));
            }
            k += 1;
        }
        proof {
            assert(avail.take(k as int) =~= avail);
        }
        return Ok(kept);
    }
    let mut missing: Vec<String> = Vec::new();
    let mut k: usize = 0;
    while k < configured.len()
        invariant
            k <= configured.len(),
            conf == strings_view(configured@),
            avail == strings_view(available@),
            strings_view(missing@) == missing_databases(conf.take(k as int), avail),
        decreases configured.len() - k,
    {
        proof {
            assert(conf.take(k + 1).drop_last() =~= conf.take(k as int));
        }
        if !contains_string(&available, &configured[k]) {
            let ghost before = strings_view(missing@);
            missing.push(configured[k].clone());
            assert(strings_view(missing@) =~= before.push(conf[k as int]));
        }
        k += 1;
    }
    proof {
        assert(conf.take(k as int) =~= conf);
    }
    if missing.len() > 0 {
        let joined = join_strings(&missing, ", ");
        let mut message = "Configured backup databases are unavailable: ".to_owned();
        string_push_str(&mut message, joined.as_str());
        return Err(message);
    }
    let mut all: Vec<String> = Vec::new();
    let mut k: usize = 0;
    while k < configured.len()
        invariant
            k <= configured.len(),
            conf == strings_view(configured@),
            strings_view(all@) == conf.take(k as int),
        decreases configured.len() - k,
    {
        let ghost before = strings_view(all@);
        all.push(configured[k].clone());
        assert(strings_view(all@) =~= before.push(conf[k as int]));
        assert(conf.take(k + 1) =~= conf.take(k as int).push(conf[k as int]));
        k += 1;
    }
    assert(conf.take(k as int) =~= conf);
    Ok(all)
}

/// Whether the pattern `p` matches all of `v`, where `*` stands for any run
/// of characters and `?` for exactly one character.
pub open spec fn glob_matches(p: Seq<char>, v: Seq<char>) -> bool
    decreases p.len(), v.len(),
{
    if p.len() == 0 {
        v.len() == 0
    } else {
        let c = p.last();
        if c == '*' {
            glob_matches(p.drop_last(), v) || (v.len() > 0 && glob_matches(p, v.drop_last()))
        } else if c == '?' {
            v.len() > 0 && glob_matches(p.drop_last(), v.drop_last())
        } else {
            v.len() > 0 && v.last() == c && glob_matches(p.drop_last(), v.drop_last())
        }
    }
}

/// Whether `pattern` matches all of `value` (wildcards `*` and `?`).
pub fn glob_match(pattern: &Vec<char>, value: &Vec<char>) -> (r: bool)
    ensures
        r == glob_matches(pattern@, value@),
{
    let ghost p = pattern@;
    let ghost v = value@;
    let n = value.len();
    let mut prev: Vec<bool> = Vec::new();
    prev.push(true);
    proof {
        assert(v.take(0) =~= Seq::<char>::empty());
        assert(p.take(0) =~= Seq::<char>::empty());
    }
    let mut j: usize = 0;
    while j < n
        invariant
            j <= n,
            n == v.len(),
            v == value@,
            p == pattern@,
            prev@.len() == j + 1,
            forall|jj: int| 0 <= jj <= j ==> #[trigger] prev@[jj] == glob_matches(p.take(0), v.take(jj)),
        decreases n - j,
    {
        prev.push(false);
        j += 1;
    }
    let mut i: usize = 0;
    while i < pattern.len()
        invariant
            i <= pattern.len(),
            p == pattern@,
            v == value@,
            n == v.len(),
            prev@.len() == n + 1,
            forall|jj: int| 0 <= jj <= n ==> #[trigger] prev@[jj] == glob_matches(p.take(i as int), v.take(jj)),
        decreases pattern.len() - i,
    {
        let c = pattern[i];
        let ghost pi = p.take(i + 1);
        proof {
            assert(pi.drop_last() =~= p.take(i as int));
            assert(pi.last() == c);
            assert(v.take(0) =~= Seq::<char>::empty());
        }
        let mut cur: Vec<bool> = Vec::new();
        cur.push(if c == '*' { prev[0] } else { false });
        let mut j: usize = 0;
        while j < n
            invariant
                i < pattern.len(),
                j <= n,
                p == pattern@,
                v == value@,
                n == v.len(),
                c == p[i as int],
                pi == p.take(i + 1),
                pi.drop_last() == p.take(i as int),
                pi.last() == c,
                prev@.len() == n + 1,
                cur@.len() == j + 1,
                forall|jj: int| 0 <= jj <= n ==> #[trigger] prev@[jj] == glob_matches(p.take(i as int), v.take(jj)),
                forall|jj: int| 0 <= jj <= j ==> #[trigger] cur@[jj] == glob_matches(pi, v.take(jj)),
            decreases n - j,
        {
            let x = if c == '*' {
                prev[j + 1] || cur[j]
            } else if c == '?' {
                prev[j]
            } else {
                c == value[j] && prev[j]
            };
            proof {
                let vj = v.take(j + 1);
                assert(vj.drop_last() =~= v.take(j as int));
                assert(vj.last() == v[j as int]);
            }
            cur.push(x);
            j += 1;
        }
        prev = cur;
        i += 1;
    }
    proof {
        assert(p.take(pattern.len() as int) =~= p);
        assert(v.take(n as int) =~= v);
    }
    prev[n]
}

/// `s` in lower case by the Unicode `Lowercase` mapping of `str::to_lowercase`.
pub uninterp spec fn unicode_lowercase(s: Seq<char>) -> Seq<char>;

/// `str::to_lowercase`: the Unicode lower-case mapping of `s`.
#[verifier::external_body]
pub(crate) fn str_to_lowercase(s: &str) -> (r: String)
    ensures
        r@ == unicode_lowercase(s@),
{
    s.to_lowercase()
}

pub open spec fn spec_wildcard_matches(pattern: Seq<char>, value: Seq<char>, case_sensitive: bool) -> bool {
    if case_sensitive {
        glob_matches(pattern, value)
    } else {
        glob_matches(unicode_lowercase(pattern), unicode_lowercase(value))
    }
}

/// Whether `pattern` matches `value`, comparing in lower case unless `case_sensitive`.
pub fn wildcard_matches(pattern: &str, value: &str, case_sensitive: bool) -> (r: bool)
    ensures
        r == spec_wildcard_matches(pattern@, value@, case_sensitive),
{
    if case_sensitive {
        glob_match(&chars_of(pattern), &chars_of(value))
    } else {
        let p = str_to_lowercase(pattern);
        let v = str_to_lowercase(value);
        glob_match(&chars_of(p.as_str()), &chars_of(v.as_str()))
    }
}

/// A pattern names a table by itself, as `schema.table` or as
/// `database.schema.table`.
pub open spec fn spec_table_matches_pattern(
    table: Seq<char>,
    database: Seq<char>,
    schema: Seq<char>,
    pattern: Seq<char>,
    case_sensitive: bool,
) -> bool {
    spec_wildcard_matches(pattern, table, case_sensitive) || spec_wildcard_matches(
        pattern,
        schema + "."@ + table,
        case_sensitive,
    ) || spec_wildcard_matches(pattern, database + "."@ + schema + "."@ + table, case_sensitive)
}

pub fn table_matches_pattern(table: &str, database: &str, schema: &str, pattern: &str, case_sensitive: bool) -> (r:
    bool)
    ensures
        r == spec_table_matches_pattern(table@, database@, schema@, pattern@, case_sensitive),
{
    let qualified = concat3(schema, ".", table);
    let fully_qualified = concat3(database, ".", qualified.as_str());
    proof {
        assert(fully_qualified@ =~= database@ + "."@ + schema@ + "."@ + table@);
    }
    wildcard_matches(pattern, table, case_sensitive) || wildcard_matches(
        pattern,
        qualified.as_str(),
        case_sensitive,
    ) || wildcard_matches(pattern, fully_qualified.as_str(), case_sensitive)
}

} // verus!
