//! Classification of SQL text into an operation class and a risk level.
use vstd::prelude::*;
use vstd::string::StringSliceAdditionalSpecFns;

use crate::sql_lexer::{
    scanned_executable_statements, spec_statements, spec_tokens, statements_view, tokens_view,
    SpecToken, SqlToken,
};
use crate::text::{
    ascii_chars, contains_word, kw, lower_bytes, lower_copy, spec_contains, string_option_view,
    string_push, token_is,
};

verus! {

broadcast use vstd::string::group_string_axioms;

#[derive(Debug, Clone, Copy, PartialEq, Eq, Structural)]
pub enum OperationClass {
    Read,
    Write,
    Ddl,
    Unknown,
}

#[derive(Debug, Clone, Copy, PartialEq, Eq, Structural)]
pub enum RiskLevel {
    Low,
    Medium,
    High,
    Critical,
}

#[derive(Debug, Clone, PartialEq, Eq)]
pub struct RiskMetadata {
    pub operation_class: OperationClass,
    pub risk_level: RiskLevel,
    pub is_production: bool,
    pub production_reason: Option<String>,
    pub first_token: Option<String>,
}

#[derive(Debug, Clone, Copy)]
pub struct RiskContext<'a> {
    pub connection_name: &'a str,
    pub color: Option<&'a str>,
    pub environment_label: Option<&'a str>,
}

impl<'a> RiskContext<'a> {
    pub fn new(connection_name: &'a str) -> (ctx: Self)
        ensures
            ctx.connection_name == connection_name,
            ctx.color.is_none(),
            ctx.environment_label.is_none(),
    {
        Self { connection_name, color: None, environment_label: None }
    }

    pub fn with_color(self, color: Option<&'a str>) -> (ctx: Self)
        ensures
            ctx.connection_name == self.connection_name,
            ctx.color == color,
            ctx.environment_label == self.environment_label,
    {
        let mut ctx = self;
        ctx.color = color;
        ctx
    }

    pub fn with_environment_label(self, environment_label: Option<&'a str>) -> (ctx: Self)
        ensures
            ctx.connection_name == self.connection_name,
            ctx.color == self.color,
            ctx.environment_label == environment_label,
    {
        let mut ctx = self;
        ctx.environment_label = environment_label;
        ctx
    }
}

pub open spec fn is_ddl_keyword(t: Seq<u8>) -> bool {
    t == kw("CREATE") || t == kw("ALTER") || t == kw("DROP") || t == kw("TRUNCATE") || t == kw(
        "RENAME",
    )
}

pub open spec fn is_write_keyword(t: Seq<u8>) -> bool {
    t == kw("INSERT") || t == kw("UPDATE") || t == kw("DELETE") || t == kw("MERGE") || t == kw(
        "REPLACE",
    )
}

pub open spec fn is_read_keyword(t: Seq<u8>) -> bool {
    t == kw("SELECT") || t == kw("SHOW") || t == kw("DESCRIBE") || t == kw("EXPLAIN") || t == kw(
        "WITH",
    )
}

pub open spec fn is_destructive_keyword(t: Seq<u8>) -> bool {
    t == kw("DELETE") || t == kw("UPDATE")
}

pub open spec fn is_boundary_keyword(t: Seq<u8>) -> bool {
    t == kw("WHERE") || t == kw("LIMIT")
}

/// Any DDL keyword makes the text DDL, then any write keyword makes it a
/// write; otherwise the first keyword decides between a read and unknown.
pub open spec fn spec_classify_tokens(toks: Seq<Seq<u8>>) -> OperationClass {
    if exists|k: int| 0 <= k < toks.len() && is_ddl_keyword(#[trigger] toks[k]) {
        OperationClass::Ddl
    } else if exists|k: int| 0 <= k < toks.len() && is_write_keyword(#[trigger] toks[k]) {
        OperationClass::Write
    } else if toks.len() > 0 && is_read_keyword(toks[0]) {
        OperationClass::Read
    } else {
        OperationClass::Unknown
    }
}

pub open spec fn spec_classify_sql(sql: &str) -> OperationClass {
    spec_classify_tokens(spec_tokens(sql.spec_bytes()))
}

/// A `WHERE` or `LIMIT` at depth `d` after token `k` that is reached before
/// the fragment of token `k` closes.
pub open spec fn has_fragment_boundary(s: Seq<SpecToken>, k: int, d: nat) -> bool {
    exists|j: int|
        k < j < s.len() && (#[trigger] s[j]).1 == d && is_boundary_keyword(s[j].0) && forall|m: int|
            k < m <= j ==> (#[trigger] s[m]).1 >= d
}

/// Some `DELETE` or `UPDATE` has no `WHERE` or `LIMIT` in its own fragment.
pub open spec fn spec_unfiltered_destructive_write(b: Seq<u8>) -> bool {
    exists|si: int, k: int|
        0 <= si < spec_statements(b).len() && 0 <= k < spec_statements(b)[si].len()
            && is_destructive_keyword((#[trigger] spec_statements(b)[si][k]).0)
            && !has_fragment_boundary(spec_statements(b)[si], k, spec_statements(b)[si][k].1)
}

pub open spec fn has_production_signal(v: Seq<u8>) -> bool {
    let l = lower_bytes(v);
    spec_contains(l, kw("prod")) || spec_contains(l, kw("production")) || spec_contains(
        l,
        kw("live"),
    )
}

pub open spec fn has_non_production_signal(v: Seq<u8>) -> bool {
    let l = lower_bytes(v);
    spec_contains(l, kw("dev")) || spec_contains(l, kw("development")) || spec_contains(
        l,
        kw("test"),
    ) || spec_contains(l, kw("testing")) || spec_contains(l, kw("qa")) || spec_contains(
        l,
        kw("stage"),
    ) || spec_contains(l, kw("staging")) || spec_contains(l, kw("local")) || spec_contains(
        l,
        kw("sandbox"),
    ) || spec_contains(l, kw("non-prod")) || spec_contains(l, kw("non-production"))
        || spec_contains(l, kw("non production")) || spec_contains(l, kw("nonprod"))
}

pub open spec fn is_red_color(c: &str) -> bool {
    c.spec_bytes() == kw("#ef4444")
}

/// Whether the connection counts as production, and why: an environment
/// label decides first (a non-production word wins over a production word),
/// then the red connection colour, then the connection name.
pub open spec fn spec_production(ctx: RiskContext) -> (bool, Option<Seq<char>>) {
    if ctx.environment_label matches Some(l) && has_non_production_signal(l.spec_bytes()) {
        (false, None)
    } else if ctx.environment_label matches Some(l) && has_production_signal(l.spec_bytes()) {
        (true, Some("environment label"@))
    } else if ctx.color matches Some(c) && is_red_color(c) {
        (true, Some("red connection color"@))
    } else if has_production_signal(ctx.connection_name.spec_bytes()) {
        (true, Some("connection name fallback"@))
    } else {
        (false, None)
    }
}

pub open spec fn spec_risk_level(class: OperationClass, is_production: bool, unfiltered: bool) -> RiskLevel {
    match class {
        OperationClass::Read => RiskLevel::Low,
        OperationClass::Write => if unfiltered {
            RiskLevel::Critical
        } else if is_production {
            RiskLevel::High
        } else {
            RiskLevel::Medium
        },
        OperationClass::Ddl => RiskLevel::Critical,
        OperationClass::Unknown => RiskLevel::High,
    }
}

pub open spec fn spec_first_token(sql: &str) -> Option<Seq<char>> {
    let toks = spec_tokens(sql.spec_bytes());
    if toks.len() > 0 {
        Some(ascii_chars(toks[0]))
    } else {
        None
    }
}

pub open spec fn risk_rank(level: RiskLevel) -> int {
    match level {
        RiskLevel::Low => 0,
        RiskLevel::Medium => 1,
        RiskLevel::High => 2,
        RiskLevel::Critical => 3,
    }
}

fn is_ddl_token(t: &[u8]) -> (r: bool)
    ensures
        r == is_ddl_keyword(t@),
{
    proof {
        reveal_strlit("CREATE");
        reveal_strlit("ALTER");
        reveal_strlit("DROP");
        reveal_strlit("TRUNCATE");
        reveal_strlit("RENAME");
    }
    token_is(t, "CREATE") || token_is(t, "ALTER") || token_is(t, "DROP") || token_is(t, "TRUNCATE")
        || token_is(t, "RENAME")
}

fn is_write_token(t: &[u8]) -> (r: bool)
    ensures
        r == is_write_keyword(t@),
{
    proof {
        reveal_strlit("INSERT");
        reveal_strlit("UPDATE");
        reveal_strlit("DELETE");
        reveal_strlit("MERGE");
        reveal_strlit("REPLACE");
    }
    token_is(t, "INSERT") || token_is(t, "UPDATE") || token_is(t, "DELETE") || token_is(t, "MERGE")
        || token_is(t, "REPLACE")
}

fn is_read_token(t: &[u8]) -> (r: bool)
    ensures
        r == is_read_keyword(t@),
{
    proof {
        reveal_strlit("SELECT");
        reveal_strlit("SHOW");
        reveal_strlit("DESCRIBE");
        reveal_strlit("EXPLAIN");
        reveal_strlit("WITH");
    }
    token_is(t, "SELECT") || token_is(t, "SHOW") || token_is(t, "DESCRIBE") || token_is(
        t,
        "EXPLAIN",
    ) || token_is(t, "WITH")
}

fn is_destructive_token(t: &[u8]) -> (r: bool)
    ensures
        r == is_destructive_keyword(t@),
{
    proof {
        reveal_strlit("DELETE");
        reveal_strlit("UPDATE");
    }
    token_is(t, "DELETE") || token_is(t, "UPDATE")
}

fn is_boundary_token(t: &[u8]) -> (r: bool)
    ensures
        r == is_boundary_keyword(t@),
{
    proof {
        reveal_strlit("WHERE");
        reveal_strlit("LIMIT");
    }
    token_is(t, "WHERE") || token_is(t, "LIMIT")
}

pub open spec fn texts_view(v: Seq<Vec<u8>>) -> Seq<Seq<u8>> {
    v.map_values(|t: Vec<u8>| t@)
}

pub open spec fn statement_texts(stmts: Seq<Seq<SpecToken>>) -> Seq<Seq<Seq<u8>>> {
    stmts.map_values(|s: Seq<SpecToken>| s.map_values(|t: SpecToken| t.0))
}

/// The texts of all executable tokens of `sql`, in order.
fn executable_tokens(sql: &str) -> (r: Vec<Vec<u8>>)
    ensures
        texts_view(r@) == spec_tokens(sql.spec_bytes()),
{
    let statements = scanned_executable_statements(sql.as_bytes());
    let ghost texts = statement_texts(statements_view(statements@));
    let mut r: Vec<Vec<u8>> = Vec::new();
    let mut s: usize = 0;
    while s < statements.len()
        invariant
            s <= statements.len(),
            texts == statement_texts(statements_view(statements@)),
            texts.len() == statements.len(),
            texts_view(r@) == texts.take(s as int).flatten(),
        decreases statements.len() - s,
    {
        let statement = &statements[s];
        let ghost row = texts[s as int];
        assert(row.len() == statement.len());
        let mut k: usize = 0;
        while k < statement.len()
            invariant
                s < statements.len(),
                k <= statement.len(),
                statement == &statements[s as int],
                row == texts[s as int],
                row.len() == statement.len(),
                texts == statement_texts(statements_view(statements@)),
                texts_view(r@) == texts.take(s as int).flatten() + row.take(k as int),
            decreases statement.len() - k,
        {
            let text = statement[k].text.clone();
            assert(text@ =~= statement[k as int].text@);
            assert(row[k as int] == statement[k as int].text@);
            let ghost old_r = texts_view(r@);
            r.push(text);
            assert(texts_view(r@) =~= old_r.push(text@));
            proof {
                assert(row.take(k + 1) =~= row.take(k as int).push(row[k as int]));
                assert(texts_view(r@) =~= texts.take(s as int).flatten() + row.take(k + 1));
            }
            k += 1;
        }
        proof {
            assert(row.take(k as int) =~= row);
            assert(texts.take(s + 1) =~= texts.take(s as int).push(row));
            texts.take(s as int).lemma_flatten_push(row);
        }
        s += 1;
    }
    proof {
        assert(texts.take(s as int) =~= texts);
    }
    r
}

fn classify_tokens(tokens: &Vec<Vec<u8>>) -> (r: OperationClass)
    ensures
        r == spec_classify_tokens(texts_view(tokens@)),
{
    let ghost toks = texts_view(tokens@);
    let mut k: usize = 0;
    while k < tokens.len()
        invariant
            k <= tokens.len(),
            toks == texts_view(tokens@),
            forall|m: int| 0 <= m < k ==> !is_ddl_keyword(#[trigger] toks[m]),
        decreases tokens.len() - k,
    {
        if is_ddl_token(tokens[k].as_slice()) {
            assert(is_ddl_keyword(toks[k as int]));
            return OperationClass::Ddl;
        }
        k += 1;
    }
    let mut k: usize = 0;
    while k < tokens.len()
        invariant
            k <= tokens.len(),
            toks == texts_view(tokens@),
            forall|m: int| 0 <= m < tokens.len() ==> !is_ddl_keyword(#[trigger] toks[m]),
            forall|m: int| 0 <= m < k ==> !is_write_keyword(#[trigger] toks[m]),
        decreases tokens.len() - k,
    {
        if is_write_token(tokens[k].as_slice()) {
            assert(is_write_keyword(toks[k as int]));
            return OperationClass::Write;
        }
        k += 1;
    }
    if tokens.len() > 0 && is_read_token(tokens[0].as_slice()) {
        OperationClass::Read
    } else {
        OperationClass::Unknown
    }
}

/// Classifies the executable part of `sql`.
pub fn classify_sql(sql: &str) -> (r: OperationClass)
    ensures
        r == spec_classify_sql(sql),
{
    let tokens = executable_tokens(sql);
    classify_tokens(&tokens)
}

fn has_same_fragment_boundary(statement: &Vec<SqlToken>, index: usize, depth: usize) -> (r: bool)
    requires
        index < statement.len(),
    ensures
        r == has_fragment_boundary(tokens_view(statement@), index as int, depth as nat),
{
    let ghost s = tokens_view(statement@);
    let mut j = index + 1;
    while j < statement.len()
        invariant
            index < j <= statement.len(),
            s == tokens_view(statement@),
            forall|m: int| index < m < j ==> (#[trigger] s[m]).1 >= depth,
            forall|m: int|
                index < m < j ==> !((#[trigger] s[m]).1 == depth && is_boundary_keyword(s[m].0)),
        decreases statement.len() - j,
    {
        let boundary = &statement[j];
        if boundary.depth < depth {
            assert(s[j as int].1 < depth);
            assert forall|jj: int|
                index < jj < s.len() && (#[trigger] s[jj]).1 == depth as nat && is_boundary_keyword(
                    s[jj].0,
                ) implies !(forall|m: int| index < m <= jj ==> (#[trigger] s[m]).1 >= depth) by {
                if jj >= j {
                    assert(index < j <= jj && s[j as int].1 < depth);
                }
            }
            return false;
        }
        if boundary.depth == depth && is_boundary_token(boundary.text.as_slice()) {
            assert(s[j as int].1 == depth && is_boundary_keyword(s[j as int].0));
            assert(forall|m: int| index < m <= j ==> (#[trigger] s[m]).1 >= depth);
            return true;
        }
        j += 1;
    }
    false
}

/// Whether some `DELETE` or `UPDATE` in `sql` lacks a `WHERE` or `LIMIT` of its own.
fn has_unfiltered_destructive_write(sql: &str) -> (r: bool)
    ensures
        r == spec_unfiltered_destructive_write(sql.spec_bytes()),
{
    let statements = scanned_executable_statements(sql.as_bytes());
    let ghost b = sql.spec_bytes();
    let ghost stmts = spec_statements(b);
    let mut si: usize = 0;
    while si < statements.len()
        invariant
            si <= statements.len(),
            b == sql.spec_bytes(),
            stmts == spec_statements(b),
            statements_view(statements@) == stmts,
            forall|x: int, k: int|
                0 <= x < si && 0 <= k < stmts[x].len() && is_destructive_keyword(
                    (#[trigger] stmts[x][k]).0,
                ) ==> has_fragment_boundary(stmts[x], k, stmts[x][k].1),
        decreases statements.len() - si,
    {
        let statement = &statements[si];
        assert(stmts[si as int] == tokens_view(statement@));
        let mut k: usize = 0;
        while k < statement.len()
            invariant
                si < statements.len(),
                k <= statement.len(),
                statement == &statements[si as int],
                b == sql.spec_bytes(),
                stmts == spec_statements(b),
                statements_view(statements@) == stmts,
                stmts[si as int] == tokens_view(statement@),
                forall|x: int, kk: int|
                    0 <= x < si && 0 <= kk < stmts[x].len() && is_destructive_keyword(
                        (#[trigger] stmts[x][kk]).0,
                    ) ==> has_fragment_boundary(stmts[x], kk, stmts[x][kk].1),
                forall|kk: int|
                    0 <= kk < k && is_destructive_keyword((#[trigger] stmts[si as int][kk]).0)
                        ==> has_fragment_boundary(stmts[si as int], kk, stmts[si as int][kk].1),
            decreases statement.len() - k,
        {
            let token = &statement[k];
            if is_destructive_token(token.text.as_slice()) && !has_same_fragment_boundary(
                statement,
                k,
                token.depth,
            ) {
                assert(stmts[si as int][k as int] == token@);
                assert(is_destructive_keyword(spec_statements(b)[si as int][k as int].0));
                assert(!has_fragment_boundary(
                    spec_statements(b)[si as int],
                    k as int,
                    spec_statements(b)[si as int][k as int].1,
                ));
                assert(0 <= k < spec_statements(b)[si as int].len());
                assert(spec_unfiltered_destructive_write(b));
                return true;
            }
            k += 1;
        }
        si += 1;
    }
    false
}

fn contains_production_signal(value: &str) -> (r: bool)
    ensures
        r == has_production_signal(value.spec_bytes()),
{
    let lower = lower_copy(value.as_bytes());
    proof {
        reveal_strlit("prod");
        reveal_strlit("production");
        reveal_strlit("live");
    }
    contains_word(lower.as_slice(), "prod") || contains_word(lower.as_slice(), "production")
        || contains_word(lower.as_slice(), "live")
}

fn contains_non_production_signal(value: &str) -> (r: bool)
    ensures
        r == has_non_production_signal(value.spec_bytes()),
{
    let lower = lower_copy(value.as_bytes());
    let l = lower.as_slice();
    proof {
        reveal_strlit("dev");
        reveal_strlit("development");
        reveal_strlit("test");
        reveal_strlit("testing");
        reveal_strlit("qa");
        reveal_strlit("stage");
        reveal_strlit("staging");
        reveal_strlit("local");
        reveal_strlit("sandbox");
        reveal_strlit("non-prod");
        reveal_strlit("non-production");
        reveal_strlit("non production");
        reveal_strlit("nonprod");
    }
    contains_word(l, "dev") || contains_word(l, "development") || contains_word(l, "test")
        || contains_word(l, "testing") || contains_word(l, "qa") || contains_word(l, "stage")
        || contains_word(l, "staging") || contains_word(l, "local") || contains_word(l, "sandbox")
        || contains_word(l, "non-prod") || contains_word(l, "non-production") || contains_word(
        l,
        "non production",
    ) || contains_word(l, "nonprod")
}

fn is_red(color: &str) -> (r: bool)
    ensures
        r == is_red_color(color),
{
    proof {
        reveal_strlit("#ef4444");
    }
    token_is(color.as_bytes(), "#ef4444")
}

fn production_signal(context: RiskContext<'_>) -> (r: (bool, Option<String>))
    ensures
        r.0 == spec_production(context).0,
        string_option_view(r.1) == spec_production(context).1,
{
    if let Some(environment_label) = context.environment_label {
        if contains_non_production_signal(environment_label) {
            return (false, None);
        }
        if contains_production_signal(environment_label) {
            return (true, Some("environment label".to_owned()));
        }
    }
    if let Some(color) = context.color {
        if is_red(color) {
            return (true, Some("red connection color".to_owned()));
        }
    }
    if contains_production_signal(context.connection_name) {
        return (true, Some("connection name fallback".to_owned()));
    }
    (false, None)
}

fn first_executable_token(sql: &str) -> (r: Option<String>)
    ensures
        string_option_view(r) == spec_first_token(sql),
{
    let tokens = executable_tokens(sql);
    if tokens.len() == 0 {
        return None;
    }
    let first = &tokens[0];
    let mut text = String::new();
    let mut k: usize = 0;
    while k < first.len()
        invariant
            k <= first.len(),
            text@ == ascii_chars(first@.take(k as int)),
        decreases first.len() - k,
    {
        string_push(&mut text, first[k] as char);
        assert(first@.take(k + 1) =~= first@.take(k as int).push(first@[k as int]));
        assert(text@ =~= ascii_chars(first@.take(k + 1)));
        k += 1;
    }
    assert(first@.take(k as int) =~= first@);
    Some(text)
}

/// Classifies `sql` and rates its risk on the connection described by `context`.
pub fn risk_for(sql: &str, context: RiskContext<'_>) -> (r: RiskMetadata)
    ensures
        r.operation_class == spec_classify_sql(sql),
        r.is_production == spec_production(context).0,
        string_option_view(r.production_reason) == spec_production(context).1,
        r.risk_level == spec_risk_level(
            r.operation_class,
            r.is_production,
            spec_unfiltered_destructive_write(sql.spec_bytes()),
        ),
        string_option_view(r.first_token) == spec_first_token(sql),
{
    let operation_class = classify_sql(sql);
    let (is_production, production_reason) = production_signal(context);
    let risk_level = match operation_class {
        OperationClass::Read => RiskLevel::Low,
        OperationClass::Write => {
            if has_unfiltered_destructive_write(sql) {
                RiskLevel::Critical
            } else if is_production {
                RiskLevel::High
            } else {
                RiskLevel::Medium
            }
        },
        OperationClass::Ddl => RiskLevel::Critical,
        OperationClass::Unknown => RiskLevel::High,
    };
    RiskMetadata {
        operation_class,
        risk_level,
        is_production,
        production_reason,
        first_token: first_executable_token(sql),
    }
}

/// [`risk_for`] on a connection known by its name and colour alone.
pub fn risk_for_connection(sql: &str, connection_name: &str, color: Option<&str>) -> (r: RiskMetadata)
    ensures
        r.operation_class == spec_classify_sql(sql),
        r.is_production == spec_production(
            RiskContext { connection_name, color, environment_label: None },
        ).0,
        string_option_view(r.production_reason) == spec_production(
            RiskContext { connection_name, color, environment_label: None },
        ).1,
        r.risk_level == spec_risk_level(
            r.operation_class,
            r.is_production,
            spec_unfiltered_destructive_write(sql.spec_bytes()),
        ),
        string_option_view(r.first_token) == spec_first_token(sql),
{
    risk_for(sql, RiskContext::new(connection_name).with_color(color))
}

/// A read is low risk, whatever the connection.
pub proof fn law_reads_are_low_risk(is_production: bool, unfiltered: bool)
    ensures
        spec_risk_level(OperationClass::Read, is_production, unfiltered) == RiskLevel::Low,
{
}

/// DDL, and a `DELETE` or `UPDATE` in a write without its own `WHERE` or
/// `LIMIT`, are critical, whatever the connection.
pub proof fn law_ddl_and_unfiltered_writes_are_critical(is_production: bool)
    ensures
        spec_risk_level(OperationClass::Ddl, is_production, false) == RiskLevel::Critical,
        spec_risk_level(OperationClass::Ddl, is_production, true) == RiskLevel::Critical,
        spec_risk_level(OperationClass::Write, is_production, true) == RiskLevel::Critical,
{
}

/// A production connection never lowers the risk of a statement.
pub proof fn law_production_never_lowers_risk(class: OperationClass, unfiltered: bool)
    ensures
        risk_rank(spec_risk_level(class, false, unfiltered)) <= risk_rank(spec_risk_level(class, true, unfiltered)),
{
}

/// An environment label with a non-production word makes the connection
/// non-production, whatever its colour and name.
pub proof fn law_non_production_label_wins(context: RiskContext)
    requires
        context.environment_label matches Some(l) && has_non_production_signal(l.spec_bytes()),
    ensures
        spec_production(context) == (false, None::<Seq<char>>),
{
}

/// Without an environment label, the red colour marks production.
pub proof fn law_red_color_marks_production(context: RiskContext)
    requires
        context.environment_label is None,
        context.color matches Some(c) && is_red_color(c),
    ensures
        spec_production(context).0,
{
}

} // verus!
