use dbx::sql_safety::{classify_sql, risk_for, risk_for_connection, OperationClass, RiskContext, RiskLevel};

#[test]
fn comments_do_not_hide_read_token() {
    assert_eq!(classify_sql("-- comment\nSELECT 1"), OperationClass::Read);
    assert_eq!(classify_sql("/* DROP TABLE x */ SELECT 1"), OperationClass::Read);
}

#[test]
fn classifies_write_and_ddl() {
    assert_eq!(classify_sql("update users set name = 'a'"), OperationClass::Write);
    assert_eq!(classify_sql("DROP TABLE users"), OperationClass::Ddl);
}

#[test]
fn with_does_not_hide_write_or_ddl() {
    assert_eq!(
        classify_sql("WITH moved AS (DELETE FROM orders RETURNING *) SELECT * FROM moved"),
        OperationClass::Write
    );
    assert_eq!(classify_sql("WITH dropped AS (DROP TABLE old_orders) SELECT 1"), OperationClass::Ddl);
}

#[test]
fn explain_analyze_write_is_write() {
    assert_eq!(classify_sql("EXPLAIN ANALYZE UPDATE users SET name = 'a'"), OperationClass::Write);
}

#[test]
fn dangerous_statement_in_multi_statement_sql_is_not_read() {
    assert_eq!(classify_sql("SELECT * FROM users; DELETE FROM users WHERE id = 1"), OperationClass::Write);
    assert_eq!(classify_sql("SHOW TABLES; DROP TABLE users"), OperationClass::Ddl);
}

#[test]
fn red_color_marks_production() {
    let risk = risk_for_connection("SELECT * FROM orders", "prod-main", Some("#ef4444"));
    assert!(risk.is_production);
    assert_eq!(risk.risk_level, RiskLevel::Low);
}

#[test]
fn environment_label_marks_production() {
    let risk = risk_for(
        "UPDATE orders SET status = 'done' WHERE id = 1",
        RiskContext { connection_name: "analytics", color: None, environment_label: Some("Production") },
    );
    assert!(risk.is_production);
    assert_eq!(risk.production_reason.as_deref(), Some("environment label"));
    assert_eq!(risk.risk_level, RiskLevel::High);
}

#[test]
fn environment_label_overrides_color_and_name_fallback() {
    let non_prod_label = risk_for(
        "SELECT * FROM orders",
        RiskContext { connection_name: "prod-main", color: Some("#ef4444"), environment_label: Some("Staging") },
    );
    assert!(!non_prod_label.is_production);
    assert_eq!(non_prod_label.production_reason, None);

    let prod_label = risk_for(
        "SELECT * FROM orders",
        RiskContext { connection_name: "analytics", color: Some("#22c55e"), environment_label: Some("Production") },
    );
    assert!(prod_label.is_production);
    assert_eq!(prod_label.production_reason.as_deref(), Some("environment label"));
}

#[test]
fn destructive_writes_without_where_or_limit_are_critical() {
    assert_eq!(risk_for("DELETE FROM users", RiskContext::new("dev")).risk_level, RiskLevel::Critical);
    assert_eq!(risk_for("UPDATE users SET active = false", RiskContext::new("dev")).risk_level, RiskLevel::Critical);
    assert_eq!(risk_for("DELETE FROM users WHERE id = 1", RiskContext::new("dev")).risk_level, RiskLevel::Medium);
    assert_eq!(risk_for("TRUNCATE TABLE users", RiskContext::new("dev")).risk_level, RiskLevel::Critical);
}

#[test]
fn destructive_writes_only_count_top_level_where_or_limit_as_boundaries() {
    assert_eq!(
        risk_for("DELETE FROM users USING (SELECT id FROM archived WHERE stale = true) old", RiskContext::new("dev"))
            .risk_level,
        RiskLevel::Critical
    );
    assert_eq!(
        risk_for("UPDATE users SET active = false FROM (SELECT id FROM flags LIMIT 10) flags", RiskContext::new("dev"))
            .risk_level,
        RiskLevel::Critical
    );
    assert_eq!(
        risk_for(
            "DELETE FROM users WHERE id IN (SELECT user_id FROM archived WHERE stale = true)",
            RiskContext::new("dev")
        )
        .risk_level,
        RiskLevel::Medium
    );
}

#[test]
fn cte_destructive_writes_do_not_use_sibling_cte_boundaries() {
    assert_eq!(
        risk_for(
            "WITH deleted AS (DELETE FROM users RETURNING id), scoped AS (SELECT id FROM audit WHERE id = 1) SELECT * FROM scoped",
            RiskContext::new("dev")
        )
        .risk_level,
        RiskLevel::Critical
    );
    assert_eq!(
        risk_for(
            "WITH updated AS (UPDATE users SET active = false RETURNING id), scoped AS (SELECT id FROM audit LIMIT 1) SELECT * FROM scoped",
            RiskContext::new("dev")
        )
        .risk_level,
        RiskLevel::Critical
    );
}

#[test]
fn postgresql_dollar_quotes_do_not_contribute_tokens() {
    assert_eq!(classify_sql("SELECT $$ DELETE FROM users $$"), OperationClass::Read);
    assert_eq!(classify_sql("SELECT $tag$ DROP TABLE users $tag$"), OperationClass::Read);
}

#[test]
fn mysql_executable_comment_contributes_tokens() {
    assert_eq!(classify_sql("/*!50000 DELETE FROM users */ SELECT 1"), OperationClass::Write);
    let risk = risk_for("/*! UPDATE users SET active = false */", RiskContext::new("dev"));
    assert_eq!(risk.operation_class, OperationClass::Write);
    assert_eq!(risk.first_token.as_deref(), Some("UPDATE"));
}

#[test]
fn reads_stay_low_risk_on_production() {
    let risk = risk_for(
        "SELECT * FROM orders",
        RiskContext { connection_name: "prod", color: Some("#ef4444"), environment_label: Some("Production") },
    );
    assert!(risk.is_production);
    assert_eq!(risk.risk_level, RiskLevel::Low);
}

#[test]
fn production_raises_a_filtered_write_from_medium_to_high() {
    let dev = risk_for("DELETE FROM users WHERE id = 1", RiskContext::new("analytics"));
    let prod = risk_for("DELETE FROM users WHERE id = 1", RiskContext::new("live-main"));
    assert_eq!(dev.risk_level, RiskLevel::Medium);
    assert_eq!(prod.risk_level, RiskLevel::High);
    assert_eq!(prod.production_reason.as_deref(), Some("connection name fallback"));
}

#[test]
fn unknown_statements_are_high_risk_and_empty_text_has_no_first_token() {
    let risk = risk_for("VACUUM", RiskContext::new("dev"));
    assert_eq!(risk.operation_class, OperationClass::Unknown);
    assert_eq!(risk.risk_level, RiskLevel::High);
    assert_eq!(risk.first_token.as_deref(), Some("VACUUM"));
    let empty = risk_for("  -- only a comment", RiskContext::new("dev"));
    assert_eq!(empty.first_token, None);
}

#[test]
fn red_color_marks_production_without_a_label() {
    let risk = risk_for_connection("UPDATE t SET a = 1 WHERE id = 2", "analytics", Some("#ef4444"));
    assert!(risk.is_production);
    assert_eq!(risk.production_reason.as_deref(), Some("red connection color"));
    assert_eq!(risk.risk_level, RiskLevel::High);
}

#[test]
fn contexts_are_built_step_by_step() {
    let context = RiskContext::new("analytics").with_color(Some("#ef4444")).with_environment_label(Some("dev"));
    assert_eq!(context.connection_name, "analytics");
    assert_eq!(context.color, Some("#ef4444"));
    assert_eq!(context.environment_label, Some("dev"));
    let risk = risk_for("UPDATE t SET a = 1 WHERE id = 2", context);
    assert!(!risk.is_production);
    assert_eq!(risk.risk_level, RiskLevel::Medium);
}

#[test]
fn scanning_can_resume_inside_parentheses() {
    use_lexer_from_depth();
}

fn use_lexer_from_depth() {
    let bytes = b"select ) ; drop";
    let mut current = Vec::new();
    let mut statements = Vec::new();
    let mut depth: usize = 5;
    dbx::sql_lexer::scan_executable_tokens(bytes, 0, bytes.len(), &mut current, &mut statements, &mut depth);
    assert_eq!(depth, 4);
    assert!(statements.is_empty());
    let texts: Vec<(Vec<u8>, usize)> = current.into_iter().map(|t| (t.text, t.depth)).collect();
    assert_eq!(texts, vec![(b"SELECT".to_vec(), 5), (b"DROP".to_vec(), 4)]);
}

#[test]
fn lexed_statements_are_nonempty_runs_of_upper_case_words() {
    let sql = b"select a_1 from t;;  ; -- x\n insert into u (b) values ((1)); /* c */";
    let statements = dbx::sql_lexer::scanned_executable_statements(sql);
    assert_eq!(statements.len(), 2);
    let opens: usize = sql.iter().filter(|c| **c == b'(').count();
    for statement in &statements {
        assert!(!statement.is_empty());
        for token in statement {
            assert!(token.text[0].is_ascii_uppercase() || token.text[0] == b'_');
            assert!(token.text.iter().all(|c| c.is_ascii_uppercase() || c.is_ascii_digit() || *c == b'_'));
            assert!(token.depth <= opens);
        }
    }
    let flat: Vec<(Vec<u8>, usize)> =
        statements[1].iter().map(|t| (t.text.clone(), t.depth)).collect();
    assert_eq!(
        flat,
        vec![(b"INSERT".to_vec(), 0), (b"INTO".to_vec(), 0), (b"U".to_vec(), 0), (b"B".to_vec(), 1), (b"VALUES".to_vec(), 0)]
    );
}
