use infra_types::challenges::{challenge_from_parts, content_sha, to_hex_lower, Challenge, Frontmatter};
use infra_types::drift::{
    changed_challenges, compute_drift, contains_text, load_order, missing_from, needs_sync,
    sort_by_slug, Drift,
};
use infra_types::markdown::{split_frontmatter, split_headings, trimmed};
use infra_types::migration::{
    escape_sql, has_column, join_strings, migration_file_stub, next_migration_number,
    parse_u32_text, render_migration_sql, render_upsert, schema_action, sql_str_or_null,
    upsert_params, SchemaError,
};

fn fm(slug: &str) -> Frontmatter {
    Frontmatter {
        slug: slug.to_string(),
        title: format!("Title of {slug}"),
        job_slug: None,
        short_description: None,
        tech_stack: vec![],
        category: None,
        url: None,
        image_url: None,
        featured: false,
        sort_order: 0,
        related_plan_module: None,
        related_adr: None,
    }
}

fn challenge(slug: &str, sha: &str) -> Challenge {
    challenge_from_parts(
        fm(slug),
        "## Description\nSome text.\n",
        sha.to_string(),
        format!("content/challenges/{slug}.md"),
    )
    .unwrap()
}

// ── frontmatter ──────────────────────────────────────────────────────────────

#[test]
fn frontmatter_split_basic() {
    let raw = "---\nslug: a\ntitle: A\n---\n## Description\nHello\n";
    let (fm, body) = split_frontmatter(raw).unwrap();
    assert_eq!(fm, "slug: a\ntitle: A");
    assert_eq!(body, "## Description\nHello\n");
}

#[test]
fn frontmatter_missing_or_unclosed() {
    assert_eq!(split_frontmatter("no frontmatter"), None);
    assert_eq!(split_frontmatter("---\nslug: a\n"), None);
    assert_eq!(split_frontmatter(""), None);
    assert_eq!(split_frontmatter("--"), None);
}

#[test]
fn frontmatter_without_newlines() {
    assert_eq!(split_frontmatter("---\n---"), None);
    assert_eq!(split_frontmatter("---\n\n---"), Some(("", "")));
    assert_eq!(split_frontmatter("---x\n---body"), Some(("x", "body")));
    assert_eq!(split_frontmatter("---\n\n---\n\nbody"), Some(("", "\nbody")));
    assert_eq!(split_frontmatter("---é\n---ü"), Some(("é", "ü")));
}

#[test]
fn frontmatter_roundtrip_scenario() {
    let fm = "slug: x\nlist:\n  - a";
    let body = "\n## Description\n d \n";
    let raw = format!("---\n{fm}\n---\n{body}");
    assert_eq!(split_frontmatter(&raw), Some((fm, body)));
}

// ── sections ─────────────────────────────────────────────────────────────────

#[test]
fn headings_split_and_trim() {
    let s = split_headings("intro ignored\n## Description\n  Hello  \nworld\n## PROBLEM \r\nP\r\n");
    assert_eq!(s.get("description"), Some("Hello  \nworld".to_string()));
    assert_eq!(s.get("problem"), Some("P".to_string()));
    assert_eq!(s.get("intro"), None);
}

#[test]
fn headings_later_section_replaces_earlier() {
    let s = split_headings("## Notes\nfirst\n## notes\nsecond");
    assert_eq!(s.get("notes"), Some("second".to_string()));
    let empty = split_headings("");
    assert_eq!(empty.get("description"), None);
    let bare = split_headings("##Description\n## \n x");
    assert_eq!(bare.get("description"), None);
    assert_eq!(bare.get(""), Some("x".to_string()));
}

#[test]
fn trim_unicode_whitespace() {
    assert_eq!(trimmed("\u{3000} a b\u{a0}\t"), "a b");
    assert_eq!(trimmed("   "), "");
}

// ── challenges ───────────────────────────────────────────────────────────────

#[test]
fn challenge_from_parts_requires_description() {
    assert!(challenge_from_parts(fm("a"), "## Problem\nx", String::new(), String::new()).is_none());
    assert!(challenge_from_parts(fm("a"), "## Description\n   \n", String::new(), String::new()).is_none());
    let c = challenge_from_parts(
        fm("a"),
        "## Description\nD\n## Metrics\n  M \n## Outcomes\n",
        "sha".to_string(),
        "p".to_string(),
    )
    .unwrap();
    assert_eq!(c.description, "D");
    assert_eq!(c.metrics, Some("M".to_string()));
    assert_eq!(c.outcomes, Some(String::new()));
    assert_eq!(c.problem, None);
    assert_eq!(c.content_sha, "sha");
    assert_eq!(c.source_path, "p");
}

#[test]
fn content_sha_known_digests() {
    assert_eq!(content_sha(""), "e3b0c44298fc1c149afbf4c8996fb92427ae41e4649b934ca495991b7852b855");
    assert_eq!(content_sha("abc"), "ba7816bf8f01cfea414140de5dae2223b00361a396177a9cb410ff61f20015ad");
    assert_eq!(to_hex_lower(&[0x0a, 0x14, 0x1e, 0xff]), "0a141eff");
}

// ── SQL rendering ────────────────────────────────────────────────────────────

#[test]
fn escape_and_null() {
    assert_eq!(escape_sql("it's"), "it''s");
    assert_eq!(escape_sql("''"), "''''");
    assert_eq!(escape_sql(""), "");
    assert_eq!(sql_str_or_null(&None), "NULL");
    assert_eq!(sql_str_or_null(&Some(String::new())), "NULL");
    assert_eq!(sql_str_or_null(&Some("O'Neil".to_string())), "'O''Neil'");
}

#[test]
fn join_and_params() {
    assert_eq!(join_strings(&vec!["a".to_string(), "b".to_string()], ","), "a,b");
    assert_eq!(join_strings(&vec![], ","), "");
    let mut c = challenge("s", "h");
    c.fm.tech_stack = vec!["rust".to_string(), "sql".to_string()];
    c.fm.job_slug = Some(String::new());
    c.fm.featured = true;
    let p = upsert_params(&c);
    assert_eq!(p.job_lookup, None);
    assert_eq!(p.tech_stack, Some("rust,sql".to_string()));
    assert_eq!(p.featured, 1);
    c.fm.tech_stack = vec![String::new()];
    c.fm.job_slug = Some("job".to_string());
    let p = upsert_params(&c);
    assert_eq!(p.tech_stack, None);
    assert_eq!(p.job_lookup, Some("job".to_string()));
}

fn expected_upsert(c: &Challenge) -> String {
    let job_id_expr = match c.fm.job_slug.as_deref() {
        Some(slug) if !slug.is_empty() => {
            format!("(SELECT id FROM jobs WHERE slug = '{}')", escape_sql(slug))
        }
        _ => "NULL".to_string(),
    };
    let tech_stack = c.fm.tech_stack.join(",");
    let tech_stack_sql =
        if tech_stack.is_empty() { "NULL".to_string() } else { format!("'{}'", escape_sql(&tech_stack)) };
    format!(
        "-- source: {source}\n\
         INSERT INTO challenges (slug, title, job_id, description, short_description, tech_stack, category, url, image_url,\n\
         \x20                    problem, constraints, decisions, implementation, outcomes, metrics,\n\
         \x20                    related_job_slug, related_plan_module, related_adr, featured, sort_order, content_sha)\n\
         VALUES ('{slug}', '{title}', {job_id_expr}, '{description}', {short_description}, {tech_stack_sql},\n\
         \x20       {category}, {url}, {image_url}, {problem}, {constraints}, {decisions}, {implementation},\n\
         \x20       {outcomes}, {metrics}, {related_job_slug}, {related_plan_module}, {related_adr}, {featured}, {sort_order}, '{content_sha}')\n\
         ON CONFLICT(slug) DO UPDATE SET\n\
         \x20   title = excluded.title,\n\
         \x20   job_id = excluded.job_id,\n\
         \x20   description = excluded.description,\n\
         \x20   short_description = excluded.short_description,\n\
         \x20   tech_stack = excluded.tech_stack,\n\
         \x20   category = excluded.category,\n\
         \x20   url = excluded.url,\n\
         \x20   image_url = excluded.image_url,\n\
         \x20   problem = excluded.problem,\n\
         \x20   constraints = excluded.constraints,\n\
         \x20   decisions = excluded.decisions,\n\
         \x20   implementation = excluded.implementation,\n\
         \x20   outcomes = excluded.outcomes,\n\
         \x20   metrics = excluded.metrics,\n\
         \x20   related_job_slug = excluded.related_job_slug,\n\
         \x20   related_plan_module = excluded.related_plan_module,\n\
         \x20   related_adr = excluded.related_adr,\n\
         \x20   featured = excluded.featured,\n\
         \x20   sort_order = excluded.sort_order,\n\
         \x20   content_sha = excluded.content_sha;\n",
        source = c.source_path,
        slug = escape_sql(&c.fm.slug),
        title = escape_sql(&c.fm.title),
        job_id_expr = job_id_expr,
        description = escape_sql(&c.description),
        short_description = sql_str_or_null(&c.fm.short_description),
        tech_stack_sql = tech_stack_sql,
        category = sql_str_or_null(&c.fm.category),
        url = sql_str_or_null(&c.fm.url),
        image_url = sql_str_or_null(&c.fm.image_url),
        problem = sql_str_or_null(&c.problem),
        constraints = sql_str_or_null(&c.constraints),
        decisions = sql_str_or_null(&c.decisions),
        implementation = sql_str_or_null(&c.implementation),
        outcomes = sql_str_or_null(&c.outcomes),
        metrics = sql_str_or_null(&c.metrics),
        related_job_slug = sql_str_or_null(&c.fm.job_slug),
        related_plan_module = sql_str_or_null(&c.fm.related_plan_module),
        related_adr = sql_str_or_null(&c.fm.related_adr),
        featured = c.fm.featured as i64,
        sort_order = c.fm.sort_order,
        content_sha = c.content_sha,
    )
}

#[test]
fn upsert_matches_template() {
    let mut c = challenge("o'brien", "abc123");
    c.fm.job_slug = Some("acme".to_string());
    c.fm.tech_stack = vec!["rust".to_string(), "it's".to_string()];
    c.fm.short_description = Some("short".to_string());
    c.fm.featured = true;
    c.fm.sort_order = -42;
    c.problem = Some("P".to_string());
    c.metrics = Some(String::new());
    let sql = render_upsert(&c);
    assert_eq!(sql, expected_upsert(&c));
    assert!(sql.contains("VALUES ('o''brien', 'Title of o''brien', (SELECT id FROM jobs WHERE slug = 'acme'), 'Some text.', 'short', 'rust,it''s',"));
    assert!(sql.contains(", 1, -42, 'abc123')"));
    let mut d = challenge("plain", "s");
    d.fm.sort_order = i64::MIN;
    assert_eq!(render_upsert(&d), expected_upsert(&d));
}

#[test]
fn migration_rendering() {
    let a = challenge("a", "1");
    let only_header = render_migration_sql(&[], &[]);
    assert!(only_header.starts_with("-- Generated by `just challenges-migration`"));
    assert!(only_header.ends_with("regenerate.\n\n"));
    let sql = render_migration_sql(&[&a], &["gone".to_string(), "x'y".to_string()]);
    let expected = format!(
        "{only_header}-- Removed from content/challenges/ since the last generated migration.\n\
         DELETE FROM challenges WHERE slug = 'gone';\n\
         DELETE FROM challenges WHERE slug = 'x''y';\n\n{}\n",
        expected_upsert(&a)
    );
    assert_eq!(sql, expected);
}

#[test]
fn migration_numbers_and_stub() {
    let names: Vec<String> =
        ["001_init.sql", "038_content_sha.sql", "readme.md", "+40_x.sql", "7.sql", "0039_y.sql"]
            .iter()
            .map(|s| s.to_string())
            .collect();
    assert_eq!(next_migration_number(&names), Some(41));
    let names2: Vec<String> = vec!["12_a.sql".to_string(), "+40_b.sql".to_string()];
    assert_eq!(next_migration_number(&names2), Some(41));
    assert_eq!(next_migration_number(&[]), Some(1));
    assert_eq!(next_migration_number(&["4294967295_x".to_string()]), None);
    assert_eq!(next_migration_number(&["4294967296_x".to_string()]), Some(1));
    assert_eq!(migration_file_stub(7, "2024-01-02"), "007_challenges_content_2024-01-02");
    assert_eq!(migration_file_stub(42, "d"), "042_challenges_content_d");
    assert_eq!(migration_file_stub(1234, "d"), "1234_challenges_content_d");
}

#[test]
fn parse_u32_like_std() {
    for s in ["", "+", "-1", "12", "+12", "0012", "4294967295", "4294967296", "1a", " 1", "99999999999"] {
        assert_eq!(parse_u32_text(s), s.parse::<u32>().ok(), "input {s:?}");
    }
}

#[test]
fn schema_and_columns() {
    let cols = vec!["id".to_string(), "slug".to_string()];
    assert!(has_column(&cols, "slug"));
    assert!(!has_column(&cols, "content_sha"));
    assert_eq!(schema_action(0, true), Err(SchemaError::MissingChallengesTable));
    assert_eq!(schema_action(1, false), Ok(true));
    assert_eq!(schema_action(1, true), Ok(false));
}

// ── drift and sync ───────────────────────────────────────────────────────────

#[test]
fn drift_classifies_slugs() {
    let cs = vec![challenge("a", "1"), challenge("b", "2"), challenge("c", "3")];
    let existing = vec![None, Some("2".to_string()), Some("old".to_string())];
    let db = vec!["b".to_string(), "c".to_string(), "z".to_string()];
    let drift = compute_drift(&cs, &existing, &db);
    assert_eq!(drift.new, vec!["a".to_string()]);
    assert!(drift.changed == vec!["c".to_string()]);
    assert_eq!(drift.removed, vec!["z".to_string()]);
    assert!(!drift.is_empty());
    let changed = changed_challenges(&cs, &drift);
    let slugs: Vec<&str> = changed.iter().map(|c| c.fm.slug.as_str()).collect();
    assert_eq!(slugs, vec!["a", "c"]);
}

#[test]
fn sync_then_diff_agrees() {
    let cs = vec![challenge("a", "1"), challenge("b", "2")];
    // database before: b with an old hash, a stale row x
    let mut db: Vec<(String, Option<String>)> =
        vec![("b".to_string(), Some("old".to_string())), ("x".to_string(), None)];
    for c in &cs {
        let existing = db.iter().find(|(s, _)| *s == c.fm.slug).and_then(|(_, h)| h.clone());
        if needs_sync(c, &existing) {
            db.retain(|(s, _)| *s != c.fm.slug);
            db.push((c.fm.slug.clone(), Some(c.content_sha.clone())));
        }
    }
    let rows: Vec<String> = db.iter().map(|(s, _)| s.clone()).collect();
    let keep: Vec<String> = cs.iter().map(|c| c.fm.slug.clone()).collect();
    let pruned = missing_from(&rows, &keep);
    assert_eq!(pruned, vec!["x".to_string()]);
    db.retain(|(s, _)| !pruned.contains(s));
    let existing: Vec<Option<String>> = cs
        .iter()
        .map(|c| db.iter().find(|(s, _)| *s == c.fm.slug).and_then(|(_, h)| h.clone()))
        .collect();
    let rows: Vec<String> = db.iter().map(|(s, _)| s.clone()).collect();
    let drift: Drift = compute_drift(&cs, &existing, &rows);
    assert!(drift.is_empty());
    assert!(!needs_sync(&cs[0], &Some("1".to_string())));
    assert!(needs_sync(&cs[0], &None));
}

#[test]
fn load_order_is_stable_sort_by_slug() {
    let cs = vec![
        challenge("b", "first-b"),
        challenge("a", "1"),
        challenge("b", "second-b"),
        challenge("ab", "2"),
        challenge("B", "3"),
    ];
    assert_eq!(load_order(&cs), vec![4, 1, 3, 0, 2]);
    let sorted = sort_by_slug(cs);
    let shas: Vec<&str> = sorted.iter().map(|c| c.content_sha.as_str()).collect();
    assert_eq!(shas, vec!["3", "1", "2", "first-b", "second-b"]);
    assert!(sort_by_slug(vec![]).is_empty());
}

#[test]
fn membership_helpers() {
    let list = vec!["x".to_string()];
    assert!(contains_text(&list, "x"));
    assert!(!contains_text(&list, "y"));
    assert_eq!(missing_from(&[], &list), Vec::<String>::new());
}

/// Reads SQL text as a statement reader does: the code outside string
/// literals and `--` comments, and whether it ends outside any literal.
fn sql_code(t: &str) -> (String, bool) {
    let mut code = String::new();
    let mut in_lit = false;
    let mut in_comment = false;
    let chars: Vec<char> = t.chars().collect();
    let mut i = 0;
    while i < chars.len() {
        let ch = chars[i];
        if in_comment {
            if ch == '\n' {
                in_comment = false;
            }
        } else if in_lit {
            if ch == '\'' {
                in_lit = false;
            }
        } else if ch == '\'' {
            in_lit = true;
        } else if ch == '-' && i + 1 < chars.len() && chars[i + 1] == '-' {
            in_comment = true;
            i += 1;
        } else {
            code.push(ch);
        }
        i += 1;
    }
    (code, !in_lit && !in_comment)
}

#[test]
fn upsert_reads_as_one_statement() {
    let mut c = challenge("it's; here", "0123abcd");
    c.fm.title = "a; b -- c".to_string();
    c.description = "x';DROP TABLE challenges;--".to_string();
    c.fm.job_slug = Some("j;'".to_string());
    c.fm.tech_stack = vec!["a;b".to_string(), "c'd".to_string()];
    c.fm.sort_order = -42;
    c.source_path = "content/challenges/it's;.md".to_string();
    let sql = render_upsert(&c);
    assert!(sql.starts_with("-- source: content/challenges/it's;.md\nINSERT INTO challenges"));
    let (code, closed) = sql_code(&sql);
    assert!(closed);
    assert_eq!(code.matches(';').count(), 1);
    assert!(code.ends_with(";\n"));
    assert!(code.contains("-42"));
}

#[test]
fn escape_doubles_quotes_only() {
    let s = "O'Brien's";
    let e = escape_sql(s);
    assert_eq!(e, "O''Brien''s");
    assert_eq!(e.matches('\'').count(), 2 * s.matches('\'').count());
    assert_eq!(e.replace('\'', ""), s.replace('\'', ""));
    assert_eq!(e.replace("''", "'"), s);
}

#[test]
fn content_sha_is_64_lower_hex() {
    for raw in ["", "abc", "---\nslug: x\n---\n## Description\nD\n"] {
        let h = content_sha(raw);
        assert_eq!(h.len(), 64);
        assert!(h.chars().all(|c| c.is_ascii_digit() || ('a'..='f').contains(&c)));
    }
}

#[test]
fn headings_closed_form_last_heading_wins() {
    let s = split_headings("before\n## A\none\n### sub\n## B\nb\n## a\ntwo\n");
    assert_eq!(s.get("a"), Some("two".to_string()));
    assert_eq!(s.get("b"), Some("b".to_string()));
    assert_eq!(s.get("before"), None);
    assert_eq!(s.get("# sub"), None);
    let t = split_headings("## A\none\n### sub\n");
    assert_eq!(t.get("a"), Some("one\n### sub".to_string()));
}

/// The string literals of SQL text, decoded (`''` is one quote), skipping
/// `--` comments.
fn sql_literals(t: &str) -> Vec<String> {
    let chars: Vec<char> = t.chars().collect();
    let mut out = Vec::new();
    let mut i = 0;
    while i < chars.len() {
        let ch = chars[i];
        if ch == '-' && i + 1 < chars.len() && chars[i + 1] == '-' {
            while i < chars.len() && chars[i] != '\n' {
                i += 1;
            }
        } else if ch == '\'' {
            let mut lit = String::new();
            i += 1;
            loop {
                if chars[i] == '\'' {
                    if i + 1 < chars.len() && chars[i + 1] == '\'' {
                        lit.push('\'');
                        i += 2;
                        continue;
                    }
                    break;
                }
                lit.push(chars[i]);
                i += 1;
            }
            out.push(lit);
        }
        i += 1;
    }
    out
}

#[test]
fn upsert_literals_decode_to_values() {
    let mut c = challenge("o'brien", "0123abcd");
    c.fm.title = "It's -- fine".to_string();
    c.fm.job_slug = Some("acme's".to_string());
    c.fm.tech_stack = vec!["rust".to_string(), "it's".to_string()];
    c.fm.category = Some(String::new());
    c.fm.url = Some("https://x/'y'".to_string());
    c.source_path = "content/challenges/o'brien.md".to_string();
    let sql = render_upsert(&c);
    let expected: Vec<String> = [
        "o'brien",
        "It's -- fine",
        "acme's",
        "Some text.",
        "rust,it's",
        "https://x/'y'",
        "acme's",
        "0123abcd",
    ]
    .iter()
    .map(|s| s.to_string())
    .collect();
    assert_eq!(sql_literals(&sql), expected);
}
