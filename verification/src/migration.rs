//! Rendering challenges as SQL: quoting, the upsert statement of one
//! challenge, and the migration file for a set of changes.

use vstd::prelude::*;
use vstd::string::*;
use crate::text::{chars_of, owned, push_decimal, decimal, signed_decimal, i64_to_decimal, before_first, prefix_before};
use crate::challenges::Challenge;
use crate::database::opt_view;

verus! {

/// Opening of a migration file.
pub const MIGRATION_HEADER: &'static str = "-- Generated by `just challenges-migration` (xtask challenges gen-migration) from\n\
         -- content/challenges/*.md. content/challenges/*.md is the source of truth (ADR-036) —\n\
         -- do not hand-edit challenge rows here; edit the source .md file and regenerate.\n\n";

/// First line of an upsert block, before the source path.
pub const UPSERT_SOURCE: &'static str = "-- source: ";

/// Column list of an upsert, up to the first value.
pub const UPSERT_COLUMNS: &'static str = "\n\
         INSERT INTO challenges (slug, title, job_id, description, short_description, tech_stack, category, url, image_url,\n\
         \x20                    problem, constraints, decisions, implementation, outcomes, metrics,\n\
         \x20                    related_job_slug, related_plan_module, related_adr, featured, sort_order, content_sha)\n\
         VALUES ('";

/// Line break inside the value list of an upsert.
pub const UPSERT_WRAP: &'static str = ",\n\
         \x20       ";

/// Close of the value list and the conflict clause of an upsert.
pub const UPSERT_CONFLICT: &'static str = "')\n\
         ON CONFLICT(slug) DO UPDATE SET\n\
         \x20   title = excluded.title,\n\
         \x20   job_id = excluded.job_id,\n\
         \x20   description = excluded.description,\n\
         \x20   short_description = excluded.short_description,\n\
         \x20   tech_stack = excluded.tech_stack,\n\
         \x20   category = excluded.category,\n\
         \x20   url = excluded.url,\n\
         \x20   image_url = excluded.image_url,\n\
         \x20   problem = excluded.problem,\n\
         \x20   constraints = excluded.constraints,\n\
         \x20   decisions = excluded.decisions,\n\
         \x20   implementation = excluded.implementation,\n\
         \x20   outcomes = excluded.outcomes,\n\
         \x20   metrics = excluded.metrics,\n\
         \x20   related_job_slug = excluded.related_job_slug,\n\
         \x20   related_plan_module = excluded.related_plan_module,\n\
         \x20   related_adr = excluded.related_adr,\n\
         \x20   featured = excluded.featured,\n\
         \x20   sort_order = excluded.sort_order,\n\
         \x20   content_sha = excluded.content_sha;\n";

/// Note above the deletions of a migration.
pub const REMOVED_NOTE: &'static str = "-- Removed from content/challenges/ since the last generated migration.\n";

/// Start of the deletion of one challenge.
pub const DELETE_PREFIX: &'static str = "DELETE FROM challenges WHERE slug = '";

/// End of the deletion of one challenge.
pub const DELETE_SUFFIX: &'static str = "';\n";

// ── quoting ─────────────────────────────────────────────────────────────────

/// How one character appears inside a quoted SQL literal: a quote doubles.
pub open spec fn quote_char(c: char) -> Seq<char> {
    if c == '\'' {
        seq!['\'', '\'']
    } else {
        seq![c]
    }
}

/// `s` with every single quote doubled.
pub open spec fn escape_sql_text(s: Seq<char>) -> Seq<char>
    decreases s.len(),
{
    if s.len() == 0 {
        Seq::empty()
    } else {
        escape_sql_text(s.drop_last()) + quote_char(s.last())
    }
}

/// How SQL reads the inside of a quoted literal: a doubled quote is one quote.
pub open spec fn unescape_sql_text(t: Seq<char>) -> Seq<char>
    decreases t.len(),
{
    if t.len() == 0 {
        Seq::empty()
    } else if t.len() >= 2 && t.last() == '\'' && t[t.len() - 2] == '\'' {
        unescape_sql_text(t.drop_last().drop_last()).push('\'')
    } else {
        unescape_sql_text(t.drop_last()).push(t.last())
    }
}

/// SQL reads an escaped text back as the text itself.
pub proof fn lemma_escape_roundtrip(s: Seq<char>)
    ensures
        unescape_sql_text(escape_sql_text(s)) == s,
    decreases s.len(),
{
    if s.len() > 0 {
        let init = s.drop_last();
        lemma_escape_roundtrip(init);
        let e = escape_sql_text(s);
        let ei = escape_sql_text(init);
        if s.last() == '\'' {
            assert(e.drop_last().drop_last() =~= ei);
        } else {
            assert(e.drop_last() =~= ei);
        }
        assert(s =~= init.push(s.last()));
    }
}

/// The single quotes of `s`, in order.
pub open spec fn quotes_of(s: Seq<char>) -> Seq<char> {
    s.filter(|c: char| c == '\'')
}

/// `s` with its single quotes removed.
pub open spec fn without_quotes(s: Seq<char>) -> Seq<char> {
    s.filter(|c: char| c != '\'')
}

/// Escaping doubles the number of quotes and changes nothing else: the
/// escaped text holds twice as many quotes as `s`, and without its quotes it
/// is `s` without its quotes.
pub proof fn lemma_escape_quotes(s: Seq<char>)
    ensures
        quotes_of(escape_sql_text(s)).len() == 2 * quotes_of(s).len(),
        without_quotes(escape_sql_text(s)) == without_quotes(s),
    decreases s.len(),
{
    if s.len() > 0 {
        let init = s.drop_last();
        let last = s.last();
        lemma_escape_quotes(init);
        let q = |c: char| c == '\'';
        let nq = |c: char| c != '\'';
        Seq::filter_distributes_over_add(escape_sql_text(init), quote_char(last), q);
        Seq::filter_distributes_over_add(escape_sql_text(init), quote_char(last), nq);
        assert(s =~= init + seq![last]);
        Seq::filter_distributes_over_add(init, seq![last], q);
        Seq::filter_distributes_over_add(init, seq![last], nq);
        reveal_with_fuel(Seq::filter, 3);
        if last == '\'' {
            assert(quote_char(last).filter(q) =~= seq!['\'', '\'']);
            assert(quote_char(last).filter(nq) =~= Seq::<char>::empty());
            assert(seq![last].filter(nq) =~= Seq::<char>::empty());
        } else {
            assert(quote_char(last).filter(q) =~= Seq::<char>::empty());
            assert(seq![last].filter(q) =~= Seq::<char>::empty());
        }
    }
}

/// Double every single quote in `s`.
pub fn escape_sql(s: &str) -> (r: String)
    ensures
        r@ == escape_sql_text(s@),
{
    let mut out = String::new();
    append_escaped(&mut out, s);
    out
}

fn append_escaped(out: &mut String, s: &str)
    ensures
        final(out)@ == old(out)@ + escape_sql_text(s@),
{
    let v = chars_of(s);
    let ghost start = out@;
    let mut i: usize = 0;
    while i < v.len()
        invariant
            v@ == s@,
            i <= v@.len(),
            out@ == start + escape_sql_text(v@.take(i as int)),
        decreases v@.len() - i,
    {
        let c = v[i];
        out.push(c);
        if c == '\'' {
            out.push('\'');
        }
        assert(v@.take(i + 1).drop_last() =~= v@.take(i as int));
        assert(out@ =~= start + escape_sql_text(v@.take(i + 1)));
        i = i + 1;
    }
    assert(v@.take(v@.len() as int) =~= v@);
}

/// A quoted SQL string for a present, non-empty value; `NULL` otherwise.
pub open spec fn sql_text_or_null(v: Option<Seq<char>>) -> Seq<char> {
    match v {
        Some(s) => if s.len() > 0 {
            seq!['\''] + escape_sql_text(s) + seq!['\'']
        } else {
            "NULL"@
        },
        None => "NULL"@,
    }
}

/// The SQL value of an optional text: quoted and escaped when present and
/// non-empty, `NULL` otherwise.
pub fn sql_str_or_null(v: &Option<String>) -> (r: String)
    ensures
        r@ == sql_text_or_null(opt_view(*v)),
{
    let mut out = String::new();
    append_sql_str_or_null(&mut out, v);
    out
}

fn append_sql_str_or_null(out: &mut String, v: &Option<String>)
    ensures
        final(out)@ == old(out)@ + sql_text_or_null(opt_view(*v)),
{
    match v {
        Some(s) => {
            if !s.as_str().is_empty() {
                out.push('\'');
                append_escaped(out, s.as_str());
                out.push('\'');
                return ;
            }
        },
        None => {},
    }
    out.append("NULL");
}

// ── upsert of one challenge ─────────────────────────────────────────────────

/// The items of a list joined with `sep` between them.
pub open spec fn join(list: Seq<Seq<char>>, sep: Seq<char>) -> Seq<char>
    decreases list.len(),
{
    if list.len() == 0 {
        Seq::empty()
    } else if list.len() == 1 {
        list[0]
    } else {
        join(list.drop_last(), sep) + sep + list.last()
    }
}

/// The views of a list of strings.
pub open spec fn views(list: Seq<String>) -> Seq<Seq<char>> {
    list.map_values(|s: String| s@)
}

/// The total length of the items of a list.
pub open spec fn total_len(list: Seq<Seq<char>>) -> nat
    decreases list.len(),
{
    if list.len() == 0 {
        0
    } else {
        total_len(list.drop_last()) + list.last().len()
    }
}

/// Where the `k`-th item of a list starts in its join with `sep`: after the
/// items before it, each followed by one separator.
pub open spec fn item_offset(list: Seq<Seq<char>>, sep: Seq<char>, k: nat) -> nat
    decreases k,
{
    if k == 0 {
        0
    } else {
        item_offset(list, sep, (k - 1) as nat) + list[k - 1].len() + sep.len()
    }
}

proof fn lemma_item_offset_prefix(list: Seq<Seq<char>>, sep: Seq<char>, k: nat, n: int)
    requires
        k <= n <= list.len(),
    ensures
        item_offset(list, sep, k) == item_offset(list.take(n), sep, k),
    decreases k,
{
    if k > 0 {
        lemma_item_offset_prefix(list, sep, (k - 1) as nat, n);
        assert(list.take(n)[k - 1] == list[k - 1]);
    }
}

proof fn lemma_join_item(list: Seq<Seq<char>>, sep: Seq<char>, k: int)
    requires
        0 <= k < list.len(),
    ensures
        join(list, sep).len() == item_offset(list, sep, (list.len() - 1) as nat) + list.last().len(),
        item_offset(list, sep, k as nat) + list[k].len() <= join(list, sep).len(),
        join(list, sep).subrange(
            item_offset(list, sep, k as nat) as int,
            (item_offset(list, sep, k as nat) + list[k].len()) as int,
        ) == list[k],
        k > 0 ==> join(list, sep).subrange(
            item_offset(list, sep, k as nat) - sep.len(),
            item_offset(list, sep, k as nat) as int,
        ) == sep,
    decreases list.len(),
{
    let n = list.len() as int;
    let j = join(list, sep);
    if n == 1 {
        assert(j.subrange(0, list[0].len() as int) =~= list[0]);
    } else {
        let init = list.drop_last();
        let ji = join(init, sep);
        assert(j == ji + sep + list.last());
        assert(init =~= list.take(n - 1));
        lemma_join_item(init, sep, n - 2);
        lemma_item_offset_prefix(list, sep, (n - 2) as nat, n - 1);
        assert(init.last() == list[n - 2]);
        let o = item_offset(list, sep, k as nat) as int;
        if k < n - 1 {
            lemma_join_item(init, sep, k);
            lemma_item_offset_prefix(list, sep, k as nat, n - 1);
            assert(init[k] == list[k]);
            assert(j.subrange(o, o + list[k].len()) =~= ji.subrange(o, o + init[k].len()));
            if k > 0 {
                assert(j.subrange(o - sep.len(), o) =~= ji.subrange(o - sep.len(), o));
            }
        } else {
            assert(j.subrange(o, o + list[k].len()) =~= list.last());
            assert(j.subrange(o - sep.len(), o) =~= sep);
        }
    }
}

/// The layout of a join: each item stands at its offset, the separator
/// stands between consecutive items, and nothing else is added; in
/// particular a one-item list joins to that item.
pub proof fn lemma_join_layout(list: Seq<Seq<char>>, sep: Seq<char>)
    requires
        list.len() > 0,
    ensures
        join(list, sep).len() == item_offset(list, sep, (list.len() - 1) as nat) + list.last().len(),
        forall|k: int|
            #![trigger list[k]]
            0 <= k < list.len() ==> item_offset(list, sep, k as nat) + list[k].len() <= join(list, sep).len()
                && join(list, sep).subrange(
                item_offset(list, sep, k as nat) as int,
                (item_offset(list, sep, k as nat) + list[k].len()) as int,
            ) == list[k],
        forall|k: int|
            #![trigger item_offset(list, sep, k as nat)]
            0 < k < list.len() ==> join(list, sep).subrange(
                item_offset(list, sep, k as nat) - sep.len(),
                item_offset(list, sep, k as nat) as int,
            ) == sep,
        list.len() == 1 ==> join(list, sep) == list[0],
{
    lemma_join_item(list, sep, 0);
    assert forall|k: int|
        #![trigger list[k]]
        0 <= k < list.len() implies item_offset(list, sep, k as nat) + list[k].len() <= join(list, sep).len()
            && join(list, sep).subrange(
            item_offset(list, sep, k as nat) as int,
            (item_offset(list, sep, k as nat) + list[k].len()) as int,
        ) == list[k] by {
        lemma_join_item(list, sep, k);
    }
    assert forall|k: int|
        #![trigger item_offset(list, sep, k as nat)]
        0 < k < list.len() implies join(list, sep).subrange(
            item_offset(list, sep, k as nat) - sep.len(),
            item_offset(list, sep, k as nat) as int,
        ) == sep by {
        lemma_join_item(list, sep, k);
    }
    if list.len() == 1 {
        assert(join(list, sep).subrange(0, list[0].len() as int) == list[0]);
        assert(join(list, sep) =~= list[0]);
    }
}

/// With a non-empty separator, a join is empty exactly when there are no
/// items, or a single empty one.
pub proof fn lemma_join_empty(list: Seq<Seq<char>>, sep: Seq<char>)
    requires
        sep.len() > 0,
    ensures
        join(list, sep).len() == 0 <==> (list.len() == 0 || (list.len() == 1 && list[0].len() == 0)),
{
    if list.len() > 0 {
        lemma_join_layout(list, sep);
        if list.len() >= 2 {
            assert(item_offset(list, sep, (list.len() - 1) as nat) >= sep.len());
        }
    }
}

/// Join `list` with `sep`.
pub fn join_strings(list: &Vec<String>, sep: &str) -> (r: String)
    ensures
        r@ == join(views(list@), sep@),
{
    let mut out = String::new();
    let mut i: usize = 0;
    while i < list.len()
        invariant
            i <= list@.len(),
            out@ == join(views(list@).take(i as int), sep@),
        decreases list@.len() - i,
    {
        if i > 0 {
            out.append(sep);
        }
        out.append(list[i].as_str());
        assert(views(list@).take(i + 1).drop_last() =~= views(list@).take(i as int));
        i = i + 1;
    }
    assert(views(list@).take(list@.len() as int) =~= views(list@));
    out
}

/// The SQL expression for the job of a challenge: a lookup by job slug, or
/// `NULL` without a (non-empty) job slug.
pub open spec fn job_id_sql(job_slug: Option<Seq<char>>) -> Seq<char> {
    match job_slug {
        Some(s) => if s.len() > 0 {
            "(SELECT id FROM jobs WHERE slug = '"@ + escape_sql_text(s) + "')"@
        } else {
            "NULL"@
        },
        None => "NULL"@,
    }
}

/// The SQL value of the tech stack: the comma-joined list, quoted, or `NULL`
/// when that join is empty.
pub open spec fn tech_stack_sql(tech: Seq<Seq<char>>) -> Seq<char> {
    let joined = join(tech, seq![',']);
    if joined.len() == 0 {
        "NULL"@
    } else {
        seq!['\''] + escape_sql_text(joined) + seq!['\'']
    }
}

/// The SQL integer of a flag: 1 or 0.
pub open spec fn flag_sql(b: bool) -> Seq<char> {
    if b {
        seq!['1']
    } else {
        seq!['0']
    }
}

/// The upsert statement of one challenge: inserted, or updated on a slug
/// conflict; text values escaped, absent or empty optional values `NULL`.
#[verifier::opaque]
pub open spec fn upsert_sql(c: Challenge) -> Seq<char> {
    let q = seq!['\''];
    let sep = ", "@;
    UPSERT_SOURCE@ + c.source_path@ + UPSERT_COLUMNS@ + escape_sql_text(c.fm.slug@) + "', '"@
        + escape_sql_text(c.fm.title@) + "', "@ + job_id_sql(opt_view(c.fm.job_slug)) + ", '"@
        + escape_sql_text(c.description@) + "', "@ + sql_text_or_null(
        opt_view(c.fm.short_description),
    ) + sep + tech_stack_sql(views(c.fm.tech_stack@)) + UPSERT_WRAP@ + sql_text_or_null(
        opt_view(c.fm.category),
    ) + sep + sql_text_or_null(opt_view(c.fm.url)) + sep + sql_text_or_null(
        opt_view(c.fm.image_url),
    ) + sep + sql_text_or_null(opt_view(c.problem)) + sep + sql_text_or_null(
        opt_view(c.constraints),
    ) + sep + sql_text_or_null(opt_view(c.decisions)) + sep + sql_text_or_null(
        opt_view(c.implementation),
    ) + UPSERT_WRAP@ + sql_text_or_null(opt_view(c.outcomes)) + sep + sql_text_or_null(
        opt_view(c.metrics),
    ) + sep + sql_text_or_null(opt_view(c.fm.job_slug)) + sep + sql_text_or_null(
        opt_view(c.fm.related_plan_module),
    ) + sep + sql_text_or_null(opt_view(c.fm.related_adr)) + sep + flag_sql(c.fm.featured) + sep
        + signed_decimal(c.fm.sort_order as int) + ", '"@ + c.content_sha@ + UPSERT_CONFLICT@
}

fn append_job_id(out: &mut String, job_slug: &Option<String>)
    ensures
        final(out)@ == old(out)@ + job_id_sql(opt_view(*job_slug)),
{
    match job_slug {
        Some(s) => {
            if !s.as_str().is_empty() {
                out.append("(SELECT id FROM jobs WHERE slug = '");
                append_escaped(out, s.as_str());
                out.append("')");
                return ;
            }
        },
        None => {},
    }
    out.append("NULL");
}

fn append_tech_stack(out: &mut String, tech: &Vec<String>)
    ensures
        final(out)@ == old(out)@ + tech_stack_sql(views(tech@)),
{
    let joined = join_strings(tech, ",");
    proof {
        reveal_strlit(",");
    }
    assert(","@ =~= seq![',']);
    if joined.as_str().is_empty() {
        out.append("NULL");
    } else {
        out.push('\'');
        append_escaped(out, joined.as_str());
        out.push('\'');
    }
}

/// The upsert statement of one challenge.
pub fn render_upsert(c: &Challenge) -> (r: String)
    ensures
        r@ == upsert_sql(*c),
{
    let mut out = owned(UPSERT_SOURCE);
    out.append(c.source_path.as_str());
    out.append(UPSERT_COLUMNS);
    append_escaped(&mut out, c.fm.slug.as_str());
    out.append("', '");
    append_escaped(&mut out, c.fm.title.as_str());
    out.append("', ");
    append_job_id(&mut out, &c.fm.job_slug);
    out.append(", '");
    append_escaped(&mut out, c.description.as_str());
    out.append("', ");
    append_sql_str_or_null(&mut out, &c.fm.short_description);
    out.append(", ");
    append_tech_stack(&mut out, &c.fm.tech_stack);
    out.append(UPSERT_WRAP);
    append_sql_str_or_null(&mut out, &c.fm.category);
    out.append(", ");
    append_sql_str_or_null(&mut out, &c.fm.url);
    out.append(", ");
    append_sql_str_or_null(&mut out, &c.fm.image_url);
    out.append(", ");
    append_sql_str_or_null(&mut out, &c.problem);
    out.append(", ");
    append_sql_str_or_null(&mut out, &c.constraints);
    out.append(", ");
    append_sql_str_or_null(&mut out, &c.decisions);
    out.append(", ");
    append_sql_str_or_null(&mut out, &c.implementation);
    out.append(UPSERT_WRAP);
    append_sql_str_or_null(&mut out, &c.outcomes);
    out.append(", ");
    append_sql_str_or_null(&mut out, &c.metrics);
    out.append(", ");
    append_sql_str_or_null(&mut out, &c.fm.job_slug);
    out.append(", ");
    append_sql_str_or_null(&mut out, &c.fm.related_plan_module);
    out.append(", ");
    append_sql_str_or_null(&mut out, &c.fm.related_adr);
    out.append(", ");
    if c.fm.featured {
        out.push('1');
    } else {
        out.push('0');
    }
    out.append(", ");
    let so = i64_to_decimal(c.fm.sort_order);
    out.append(so.as_str());
    out.append(", '");
    out.append(c.content_sha.as_str());
    out.append(UPSERT_CONFLICT);
    proof {
        reveal(upsert_sql);
    }
    out
}

// ── migration file ──────────────────────────────────────────────────────────

/// The deletions of the removed slugs, one statement per line.
pub open spec fn deletes_sql(removed: Seq<Seq<char>>) -> Seq<char>
    decreases removed.len(),
{
    if removed.len() == 0 {
        Seq::empty()
    } else {
        deletes_sql(removed.drop_last()) + DELETE_PREFIX@ + escape_sql_text(removed.last())
            + DELETE_SUFFIX@
    }
}

/// The upserts of the changed challenges, each followed by a blank line.
pub open spec fn upserts_sql(changed: Seq<Challenge>) -> Seq<char>
    decreases changed.len(),
{
    if changed.len() == 0 {
        Seq::empty()
    } else {
        upserts_sql(changed.drop_last()) + upsert_sql(changed.last()) + seq!['\n']
    }
}

/// A migration file: the header; then, when slugs were removed, a note,
/// their deletions and a blank line; then the upsert of each changed
/// challenge.
pub open spec fn migration_sql(changed: Seq<Challenge>, removed: Seq<Seq<char>>) -> Seq<char> {
    MIGRATION_HEADER@ + (if removed.len() == 0 {
        Seq::empty()
    } else {
        REMOVED_NOTE@ + deletes_sql(removed) + seq!['\n']
    }) + upserts_sql(changed)
}

/// The statement that deletes the row of `slug`.
pub open spec fn delete_statement(slug: Seq<char>) -> Seq<char> {
    DELETE_PREFIX@ + escape_sql_text(slug) + DELETE_SUFFIX@
}

/// Where the deletion of the `k`-th removed slug starts among the deletions.
pub open spec fn delete_offset(removed: Seq<Seq<char>>, k: nat) -> nat
    decreases k,
{
    if k == 0 {
        0
    } else {
        delete_offset(removed, (k - 1) as nat) + delete_statement(removed[k - 1]).len()
    }
}

proof fn lemma_delete_offset_prefix(removed: Seq<Seq<char>>, k: nat, n: int)
    requires
        k <= n <= removed.len(),
    ensures
        delete_offset(removed, k) == delete_offset(removed.take(n), k),
    decreases k,
{
    if k > 0 {
        lemma_delete_offset_prefix(removed, (k - 1) as nat, n);
        assert(removed.take(n)[k - 1] == removed[k - 1]);
    }
}

proof fn lemma_deletes_item(removed: Seq<Seq<char>>, k: int)
    requires
        0 <= k < removed.len(),
    ensures
        deletes_sql(removed).len() == delete_offset(removed, removed.len()),
        delete_offset(removed, k as nat) + delete_statement(removed[k]).len() <= deletes_sql(removed).len(),
        deletes_sql(removed).subrange(
            delete_offset(removed, k as nat) as int,
            (delete_offset(removed, k as nat) + delete_statement(removed[k]).len()) as int,
        ) == delete_statement(removed[k]),
    decreases removed.len(),
{
    let n = removed.len() as int;
    let d = deletes_sql(removed);
    let init = removed.drop_last();
    assert(init =~= removed.take(n - 1));
    let di = deletes_sql(init);
    assert(d =~= di + delete_statement(removed.last()));
    if n == 1 {
        assert(di.len() == 0);
    } else {
        lemma_deletes_item(init, n - 2);
    }
    lemma_delete_offset_prefix(removed, (n - 1) as nat, n - 1);
    assert(delete_offset(init, (n - 1) as nat) == di.len());
    let o = delete_offset(removed, k as nat) as int;
    if k < n - 1 {
        lemma_deletes_item(init, k);
        lemma_delete_offset_prefix(removed, k as nat, n - 1);
        assert(init[k] == removed[k]);
        assert(d.subrange(o, o + delete_statement(removed[k]).len()) =~= di.subrange(
            o,
            o + delete_statement(init[k]).len(),
        ));
    } else {
        assert(d.subrange(o, o + delete_statement(removed[k]).len()) =~= delete_statement(removed.last()));
    }
}

/// A migration opens with its header; when slugs were removed, the note on
/// removals follows, and then, for every removed slug in order, the
/// statement that deletes its row (the slug escaped): no removed slug is
/// left out.
pub proof fn lemma_migration_deletes_every_removed(changed: Seq<Challenge>, removed: Seq<Seq<char>>)
    ensures
        migration_sql(changed, removed).subrange(0, MIGRATION_HEADER@.len() as int) == MIGRATION_HEADER@,
        removed.len() > 0 ==> migration_sql(changed, removed).subrange(
            MIGRATION_HEADER@.len() as int,
            (MIGRATION_HEADER@.len() + REMOVED_NOTE@.len()) as int,
        ) == REMOVED_NOTE@,
        forall|k: int|
            #![trigger removed[k]]
            0 <= k < removed.len() ==> migration_sql(changed, removed).subrange(
                (MIGRATION_HEADER@.len() + REMOVED_NOTE@.len() + delete_offset(removed, k as nat)) as int,
                (MIGRATION_HEADER@.len() + REMOVED_NOTE@.len() + delete_offset(removed, k as nat)
                    + delete_statement(removed[k]).len()) as int,
            ) == delete_statement(removed[k]),
{
    let m = migration_sql(changed, removed);
    let h = MIGRATION_HEADER@;
    assert(m.subrange(0, h.len() as int) =~= h);
    if removed.len() > 0 {
        let note = REMOVED_NOTE@;
        let d = deletes_sql(removed);
        assert(m =~= h + note + d + seq!['\n'] + upserts_sql(changed));
        assert(m.subrange(h.len() as int, (h.len() + note.len()) as int) =~= note);
        assert forall|k: int|
            #![trigger removed[k]]
            0 <= k < removed.len() implies m.subrange(
                (MIGRATION_HEADER@.len() + REMOVED_NOTE@.len() + delete_offset(removed, k as nat)) as int,
                (MIGRATION_HEADER@.len() + REMOVED_NOTE@.len() + delete_offset(removed, k as nat)
                    + delete_statement(removed[k]).len()) as int,
            ) == delete_statement(removed[k]) by {
            lemma_deletes_item(removed, k);
            let dk = delete_offset(removed, k as nat) as int;
            let o = (h.len() + note.len()) as int + dk;
            assert(m.subrange(o, o + delete_statement(removed[k]).len()) =~= d.subrange(
                dk,
                dk + delete_statement(removed[k]).len(),
            ));
        }
    }
}

/// The challenges behind a list of references.
pub open spec fn derefs(cs: Seq<&Challenge>) -> Seq<Challenge> {
    cs.map_values(|c: &Challenge| *c)
}

proof fn lemma_rendered_deletes(out: Seq<char>, changed: Seq<&Challenge>, removed: Seq<String>)
    requires
        out == migration_sql(derefs(changed), views(removed)),
    ensures
        forall|k: int|
            #![trigger removed[k]]
            0 <= k < removed.len() ==> out.subrange(
                (MIGRATION_HEADER@.len() + REMOVED_NOTE@.len() + delete_offset(views(removed), k as nat)) as int,
                (MIGRATION_HEADER@.len() + REMOVED_NOTE@.len() + delete_offset(views(removed), k as nat)
                    + delete_statement(removed[k]@).len()) as int,
            ) == delete_statement(removed[k]@),
{
    lemma_migration_deletes_every_removed(derefs(changed), views(removed));
    assert forall|k: int| #![trigger removed[k]] 0 <= k < removed.len() implies out.subrange(
        (MIGRATION_HEADER@.len() + REMOVED_NOTE@.len() + delete_offset(views(removed), k as nat)) as int,
        (MIGRATION_HEADER@.len() + REMOVED_NOTE@.len() + delete_offset(views(removed), k as nat)
            + delete_statement(removed[k]@).len()) as int,
    ) == delete_statement(removed[k]@) by {
        assert(views(removed)[k] == removed[k]@);
    }
}

/// Render the migration for the `changed` challenges and the `removed` slugs.
pub fn render_migration_sql(changed: &[&Challenge], removed: &[String]) -> (r: String)
    ensures
        r@ == migration_sql(derefs(changed@), views(removed@)),
        forall|k: int|
            #![trigger removed@[k]]
            0 <= k < removed@.len() ==> r@.subrange(
                (MIGRATION_HEADER@.len() + REMOVED_NOTE@.len() + delete_offset(views(removed@), k as nat)) as int,
                (MIGRATION_HEADER@.len() + REMOVED_NOTE@.len() + delete_offset(views(removed@), k as nat)
                    + delete_statement(removed@[k]@).len()) as int,
            ) == delete_statement(removed@[k]@),
{
    let mut out = owned(MIGRATION_HEADER);
    if removed.len() > 0 {
        out.append(REMOVED_NOTE);
        let ghost base = out@;
        let mut i: usize = 0;
        while i < removed.len()
            invariant
                i <= removed@.len(),
                out@ == base + deletes_sql(views(removed@).take(i as int)),
            decreases removed@.len() - i,
        {
            out.append(DELETE_PREFIX);
            append_escaped(&mut out, removed[i].as_str());
            out.append(DELETE_SUFFIX);
            assert(views(removed@).take(i + 1).drop_last() =~= views(removed@).take(i as int));
            i = i + 1;
        }
        assert(views(removed@).take(removed@.len() as int) =~= views(removed@));
        out.push('\n');
    }
    let ghost base2 = out@;
    let mut k: usize = 0;
    while k < changed.len()
        invariant
            k <= changed@.len(),
            out@ == base2 + upserts_sql(derefs(changed@).take(k as int)),
        decreases changed@.len() - k,
    {
        let block = render_upsert(changed[k]);
        out.append(block.as_str());
        out.push('\n');
        assert(derefs(changed@).take(k + 1).drop_last() =~= derefs(changed@).take(k as int));
        k = k + 1;
    }
    assert(derefs(changed@).take(changed@.len() as int) =~= derefs(changed@));
    assert(out@ =~= migration_sql(derefs(changed@), views(removed@)));
    proof {
        lemma_rendered_deletes(out@, changed@, removed@);
    }
    out
}

/// `n` in decimal, padded with zeros to at least three digits (`{:03}`).
pub open spec fn pad3(n: nat) -> Seq<char> {
    if n < 10 {
        seq!['0', '0'] + decimal(n)
    } else if n < 100 {
        seq!['0'] + decimal(n)
    } else {
        decimal(n)
    }
}

/// The stem of a migration file name: `NNN_challenges_content_<date>`.
pub open spec fn migration_stub(num: nat, date: Seq<char>) -> Seq<char> {
    pad3(num) + "_challenges_content_"@ + date
}

/// The stem of the migration file numbered `num` and dated `date`.
pub fn migration_file_stub(num: u32, date: &str) -> (r: String)
    ensures
        r@ == migration_stub(num as nat, date@),
{
    let mut out = String::new();
    if num < 10 {
        out.push('0');
        out.push('0');
    } else if num < 100 {
        out.push('0');
    }
    push_decimal(&mut out, num as u64);
    out.append("_challenges_content_");
    out.append(date);
    assert(out@ =~= migration_stub(num as nat, date@));
    out
}

/// The value of a string of ASCII decimal digits.
pub open spec fn digits_value(d: Seq<char>) -> nat
    decreases d.len(),
{
    if d.len() == 0 {
        0
    } else {
        digits_value(d.drop_last()) * 10 + ((d.last() as nat) - 48) as nat
    }
}

/// Whether every character of `d` is an ASCII decimal digit.
pub open spec fn all_digits(d: Seq<char>) -> bool {
    forall|i: int| 0 <= i < d.len() ==> '0' <= #[trigger] d[i] && d[i] <= '9'
}

/// The digits of an unsigned number: the text after one optional `+`.
pub open spec fn unsigned_digits(s: Seq<char>) -> Seq<char> {
    if s.len() > 0 && s[0] == '+' {
        s.drop_first()
    } else {
        s
    }
}

/// The number a string denotes as a `u32` (`str::parse::<u32>`): an optional
/// `+`, then at least one ASCII digit, and a value that fits in 32 bits.
pub open spec fn parse_u32(s: Seq<char>) -> Option<nat> {
    let d = unsigned_digits(s);
    if d.len() > 0 && all_digits(d) && digits_value(d) <= u32::MAX {
        Some(digits_value(d))
    } else {
        None
    }
}

proof fn lemma_digits_value_grows(d: Seq<char>, k: int)
    requires
        0 <= k <= d.len(),
        all_digits(d),
    ensures
        digits_value(d.take(k)) <= digits_value(d),
    decreases d.len() - k,
{
    if k < d.len() {
        lemma_digits_value_grows(d, k + 1);
        assert(d.take(k + 1).drop_last() =~= d.take(k));
        assert('0' <= d[k] && d[k] <= '9');
    } else {
        assert(d.take(k) =~= d);
    }
}

/// Parse `s` as a `u32` in the sense of `parse_u32`.
pub fn parse_u32_text(s: &str) -> (r: Option<u32>)
    ensures
        match parse_u32(s@) {
            Some(n) => r == Some(n as u32),
            None => r is None,
        },
{
    let v = chars_of(s);
    let start: usize = if v.len() > 0 && v[0] == '+' { 1 } else { 0 };
    let ghost d = unsigned_digits(s@);
    assert(d =~= v@.subrange(start as int, v@.len() as int));
    if start >= v.len() {
        return None;
    }
    let mut acc: u64 = 0;
    let mut i = start;
    while i < v.len()
        invariant
            v@ == s@,
            start <= i <= v@.len(),
            d == v@.subrange(start as int, v@.len() as int),
            d == unsigned_digits(s@),
            all_digits(d.take(i - start)),
            acc as nat == digits_value(d.take(i - start)),
            acc <= u32::MAX,
        decreases v@.len() - i,
    {
        let c = v[i];
        if c < '0' || c > '9' {
            assert(d[i - start] == c);
            assert(!all_digits(d));
            assert(parse_u32(s@) is None);
            return None;
        }
        let dv: u64 = (c as u64) - 48;
        assert(d.take(i + 1 - start).drop_last() =~= d.take(i - start));
        assert(d.take(i + 1 - start).last() == c);
        let next = acc * 10 + dv;
        assert(digits_value(d.take(i + 1 - start)) == digits_value(d.take(i - start)) * 10 + dv);
        assert(all_digits(d.take(i + 1 - start)));
        if next > 4294967295u64 {
            proof {
                assert(all_digits(d.take(i + 1 - start)));
                if all_digits(d) {
                    lemma_digits_value_grows(d, i + 1 - start);
                }
                assert(parse_u32(s@) is None);
            }
            return None;
        }
        acc = next;
        i = i + 1;
    }
    assert(d.take(i - start) =~= d);
    Some(acc as u32)
}

/// The migration number a file name carries: its prefix before the first
/// `_`, read as a `u32`.
pub open spec fn migration_number(name: Seq<char>) -> Option<nat> {
    parse_u32(before_first(name, '_'))
}

/// The largest migration number among `names`, 0 when none carries one.
pub open spec fn max_migration_number(names: Seq<Seq<char>>) -> nat
    decreases names.len(),
{
    if names.len() == 0 {
        0
    } else {
        let rest = max_migration_number(names.drop_last());
        match migration_number(names.last()) {
            Some(n) => if n > rest {
                n
            } else {
                rest
            },
            None => rest,
        }
    }
}

/// The largest migration number bounds the number of every file name, and is
/// the number of one of them unless it is 0.
pub proof fn lemma_max_migration_number(names: Seq<Seq<char>>)
    ensures
        forall|i: int|
            0 <= i < names.len() && migration_number(#[trigger] names[i]) is Some ==> migration_number(
                names[i],
            )->0 <= max_migration_number(names),
        max_migration_number(names) > 0 ==> exists|i: int|
            0 <= i < names.len() && migration_number(#[trigger] names[i]) == Some(
                max_migration_number(names),
            ),
    decreases names.len(),
{
    if names.len() > 0 {
        let init = names.drop_last();
        lemma_max_migration_number(init);
        assert forall|i: int|
            0 <= i < names.len() && migration_number(#[trigger] names[i]) is Some implies migration_number(
                names[i],
            )->0 <= max_migration_number(names) by {
            if i < init.len() {
                assert(init[i] == names[i]);
            }
        }
        if max_migration_number(names) > 0 {
            if max_migration_number(names) == max_migration_number(init) {
                let i = choose|i: int|
                    0 <= i < init.len() && migration_number(#[trigger] init[i]) == Some(
                        max_migration_number(init),
                    );
                assert(names[i] == init[i]);
            } else {
                assert(migration_number(names[names.len() - 1]) == Some(max_migration_number(names)));
            }
        }
    }
}

proof fn lemma_max_bounded(names: Seq<Seq<char>>)
    ensures
        max_migration_number(names) <= u32::MAX,
    decreases names.len(),
{
    if names.len() > 0 {
        lemma_max_bounded(names.drop_last());
    }
}

/// The number of the next migration: one more than the largest number that
/// a file name in `names` carries (0 when none does). `None` when that
/// largest number is already `u32::MAX`.
pub fn next_migration_number(names: &[String]) -> (r: Option<u32>)
    ensures
        max_migration_number(views(names@)) < u32::MAX ==> r == Some(
            (max_migration_number(views(names@)) + 1) as u32,
        ),
        max_migration_number(views(names@)) == u32::MAX ==> r is None,
{
    let mut max: u32 = 0;
    let mut i: usize = 0;
    while i < names.len()
        invariant
            i <= names@.len(),
            max as nat == max_migration_number(views(names@).take(i as int)),
        decreases names@.len() - i,
    {
        let prefix = prefix_before(names[i].as_str(), '_');
        let parsed = parse_u32_text(prefix);
        assert(views(names@).take(i + 1).drop_last() =~= views(names@).take(i as int));
        match parsed {
            Some(n) => {
                if n > max {
                    max = n;
                }
            },
            None => {},
        }
        i = i + 1;
    }
    assert(views(names@).take(names@.len() as int) =~= views(names@));
    proof {
        lemma_max_bounded(views(names@));
    }
    if max == u32::MAX {
        None
    } else {
        Some(max + 1)
    }
}

// ── schema and row values ───────────────────────────────────────────────────

/// Whether `column` is among the column names `cols`.
pub fn has_column(cols: &[String], column: &str) -> (r: bool)
    ensures
        r == views(cols@).contains(column@),
{
    let mut i: usize = 0;
    while i < cols.len()
        invariant
            i <= cols@.len(),
            forall|j: int| 0 <= j < i ==> cols@[j]@ != column@,
        decreases cols@.len() - i,
    {
        if crate::text::text_eq(cols[i].as_str(), column) {
            assert(views(cols@)[i as int] == column@);
            return true;
        }
        i = i + 1;
    }
    proof {
        if views(cols@).contains(column@) {
            let j = choose|j: int| 0 <= j < views(cols@).len() && views(cols@)[j] == column@;
            assert(cols@[j]@ == column@);
        }
    }
    false
}

/// Why the challenges schema cannot be used.
#[derive(Debug, Clone, Copy, PartialEq, Eq, Structural)]
pub enum SchemaError {
    /// The database has no `challenges` table.
    MissingChallengesTable,
}

/// What the schema check decides from the number of `challenges` tables and
/// whether the `content_sha` column exists: an error without the table,
/// otherwise whether the column must be added.
pub fn schema_action(challenges_tables: i64, has_content_sha: bool) -> (r: Result<bool, SchemaError>)
    ensures
        challenges_tables == 0 ==> r == Err::<bool, SchemaError>(SchemaError::MissingChallengesTable),
        challenges_tables != 0 ==> r == Ok::<bool, SchemaError>(!has_content_sha),
{
    if challenges_tables == 0 {
        Err(SchemaError::MissingChallengesTable)
    } else {
        Ok(!has_content_sha)
    }
}

/// The values of a challenge row that are derived rather than copied.
#[derive(Debug, Clone)]
pub struct UpsertParams {
    /// The job slug to look up, when there is a non-empty one.
    pub job_lookup: Option<String>,
    /// The comma-joined tech stack, or `None` when that join is empty.
    pub tech_stack: Option<String>,
    /// The featured flag as an integer.
    pub featured: i64,
}

/// The derived values of a challenge row.
pub fn upsert_params(c: &Challenge) -> (r: UpsertParams)
    ensures
        match opt_view(c.fm.job_slug) {
            Some(s) => if s.len() > 0 {
                opt_view(r.job_lookup) == Some(s)
            } else {
                r.job_lookup is None
            },
            None => r.job_lookup is None,
        },
        join(views(c.fm.tech_stack@), seq![',']).len() == 0 ==> r.tech_stack is None,
        r.tech_stack is None <==> (c.fm.tech_stack@.len() == 0 || (c.fm.tech_stack@.len() == 1
            && c.fm.tech_stack@[0]@.len() == 0)),
        c.fm.tech_stack@.len() == 1 ==> (c.fm.tech_stack@[0]@.len() > 0 ==> opt_view(r.tech_stack) == Some(
            c.fm.tech_stack@[0]@,
        )),
        join(views(c.fm.tech_stack@), seq![',']).len() > 0 ==> opt_view(r.tech_stack) == Some(
            join(views(c.fm.tech_stack@), seq![',']),
        ),
        r.featured == (if c.fm.featured {
            1i64
        } else {
            0i64
        }),
{
    let job_lookup = match &c.fm.job_slug {
        Some(s) => {
            if s.as_str().is_empty() {
                None
            } else {
                Some(s.clone())
            }
        },
        None => None,
    };
    let joined = join_strings(&c.fm.tech_stack, ",");
    proof {
        reveal_strlit(",");
    }
    assert(","@ =~= seq![',']);
    proof {
        lemma_join_empty(views(c.fm.tech_stack@), seq![',']);
        if c.fm.tech_stack@.len() == 1 {
            lemma_join_layout(views(c.fm.tech_stack@), seq![',']);
        }
    }
    let tech_stack = if joined.as_str().is_empty() {
        None
    } else {
        Some(joined)
    };
    let featured: i64 = if c.fm.featured {
        1
    } else {
        0
    };
    UpsertParams { job_lookup, tech_stack, featured }
}

// ── reading an upsert as SQL ────────────────────────────────────────────────

/// Where a left-to-right SQL reader stands: in code, just after a `-` in
/// code, inside a quoted string literal, or inside a `--` line comment.
pub enum SqlRead {
    Code,
    Dash,
    Literal,
    Comment,
}

/// One character of SQL reading: what it adds to the code outside literals
/// and comments, and where the reader then stands. A quote opens or closes a
/// literal (a doubled quote inside one closes it and at once reopens it,
/// adding nothing); `--` opens a comment, which a newline ends.
pub open spec fn sql_step(st: SqlRead, ch: char) -> (Seq<char>, SqlRead) {
    match st {
        SqlRead::Code => if ch == '\'' {
            (Seq::empty(), SqlRead::Literal)
        } else if ch == '-' {
            (Seq::empty(), SqlRead::Dash)
        } else {
            (seq![ch], SqlRead::Code)
        },
        SqlRead::Dash => if ch == '-' {
            (Seq::empty(), SqlRead::Comment)
        } else if ch == '\'' {
            (seq!['-'], SqlRead::Literal)
        } else {
            (seq!['-', ch], SqlRead::Code)
        },
        SqlRead::Literal => if ch == '\'' {
            (Seq::empty(), SqlRead::Code)
        } else {
            (Seq::empty(), SqlRead::Literal)
        },
        SqlRead::Comment => if ch == '\n' {
            (Seq::empty(), SqlRead::Code)
        } else {
            (Seq::empty(), SqlRead::Comment)
        },
    }
}

/// How SQL reads `t` from `st`: the code outside literals and comments, and
/// where the reader stands at the end.
pub open spec fn sql_read(t: Seq<char>, st: SqlRead) -> (Seq<char>, SqlRead)
    decreases t.len(),
{
    if t.len() == 0 {
        (Seq::empty(), st)
    } else {
        let step = sql_step(st, t[0]);
        let rest = sql_read(t.drop_first(), step.1);
        (step.0 + rest.0, rest.1)
    }
}

/// Reading `t` from `st` ends in `end` and adds no `;` to the code.
#[verifier::opaque]
pub open spec fn reads_to(t: Seq<char>, st: SqlRead, end: SqlRead) -> bool {
    sql_read(t, st).1 == end && !sql_read(t, st).0.contains(';')
}

proof fn lemma_read_concat(a: Seq<char>, b: Seq<char>, st: SqlRead)
    ensures
        sql_read(a + b, st) == (sql_read(a, st).0 + sql_read(b, sql_read(a, st).1).0, sql_read(
            b,
            sql_read(a, st).1,
        ).1),
    decreases a.len(),
{
    if a.len() == 0 {
        assert(a + b =~= b);
        assert(sql_read(a, st).0 + sql_read(b, st).0 =~= sql_read(b, st).0);
    } else {
        let step = sql_step(st, a[0]);
        assert((a + b).drop_first() =~= a.drop_first() + b);
        lemma_read_concat(a.drop_first(), b, step.1);
        let x = sql_read(a.drop_first(), step.1);
        let y = sql_read(b, x.1);
        assert(step.0 + (x.0 + y.0) =~= (step.0 + x.0) + y.0);
    }
}

proof fn lemma_no_semicolon_concat(a: Seq<char>, b: Seq<char>)
    requires
        !a.contains(';'),
        !b.contains(';'),
    ensures
        !(a + b).contains(';'),
{
    if (a + b).contains(';') {
        let i = choose|i: int| 0 <= i < (a + b).len() && (a + b)[i] == ';';
        if i < a.len() {
            assert(a[i] == ';');
        } else {
            assert(b[i - a.len()] == ';');
        }
    }
}

proof fn lemma_reads_concat(a: Seq<char>, b: Seq<char>, s0: SqlRead, s1: SqlRead, s2: SqlRead)
    requires
        reads_to(a, s0, s1),
        reads_to(b, s1, s2),
    ensures
        reads_to(a + b, s0, s2),
{
    reveal(reads_to);
    lemma_read_concat(a, b, s0);
    lemma_no_semicolon_concat(sql_read(a, s0).0, sql_read(b, s1).0);
}

/// Code without quotes or dashes reads as itself.
proof fn lemma_read_plain(t: Seq<char>)
    requires
        !t.contains('\''),
        !t.contains('-'),
    ensures
        sql_read(t, SqlRead::Code) == (t, SqlRead::Code),
    decreases t.len(),
{
    if t.len() > 0 {
        assert(t[0] != '\'' && t[0] != '-') by {
            assert(t.contains(t[0]));
        }
        let r = t.drop_first();
        assert(!r.contains('\'') && !r.contains('-')) by {
            if r.contains('\'') {
                let i = choose|i: int| 0 <= i < r.len() && r[i] == '\'';
                assert(t[i + 1] == '\'');
            }
            if r.contains('-') {
                let i = choose|i: int| 0 <= i < r.len() && r[i] == '-';
                assert(t[i + 1] == '-');
            }
        }
        lemma_read_plain(r);
        assert(seq![t[0]] + r =~= t);
    }
}

proof fn lemma_reads_plain(t: Seq<char>)
    requires
        !t.contains('\''),
        !t.contains('-'),
        !t.contains(';'),
    ensures
        reads_to(t, SqlRead::Code, SqlRead::Code),
{
    reveal(reads_to);
    lemma_read_plain(t);
}

/// Text without quotes inside a literal adds nothing and leaves it open.
proof fn lemma_read_in_literal(t: Seq<char>)
    requires
        !t.contains('\''),
    ensures
        sql_read(t, SqlRead::Literal) == (Seq::<char>::empty(), SqlRead::Literal),
    decreases t.len(),
{
    if t.len() > 0 {
        assert(t.contains(t[0]));
        let r = t.drop_first();
        assert(!r.contains('\'')) by {
            if r.contains('\'') {
                let i = choose|i: int| 0 <= i < r.len() && r[i] == '\'';
                assert(t[i + 1] == '\'');
            }
        }
        lemma_read_in_literal(r);
    }
}

/// Text without newlines inside a comment adds nothing and leaves it open.
proof fn lemma_read_in_comment(t: Seq<char>)
    requires
        !t.contains('\n'),
    ensures
        sql_read(t, SqlRead::Comment) == (Seq::<char>::empty(), SqlRead::Comment),
    decreases t.len(),
{
    if t.len() > 0 {
        assert(t.contains(t[0]));
        let r = t.drop_first();
        assert(!r.contains('\n')) by {
            if r.contains('\n') {
                let i = choose|i: int| 0 <= i < r.len() && r[i] == '\n';
                assert(t[i + 1] == '\n');
            }
        }
        lemma_read_in_comment(r);
    }
}

/// An escaped text inside a literal adds nothing and leaves it open: each
/// doubled quote closes and reopens it.
proof fn lemma_read_escaped(s: Seq<char>)
    ensures
        sql_read(escape_sql_text(s), SqlRead::Literal) == (Seq::<char>::empty(), SqlRead::Literal),
    decreases s.len(),
{
    if s.len() > 0 {
        let init = s.drop_last();
        lemma_read_escaped(init);
        lemma_read_concat(escape_sql_text(init), quote_char(s.last()), SqlRead::Literal);
        reveal_with_fuel(sql_read, 3);
        if s.last() == '\'' {
            assert(quote_char(s.last()).drop_first() =~= seq!['\'']);
            assert(seq!['\''].drop_first() =~= Seq::<char>::empty());
        } else {
            assert(quote_char(s.last()).drop_first() =~= Seq::<char>::empty());
        }
        assert(Seq::<char>::empty() + Seq::<char>::empty() =~= Seq::<char>::empty());
    }
}

/// A quoted, escaped literal read from code adds nothing and returns to code.
proof fn lemma_reads_quoted(s: Seq<char>)
    ensures
        reads_to(seq!['\''] + escape_sql_text(s) + seq!['\''], SqlRead::Code, SqlRead::Code),
{
    reveal(reads_to);
    let q = seq!['\''];
    reveal_with_fuel(sql_read, 2);
    assert(q.drop_first() =~= Seq::<char>::empty());
    assert(reads_to(q, SqlRead::Code, SqlRead::Literal));
    lemma_read_escaped(s);
    assert(reads_to(escape_sql_text(s), SqlRead::Literal, SqlRead::Literal));
    assert(reads_to(q, SqlRead::Literal, SqlRead::Code));
    lemma_reads_concat(q, escape_sql_text(s), SqlRead::Code, SqlRead::Literal, SqlRead::Literal);
    lemma_reads_concat(q + escape_sql_text(s), q, SqlRead::Code, SqlRead::Literal, SqlRead::Code);
}

proof fn lemma_reads_null()
    ensures
        reads_to("NULL"@, SqlRead::Code, SqlRead::Code),
{
    reveal_strlit("NULL");
    lemma_reads_plain("NULL"@);
}

proof fn lemma_reads_text_or_null(v: Option<Seq<char>>)
    ensures
        reads_to(sql_text_or_null(v), SqlRead::Code, SqlRead::Code),
{
    lemma_reads_null();
    match v {
        Some(s) => if s.len() > 0 {
            lemma_reads_quoted(s);
        },
        None => {},
    }
}

proof fn lemma_reads_tech_stack(tech: Seq<Seq<char>>)
    ensures
        reads_to(tech_stack_sql(tech), SqlRead::Code, SqlRead::Code),
{
    lemma_reads_null();
    lemma_reads_quoted(join(tech, seq![',']));
}

proof fn lemma_reads_job_id(job_slug: Option<Seq<char>>)
    ensures
        reads_to(job_id_sql(job_slug), SqlRead::Code, SqlRead::Code),
{
    lemma_reads_null();
    match job_slug {
        Some(s) => if s.len() > 0 {
            let head = "(SELECT id FROM jobs WHERE slug = '"@;
            let tail = "')"@;
            reveal_strlit("(SELECT id FROM jobs WHERE slug = '");
            reveal_strlit("')");
            let body = head.drop_last();
            assert(head =~= body + seq!['\'']);
            assert(tail =~= seq!['\''] + seq![')']);
            lemma_reads_plain(body);
            lemma_reads_plain(seq![')']);
            lemma_reads_quoted(s);
            lemma_reads_concat(body, seq!['\''] + escape_sql_text(s) + seq!['\''], SqlRead::Code, SqlRead::Code, SqlRead::Code);
            lemma_reads_concat(body + (seq!['\''] + escape_sql_text(s) + seq!['\'']), seq![')'], SqlRead::Code, SqlRead::Code, SqlRead::Code);
            assert(head + escape_sql_text(s) + tail =~= body + (seq!['\''] + escape_sql_text(s) + seq!['\'']) + seq![')']);
        },
        None => {},
    }
}

proof fn lemma_decimal_digits(n: nat)
    ensures
        decimal(n).len() >= 1,
        forall|i: int| 0 <= i < decimal(n).len() ==> '0' <= #[trigger] decimal(n)[i] <= '9',
    decreases n,
{
    if n >= 10 {
        lemma_decimal_digits(n / 10);
    }
}

proof fn lemma_reads_signed_decimal(n: int)
    ensures
        reads_to(signed_decimal(n), SqlRead::Code, SqlRead::Code),
{
    reveal(reads_to);
    let d = decimal(if n < 0 { (-n) as nat } else { n as nat });
    lemma_decimal_digits(if n < 0 { (-n) as nat } else { n as nat });
    assert(!d.contains('\'') && !d.contains('-') && !d.contains(';')) by {
        if d.contains('\'') || d.contains('-') || d.contains(';') {
            let i = choose|i: int| 0 <= i < d.len() && (d[i] == '\'' || d[i] == '-' || d[i] == ';');
            assert('0' <= d[i] <= '9');
        }
    }
    lemma_reads_plain(d);
    if n < 0 {
        let t = seq!['-'] + d;
        assert(t.drop_first() =~= d);
        let r = d.drop_first();
        assert(!r.contains('\'') && !r.contains('-')) by {
            if r.contains('\'') || r.contains('-') {
                let i = choose|i: int| 0 <= i < r.len() && (r[i] == '\'' || r[i] == '-');
                assert(d[i + 1] == r[i]);
            }
        }
        lemma_read_plain(r);
        assert('0' <= d[0] <= '9');
        assert(sql_read(d, SqlRead::Dash) == (seq!['-', d[0]] + r, SqlRead::Code));
        assert(seq!['-', d[0]] + r =~= t);
        assert(!t.contains(';')) by {
            if t.contains(';') {
                let i = choose|i: int| 0 <= i < t.len() && t[i] == ';';
                assert(i > 0);
                assert(t[i] == d[i - 1]);
            }
        }
        assert(sql_read(t, SqlRead::Code) == (Seq::<char>::empty() + (seq!['-', d[0]] + r), SqlRead::Code));
        assert(Seq::<char>::empty() + (seq!['-', d[0]] + r) =~= t);
    }
}

proof fn lemma_reads_flag(b: bool)
    ensures
        reads_to(flag_sql(b), SqlRead::Code, SqlRead::Code),
{
    lemma_reads_plain(seq!['1']);
    lemma_reads_plain(seq!['0']);
}

/// Facts about the fixed parts of an upsert: the column list and the
/// conflict clause are plain code around one quote each, and the only `;`
/// is the conflict clause's last but one character.
proof fn lemma_upsert_fixed_parts()
    ensures
        UPSERT_COLUMNS@.len() >= 2,
        UPSERT_COLUMNS@[0] == '\n',
        UPSERT_COLUMNS@.last() == '\'',
        ({
            let head = UPSERT_COLUMNS@.subrange(1, UPSERT_COLUMNS@.len() - 1);
            !head.contains('\'') && !head.contains('-') && !head.contains(';')
        }),
        UPSERT_CONFLICT@.len() >= 3,
        UPSERT_CONFLICT@[0] == '\'',
        ({
            let tail = UPSERT_CONFLICT@.drop_first();
            &&& !tail.contains('\'')
            &&& !tail.contains('-')
            &&& tail[tail.len() - 2] == ';'
            &&& tail[tail.len() - 1] == '\n'
            &&& !tail.subrange(0, tail.len() - 2).contains(';')
        }),
        UPSERT_WRAP@.len() > 0,
        !UPSERT_WRAP@.contains('\''),
        !UPSERT_WRAP@.contains('-'),
        !UPSERT_WRAP@.contains(';'),
        UPSERT_SOURCE@.len() >= 2,
        UPSERT_SOURCE@[0] == '-',
        UPSERT_SOURCE@[1] == '-',
        !UPSERT_SOURCE@.contains('\n'),
{
    reveal_strlit("\n\
         INSERT INTO challenges (slug, title, job_id, description, short_description, tech_stack, category, url, image_url,\n\
         \x20                    problem, constraints, decisions, implementation, outcomes, metrics,\n\
         \x20                    related_job_slug, related_plan_module, related_adr, featured, sort_order, content_sha)\n\
         VALUES ('");
    reveal_strlit("')\n\
         ON CONFLICT(slug) DO UPDATE SET\n\
         \x20   title = excluded.title,\n\
         \x20   job_id = excluded.job_id,\n\
         \x20   description = excluded.description,\n\
         \x20   short_description = excluded.short_description,\n\
         \x20   tech_stack = excluded.tech_stack,\n\
         \x20   category = excluded.category,\n\
         \x20   url = excluded.url,\n\
         \x20   image_url = excluded.image_url,\n\
         \x20   problem = excluded.problem,\n\
         \x20   constraints = excluded.constraints,\n\
         \x20   decisions = excluded.decisions,\n\
         \x20   implementation = excluded.implementation,\n\
         \x20   outcomes = excluded.outcomes,\n\
         \x20   metrics = excluded.metrics,\n\
         \x20   related_job_slug = excluded.related_job_slug,\n\
         \x20   related_plan_module = excluded.related_plan_module,\n\
         \x20   related_adr = excluded.related_adr,\n\
         \x20   featured = excluded.featured,\n\
         \x20   sort_order = excluded.sort_order,\n\
         \x20   content_sha = excluded.content_sha;\n");
    reveal_strlit(",\n\
         \x20       ");
    reveal_strlit("-- source: ");
    assert(UPSERT_COLUMNS@ == ("\n\
         INSERT INTO challenges (slug, title, job_id, description, short_description, tech_stack, category, url, image_url,\n\
         \x20                    problem, constraints, decisions, implementation, outcomes, metrics,\n\
         \x20                    related_job_slug, related_plan_module, related_adr, featured, sort_order, content_sha)\n\
         VALUES ('")@);
    assert(UPSERT_CONFLICT@ == ("')\n\
         ON CONFLICT(slug) DO UPDATE SET\n\
         \x20   title = excluded.title,\n\
         \x20   job_id = excluded.job_id,\n\
         \x20   description = excluded.description,\n\
         \x20   short_description = excluded.short_description,\n\
         \x20   tech_stack = excluded.tech_stack,\n\
         \x20   category = excluded.category,\n\
         \x20   url = excluded.url,\n\
         \x20   image_url = excluded.image_url,\n\
         \x20   problem = excluded.problem,\n\
         \x20   constraints = excluded.constraints,\n\
         \x20   decisions = excluded.decisions,\n\
         \x20   implementation = excluded.implementation,\n\
         \x20   outcomes = excluded.outcomes,\n\
         \x20   metrics = excluded.metrics,\n\
         \x20   related_job_slug = excluded.related_job_slug,\n\
         \x20   related_plan_module = excluded.related_plan_module,\n\
         \x20   related_adr = excluded.related_adr,\n\
         \x20   featured = excluded.featured,\n\
         \x20   sort_order = excluded.sort_order,\n\
         \x20   content_sha = excluded.content_sha;\n")@);
    assert(UPSERT_WRAP@ == (",\n\
         \x20       ")@);
    assert(UPSERT_SOURCE@ == ("-- source: ")@);
}

/// The small separators of an upsert, read from where they stand.
proof fn lemma_upsert_separators()
    ensures
        reads_to("', '"@, SqlRead::Literal, SqlRead::Literal),
        reads_to("', "@, SqlRead::Literal, SqlRead::Code),
        reads_to(", '"@, SqlRead::Code, SqlRead::Literal),
        reads_to(", "@, SqlRead::Code, SqlRead::Code),
{
    reveal(reads_to);
    reveal_strlit("', '");
    reveal_strlit("', ");
    reveal_strlit(", '");
    reveal_strlit(", ");
    reveal_with_fuel(sql_read, 5);
    let a = "', '"@;
    let b = "', "@;
    let c = ", '"@;
    let d = ", "@;
    assert(a.drop_first() =~= seq![',', ' ', '\'']);
    assert(a.drop_first().drop_first() =~= seq![' ', '\'']);
    assert(a.drop_first().drop_first().drop_first() =~= seq!['\'']);
    assert(seq!['\''].drop_first() =~= Seq::<char>::empty());
    assert(b.drop_first() =~= seq![',', ' ']);
    assert(b.drop_first().drop_first() =~= seq![' ']);
    assert(seq![' '].drop_first() =~= Seq::<char>::empty());
    assert(c.drop_first() =~= seq![' ', '\'']);
    assert(c.drop_first().drop_first() =~= seq!['\'']);
    assert(d.drop_first() =~= seq![' ']);
    assert(sql_read(a, SqlRead::Literal).0 =~= seq![',', ' ']);
    assert(sql_read(b, SqlRead::Literal).0 =~= seq![',', ' ']);
    assert(sql_read(c, SqlRead::Code).0 =~= seq![',', ' ']);
    assert(sql_read(d, SqlRead::Code).0 =~= seq![',', ' ']);
}

proof fn lemma_reads_escaped(s: Seq<char>)
    ensures
        reads_to(escape_sql_text(s), SqlRead::Literal, SqlRead::Literal),
{
    reveal(reads_to);
    lemma_read_escaped(s);
}

proof fn lemma_reads_in_literal(t: Seq<char>)
    requires
        !t.contains('\''),
    ensures
        reads_to(t, SqlRead::Literal, SqlRead::Literal),
{
    reveal(reads_to);
    lemma_read_in_literal(t);
}

/// The comment line and the column list of an upsert: read from code, they
/// end inside the literal of the slug.
proof fn lemma_reads_comment_and_columns(path: Seq<char>)
    requires
        !path.contains('\n'),
    ensures
        reads_to(UPSERT_SOURCE@ + path + UPSERT_COLUMNS@, SqlRead::Code, SqlRead::Literal),
{
    reveal(reads_to);
    lemma_upsert_fixed_parts();
    let lit = SqlRead::Literal;
    let code = SqlRead::Code;
    let src = UPSERT_SOURCE@;
    reveal_with_fuel(sql_read, 3);
    lemma_read_in_comment(src.drop_first().drop_first());
    assert(src.drop_first().drop_first().len() + 2 == src.len());
    assert(!src.drop_first().drop_first().contains('\n')) by {
        if src.drop_first().drop_first().contains('\n') {
            let i = choose|i: int| 0 <= i < src.drop_first().drop_first().len() && src.drop_first().drop_first()[i] == '\n';
            assert(src[i + 2] == '\n');
        }
    }
    assert(reads_to(src, code, SqlRead::Comment));
    lemma_read_in_comment(path);
    lemma_reads_concat(src, path, code, SqlRead::Comment, SqlRead::Comment);
    let x = src + path;
    // the column list
    let cols = UPSERT_COLUMNS@;
    let head = cols.subrange(1, cols.len() - 1);
    assert(cols =~= seq!['\n'] + head + seq!['\'']);
    lemma_reads_plain(head);
    assert(reads_to(seq!['\n'], SqlRead::Comment, code)) by {
        assert(seq!['\n'].drop_first() =~= Seq::<char>::empty());
    }
    assert(reads_to(seq!['\''], code, lit)) by {
        assert(seq!['\''].drop_first() =~= Seq::<char>::empty());
    }
    lemma_reads_concat(seq!['\n'], head, SqlRead::Comment, code, code);
    lemma_reads_concat(seq!['\n'] + head, seq!['\''], SqlRead::Comment, code, lit);
    lemma_reads_concat(x, cols, code, SqlRead::Comment, lit);
}

/// The conflict clause closes the hash literal and ends the statement: the
/// only `;` of the code is its last but one character.
proof fn lemma_read_conflict_end(x: Seq<char>)
    requires
        reads_to(x, SqlRead::Code, SqlRead::Literal),
    ensures
        ({
            let r = sql_read(x + UPSERT_CONFLICT@, SqlRead::Code);
            &&& r.1 == SqlRead::Code
            &&& r.0.len() >= 2
            &&& r.0[r.0.len() - 2] == ';'
            &&& r.0[r.0.len() - 1] == '\n'
            &&& !r.0.subrange(0, r.0.len() - 2).contains(';')
        }),
{
    reveal(reads_to);
    lemma_upsert_fixed_parts();
    let lit = SqlRead::Literal;
    let code = SqlRead::Code;
    let conf = UPSERT_CONFLICT@;
    let tail = conf.drop_first();
    assert(conf =~= seq!['\''] + tail);
    lemma_read_plain(tail);
    lemma_read_concat(seq!['\''], tail, lit);
    assert(seq!['\''].drop_first() =~= Seq::<char>::empty());
    reveal_with_fuel(sql_read, 2);
    assert(sql_read(conf, lit) == (tail, code)) by {
        assert(Seq::<char>::empty() + tail =~= tail);
    }
    lemma_read_concat(x, conf, code);
    let r = sql_read(x + conf, code);
    let pre = sql_read(x, code).0;
    assert(r.0 == pre + tail);
    assert(r.0.subrange(0, r.0.len() - 2) =~= pre + tail.subrange(0, tail.len() - 2));
    lemma_no_semicolon_concat(pre, tail.subrange(0, tail.len() - 2));
}

proof fn lemma_prefix_extend(p: Seq<char>, x: Seq<char>, piece: Seq<char>)
    requires
        p.len() <= x.len(),
        x.subrange(0, p.len() as int) == p,
    ensures
        p.len() <= (x + piece).len(),
        (x + piece).subrange(0, p.len() as int) == p,
{
    assert((x + piece).subrange(0, p.len() as int) =~= x.subrange(0, p.len() as int));
}

/// An upsert opens with its comment line: `-- source: `, the source path
/// and a newline.
pub proof fn lemma_upsert_comment_line(c: Challenge)
    ensures
        upsert_sql(c).len() > UPSERT_SOURCE@.len() + c.source_path@.len(),
        upsert_sql(c).subrange(0, UPSERT_SOURCE@.len() + c.source_path@.len() + 1int) == UPSERT_SOURCE@
            + c.source_path@ + seq!['\n'],
{
    reveal(upsert_sql);
    lemma_upsert_fixed_parts();
    let line = UPSERT_SOURCE@ + c.source_path@ + seq!['\n'];
    let x = UPSERT_SOURCE@ + c.source_path@ + UPSERT_COLUMNS@;
    assert(x.subrange(0, line.len() as int) =~= line);
    let sep = ", "@;
    lemma_prefix_extend(line, x, escape_sql_text(c.fm.slug@));
    let x = x + escape_sql_text(c.fm.slug@);
    lemma_prefix_extend(line, x, "', '"@);
    let x = x + "', '"@;
    lemma_prefix_extend(line, x, escape_sql_text(c.fm.title@));
    let x = x + escape_sql_text(c.fm.title@);
    lemma_prefix_extend(line, x, "', "@);
    let x = x + "', "@;
    lemma_prefix_extend(line, x, job_id_sql(opt_view(c.fm.job_slug)));
    let x = x + job_id_sql(opt_view(c.fm.job_slug));
    lemma_prefix_extend(line, x, ", '"@);
    let x = x + ", '"@;
    lemma_prefix_extend(line, x, escape_sql_text(c.description@));
    let x = x + escape_sql_text(c.description@);
    lemma_prefix_extend(line, x, "', "@);
    let x = x + "', "@;
    lemma_prefix_extend(line, x, sql_text_or_null(opt_view(c.fm.short_description)));
    let x = x + sql_text_or_null(opt_view(c.fm.short_description));
    lemma_prefix_extend(line, x, sep);
    let x = x + sep;
    lemma_prefix_extend(line, x, tech_stack_sql(views(c.fm.tech_stack@)));
    let x = x + tech_stack_sql(views(c.fm.tech_stack@));
    lemma_prefix_extend(line, x, UPSERT_WRAP@);
    let x = x + UPSERT_WRAP@;
    lemma_prefix_extend(line, x, sql_text_or_null(opt_view(c.fm.category)));
    let x = x + sql_text_or_null(opt_view(c.fm.category));
    lemma_prefix_extend(line, x, sep);
    let x = x + sep;
    lemma_prefix_extend(line, x, sql_text_or_null(opt_view(c.fm.url)));
    let x = x + sql_text_or_null(opt_view(c.fm.url));
    lemma_prefix_extend(line, x, sep);
    let x = x + sep;
    lemma_prefix_extend(line, x, sql_text_or_null(opt_view(c.fm.image_url)));
    let x = x + sql_text_or_null(opt_view(c.fm.image_url));
    lemma_prefix_extend(line, x, sep);
    let x = x + sep;
    lemma_prefix_extend(line, x, sql_text_or_null(opt_view(c.problem)));
    let x = x + sql_text_or_null(opt_view(c.problem));
    lemma_prefix_extend(line, x, sep);
    let x = x + sep;
    lemma_prefix_extend(line, x, sql_text_or_null(opt_view(c.constraints)));
    let x = x + sql_text_or_null(opt_view(c.constraints));
    lemma_prefix_extend(line, x, sep);
    let x = x + sep;
    lemma_prefix_extend(line, x, sql_text_or_null(opt_view(c.decisions)));
    let x = x + sql_text_or_null(opt_view(c.decisions));
    lemma_prefix_extend(line, x, sep);
    let x = x + sep;
    lemma_prefix_extend(line, x, sql_text_or_null(opt_view(c.implementation)));
    let x = x + sql_text_or_null(opt_view(c.implementation));
    lemma_prefix_extend(line, x, UPSERT_WRAP@);
    let x = x + UPSERT_WRAP@;
    lemma_prefix_extend(line, x, sql_text_or_null(opt_view(c.outcomes)));
    let x = x + sql_text_or_null(opt_view(c.outcomes));
    lemma_prefix_extend(line, x, sep);
    let x = x + sep;
    lemma_prefix_extend(line, x, sql_text_or_null(opt_view(c.metrics)));
    let x = x + sql_text_or_null(opt_view(c.metrics));
    lemma_prefix_extend(line, x, sep);
    let x = x + sep;
    lemma_prefix_extend(line, x, sql_text_or_null(opt_view(c.fm.job_slug)));
    let x = x + sql_text_or_null(opt_view(c.fm.job_slug));
    lemma_prefix_extend(line, x, sep);
    let x = x + sep;
    lemma_prefix_extend(line, x, sql_text_or_null(opt_view(c.fm.related_plan_module)));
    let x = x + sql_text_or_null(opt_view(c.fm.related_plan_module));
    lemma_prefix_extend(line, x, sep);
    let x = x + sep;
    lemma_prefix_extend(line, x, sql_text_or_null(opt_view(c.fm.related_adr)));
    let x = x + sql_text_or_null(opt_view(c.fm.related_adr));
    lemma_prefix_extend(line, x, sep);
    let x = x + sep;
    lemma_prefix_extend(line, x, flag_sql(c.fm.featured));
    let x = x + flag_sql(c.fm.featured);
    lemma_prefix_extend(line, x, sep);
    let x = x + sep;
    lemma_prefix_extend(line, x, signed_decimal(c.fm.sort_order as int));
    let x = x + signed_decimal(c.fm.sort_order as int);
    lemma_prefix_extend(line, x, ", '"@);
    let x = x + ", '"@;
    lemma_prefix_extend(line, x, c.content_sha@);
    let x = x + c.content_sha@;
    lemma_prefix_extend(line, x, UPSERT_CONFLICT@);
    assert(x + UPSERT_CONFLICT@ == upsert_sql(c));
}

/// Read as SQL, an upsert is one `--` comment line (which
/// `lemma_upsert_comment_line` shows names the source) followed by exactly
/// one statement: every literal is closed, and the code
/// outside literals and comments holds a single `;`, its last character
/// before the final newline. (The source path holds no newline, which would
/// end the comment early, and the hash no quote, which would end its literal
/// early; the hash of `content_sha` is hexadecimal.)
pub proof fn lemma_upsert_is_one_statement(c: Challenge)
    requires
        !c.source_path@.contains('\n'),
        !c.content_sha@.contains('\''),
    ensures
        ({
            let r = sql_read(upsert_sql(c), SqlRead::Code);
            &&& r.1 == SqlRead::Code
            &&& r.0.len() >= 2
            &&& r.0[r.0.len() - 2] == ';'
            &&& r.0[r.0.len() - 1] == '\n'
            &&& !r.0.subrange(0, r.0.len() - 2).contains(';')
        }),
{
    reveal(upsert_sql);
    lemma_upsert_fixed_parts();
    lemma_upsert_separators();
    let lit = SqlRead::Literal;
    let code = SqlRead::Code;
    lemma_reads_comment_and_columns(c.source_path@);
    let x = UPSERT_SOURCE@ + c.source_path@ + UPSERT_COLUMNS@;
    // slug, title, job, description
    lemma_reads_escaped(c.fm.slug@);
    lemma_reads_concat(x, escape_sql_text(c.fm.slug@), code, lit, lit);
    let x = x + escape_sql_text(c.fm.slug@);
    lemma_reads_concat(x, "', '"@, code, lit, lit);
    let x = x + "', '"@;
    lemma_reads_escaped(c.fm.title@);
    lemma_reads_concat(x, escape_sql_text(c.fm.title@), code, lit, lit);
    let x = x + escape_sql_text(c.fm.title@);
    lemma_reads_concat(x, "', "@, code, lit, code);
    let x = x + "', "@;
    lemma_reads_job_id(opt_view(c.fm.job_slug));
    lemma_reads_concat(x, job_id_sql(opt_view(c.fm.job_slug)), code, code, code);
    let x = x + job_id_sql(opt_view(c.fm.job_slug));
    lemma_reads_concat(x, ", '"@, code, code, lit);
    let x = x + ", '"@;
    lemma_reads_escaped(c.description@);
    lemma_reads_concat(x, escape_sql_text(c.description@), code, lit, lit);
    let x = x + escape_sql_text(c.description@);
    lemma_reads_concat(x, "', "@, code, lit, code);
    let x = x + "', "@;
    // the optional values
    let sep = ", "@;
    lemma_reads_text_or_null(opt_view(c.fm.short_description));
    lemma_reads_concat(x, sql_text_or_null(opt_view(c.fm.short_description)), code, code, code);
    let x = x + sql_text_or_null(opt_view(c.fm.short_description));
    lemma_reads_concat(x, sep, code, code, code);
    let x = x + sep;
    lemma_reads_tech_stack(views(c.fm.tech_stack@));
    lemma_reads_concat(x, tech_stack_sql(views(c.fm.tech_stack@)), code, code, code);
    let x = x + tech_stack_sql(views(c.fm.tech_stack@));
    lemma_reads_plain(UPSERT_WRAP@);
    lemma_reads_concat(x, UPSERT_WRAP@, code, code, code);
    let x = x + UPSERT_WRAP@;
    lemma_reads_text_or_null(opt_view(c.fm.category));
    lemma_reads_concat(x, sql_text_or_null(opt_view(c.fm.category)), code, code, code);
    let x = x + sql_text_or_null(opt_view(c.fm.category));
    lemma_reads_concat(x, sep, code, code, code);
    let x = x + sep;
    lemma_reads_text_or_null(opt_view(c.fm.url));
    lemma_reads_concat(x, sql_text_or_null(opt_view(c.fm.url)), code, code, code);
    let x = x + sql_text_or_null(opt_view(c.fm.url));
    lemma_reads_concat(x, sep, code, code, code);
    let x = x + sep;
    lemma_reads_text_or_null(opt_view(c.fm.image_url));
    lemma_reads_concat(x, sql_text_or_null(opt_view(c.fm.image_url)), code, code, code);
    let x = x + sql_text_or_null(opt_view(c.fm.image_url));
    lemma_reads_concat(x, sep, code, code, code);
    let x = x + sep;
    lemma_reads_text_or_null(opt_view(c.problem));
    lemma_reads_concat(x, sql_text_or_null(opt_view(c.problem)), code, code, code);
    let x = x + sql_text_or_null(opt_view(c.problem));
    lemma_reads_concat(x, sep, code, code, code);
    let x = x + sep;
    lemma_reads_text_or_null(opt_view(c.constraints));
    lemma_reads_concat(x, sql_text_or_null(opt_view(c.constraints)), code, code, code);
    let x = x + sql_text_or_null(opt_view(c.constraints));
    lemma_reads_concat(x, sep, code, code, code);
    let x = x + sep;
    lemma_reads_text_or_null(opt_view(c.decisions));
    lemma_reads_concat(x, sql_text_or_null(opt_view(c.decisions)), code, code, code);
    let x = x + sql_text_or_null(opt_view(c.decisions));
    lemma_reads_concat(x, sep, code, code, code);
    let x = x + sep;
    lemma_reads_text_or_null(opt_view(c.implementation));
    lemma_reads_concat(x, sql_text_or_null(opt_view(c.implementation)), code, code, code);
    let x = x + sql_text_or_null(opt_view(c.implementation));
    lemma_reads_concat(x, UPSERT_WRAP@, code, code, code);
    let x = x + UPSERT_WRAP@;
    lemma_reads_text_or_null(opt_view(c.outcomes));
    lemma_reads_concat(x, sql_text_or_null(opt_view(c.outcomes)), code, code, code);
    let x = x + sql_text_or_null(opt_view(c.outcomes));
    lemma_reads_concat(x, sep, code, code, code);
    let x = x + sep;
    lemma_reads_text_or_null(opt_view(c.metrics));
    lemma_reads_concat(x, sql_text_or_null(opt_view(c.metrics)), code, code, code);
    let x = x + sql_text_or_null(opt_view(c.metrics));
    lemma_reads_concat(x, sep, code, code, code);
    let x = x + sep;
    lemma_reads_text_or_null(opt_view(c.fm.job_slug));
    lemma_reads_concat(x, sql_text_or_null(opt_view(c.fm.job_slug)), code, code, code);
    let x = x + sql_text_or_null(opt_view(c.fm.job_slug));
    lemma_reads_concat(x, sep, code, code, code);
    let x = x + sep;
    lemma_reads_text_or_null(opt_view(c.fm.related_plan_module));
    lemma_reads_concat(x, sql_text_or_null(opt_view(c.fm.related_plan_module)), code, code, code);
    let x = x + sql_text_or_null(opt_view(c.fm.related_plan_module));
    lemma_reads_concat(x, sep, code, code, code);
    let x = x + sep;
    lemma_reads_text_or_null(opt_view(c.fm.related_adr));
    lemma_reads_concat(x, sql_text_or_null(opt_view(c.fm.related_adr)), code, code, code);
    let x = x + sql_text_or_null(opt_view(c.fm.related_adr));
    lemma_reads_concat(x, sep, code, code, code);
    let x = x + sep;
    lemma_reads_flag(c.fm.featured);
    lemma_reads_concat(x, flag_sql(c.fm.featured), code, code, code);
    let x = x + flag_sql(c.fm.featured);
    lemma_reads_concat(x, sep, code, code, code);
    let x = x + sep;
    lemma_reads_signed_decimal(c.fm.sort_order as int);
    lemma_reads_concat(x, signed_decimal(c.fm.sort_order as int), code, code, code);
    let x = x + signed_decimal(c.fm.sort_order as int);
    lemma_reads_concat(x, ", '"@, code, code, lit);
    let x = x + ", '"@;
    lemma_reads_in_literal(c.content_sha@);
    lemma_reads_concat(x, c.content_sha@, code, lit, lit);
    let x = x + c.content_sha@;
    lemma_read_conflict_end(x);
    assert(x + UPSERT_CONFLICT@ == upsert_sql(c));
}

// ── the values of an upsert's literals ──────────────────────────────────────

/// Where a SQL reader that collects string literals stands: in code, just
/// after a `-` in code, inside a literal, just after a quote that may close
/// a literal (or, doubled, stand for one quote inside it), or inside a `--`
/// line comment.
pub enum LitRead {
    Code,
    Dash,
    Open,
    Closed,
    Comment,
}

/// `lits` with `t` added to its last literal.
pub open spec fn append_last(lits: Seq<Seq<char>>, t: Seq<char>) -> Seq<Seq<char>> {
    lits.update(lits.len() - 1, lits.last() + t)
}

/// One character of literal collection: a quote in code starts a new, empty
/// literal; inside a literal every character but a quote is added to it; a
/// quote there may close it, and a second quote right after adds one quote
/// to it and reopens it.
pub open spec fn lit_step(st: LitRead, ch: char, lits: Seq<Seq<char>>) -> (Seq<Seq<char>>, LitRead) {
    match st {
        LitRead::Code => if ch == '\'' {
            (lits.push(Seq::empty()), LitRead::Open)
        } else if ch == '-' {
            (lits, LitRead::Dash)
        } else {
            (lits, LitRead::Code)
        },
        LitRead::Dash => if ch == '-' {
            (lits, LitRead::Comment)
        } else if ch == '\'' {
            (lits.push(Seq::empty()), LitRead::Open)
        } else {
            (lits, LitRead::Code)
        },
        LitRead::Open => if ch == '\'' {
            (lits, LitRead::Closed)
        } else {
            (append_last(lits, seq![ch]), LitRead::Open)
        },
        LitRead::Closed => if ch == '\'' {
            (append_last(lits, seq!['\'']), LitRead::Open)
        } else if ch == '-' {
            (lits, LitRead::Dash)
        } else {
            (lits, LitRead::Code)
        },
        LitRead::Comment => if ch == '\n' {
            (lits, LitRead::Code)
        } else {
            (lits, LitRead::Comment)
        },
    }
}

/// The string literals of `t` as SQL reads them from `st`, after those in
/// `lits`, with their quotes decoded; and where the reader stands at the end.
#[verifier::opaque]
pub open spec fn lit_read(t: Seq<char>, st: LitRead, lits: Seq<Seq<char>>) -> (Seq<Seq<char>>, LitRead)
    decreases t.len(),
{
    if t.len() == 0 {
        (lits, st)
    } else {
        let step = lit_step(st, t[0], lits);
        lit_read(t.drop_first(), step.1, step.0)
    }
}

/// The value of an optional text when it is written as a literal: present
/// and non-empty.
pub open spec fn opt_lit(v: Option<Seq<char>>) -> Seq<Seq<char>> {
    match v {
        Some(s) => if s.len() > 0 {
            seq![s]
        } else {
            Seq::empty()
        },
        None => Seq::empty(),
    }
}

/// The values that the literals of a challenge's upsert hold, in order: the
/// slug, the title, the job slug of the job lookup (when there is one), the
/// description, every present and non-empty optional text (the joined tech
/// stack among them), and the hash.
pub open spec fn upsert_literals(c: Challenge) -> Seq<Seq<char>> {
    seq![c.fm.slug@] + seq![c.fm.title@] + opt_lit(opt_view(c.fm.job_slug)) + seq![c.description@]
        + opt_lit(opt_view(c.fm.short_description)) + opt_lit(Some(join(views(c.fm.tech_stack@), seq![','])))
        + opt_lit(opt_view(c.fm.category)) + opt_lit(opt_view(c.fm.url)) + opt_lit(opt_view(c.fm.image_url))
        + opt_lit(opt_view(c.problem)) + opt_lit(opt_view(c.constraints)) + opt_lit(opt_view(c.decisions))
        + opt_lit(opt_view(c.implementation)) + opt_lit(opt_view(c.outcomes)) + opt_lit(opt_view(c.metrics))
        + opt_lit(opt_view(c.fm.job_slug)) + opt_lit(opt_view(c.fm.related_plan_module)) + opt_lit(
        opt_view(c.fm.related_adr),
    ) + seq![c.content_sha@]
}

proof fn lemma_lits_concat(a: Seq<char>, b: Seq<char>, st: LitRead, lits: Seq<Seq<char>>)
    ensures
        lit_read(a + b, st, lits) == lit_read(b, lit_read(a, st, lits).1, lit_read(a, st, lits).0),
    decreases a.len(),
{
    reveal(lit_read);
    if a.len() == 0 {
        assert(a + b =~= b);
    } else {
        let step = lit_step(st, a[0], lits);
        assert((a + b).drop_first() =~= a.drop_first() + b);
        assert((a + b)[0] == a[0]);
        lemma_lits_concat(a.drop_first(), b, step.1, step.0);
    }
}

proof fn lemma_lits_one(ch: char, st: LitRead, lits: Seq<Seq<char>>)
    ensures
        lit_read(seq![ch], st, lits) == lit_step(st, ch, lits),
{
    reveal_with_fuel(lit_read, 2);
    assert(seq![ch].drop_first() =~= Seq::<char>::empty());
}

/// Code without quotes or dashes adds no literal and stays in code.
proof fn lemma_lits_plain(t: Seq<char>, lits: Seq<Seq<char>>)
    requires
        !t.contains('\''),
        !t.contains('-'),
    ensures
        lit_read(t, LitRead::Code, lits) == (lits, LitRead::Code),
    decreases t.len(),
{
    reveal(lit_read);
    if t.len() > 0 {
        assert(t.contains(t[0]));
        let r = t.drop_first();
        assert(!r.contains('\'') && !r.contains('-')) by {
            if r.contains('\'') || r.contains('-') {
                let i = choose|i: int| 0 <= i < r.len() && (r[i] == '\'' || r[i] == '-');
                assert(t[i + 1] == r[i]);
            }
        }
        lemma_lits_plain(r, lits);
    }
}

/// Whether the reader stands in code or just after a closing quote.
pub open spec fn settled(st: LitRead) -> bool {
    st == LitRead::Code || st == LitRead::Closed
}

/// Non-empty code without quotes or dashes, read after code or a closed
/// literal, adds no literal and ends in code.
proof fn lemma_lits_plain_settled(t: Seq<char>, st: LitRead, lits: Seq<Seq<char>>)
    requires
        settled(st),
        t.len() > 0,
        !t.contains('\''),
        !t.contains('-'),
    ensures
        lit_read(t, st, lits) == (lits, LitRead::Code),
{
    assert(t =~= seq![t[0]] + t.drop_first());
    assert(t.contains(t[0]));
    let r = t.drop_first();
    assert(!r.contains('\'') && !r.contains('-')) by {
        if r.contains('\'') || r.contains('-') {
            let i = choose|i: int| 0 <= i < r.len() && (r[i] == '\'' || r[i] == '-');
            assert(t[i + 1] == r[i]);
        }
    }
    lemma_lits_concat(seq![t[0]], r, st, lits);
    lemma_lits_one(t[0], st, lits);
    lemma_lits_plain(r, lits);
}

proof fn lemma_lits_comment(t: Seq<char>, lits: Seq<Seq<char>>)
    requires
        !t.contains('\n'),
    ensures
        lit_read(t, LitRead::Comment, lits) == (lits, LitRead::Comment),
    decreases t.len(),
{
    reveal(lit_read);
    if t.len() > 0 {
        assert(t.contains(t[0]));
        let r = t.drop_first();
        assert(!r.contains('\n')) by {
            if r.contains('\n') {
                let i = choose|i: int| 0 <= i < r.len() && r[i] == '\n';
                assert(t[i + 1] == '\n');
            }
        }
        lemma_lits_comment(r, lits);
    }
}

/// Text without quotes inside a literal is added to it as it is.
proof fn lemma_lits_raw(t: Seq<char>, lits: Seq<Seq<char>>)
    requires
        lits.len() > 0,
        !t.contains('\''),
    ensures
        lit_read(t, LitRead::Open, lits) == (append_last(lits, t), LitRead::Open),
    decreases t.len(),
{
    if t.len() == 0 {
        reveal(lit_read);
        assert(append_last(lits, t) =~= lits);
    } else {
        let init = t.drop_last();
        assert(t =~= init + seq![t.last()]);
        assert(t.contains(t.last()));
        assert(!init.contains('\'')) by {
            if init.contains('\'') {
                let i = choose|i: int| 0 <= i < init.len() && init[i] == '\'';
                assert(t[i] == '\'');
            }
        }
        lemma_lits_raw(init, lits);
        lemma_lits_concat(init, seq![t.last()], LitRead::Open, lits);
        lemma_lits_one(t.last(), LitRead::Open, append_last(lits, init));
        assert(lits.last() + init + seq![t.last()] =~= lits.last() + t);
        assert(append_last(append_last(lits, init), seq![t.last()]) =~= append_last(lits, t));
    }
}

/// An escaped text inside a literal adds the text itself to it: each doubled
/// quote stands for one quote.
proof fn lemma_lits_escaped(s: Seq<char>, lits: Seq<Seq<char>>)
    requires
        lits.len() > 0,
    ensures
        lit_read(escape_sql_text(s), LitRead::Open, lits) == (append_last(lits, s), LitRead::Open),
    decreases s.len(),
{
    if s.len() == 0 {
        reveal(lit_read);
        assert(append_last(lits, s) =~= lits);
    } else {
        let init = s.drop_last();
        let l = s.last();
        lemma_lits_escaped(init, lits);
        lemma_lits_concat(escape_sql_text(init), quote_char(l), LitRead::Open, lits);
        let mid = append_last(lits, init);
        assert(s =~= init + seq![l]);
        if l == '\'' {
            assert(quote_char(l) =~= seq!['\''] + seq!['\'']);
            lemma_lits_concat(seq!['\''], seq!['\''], LitRead::Open, mid);
            lemma_lits_one('\'', LitRead::Open, mid);
            lemma_lits_one('\'', LitRead::Closed, mid);
        } else {
            lemma_lits_one(l, LitRead::Open, mid);
        }
        assert(lits.last() + init + seq![l] =~= lits.last() + s);
        assert(append_last(mid, seq![l]) =~= append_last(lits, s));
    }
}

/// A new literal holding `s` escaped: the literal list gains `s`.
proof fn lemma_lits_new_value(s: Seq<char>, lits: Seq<Seq<char>>)
    ensures
        lit_read(escape_sql_text(s), LitRead::Open, lits.push(Seq::empty())) == (lits + seq![s], LitRead::Open),
{
    lemma_lits_escaped(s, lits.push(Seq::empty()));
    assert(append_last(lits.push(Seq::empty()), s) =~= lits + seq![s]);
}

/// A quoted, escaped text read from code: the literal list gains the text.
proof fn lemma_lits_quoted(s: Seq<char>, lits: Seq<Seq<char>>)
    ensures
        lit_read(seq!['\''] + escape_sql_text(s) + seq!['\''], LitRead::Code, lits) == (lits + seq![s], LitRead::Closed),
{
    let q = seq!['\''];
    lemma_lits_one('\'', LitRead::Code, lits);
    lemma_lits_new_value(s, lits);
    lemma_lits_one('\'', LitRead::Open, lits + seq![s]);
    lemma_lits_concat(q, escape_sql_text(s), LitRead::Code, lits);
    lemma_lits_concat(q + escape_sql_text(s), q, LitRead::Code, lits);
}

proof fn lemma_lits_null(lits: Seq<Seq<char>>)
    ensures
        lit_read("NULL"@, LitRead::Code, lits) == (lits, LitRead::Code),
{
    reveal_strlit("NULL");
    lemma_lits_plain("NULL"@, lits);
}

proof fn lemma_lits_text_or_null(v: Option<Seq<char>>, lits: Seq<Seq<char>>)
    ensures
        lit_read(sql_text_or_null(v), LitRead::Code, lits).0 == lits + opt_lit(v),
        settled(lit_read(sql_text_or_null(v), LitRead::Code, lits).1),
{
    lemma_lits_null(lits);
    assert(lits + Seq::<Seq<char>>::empty() =~= lits);
    match v {
        Some(s) => if s.len() > 0 {
            lemma_lits_quoted(s, lits);
        },
        None => {},
    }
}

proof fn lemma_lits_tech_stack(tech: Seq<Seq<char>>, lits: Seq<Seq<char>>)
    ensures
        lit_read(tech_stack_sql(tech), LitRead::Code, lits).0 == lits + opt_lit(Some(join(tech, seq![',']))),
        settled(lit_read(tech_stack_sql(tech), LitRead::Code, lits).1),
{
    lemma_lits_null(lits);
    assert(lits + Seq::<Seq<char>>::empty() =~= lits);
    lemma_lits_quoted(join(tech, seq![',']), lits);
}

proof fn lemma_lits_job_id(job_slug: Option<Seq<char>>, lits: Seq<Seq<char>>)
    ensures
        lit_read(job_id_sql(job_slug), LitRead::Code, lits) == (lits + opt_lit(job_slug), LitRead::Code),
{
    lemma_lits_null(lits);
    assert(lits + Seq::<Seq<char>>::empty() =~= lits);
    match job_slug {
        Some(s) => if s.len() > 0 {
            let head = "(SELECT id FROM jobs WHERE slug = '"@;
            let tail = "')"@;
            reveal_strlit("(SELECT id FROM jobs WHERE slug = '");
            reveal_strlit("')");
            let body = head.drop_last();
            let quoted = seq!['\''] + escape_sql_text(s) + seq!['\''];
            assert(head =~= body + seq!['\'']);
            assert(tail =~= seq!['\''] + seq![')']);
            assert(head + escape_sql_text(s) + tail =~= body + quoted + seq![')']);
            lemma_lits_plain(body, lits);
            lemma_lits_quoted(s, lits);
            lemma_lits_one(')', LitRead::Closed, lits + seq![s]);
            lemma_lits_concat(body, quoted, LitRead::Code, lits);
            lemma_lits_concat(body + quoted, seq![')'], LitRead::Code, lits);
        },
        None => {},
    }
}

proof fn lemma_lits_signed_decimal(n: int, lits: Seq<Seq<char>>)
    ensures
        lit_read(signed_decimal(n), LitRead::Code, lits) == (lits, LitRead::Code),
{
    let m: nat = if n < 0 { (-n) as nat } else { n as nat };
    let d = decimal(m);
    lemma_decimal_digits(m);
    assert(!d.contains('\'') && !d.contains('-')) by {
        if d.contains('\'') || d.contains('-') {
            let i = choose|i: int| 0 <= i < d.len() && (d[i] == '\'' || d[i] == '-');
            assert('0' <= d[i] <= '9');
        }
    }
    lemma_lits_plain(d, lits);
    if n < 0 {
        assert(signed_decimal(n) == seq!['-'] + d);
        lemma_lits_one('-', LitRead::Code, lits);
        assert('0' <= d[0] <= '9');
        let r = d.drop_first();
        assert(d =~= seq![d[0]] + r);
        assert(!r.contains('\'') && !r.contains('-')) by {
            if r.contains('\'') || r.contains('-') {
                let i = choose|i: int| 0 <= i < r.len() && (r[i] == '\'' || r[i] == '-');
                assert(d[i + 1] == r[i]);
            }
        }
        lemma_lits_one(d[0], LitRead::Dash, lits);
        lemma_lits_plain(r, lits);
        lemma_lits_concat(seq![d[0]], r, LitRead::Dash, lits);
        lemma_lits_concat(seq!['-'], d, LitRead::Code, lits);
    }
}

proof fn lemma_lits_flag(b: bool, lits: Seq<Seq<char>>)
    ensures
        lit_read(flag_sql(b), LitRead::Code, lits) == (lits, LitRead::Code),
{
    lemma_lits_plain(seq!['1'], lits);
    lemma_lits_plain(seq!['0'], lits);
}

/// The separators of an upsert, read from where they stand.
proof fn lemma_lits_separators(st: LitRead, lits: Seq<Seq<char>>)
    requires
        settled(st),
    ensures
        lit_read("', '"@, LitRead::Open, lits) == (lits.push(Seq::empty()), LitRead::Open),
        lit_read("', "@, LitRead::Open, lits) == (lits, LitRead::Code),
        lit_read(", '"@, LitRead::Code, lits) == (lits.push(Seq::empty()), LitRead::Open),
        lit_read(", "@, st, lits) == (lits, LitRead::Code),
        lit_read(UPSERT_WRAP@, st, lits) == (lits, LitRead::Code),
{
    reveal_strlit("', '");
    reveal_strlit("', ");
    reveal_strlit(", '");
    reveal_strlit(", ");
    lemma_upsert_fixed_parts();
    reveal_with_fuel(lit_read, 5);
    assert(", "@ =~= seq![',', ' ']);
    assert(!seq![',', ' '].contains('\'') && !seq![',', ' '].contains('-')) by {
        let t = seq![',', ' '];
        if t.contains('\'') || t.contains('-') {
            let i = choose|i: int| 0 <= i < t.len() && (t[i] == '\'' || t[i] == '-');
            assert(i == 0 || i == 1);
        }
    }
    lemma_lits_plain_settled(", "@, st, lits);
    lemma_lits_plain_settled(UPSERT_WRAP@, st, lits);
    let a = "', '"@;
    let b = "', "@;
    let c = ", '"@;
    assert(a.drop_first() =~= seq![',', ' ', '\'']);
    assert(a.drop_first().drop_first() =~= seq![' ', '\'']);
    assert(a.drop_first().drop_first().drop_first() =~= seq!['\'']);
    assert(seq!['\''].drop_first() =~= Seq::<char>::empty());
    assert(b.drop_first() =~= seq![',', ' ']);
    assert(b.drop_first().drop_first() =~= seq![' ']);
    assert(seq![' '].drop_first() =~= Seq::<char>::empty());
    assert(c.drop_first() =~= seq![' ', '\'']);
    assert(c.drop_first().drop_first() =~= seq!['\'']);
}

/// The comment line and the column list: read from code, they leave one
/// new, empty literal open (the slug's).
proof fn lemma_lits_comment_and_columns(path: Seq<char>)
    requires
        !path.contains('\n'),
    ensures
        lit_read(UPSERT_SOURCE@ + path + UPSERT_COLUMNS@, LitRead::Code, Seq::empty()) == (
            Seq::<Seq<char>>::empty().push(Seq::empty()),
            LitRead::Open,
        ),
{
    lemma_upsert_fixed_parts();
    let e = Seq::<Seq<char>>::empty();
    let src = UPSERT_SOURCE@;
    let rest = src.drop_first().drop_first();
    assert(src =~= seq!['-'] + seq!['-'] + rest);
    assert(!rest.contains('\n')) by {
        if rest.contains('\n') {
            let i = choose|i: int| 0 <= i < rest.len() && rest[i] == '\n';
            assert(src[i + 2] == '\n');
        }
    }
    lemma_lits_one('-', LitRead::Code, e);
    lemma_lits_one('-', LitRead::Dash, e);
    lemma_lits_concat(seq!['-'], seq!['-'], LitRead::Code, e);
    lemma_lits_comment(rest, e);
    lemma_lits_concat(seq!['-'] + seq!['-'], rest, LitRead::Code, e);
    lemma_lits_comment(path, e);
    lemma_lits_concat(src, path, LitRead::Code, e);
    let cols = UPSERT_COLUMNS@;
    let head = cols.subrange(1, cols.len() - 1);
    assert(cols =~= seq!['\n'] + head + seq!['\'']);
    lemma_lits_one('\n', LitRead::Comment, e);
    lemma_lits_plain(head, e);
    lemma_lits_one('\'', LitRead::Code, e);
    lemma_lits_concat(seq!['\n'], head, LitRead::Comment, e);
    lemma_lits_concat(seq!['\n'] + head, seq!['\''], LitRead::Comment, e);
    lemma_lits_concat(src + path, cols, LitRead::Code, e);
}

/// The conflict clause closes the hash literal and ends in code.
proof fn lemma_lits_conflict(lits: Seq<Seq<char>>)
    ensures
        lit_read(UPSERT_CONFLICT@, LitRead::Open, lits) == (lits, LitRead::Code),
{
    lemma_upsert_fixed_parts();
    let conf = UPSERT_CONFLICT@;
    let tail = conf.drop_first();
    assert(conf =~= seq!['\''] + tail);
    lemma_lits_one('\'', LitRead::Open, lits);
    lemma_lits_plain_settled(tail, LitRead::Closed, lits);
    lemma_lits_concat(seq!['\''], tail, LitRead::Open, lits);
}

proof fn lemma_lits_step(
    x: Seq<char>,
    p: Seq<char>,
    lx: Seq<Seq<char>>,
    sx: LitRead,
    lp: Seq<Seq<char>>,
    sp: LitRead,
)
    requires
        lit_read(x, LitRead::Code, Seq::empty()) == (lx, sx),
        lit_read(p, sx, lx) == (lp, sp),
    ensures
        lit_read(x + p, LitRead::Code, Seq::empty()) == (lp, sp),
{
    lemma_lits_concat(x, p, LitRead::Code, Seq::empty());
}

/// Read as SQL, the literals of an upsert hold exactly the challenge's
/// values, in order, with their quotes decoded: the slug, the title, the job
/// slug of the job lookup, the description, each present and non-empty
/// optional text (the joined tech stack among them) and the hash; and the
/// reader ends in code. (The source path holds no newline and the hash no
/// quote, as for `lemma_upsert_is_one_statement`.)
#[verifier::rlimit(40)]
pub proof fn lemma_upsert_literals(c: Challenge)
    requires
        !c.source_path@.contains('\n'),
        !c.content_sha@.contains('\''),
    ensures
        lit_read(upsert_sql(c), LitRead::Code, Seq::empty()) == (upsert_literals(c), LitRead::Code),
{
    reveal(upsert_sql);
    lemma_upsert_fixed_parts();
    let e = Seq::<Seq<char>>::empty();
    let open = LitRead::Open;
    let code = LitRead::Code;
    lemma_lits_comment_and_columns(c.source_path@);
    let x = UPSERT_SOURCE@ + c.source_path@ + UPSERT_COLUMNS@;
    let lits = e.push(Seq::empty());
    let st = open;
    lemma_lits_new_value(c.fm.slug@, e);
    lemma_lits_step(x, escape_sql_text(c.fm.slug@), lits, st, e + seq![c.fm.slug@], open);
    let x = x + escape_sql_text(c.fm.slug@);
    let lits = e + seq![c.fm.slug@];
    let st = open;
    assert(lits =~= seq![c.fm.slug@]);
    let lits = seq![c.fm.slug@];
    lemma_lits_separators(code, lits);
    lemma_lits_step(x, "', '"@, lits, st, lits.push(Seq::empty()), open);
    let x = x + "', '"@;
    let lits = lits.push(Seq::empty());
    let st = open;
    lemma_lits_new_value(c.fm.title@, seq![c.fm.slug@]);
    lemma_lits_step(x, escape_sql_text(c.fm.title@), lits, st, seq![c.fm.slug@] + seq![c.fm.title@], open);
    let x = x + escape_sql_text(c.fm.title@);
    let lits = seq![c.fm.slug@] + seq![c.fm.title@];
    let st = open;
    lemma_lits_separators(code, lits);
    lemma_lits_step(x, "', "@, lits, st, lits, code);
    let x = x + "', "@;
    let lits = lits;
    let st = code;
    lemma_lits_job_id(opt_view(c.fm.job_slug), lits);
    lemma_lits_step(x, job_id_sql(opt_view(c.fm.job_slug)), lits, st, lits + opt_lit(opt_view(c.fm.job_slug)), code);
    let x = x + job_id_sql(opt_view(c.fm.job_slug));
    let lits = lits + opt_lit(opt_view(c.fm.job_slug));
    let st = code;
    lemma_lits_separators(code, lits);
    lemma_lits_step(x, ", '"@, lits, st, lits.push(Seq::empty()), open);
    let x = x + ", '"@;
    let lits = lits.push(Seq::empty());
    let st = open;
    let prev = lits.drop_last();
    assert(lits == prev.push(Seq::<char>::empty()));
    lemma_lits_new_value(c.description@, prev);
    lemma_lits_step(x, escape_sql_text(c.description@), lits, st, prev + seq![c.description@], open);
    let x = x + escape_sql_text(c.description@);
    let lits = prev + seq![c.description@];
    let st = open;
    lemma_lits_separators(code, lits);
    lemma_lits_step(x, "', "@, lits, st, lits, code);
    let x = x + "', "@;
    let lits = lits;
    let st = code;
    lemma_lits_text_or_null(opt_view(c.fm.short_description), lits);
    let r = lit_read(sql_text_or_null(opt_view(c.fm.short_description)), st, lits);
    lemma_lits_step(x, sql_text_or_null(opt_view(c.fm.short_description)), lits, st, r.0, r.1);
    let x = x + sql_text_or_null(opt_view(c.fm.short_description));
    let lits = lits + opt_lit(opt_view(c.fm.short_description));
    let st = r.1;
    lemma_lits_separators(st, lits);
    lemma_lits_step(x, ", "@, lits, st, lits, code);
    let x = x + ", "@;
    let lits = lits;
    let st = code;
    lemma_lits_tech_stack(views(c.fm.tech_stack@), lits);
    let r = lit_read(tech_stack_sql(views(c.fm.tech_stack@)), st, lits);
    lemma_lits_step(x, tech_stack_sql(views(c.fm.tech_stack@)), lits, st, r.0, r.1);
    let x = x + tech_stack_sql(views(c.fm.tech_stack@));
    let lits = lits + opt_lit(Some(join(views(c.fm.tech_stack@), seq![','])));
    let st = r.1;
    lemma_lits_separators(st, lits);
    lemma_lits_step(x, UPSERT_WRAP@, lits, st, lits, code);
    let x = x + UPSERT_WRAP@;
    let lits = lits;
    let st = code;
    lemma_lits_text_or_null(opt_view(c.fm.category), lits);
    let r = lit_read(sql_text_or_null(opt_view(c.fm.category)), st, lits);
    lemma_lits_step(x, sql_text_or_null(opt_view(c.fm.category)), lits, st, r.0, r.1);
    let x = x + sql_text_or_null(opt_view(c.fm.category));
    let lits = lits + opt_lit(opt_view(c.fm.category));
    let st = r.1;
    lemma_lits_separators(st, lits);
    lemma_lits_step(x, ", "@, lits, st, lits, code);
    let x = x + ", "@;
    let lits = lits;
    let st = code;
    lemma_lits_text_or_null(opt_view(c.fm.url), lits);
    let r = lit_read(sql_text_or_null(opt_view(c.fm.url)), st, lits);
    lemma_lits_step(x, sql_text_or_null(opt_view(c.fm.url)), lits, st, r.0, r.1);
    let x = x + sql_text_or_null(opt_view(c.fm.url));
    let lits = lits + opt_lit(opt_view(c.fm.url));
    let st = r.1;
    lemma_lits_separators(st, lits);
    lemma_lits_step(x, ", "@, lits, st, lits, code);
    let x = x + ", "@;
    let lits = lits;
    let st = code;
    lemma_lits_text_or_null(opt_view(c.fm.image_url), lits);
    let r = lit_read(sql_text_or_null(opt_view(c.fm.image_url)), st, lits);
    lemma_lits_step(x, sql_text_or_null(opt_view(c.fm.image_url)), lits, st, r.0, r.1);
    let x = x + sql_text_or_null(opt_view(c.fm.image_url));
    let lits = lits + opt_lit(opt_view(c.fm.image_url));
    let st = r.1;
    lemma_lits_separators(st, lits);
    lemma_lits_step(x, ", "@, lits, st, lits, code);
    let x = x + ", "@;
    let lits = lits;
    let st = code;
    lemma_lits_text_or_null(opt_view(c.problem), lits);
    let r = lit_read(sql_text_or_null(opt_view(c.problem)), st, lits);
    lemma_lits_step(x, sql_text_or_null(opt_view(c.problem)), lits, st, r.0, r.1);
    let x = x + sql_text_or_null(opt_view(c.problem));
    let lits = lits + opt_lit(opt_view(c.problem));
    let st = r.1;
    lemma_lits_separators(st, lits);
    lemma_lits_step(x, ", "@, lits, st, lits, code);
    let x = x + ", "@;
    let lits = lits;
    let st = code;
    lemma_lits_text_or_null(opt_view(c.constraints), lits);
    let r = lit_read(sql_text_or_null(opt_view(c.constraints)), st, lits);
    lemma_lits_step(x, sql_text_or_null(opt_view(c.constraints)), lits, st, r.0, r.1);
    let x = x + sql_text_or_null(opt_view(c.constraints));
    let lits = lits + opt_lit(opt_view(c.constraints));
    let st = r.1;
    lemma_lits_separators(st, lits);
    lemma_lits_step(x, ", "@, lits, st, lits, code);
    let x = x + ", "@;
    let lits = lits;
    let st = code;
    lemma_lits_text_or_null(opt_view(c.decisions), lits);
    let r = lit_read(sql_text_or_null(opt_view(c.decisions)), st, lits);
    lemma_lits_step(x, sql_text_or_null(opt_view(c.decisions)), lits, st, r.0, r.1);
    let x = x + sql_text_or_null(opt_view(c.decisions));
    let lits = lits + opt_lit(opt_view(c.decisions));
    let st = r.1;
    lemma_lits_separators(st, lits);
    lemma_lits_step(x, ", "@, lits, st, lits, code);
    let x = x + ", "@;
    let lits = lits;
    let st = code;
    lemma_lits_text_or_null(opt_view(c.implementation), lits);
    let r = lit_read(sql_text_or_null(opt_view(c.implementation)), st, lits);
    lemma_lits_step(x, sql_text_or_null(opt_view(c.implementation)), lits, st, r.0, r.1);
    let x = x + sql_text_or_null(opt_view(c.implementation));
    let lits = lits + opt_lit(opt_view(c.implementation));
    let st = r.1;
    lemma_lits_separators(st, lits);
    lemma_lits_step(x, UPSERT_WRAP@, lits, st, lits, code);
    let x = x + UPSERT_WRAP@;
    let lits = lits;
    let st = code;
    lemma_lits_text_or_null(opt_view(c.outcomes), lits);
    let r = lit_read(sql_text_or_null(opt_view(c.outcomes)), st, lits);
    lemma_lits_step(x, sql_text_or_null(opt_view(c.outcomes)), lits, st, r.0, r.1);
    let x = x + sql_text_or_null(opt_view(c.outcomes));
    let lits = lits + opt_lit(opt_view(c.outcomes));
    let st = r.1;
    lemma_lits_separators(st, lits);
    lemma_lits_step(x, ", "@, lits, st, lits, code);
    let x = x + ", "@;
    let lits = lits;
    let st = code;
    lemma_lits_text_or_null(opt_view(c.metrics), lits);
    let r = lit_read(sql_text_or_null(opt_view(c.metrics)), st, lits);
    lemma_lits_step(x, sql_text_or_null(opt_view(c.metrics)), lits, st, r.0, r.1);
    let x = x + sql_text_or_null(opt_view(c.metrics));
    let lits = lits + opt_lit(opt_view(c.metrics));
    let st = r.1;
    lemma_lits_separators(st, lits);
    lemma_lits_step(x, ", "@, lits, st, lits, code);
    let x = x + ", "@;
    let lits = lits;
    let st = code;
    lemma_lits_text_or_null(opt_view(c.fm.job_slug), lits);
    let r = lit_read(sql_text_or_null(opt_view(c.fm.job_slug)), st, lits);
    lemma_lits_step(x, sql_text_or_null(opt_view(c.fm.job_slug)), lits, st, r.0, r.1);
    let x = x + sql_text_or_null(opt_view(c.fm.job_slug));
    let lits = lits + opt_lit(opt_view(c.fm.job_slug));
    let st = r.1;
    lemma_lits_separators(st, lits);
    lemma_lits_step(x, ", "@, lits, st, lits, code);
    let x = x + ", "@;
    let lits = lits;
    let st = code;
    lemma_lits_text_or_null(opt_view(c.fm.related_plan_module), lits);
    let r = lit_read(sql_text_or_null(opt_view(c.fm.related_plan_module)), st, lits);
    lemma_lits_step(x, sql_text_or_null(opt_view(c.fm.related_plan_module)), lits, st, r.0, r.1);
    let x = x + sql_text_or_null(opt_view(c.fm.related_plan_module));
    let lits = lits + opt_lit(opt_view(c.fm.related_plan_module));
    let st = r.1;
    lemma_lits_separators(st, lits);
    lemma_lits_step(x, ", "@, lits, st, lits, code);
    let x = x + ", "@;
    let lits = lits;
    let st = code;
    lemma_lits_text_or_null(opt_view(c.fm.related_adr), lits);
    let r = lit_read(sql_text_or_null(opt_view(c.fm.related_adr)), st, lits);
    lemma_lits_step(x, sql_text_or_null(opt_view(c.fm.related_adr)), lits, st, r.0, r.1);
    let x = x + sql_text_or_null(opt_view(c.fm.related_adr));
    let lits = lits + opt_lit(opt_view(c.fm.related_adr));
    let st = r.1;
    lemma_lits_separators(st, lits);
    lemma_lits_step(x, ", "@, lits, st, lits, code);
    let x = x + ", "@;
    let lits = lits;
    let st = code;
    lemma_lits_flag(c.fm.featured, lits);
    lemma_lits_step(x, flag_sql(c.fm.featured), lits, st, lits, code);
    let x = x + flag_sql(c.fm.featured);
    let lits = lits;
    let st = code;
    lemma_lits_separators(code, lits);
    lemma_lits_step(x, ", "@, lits, st, lits, code);
    let x = x + ", "@;
    let lits = lits;
    let st = code;
    lemma_lits_signed_decimal(c.fm.sort_order as int, lits);
    lemma_lits_step(x, signed_decimal(c.fm.sort_order as int), lits, st, lits, code);
    let x = x + signed_decimal(c.fm.sort_order as int);
    let lits = lits;
    let st = code;
    let before = lits;
    lemma_lits_separators(code, lits);
    lemma_lits_step(x, ", '"@, lits, st, lits.push(Seq::empty()), open);
    let x = x + ", '"@;
    let lits = lits.push(Seq::empty());
    let st = open;
    lemma_lits_raw(c.content_sha@, lits);
    assert(append_last(lits, c.content_sha@) =~= before + seq![c.content_sha@]);
    
    lemma_lits_step(x, c.content_sha@, lits, st, before + seq![c.content_sha@], open);
    let x = x + c.content_sha@;
    let lits = before + seq![c.content_sha@];
    let st = open;
    lemma_lits_conflict(lits);
    lemma_lits_step(x, UPSERT_CONFLICT@, lits, st, lits, code);
    let x = x + UPSERT_CONFLICT@;
    let lits = lits;
    let st = code;
    assert(x == upsert_sql(c));
    assert(lits == upsert_literals(c));
}


// ── the sort order in an upsert ─────────────────────────────────────────────

/// Whether `t` is a decimal integer numeral: an optional `-`, then at least
/// one digit.
pub open spec fn is_numeral(t: Seq<char>) -> bool {
    let d = if t.len() > 0 && t[0] == '-' { t.drop_first() } else { t };
    d.len() > 0 && all_digits(d)
}

/// The integer a numeral denotes.
pub open spec fn numeral_value(t: Seq<char>) -> int {
    if t.len() > 0 && t[0] == '-' {
        -(digits_value(t.drop_first()) as int)
    } else {
        digits_value(t) as int
    }
}

proof fn lemma_decimal_value(n: nat)
    ensures
        digits_value(decimal(n)) == n,
        decimal(n).len() > 0,
        all_digits(decimal(n)),
    decreases n,
{
    lemma_decimal_digits(n);
    if n >= 10 {
        lemma_decimal_value(n / 10);
        let d = decimal(n);
        assert(d.drop_last() == decimal(n / 10));
        let ch = crate::text::digit_char(n % 10);
        assert(d.last() == ch);
        assert((ch as nat) == (n % 10) + 48);
        assert(digits_value(d) == digits_value(d.drop_last()) * 10 + ((d.last() as nat) - 48) as nat);
        assert(digits_value(d) == (n / 10) * 10 + n % 10);
        assert(n == (n / 10) * 10 + n % 10);
    } else {
        let ch = crate::text::digit_char(n);
        assert((ch as nat) == n + 48);
        let d = decimal(n);
        assert(d == seq![ch]);
        assert(d.drop_last() =~= Seq::<char>::empty());
        assert(digits_value(d.drop_last()) == 0);
        assert(d.last() == ch);
        assert(digits_value(d) == digits_value(d.drop_last()) * 10 + ((d.last() as nat) - 48) as nat);
    }
}

/// The decimal form of an integer is a numeral that denotes it.
pub proof fn lemma_signed_decimal_value(n: int)
    ensures
        is_numeral(signed_decimal(n)),
        numeral_value(signed_decimal(n)) == n,
{
    if n < 0 {
        let m = (-n) as nat;
        lemma_decimal_value(m);
        let t = signed_decimal(n);
        assert(t.drop_first() =~= decimal(m));
    } else {
        lemma_decimal_value(n as nat);
        lemma_decimal_digits(n as nat);
        assert('0' <= decimal(n as nat)[0] <= '9');
    }
}

/// The end of an upsert: the sort order, the hash and the conflict clause.
pub open spec fn upsert_tail(sort_text: Seq<char>, sha: Seq<char>) -> Seq<char> {
    ", "@ + sort_text + ", '"@ + sha + UPSERT_CONFLICT@
}

/// The value list of an upsert ends with the challenge's own sort order,
/// written as a numeral that denotes it, then its hash and the conflict
/// clause.
pub proof fn lemma_upsert_sort_order(c: Challenge)
    ensures
        exists|t: Seq<char>|
            #[trigger] is_numeral(t) && numeral_value(t) == c.fm.sort_order && upsert_sql(c).len()
                >= upsert_tail(t, c.content_sha@).len() && upsert_sql(c).subrange(
                upsert_sql(c).len() - upsert_tail(t, c.content_sha@).len(),
                upsert_sql(c).len() as int,
            ) == upsert_tail(t, c.content_sha@),
{
    let t = signed_decimal(c.fm.sort_order as int);
    lemma_signed_decimal_value(c.fm.sort_order as int);
    lemma_upsert_ends_with(c);
    assert(is_numeral(t));
}

proof fn lemma_upsert_ends_with(c: Challenge)
    ensures
        ({
            let tail = upsert_tail(signed_decimal(c.fm.sort_order as int), c.content_sha@);
            upsert_sql(c).len() >= tail.len() && upsert_sql(c).subrange(
                upsert_sql(c).len() - tail.len(),
                upsert_sql(c).len() as int,
            ) == tail
        }),
{
    reveal(upsert_sql);
    let u = upsert_sql(c);
    let tail = upsert_tail(signed_decimal(c.fm.sort_order as int), c.content_sha@);
    assert(u.subrange(u.len() - tail.len(), u.len() as int) =~= tail);
}

} // verus!
