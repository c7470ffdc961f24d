//! Comparing the challenge documents with the database: which slugs are new,
//! changed or removed, what a sync writes, and the order in which documents
//! are loaded.

use vstd::prelude::*;
use vstd::string::*;
use crate::challenges::Challenge;
use crate::migration::views;
use crate::text::text_eq;
use crate::database::opt_view;

verus! {

// ── membership and filtering ────────────────────────────────────────────────

/// Whether `name` is one of the strings in `list`.
pub fn contains_text(list: &[String], name: &str) -> (r: bool)
    ensures
        r == views(list@).contains(name@),
{
    let mut i: usize = 0;
    while i < list.len()
        invariant
            i <= list@.len(),
            forall|j: int| 0 <= j < i ==> list@[j]@ != name@,
        decreases list@.len() - i,
    {
        if text_eq(list[i].as_str(), name) {
            assert(views(list@)[i as int] == name@);
            return true;
        }
        i = i + 1;
    }
    proof {
        if views(list@).contains(name@) {
            let j = choose|j: int| 0 <= j < views(list@).len() && views(list@)[j] == name@;
            assert(list@[j]@ == name@);
        }
    }
    false
}

/// The items of `items` that are not in `keep`, in their order.
pub open spec fn not_in(items: Seq<Seq<char>>, keep: Seq<Seq<char>>) -> Seq<Seq<char>>
    decreases items.len(),
{
    if items.len() == 0 {
        Seq::empty()
    } else if keep.contains(items.last()) {
        not_in(items.drop_last(), keep)
    } else {
        not_in(items.drop_last(), keep).push(items.last())
    }
}

/// The strings of `items` that are not in `keep`, in their order: the slugs
/// a sync prunes, the slugs a diff reports as removed, the objects of a
/// bucket that a copy leaves stale.
pub fn missing_from(items: &[String], keep: &[String]) -> (r: Vec<String>)
    ensures
        views(r@) == not_in(views(items@), views(keep@)),
{
    let mut out: Vec<String> = Vec::new();
    let mut i: usize = 0;
    while i < items.len()
        invariant
            i <= items@.len(),
            views(out@) == not_in(views(items@).take(i as int), views(keep@)),
        decreases items@.len() - i,
    {
        assert(views(items@).take(i + 1).drop_last() =~= views(items@).take(i as int));
        assert(views(items@).take(i + 1).last() == items@[i as int]@);
        if !contains_text(keep, items[i].as_str()) {
            let ghost before = out@;
            out.push(items[i].clone());
            assert(views(out@) =~= views(before).push(items@[i as int]@));
        }
        i = i + 1;
    }
    assert(views(items@).take(items@.len() as int) =~= views(items@));
    out
}

// ── drift ───────────────────────────────────────────────────────────────────

/// The slugs of a list of challenges.
pub open spec fn slugs(cs: Seq<Challenge>) -> Seq<Seq<char>> {
    cs.map_values(|c: Challenge| c.fm.slug@)
}

/// Whether the database has no usable hash for a challenge (no row, or a row
/// without a hash): the challenge is new.
pub open spec fn is_new(existing: Option<String>) -> bool {
    existing is None
}

/// Whether the database holds a different hash for a challenge: it changed.
pub open spec fn is_changed(c: Challenge, existing: Option<String>) -> bool {
    existing matches Some(s) && s@ != c.content_sha@
}

/// The slugs of the first `n` challenges that are new.
pub open spec fn new_slugs(cs: Seq<Challenge>, ex: Seq<Option<String>>, n: nat) -> Seq<Seq<char>>
    decreases n,
{
    if n == 0 {
        Seq::empty()
    } else if is_new(ex[n - 1]) {
        new_slugs(cs, ex, (n - 1) as nat).push(cs[n - 1].fm.slug@)
    } else {
        new_slugs(cs, ex, (n - 1) as nat)
    }
}

/// The slugs of the first `n` challenges that changed.
pub open spec fn changed_slugs(cs: Seq<Challenge>, ex: Seq<Option<String>>, n: nat) -> Seq<
    Seq<char>,
>
    decreases n,
{
    if n == 0 {
        Seq::empty()
    } else if is_changed(cs[n - 1], ex[n - 1]) {
        changed_slugs(cs, ex, (n - 1) as nat).push(cs[n - 1].fm.slug@)
    } else {
        changed_slugs(cs, ex, (n - 1) as nat)
    }
}

/// Differences between the challenge documents and the database.
#[derive(Debug, Clone)]
pub struct Drift {
    /// Slugs of documents the database has no hash for.
    pub new: Vec<String>,
    /// Slugs of documents whose hash differs from the database's.
    pub changed: Vec<String>,
    /// Slugs in the database with no document.
    pub removed: Vec<String>,
}

impl Drift {
    /// Whether the documents and the database agree.
    pub fn is_empty(&self) -> (r: bool)
        ensures
            r == (self.new@.len() == 0 && self.changed@.len() == 0 && self.removed@.len() == 0),
    {
        self.new.len() == 0 && self.changed.len() == 0 && self.removed.len() == 0
    }
}

/// The slugs of `challenges`, in order.
pub fn slug_list(challenges: &[Challenge]) -> (r: Vec<String>)
    ensures
        views(r@) == slugs(challenges@),
{
    let mut out: Vec<String> = Vec::new();
    let mut i: usize = 0;
    while i < challenges.len()
        invariant
            i <= challenges@.len(),
            views(out@) == slugs(challenges@).take(i as int),
        decreases challenges@.len() - i,
    {
        let ghost before = out@;
        out.push(challenges[i].fm.slug.clone());
        assert(views(out@) =~= views(before).push(challenges@[i as int].fm.slug@));
        assert(slugs(challenges@).take(i + 1) =~= slugs(challenges@).take(i as int).push(
            challenges@[i as int].fm.slug@,
        ));
        i = i + 1;
    }
    assert(slugs(challenges@).take(challenges@.len() as int) =~= slugs(challenges@));
    out
}

/// The position of the document behind the `k`-th new slug among the first
/// `n` documents.
pub open spec fn new_origin(cs: Seq<Challenge>, ex: Seq<Option<String>>, n: nat, k: int) -> int
    decreases n,
{
    if n == 0 {
        0
    } else if is_new(ex[n - 1]) && k == new_slugs(cs, ex, (n - 1) as nat).len() {
        n - 1
    } else {
        new_origin(cs, ex, (n - 1) as nat, k)
    }
}

/// The position of the document behind the `k`-th changed slug among the
/// first `n` documents.
pub open spec fn changed_origin(cs: Seq<Challenge>, ex: Seq<Option<String>>, n: nat, k: int) -> int
    decreases n,
{
    if n == 0 {
        0
    } else if is_changed(cs[n - 1], ex[n - 1]) && k == changed_slugs(cs, ex, (n - 1) as nat).len() {
        n - 1
    } else {
        changed_origin(cs, ex, (n - 1) as nat, k)
    }
}

proof fn lemma_new_origin(cs: Seq<Challenge>, ex: Seq<Option<String>>, n: nat, k: int)
    requires
        ex.len() == cs.len(),
        n <= cs.len(),
        0 <= k < new_slugs(cs, ex, n).len(),
    ensures
        0 <= new_origin(cs, ex, n, k) < n,
        is_new(ex[new_origin(cs, ex, n, k)]),
        cs[new_origin(cs, ex, n, k)].fm.slug@ == new_slugs(cs, ex, n)[k],
    decreases n,
{
    let m = (n - 1) as nat;
    if is_new(ex[n - 1]) && k == new_slugs(cs, ex, m).len() {
    } else {
        lemma_new_origin(cs, ex, m, k);
    }
}

proof fn lemma_changed_origin(cs: Seq<Challenge>, ex: Seq<Option<String>>, n: nat, k: int)
    requires
        ex.len() == cs.len(),
        n <= cs.len(),
        0 <= k < changed_slugs(cs, ex, n).len(),
    ensures
        0 <= changed_origin(cs, ex, n, k) < n,
        is_changed(cs[changed_origin(cs, ex, n, k)], ex[changed_origin(cs, ex, n, k)]),
        cs[changed_origin(cs, ex, n, k)].fm.slug@ == changed_slugs(cs, ex, n)[k],
    decreases n,
{
    let m = (n - 1) as nat;
    if is_changed(cs[n - 1], ex[n - 1]) && k == changed_slugs(cs, ex, m).len() {
    } else {
        lemma_changed_origin(cs, ex, m, k);
    }
}

/// The drift classifies each document by the hash the database holds for
/// it: a document with no hash is listed as new, one whose stored hash
/// differs from its own is listed as changed; and each listed slug is that
/// of a document so classified.
pub proof fn lemma_drift_classifies(cs: Seq<Challenge>, ex: Seq<Option<String>>, n: nat)
    requires
        ex.len() == cs.len(),
        n <= cs.len(),
    ensures
        forall|i: int| 0 <= i < n ==> (#[trigger] ex[i] is None ==> new_slugs(cs, ex, n).contains(cs[i].fm.slug@)),
        forall|i: int|
            0 <= i < n ==> (#[trigger] ex[i] matches Some(h) && h@ != cs[i].content_sha@
                ==> changed_slugs(cs, ex, n).contains(cs[i].fm.slug@)),
        forall|k: int|
            #![trigger new_origin(cs, ex, n, k)]
            0 <= k < new_slugs(cs, ex, n).len() ==> (0 <= new_origin(cs, ex, n, k) < n && ex[new_origin(cs, ex, n, k)] is None
                && cs[new_origin(cs, ex, n, k)].fm.slug@ == new_slugs(cs, ex, n)[k]),
        forall|k: int|
            #![trigger changed_origin(cs, ex, n, k)]
            0 <= k < changed_slugs(cs, ex, n).len() ==> (0 <= changed_origin(cs, ex, n, k) < n && (ex[changed_origin(cs, ex, n, k)] matches Some(h) && h@
                != cs[changed_origin(cs, ex, n, k)].content_sha@) && cs[changed_origin(cs, ex, n, k)].fm.slug@
                == changed_slugs(cs, ex, n)[k]),
    decreases n,
{
    if n > 0 {
        let m = (n - 1) as nat;
        lemma_drift_classifies(cs, ex, m);
        let pn = new_slugs(cs, ex, m);
        let pc = changed_slugs(cs, ex, m);
        let j = n - 1;
        assert forall|i: int| 0 <= i < n implies (#[trigger] ex[i] is None ==> new_slugs(cs, ex, n).contains(cs[i].fm.slug@)) by {
            if ex[i] is None {
                if i < j {
                    let q = choose|q: int| 0 <= q < pn.len() && pn[q] == cs[i].fm.slug@;
                    if is_new(ex[j]) {
                        assert(new_slugs(cs, ex, n)[q] == pn[q]);
                    }
                } else {
                    assert(new_slugs(cs, ex, n).last() == cs[i].fm.slug@);
                }
            }
        }
        assert forall|i: int| 0 <= i < n implies (#[trigger] ex[i] matches Some(h) && h@ != cs[i].content_sha@
            ==> changed_slugs(cs, ex, n).contains(cs[i].fm.slug@)) by {
            if ex[i] matches Some(h) && h@ != cs[i].content_sha@ {
                if i < j {
                    let q = choose|q: int| 0 <= q < pc.len() && pc[q] == cs[i].fm.slug@;
                    if is_changed(cs[j], ex[j]) {
                        assert(changed_slugs(cs, ex, n)[q] == pc[q]);
                    }
                } else {
                    assert(changed_slugs(cs, ex, n).last() == cs[i].fm.slug@);
                }
            }
        }
    } else {
        assert(new_slugs(cs, ex, n).len() == 0);
        assert(changed_slugs(cs, ex, n).len() == 0);
    }
    assert forall|k: int| #![trigger new_origin(cs, ex, n, k)] 0 <= k < new_slugs(cs, ex, n).len() implies (0 <= new_origin(cs, ex, n, k) < n
        && ex[new_origin(cs, ex, n, k)] is None && cs[new_origin(cs, ex, n, k)].fm.slug@
        == new_slugs(cs, ex, n)[k]) by {
        lemma_new_origin(cs, ex, n, k);
    }
    assert forall|k: int| #![trigger changed_origin(cs, ex, n, k)] 0 <= k < changed_slugs(cs, ex, n).len() implies (0 <= changed_origin(cs, ex, n, k) < n
        && (ex[changed_origin(cs, ex, n, k)] matches Some(h) && h@ != cs[changed_origin(cs, ex, n, k)].content_sha@)
        && cs[changed_origin(cs, ex, n, k)].fm.slug@ == changed_slugs(cs, ex, n)[k]) by {
        lemma_changed_origin(cs, ex, n, k);
    }
}

/// What `not_in` keeps: exactly the items that `keep` does not hold.
pub proof fn lemma_not_in_members(items: Seq<Seq<char>>, keep: Seq<Seq<char>>)
    ensures
        forall|s: Seq<char>|
            #[trigger] not_in(items, keep).contains(s) <==> (items.contains(s) && !keep.contains(s)),
    decreases items.len(),
{
    if items.len() > 0 {
        let init = items.drop_last();
        lemma_not_in_members(init, keep);
        assert forall|s: Seq<char>|
            #[trigger] not_in(items, keep).contains(s) <==> (items.contains(s) && !keep.contains(s)) by {
            let r = not_in(items, keep);
            let p = not_in(init, keep);
            if items.contains(s) {
                let i = choose|i: int| 0 <= i < items.len() && items[i] == s;
                if i < init.len() {
                    assert(init[i] == s);
                }
            }
            if init.contains(s) {
                let i = choose|i: int| 0 <= i < init.len() && init[i] == s;
                assert(items[i] == s);
            }
            if !keep.contains(items.last()) {
                assert(r == p.push(items.last()));
                if p.contains(s) {
                    let q = choose|q: int| 0 <= q < p.len() && p[q] == s;
                    assert(r[q] == s);
                }
                if r.contains(s) {
                    let q = choose|q: int| 0 <= q < r.len() && r[q] == s;
                    if q < p.len() {
                        assert(p[q] == s);
                    }
                }
                assert(r[r.len() - 1] == items.last());
                assert(items[items.len() - 1] == items.last());
            }
        }
    }
}

/// Compare the challenges with the database. `existing[i]` is the hash the
/// database holds for `challenges[i]` (`None` without a row or a hash);
/// `db_slugs` are the slugs of the database rows.
pub fn compute_drift(challenges: &[Challenge], existing: &[Option<String>], db_slugs: &[String]) -> (r: Drift)
    requires
        existing@.len() == challenges@.len(),
    ensures
        views(r.new@) == new_slugs(challenges@, existing@, challenges@.len()),
        views(r.changed@) == changed_slugs(challenges@, existing@, challenges@.len()),
        views(r.removed@) == not_in(views(db_slugs@), slugs(challenges@)),
        forall|i: int|
            0 <= i < challenges@.len() ==> (#[trigger] existing@[i] is None ==> views(r.new@).contains(
                challenges@[i].fm.slug@,
            )),
        forall|i: int|
            0 <= i < challenges@.len() ==> (#[trigger] existing@[i] matches Some(h) && h@
                != challenges@[i].content_sha@ ==> views(r.changed@).contains(challenges@[i].fm.slug@)),
        forall|k: int|
            #![trigger new_origin(challenges@, existing@, challenges@.len(), k)]
            0 <= k < r.new@.len() ==> (0 <= new_origin(challenges@, existing@, challenges@.len(), k) < challenges@.len()
                && existing@[new_origin(challenges@, existing@, challenges@.len(), k)] is None
                && challenges@[new_origin(challenges@, existing@, challenges@.len(), k)].fm.slug@ == r.new@[k]@),
        forall|k: int|
            #![trigger changed_origin(challenges@, existing@, challenges@.len(), k)]
            0 <= k < r.changed@.len() ==> (0 <= changed_origin(challenges@, existing@, challenges@.len(), k) < challenges@.len()
                && (existing@[changed_origin(challenges@, existing@, challenges@.len(), k)] matches Some(h)
                && h@ != challenges@[changed_origin(challenges@, existing@, challenges@.len(), k)].content_sha@)
                && challenges@[changed_origin(challenges@, existing@, challenges@.len(), k)].fm.slug@ == r.changed@[k]@),
        forall|s: Seq<char>|
            #[trigger] views(r.removed@).contains(s) <==> (views(db_slugs@).contains(s) && !slugs(
                challenges@,
            ).contains(s)),
{
    let mut new: Vec<String> = Vec::new();
    let mut changed: Vec<String> = Vec::new();
    let mut i: usize = 0;
    while i < challenges.len()
        invariant
            existing@.len() == challenges@.len(),
            i <= challenges@.len(),
            views(new@) == new_slugs(challenges@, existing@, i as nat),
            views(changed@) == changed_slugs(challenges@, existing@, i as nat),
        decreases challenges@.len() - i,
    {
        let c = &challenges[i];
        match &existing[i] {
            None => {
                let ghost before = new@;
                new.push(c.fm.slug.clone());
                assert(views(new@) =~= views(before).push(c.fm.slug@));
            },
            Some(sha) => {
                if !text_eq(sha.as_str(), c.content_sha.as_str()) {
                    let ghost before = changed@;
                    changed.push(c.fm.slug.clone());
                    assert(views(changed@) =~= views(before).push(c.fm.slug@));
                }
            },
        }
        i = i + 1;
    }
    let content_slugs = slug_list(challenges);
    let removed = missing_from(db_slugs, content_slugs.as_slice());
    proof {
        lemma_drift_classifies(challenges@, existing@, challenges@.len());
        lemma_not_in_members(views(db_slugs@), slugs(challenges@));
        assert forall|k: int| 0 <= k < new@.len() implies #[trigger] new@[k]@ == views(new@)[k] by {}
        assert forall|k: int| 0 <= k < changed@.len() implies #[trigger] changed@[k]@ == views(changed@)[k] by {}
    }
    Drift { new, changed, removed }
}

/// Whether a sync writes a challenge: unless the database already holds its
/// hash.
pub open spec fn needs_sync_spec(c: Challenge, existing: Option<Seq<char>>) -> bool {
    existing != Some(c.content_sha@)
}

/// Whether a sync must write `c`, given the hash the database holds for it.
pub fn needs_sync(c: &Challenge, existing: &Option<String>) -> (r: bool)
    ensures
        r == needs_sync_spec(*c, opt_view(*existing)),
{
    match existing {
        Some(sha) => !text_eq(sha.as_str(), c.content_sha.as_str()),
        None => true,
    }
}

/// The challenges whose slug the drift reports as new or changed, in order.
pub open spec fn changed_in(cs: Seq<Challenge>, new: Seq<Seq<char>>, changed: Seq<Seq<char>>) -> Seq<
    Challenge,
>
    decreases cs.len(),
{
    if cs.len() == 0 {
        Seq::empty()
    } else if new.contains(cs.last().fm.slug@) || changed.contains(cs.last().fm.slug@) {
        changed_in(cs.drop_last(), new, changed).push(cs.last())
    } else {
        changed_in(cs.drop_last(), new, changed)
    }
}

/// The challenges a migration must upsert: those the drift lists as new or
/// changed.
pub fn changed_challenges<'a>(challenges: &'a [Challenge], drift: &Drift) -> (r: Vec<&'a Challenge>)
    ensures
        r@.map_values(|c: &Challenge| *c) == changed_in(
            challenges@,
            views(drift.new@),
            views(drift.changed@),
        ),
{
    let mut out: Vec<&'a Challenge> = Vec::new();
    let mut i: usize = 0;
    while i < challenges.len()
        invariant
            i <= challenges@.len(),
            out@.map_values(|c: &Challenge| *c) == changed_in(
                challenges@.take(i as int),
                views(drift.new@),
                views(drift.changed@),
            ),
        decreases challenges@.len() - i,
    {
        assert(challenges@.take(i + 1).drop_last() =~= challenges@.take(i as int));
        let c = &challenges[i];
        if contains_text(drift.new.as_slice(), c.fm.slug.as_str()) || contains_text(
            drift.changed.as_slice(),
            c.fm.slug.as_str(),
        ) {
            let ghost before = out@;
            out.push(c);
            assert(out@.map_values(|c: &Challenge| *c) =~= before.map_values(|c: &Challenge| *c).push(*c));
        }
        i = i + 1;
    }
    assert(challenges@.take(challenges@.len() as int) =~= challenges@);
    out
}

// ── load order ──────────────────────────────────────────────────────────────

/// Whether `a` sorts strictly before `b`: lexicographic by character (the
/// order of `String`, whose byte order agrees with character order in UTF-8).
pub open spec fn text_lt(a: Seq<char>, b: Seq<char>) -> bool
    decreases a.len(),
{
    if a.len() == 0 {
        b.len() > 0
    } else if b.len() == 0 {
        false
    } else if a[0] != b[0] {
        a[0] < b[0]
    } else {
        text_lt(a.drop_first(), b.drop_first())
    }
}

/// Whether `a` sorts at or before `b`.
pub open spec fn text_le(a: Seq<char>, b: Seq<char>) -> bool {
    text_lt(a, b) || a == b
}

proof fn lemma_text_lt_irreflexive(a: Seq<char>)
    ensures
        !text_lt(a, a),
    decreases a.len(),
{
    if a.len() > 0 {
        lemma_text_lt_irreflexive(a.drop_first());
    }
}

proof fn lemma_text_lt_transitive(a: Seq<char>, b: Seq<char>, c: Seq<char>)
    requires
        text_lt(a, b),
        text_lt(b, c),
    ensures
        text_lt(a, c),
    decreases a.len(),
{
    if a.len() > 0 && b.len() > 0 && c.len() > 0 && a[0] == b[0] && b[0] == c[0] {
        lemma_text_lt_transitive(a.drop_first(), b.drop_first(), c.drop_first());
    }
}

proof fn lemma_text_lt_total(a: Seq<char>, b: Seq<char>)
    ensures
        text_lt(a, b) || a == b || text_lt(b, a),
    decreases a.len(),
{
    if a.len() > 0 && b.len() > 0 && a[0] == b[0] {
        lemma_text_lt_total(a.drop_first(), b.drop_first());
        if a.drop_first() == b.drop_first() {
            assert(a =~= seq![a[0]] + a.drop_first());
            assert(b =~= seq![b[0]] + b.drop_first());
        }
    } else if a.len() == 0 && b.len() == 0 {
        assert(a =~= b);
    }
}

/// The order in which loading places two documents: by slug, and by their
/// original position among equal slugs (a stable sort).
pub open spec fn load_before(cs: Seq<Challenge>, i: int, j: int) -> bool {
    text_lt(cs[i].fm.slug@, cs[j].fm.slug@) || (cs[i].fm.slug@ == cs[j].fm.slug@ && i < j)
}

/// Whether `order` lists the positions of `cs` in loading order: each
/// position exactly once, each before the positions that sort after it.
pub open spec fn is_load_order(cs: Seq<Challenge>, order: Seq<usize>) -> bool {
    &&& order.len() == cs.len()
    &&& forall|k: int| 0 <= k < order.len() ==> #[trigger] order[k] < cs.len()
    &&& forall|j: usize| j < cs.len() ==> #[trigger] order.contains(j)
    &&& forall|a: int, b: int|
        0 <= a < b < order.len() ==> load_before(cs, #[trigger] order[a] as int, #[trigger] order[b] as int)
}

fn text_less(a: &str, b: &str) -> (r: bool)
    ensures
        r == text_lt(a@, b@),
{
    let x = crate::text::chars_of(a);
    let y = crate::text::chars_of(b);
    let mut i: usize = 0;
    assert(x@.skip(0) =~= x@);
    assert(y@.skip(0) =~= y@);
    while i < x.len() && i < y.len() && x[i] == y[i]
        invariant
            x@ == a@,
            y@ == b@,
            i <= x@.len(),
            i <= y@.len(),
            text_lt(a@, b@) == text_lt(x@.skip(i as int), y@.skip(i as int)),
        decreases x@.len() - i,
    {
        proof {
            assert(x@.skip(i as int).drop_first() =~= x@.skip(i + 1));
            assert(y@.skip(i as int).drop_first() =~= y@.skip(i + 1));
        }
        i = i + 1;
    }
    if i == x.len() {
        i < y.len()
    } else if i == y.len() {
        false
    } else {
        x[i] < y[i]
    }
}

/// The loading order of `challenges`: positions sorted by slug, equal slugs
/// kept in their original order.
pub fn load_order(challenges: &[Challenge]) -> (r: Vec<usize>)
    ensures
        is_load_order(challenges@, r@),
{
    let ghost cs = challenges@;
    let n = challenges.len();
    let mut order: Vec<usize> = Vec::new();
    let mut i: usize = 0;
    while i < n
        invariant
            n == cs.len(),
            cs == challenges@,
            i <= n,
            order@.len() == i,
            forall|k: int| 0 <= k < order@.len() ==> #[trigger] order@[k] < i,
            forall|j: usize| j < i ==> #[trigger] order@.contains(j),
            forall|a: int, b: int|
                0 <= a < b < order@.len() ==> load_before(cs, #[trigger] order@[a] as int, #[trigger] order@[b] as int),
        decreases n - i,
    {
        let si = challenges[i].fm.slug.as_str();
        let mut p = order.len();
        while p > 0 && text_less(si, challenges[order[p - 1]].fm.slug.as_str())
            invariant
                n == cs.len(),
                cs == challenges@,
                i < n,
                si@ == cs[i as int].fm.slug@,
                order@.len() == i,
                p <= order@.len(),
                forall|k: int| 0 <= k < order@.len() ==> #[trigger] order@[k] < i,
                forall|q: int|
                    p <= q < order@.len() ==> text_lt(cs[i as int].fm.slug@, #[trigger] cs[order@[q] as int].fm.slug@),
            decreases p,
        {
            assert(text_lt(cs[i as int].fm.slug@, cs[order@[p - 1] as int].fm.slug@));
            p = p - 1;
        }
        let ghost old_order = order@;
        proof {
            // everything before `p` sorts at or before document `i`
            assert forall|q: int| 0 <= q < p implies load_before(cs, #[trigger] old_order[q] as int, i as int) by {
                let last = old_order[p - 1] as int;
                lemma_text_lt_total(cs[i as int].fm.slug@, cs[last].fm.slug@);
                if q < p - 1 {
                    assert(load_before(cs, old_order[q] as int, old_order[p - 1] as int));
                    let sq = cs[old_order[q] as int].fm.slug@;
                    let sl = cs[last].fm.slug@;
                    let si = cs[i as int].fm.slug@;
                    if text_lt(sq, sl) && text_lt(sl, si) {
                        lemma_text_lt_transitive(sq, sl, si);
                    }
                }
            }
        }
        order.insert(p, i);
        proof {
            assert forall|a: int, b: int|
                0 <= a < b < order@.len() implies load_before(cs, #[trigger] order@[a] as int, #[trigger] order@[b] as int) by {
                if b < p {
                    assert(order@[a] == old_order[a] && order@[b] == old_order[b]);
                } else if b == p {
                    assert(order@[a] == old_order[a]);
                } else if a == p {
                    assert(order@[b] == old_order[b - 1]);
                } else if a < p {
                    assert(order@[a] == old_order[a] && order@[b] == old_order[b - 1]);
                } else {
                    assert(order@[a] == old_order[a - 1] && order@[b] == old_order[b - 1]);
                }
            }
            assert forall|j: usize| j < i + 1 implies #[trigger] order@.contains(j) by {
                if j == i {
                    assert(order@[p as int] == i);
                } else {
                    assert(old_order.contains(j));
                    let k = choose|k: int| 0 <= k < old_order.len() && old_order[k] == j;
                    if k < p {
                        assert(order@[k] == j);
                    } else {
                        assert(order@[k + 1] == j);
                    }
                }
            }
            assert forall|k: int| 0 <= k < order@.len() implies #[trigger] order@[k] < i + 1 by {
                if k < p {
                    assert(order@[k] == old_order[k]);
                } else if k > p {
                    assert(order@[k] == old_order[k - 1]);
                }
            }
        }
        i = i + 1;
    }
    order
}

proof fn lemma_load_order_distinct(cs: Seq<Challenge>, order: Seq<usize>, a: int, b: int)
    requires
        is_load_order(cs, order),
        0 <= a < b < order.len(),
    ensures
        order[a] != order[b],
{
    assert(load_before(cs, order[a] as int, order[b] as int));
    lemma_text_lt_irreflexive(cs[order[a] as int].fm.slug@);
}

/// `cs` in loading order: sorted by slug, equal slugs in their original
/// order.
pub fn sort_by_slug(v: Vec<Challenge>) -> (r: Vec<Challenge>)
    ensures
        exists|order: Seq<usize>|
            is_load_order(v@, order) && r@.len() == v@.len() && forall|k: int|
                0 <= k < r@.len() ==> #[trigger] r@[k] == v@[order[k] as int],
{
    let order = load_order(v.as_slice());
    let ghost orig = v@;
    let n = v.len();
    let mut slots: Vec<Option<Challenge>> = Vec::new();
    for c in iter: v
        invariant
            slots@.len() == iter.index(),
            iter.seq() == orig,
            forall|j: int| 0 <= j < slots@.len() ==> #[trigger] slots@[j] == Some(orig[j]),
    {
        slots.push(Some(c));
    }
    let mut out: Vec<Challenge> = Vec::new();
    let mut k: usize = 0;
    while k < n
        invariant
            n == orig.len(),
            is_load_order(orig, order@),
            slots@.len() == n,
            k <= n,
            out@.len() == k,
            forall|q: int| 0 <= q < k ==> #[trigger] out@[q] == orig[order@[q] as int],
            forall|j: int|
                0 <= j < n ==> (#[trigger] slots@[j] is Some <==> !order@.take(k as int).contains(
                    j as usize,
                )),
            forall|j: int| 0 <= j < n && slots@[j] is Some ==> #[trigger] slots@[j] == Some(orig[j]),
        decreases n - k,
    {
        let idx = order[k];
        proof {
            assert(idx < n);
            assert(!order@.take(k as int).contains(idx)) by {
                if order@.take(k as int).contains(idx) {
                    let q = choose|q: int| 0 <= q < k && #[trigger] order@.take(k as int)[q] == idx;
                    lemma_load_order_distinct(orig, order@, q, k as int);
                }
            }
        }
        let mut tmp: Option<Challenge> = None;
        let ghost before = slots@;
        slots.set_and_swap(idx, &mut tmp);
        proof {
            assert(order@.take(k + 1) =~= order@.take(k as int).push(idx));
            assert forall|j: int| 0 <= j < n implies (#[trigger] slots@[j] is Some <==> !order@.take(
                k + 1,
            ).contains(j as usize)) by {
                if j != idx as int {
                    assert(slots@[j] == before[j]);
                    if order@.take(k as int).contains(j as usize) {
                        let q = choose|q: int| 0 <= q < k && #[trigger] order@.take(k as int)[q] == j as usize;
                        assert(order@.take(k + 1)[q] == j as usize);
                    }
                    if order@.take(k + 1).contains(j as usize) {
                        let q = choose|q: int| 0 <= q < k + 1 && #[trigger] order@.take(k + 1)[q] == j as usize;
                        if q < k {
                            assert(order@.take(k as int)[q] == j as usize);
                        }
                    }
                } else {
                    assert(order@.take(k + 1)[k as int] == idx);
                }
            }
        }
        match tmp {
            Some(c) => {
                out.push(c);
            },
            None => {
                proof {
                    assert(before[idx as int] is Some);
                }
            },
        }
        k = k + 1;
    }
    out
}

// ── sync then diff ──────────────────────────────────────────────────────────

/// A row of the `challenges` table as a sync sees it: its hash column, and
/// the challenge whose values its other columns hold when a sync wrote it
/// (`None` for a row that no sync wrote).
pub type RowModel = (Option<Seq<char>>, Option<Challenge>);

/// The hash column of the row for `slug` (`None` without a row or a hash).
pub open spec fn db_hash(db: Map<Seq<char>, RowModel>, slug: Seq<char>) -> Option<Seq<char>> {
    if db.contains_key(slug) {
        db[slug].0
    } else {
        None
    }
}

/// The row an upsert writes for `c`: its hash, and its values in the other
/// columns (those of `upsert_params` and the challenge's own fields).
pub open spec fn written_row(c: Challenge) -> RowModel {
    (Some(c.content_sha@), Some(c))
}

/// The database after the upserts of a sync: each challenge in turn is
/// written when `needs_sync_spec` says so.
pub open spec fn upsert_all(db: Map<Seq<char>, RowModel>, cs: Seq<Challenge>) -> Map<Seq<char>, RowModel>
    decreases cs.len(),
{
    if cs.len() == 0 {
        db
    } else {
        let d = upsert_all(db, cs.drop_last());
        let c = cs.last();
        if needs_sync_spec(c, db_hash(d, c.fm.slug@)) {
            d.insert(c.fm.slug@, written_row(c))
        } else {
            d
        }
    }
}

/// The database after a sync: the upserts, then the rows whose slug no
/// document has are pruned.
pub open spec fn synced(db: Map<Seq<char>, RowModel>, cs: Seq<Challenge>) -> Map<Seq<char>, RowModel> {
    upsert_all(db, cs).restrict(slugs(cs).to_set())
}

/// Whether no two challenges share a slug.
pub open spec fn distinct_slugs(cs: Seq<Challenge>) -> bool {
    forall|a: int, b: int| 0 <= a < b < cs.len() ==> #[trigger] cs[a].fm.slug@ != #[trigger] cs[b].fm.slug@
}

/// The row a sync leaves for `c`: untouched when the database already held
/// its hash, otherwise the row written from `c`.
pub open spec fn row_after_sync(db: Map<Seq<char>, RowModel>, c: Challenge) -> RowModel {
    if db_hash(db, c.fm.slug@) == Some(c.content_sha@) {
        db[c.fm.slug@]
    } else {
        written_row(c)
    }
}

proof fn lemma_upsert_all(db: Map<Seq<char>, RowModel>, cs: Seq<Challenge>)
    requires
        distinct_slugs(cs),
    ensures
        forall|i: int| 0 <= i < cs.len() ==> upsert_all(db, cs).contains_key(#[trigger] cs[i].fm.slug@)
            && upsert_all(db, cs)[cs[i].fm.slug@] == row_after_sync(db, cs[i]),
        forall|k: Seq<char>| !slugs(cs).contains(k) ==> (#[trigger] upsert_all(db, cs).contains_key(k)
            == db.contains_key(k)) && (db.contains_key(k) ==> upsert_all(db, cs)[k] == db[k]),
    decreases cs.len(),
{
    if cs.len() > 0 {
        let init = cs.drop_last();
        assert(distinct_slugs(init)) by {
            assert forall|a: int, b: int| 0 <= a < b < init.len() implies #[trigger] init[a].fm.slug@ != #[trigger] init[b].fm.slug@ by {
                assert(init[a] == cs[a] && init[b] == cs[b]);
            }
        }
        lemma_upsert_all(db, init);
        let d = upsert_all(db, init);
        let c = cs.last();
        let sl = c.fm.slug@;
        assert(!slugs(init).contains(sl)) by {
            if slugs(init).contains(sl) {
                let j = choose|j: int| 0 <= j < slugs(init).len() && slugs(init)[j] == sl;
                assert(init[j] == cs[j]);
                assert(cs[j].fm.slug@ != cs[cs.len() - 1].fm.slug@);
            }
        }
        assert(db_hash(d, sl) == db_hash(db, sl));
        assert forall|i: int| 0 <= i < cs.len() implies upsert_all(db, cs).contains_key(#[trigger] cs[i].fm.slug@)
            && upsert_all(db, cs)[cs[i].fm.slug@] == row_after_sync(db, cs[i]) by {
            if i < cs.len() - 1 {
                assert(init[i] == cs[i]);
                assert(cs[i].fm.slug@ != cs[cs.len() - 1].fm.slug@);
            }
        }
        assert forall|k: Seq<char>| !slugs(cs).contains(k) implies (#[trigger] upsert_all(db, cs).contains_key(k)
            == db.contains_key(k)) && (db.contains_key(k) ==> upsert_all(db, cs)[k] == db[k]) by {
            assert(slugs(cs)[cs.len() - 1] == sl);
            assert(k != sl);
            if slugs(init).contains(k) {
                let j = choose|j: int| 0 <= j < slugs(init).len() && slugs(init)[j] == k;
                assert(slugs(cs)[j] == k);
            }
        }
    }
}

/// What a sync does to the table: afterwards it holds exactly one row per
/// document; a row whose hash already matched its document is left as it
/// was, and every other document's row is written from the document (its
/// hash and its other columns). (The slugs are distinct: with two documents
/// of one slug the later one's row stands.)
pub proof fn lemma_sync_rows(db: Map<Seq<char>, RowModel>, cs: Seq<Challenge>)
    requires
        distinct_slugs(cs),
    ensures
        synced(db, cs).dom() == slugs(cs).to_set(),
        forall|i: int| 0 <= i < cs.len() ==> #[trigger] synced(db, cs)[cs[i].fm.slug@] == row_after_sync(db, cs[i]),
        forall|i: int| 0 <= i < cs.len() ==> #[trigger] db_hash(synced(db, cs), cs[i].fm.slug@) == Some(cs[i].content_sha@),
{
    lemma_upsert_all(db, cs);
    let up = upsert_all(db, cs);
    let keep = slugs(cs).to_set();
    assert forall|k: Seq<char>| #[trigger] synced(db, cs).dom().contains(k) <==> keep.contains(k) by {
        if keep.contains(k) {
            let j = choose|j: int| 0 <= j < slugs(cs).len() && slugs(cs)[j] == k;
            assert(cs[j].fm.slug@ == k);
            assert(up.contains_key(cs[j].fm.slug@));
        }
    }
    assert(synced(db, cs).dom() =~= keep);
    assert forall|i: int| 0 <= i < cs.len() implies #[trigger] synced(db, cs)[cs[i].fm.slug@] == row_after_sync(db, cs[i])
        && db_hash(synced(db, cs), cs[i].fm.slug@) == Some(cs[i].content_sha@) by {
        assert(slugs(cs)[i] == cs[i].fm.slug@);
        assert(keep.contains(cs[i].fm.slug@));
    }
}

proof fn lemma_no_new(cs: Seq<Challenge>, ex: Seq<Option<String>>, n: nat)
    requires
        n <= cs.len(),
        n <= ex.len(),
        forall|i: int| 0 <= i < n ==> opt_view(#[trigger] ex[i]) == Some(cs[i].content_sha@),
    ensures
        new_slugs(cs, ex, n).len() == 0,
        changed_slugs(cs, ex, n).len() == 0,
    decreases n,
{
    if n > 0 {
        lemma_no_new(cs, ex, (n - 1) as nat);
        assert(opt_view(ex[n - 1]) == Some(cs[n - 1].content_sha@));
    }
}

proof fn lemma_not_in_empty(items: Seq<Seq<char>>, keep: Seq<Seq<char>>)
    requires
        forall|i: int| 0 <= i < items.len() ==> keep.contains(#[trigger] items[i]),
    ensures
        not_in(items, keep).len() == 0,
    decreases items.len(),
{
    if items.len() > 0 {
        let init = items.drop_last();
        assert forall|i: int| 0 <= i < init.len() implies keep.contains(#[trigger] init[i]) by {
            assert(init[i] == items[i]);
        }
        lemma_not_in_empty(init, keep);
        assert(keep.contains(items[items.len() - 1]));
    }
}

/// A sync makes the database agree with the documents: after it, reading back
/// each document's hash and the slugs of all rows, the drift finds nothing new,
/// changed or removed. (Two documents with the same slug would leave the
/// earlier one changed, so the slugs are distinct.)
pub proof fn lemma_sync_leaves_no_drift(
    db: Map<Seq<char>, RowModel>,
    cs: Seq<Challenge>,
    existing: Seq<Option<String>>,
    rows: Seq<String>,
)
    requires
        distinct_slugs(cs),
        existing.len() == cs.len(),
        forall|i: int| 0 <= i < cs.len() ==> opt_view(#[trigger] existing[i]) == db_hash(synced(db, cs), cs[i].fm.slug@),
        forall|k: int| 0 <= k < rows.len() ==> synced(db, cs).contains_key(#[trigger] rows[k]@),
    ensures
        new_slugs(cs, existing, cs.len()).len() == 0,
        changed_slugs(cs, existing, cs.len()).len() == 0,
        not_in(views(rows), slugs(cs)).len() == 0,
{
    lemma_sync_rows(db, cs);
    let keep = slugs(cs).to_set();
    assert forall|i: int| 0 <= i < cs.len() implies opt_view(#[trigger] existing[i]) == Some(cs[i].content_sha@) by {
        assert(db_hash(synced(db, cs), cs[i].fm.slug@) == Some(cs[i].content_sha@));
    }
    lemma_no_new(cs, existing, cs.len());
    assert forall|k: int| 0 <= k < views(rows).len() implies slugs(cs).contains(#[trigger] views(rows)[k]) by {
        assert(views(rows)[k] == rows[k]@);
        assert(synced(db, cs).contains_key(rows[k]@));
        assert(keep.contains(rows[k]@));
    }
    lemma_not_in_empty(views(rows), slugs(cs));
}

} // verus!
