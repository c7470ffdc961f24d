//! Challenge documents: the parsed frontmatter, the assembled challenge, and
//! the content hash that tells whether a document changed.

use vstd::prelude::*;
use sha2::Digest;
use vstd::string::*;
use crate::markdown::{split_headings, sections_of};
use crate::database::opt_view;

verus! {

/// The YAML frontmatter of a challenge document.
#[derive(Debug, Clone)]
pub struct Frontmatter {
    pub slug: String,
    pub title: String,
    pub job_slug: Option<String>,
    pub short_description: Option<String>,
    pub tech_stack: Vec<String>,
    pub category: Option<String>,
    pub url: Option<String>,
    pub image_url: Option<String>,
    pub featured: bool,
    pub sort_order: i64,
    pub related_plan_module: Option<String>,
    pub related_adr: Option<String>,
}

/// A challenge: its frontmatter, the text of its sections, the hash of the
/// document it came from and that document's path.
#[derive(Debug, Clone)]
pub struct Challenge {
    pub fm: Frontmatter,
    pub description: String,
    pub problem: Option<String>,
    pub constraints: Option<String>,
    pub decisions: Option<String>,
    pub implementation: Option<String>,
    pub outcomes: Option<String>,
    pub metrics: Option<String>,
    pub content_sha: String,
    pub source_path: String,
}

/// The text of the section `key`, if the document has one.
pub open spec fn section(m: Map<Seq<char>, Seq<char>>, key: Seq<char>) -> Option<Seq<char>> {
    if m.contains_key(key) {
        Some(m[key])
    } else {
        None
    }
}

/// Whether a document body has a non-empty `## Description` section.
pub open spec fn has_description(body: Seq<char>) -> bool {
    sections_of(body).contains_key("description"@) && sections_of(body)["description"@].len() > 0
}

/// Assemble a challenge from its frontmatter and the markdown body after it.
/// `None` exactly when the body has no non-empty `## Description` section.
pub fn challenge_from_parts(
    fm: Frontmatter,
    body: &str,
    content_sha: String,
    source_path: String,
) -> (r: Option<Challenge>)
    ensures
        r is Some <==> has_description(body@),
        r matches Some(c) ==> {
            let m = sections_of(body@);
            &&& c.fm == fm
            &&& c.description@ == m["description"@]
            &&& opt_view(c.problem) == section(m, "problem"@)
            &&& opt_view(c.constraints) == section(m, "constraints"@)
            &&& opt_view(c.decisions) == section(m, "decisions"@)
            &&& opt_view(c.implementation) == section(m, "implementation"@)
            &&& opt_view(c.outcomes) == section(m, "outcomes"@)
            &&& opt_view(c.metrics) == section(m, "metrics"@)
            &&& c.content_sha == content_sha
            &&& c.source_path == source_path
        },
{
    let sections = split_headings(body);
    let description = match sections.get("description") {
        Some(d) => {
            if d.as_str().is_empty() {
                return None;
            }
            d
        },
        None => {
            return None;
        },
    };
    let problem = sections.get("problem");
    let constraints = sections.get("constraints");
    let decisions = sections.get("decisions");
    let implementation = sections.get("implementation");
    let outcomes = sections.get("outcomes");
    let metrics = sections.get("metrics");
    Some(
        Challenge {
            fm,
            description,
            problem,
            constraints,
            decisions,
            implementation,
            outcomes,
            metrics,
            content_sha,
            source_path,
        },
    )
}

/// The SHA-256 digest of a byte sequence.
pub uninterp spec fn sha256(data: Seq<u8>) -> Seq<u8>;

/// Hashes `data` with `sha2::Sha256`.
///
/// The digest is stated through the name `sha256`; the crate fixes its
/// output at 32 bytes.
#[verifier::external_body]
fn sha256_digest(data: &[u8]) -> (r: Vec<u8>)
    ensures
        r@ == sha256(data@),
        r@.len() == 32,
{
    let mut hasher = sha2::Sha256::new();
    hasher.update(data);
    hasher.finalize().to_vec()
}

/// The lowercase hexadecimal digit of `d` (below 16).
pub open spec fn hex_digit(d: nat) -> char {
    if d < 10 {
        ((d + 48) as u8) as char
    } else {
        ((d + 87) as u8) as char
    }
}

/// Lowercase hexadecimal, two digits per byte, high nibble first.
pub open spec fn hex_lower(data: Seq<u8>) -> Seq<char>
    decreases data.len(),
{
    if data.len() == 0 {
        Seq::empty()
    } else {
        hex_lower(data.drop_last()) + seq![
            hex_digit((data.last() / 16) as nat),
            hex_digit((data.last() % 16) as nat),
        ]
    }
}

fn hex_char(d: u8) -> (r: char)
    requires
        d < 16,
    ensures
        r == hex_digit(d as nat),
{
    if d < 10 {
        (d + 48) as char
    } else {
        (d + 87) as char
    }
}

/// Lowercase hexadecimal of `data`.
pub fn to_hex_lower(data: &[u8]) -> (r: String)
    ensures
        r@ == hex_lower(data@),
{
    let mut s = String::new();
    let mut i: usize = 0;
    while i < data.len()
        invariant
            i <= data@.len(),
            s@ == hex_lower(data@.take(i as int)),
        decreases data@.len() - i,
    {
        let b = data[i];
        s.push(hex_char(b / 16));
        s.push(hex_char(b % 16));
        assert(data@.take(i + 1).drop_last() =~= data@.take(i as int));
        i = i + 1;
    }
    assert(data@.take(data@.len() as int) =~= data@);
    s
}

/// Whether `c` is a lowercase hexadecimal digit: `0`-`9` or `a`-`f`.
pub open spec fn is_lower_hex(c: char) -> bool {
    ('0' <= c && c <= '9') || ('a' <= c && c <= 'f')
}

/// The hexadecimal form of `data` has two characters per byte, each a
/// lowercase hexadecimal digit.
pub proof fn lemma_hex_lower_shape(data: Seq<u8>)
    ensures
        hex_lower(data).len() == 2 * data.len(),
        forall|i: int| 0 <= i < hex_lower(data).len() ==> is_lower_hex(#[trigger] hex_lower(data)[i]),
    decreases data.len(),
{
    if data.len() > 0 {
        let init = data.drop_last();
        lemma_hex_lower_shape(init);
        let b = data.last();
        let hi = (b / 16) as nat;
        let lo = (b % 16) as nat;
        assert(is_lower_hex(hex_digit(hi)));
        assert(is_lower_hex(hex_digit(lo)));
        let h = hex_lower(data);
        assert forall|i: int| 0 <= i < h.len() implies is_lower_hex(#[trigger] h[i]) by {
            if i < hex_lower(init).len() {
                assert(h[i] == hex_lower(init)[i]);
            }
        }
    }
}

/// The freshness signal of a document: the lowercase hexadecimal SHA-256 of
/// its UTF-8 bytes, 64 lowercase hexadecimal digits.
pub fn content_sha(raw: &str) -> (r: String)
    ensures
        r@ == hex_lower(sha256(raw.spec_bytes())),
        r@.len() == 64,
        forall|i: int| 0 <= i < r@.len() ==> is_lower_hex(#[trigger] r@[i]),
{
    let digest = sha256_digest(raw.as_bytes());
    proof {
        lemma_hex_lower_shape(digest@);
    }
    to_hex_lower(digest.as_slice())
}

} // verus!
