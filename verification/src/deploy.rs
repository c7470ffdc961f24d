//! Deployment decisions: registry credentials, the registry of an image,
//! asset caching, release tags and the per-environment deployment settings.

use vstd::prelude::*;
use vstd::string::*;
use crate::text::{chars_of, owned, string_from, before_first, prefix_before};
use crate::database::opt_view;
use crate::markdown::find;

verus! {

// ── container registry ──────────────────────────────────────────────────────

/// The `user:password` split of a decoded registry token: both parts when the
/// token holds exactly one `:`.
pub open spec fn credential_parts(token: Seq<char>) -> Option<(Seq<char>, Seq<char>)> {
    match find(token, seq![':']) {
        Some(k) => if token.subrange(k + 1, token.len() as int).contains(':') {
            None
        } else {
            Some((token.subrange(0, k), token.subrange(k + 1, token.len() as int)))
        },
        None => None,
    }
}

/// Split a decoded registry token `user:password` into its two parts;
/// `None` unless it holds exactly one `:`.
pub fn ecr_credentials(token: &str) -> (r: Option<(String, String)>)
    ensures
        match credential_parts(token@) {
            Some((u, p)) => r matches Some((a, b)) && a@ == u && b@ == p,
            None => r is None,
        },
{
    let v = chars_of(token);
    let n = v.len();
    let mut k: usize = 0;
    while k < n && v[k] != ':'
        invariant
            v@ == token@,
            n == v@.len(),
            k <= n,
            forall|j: int| 0 <= j < k ==> v@[j] != ':',
        decreases n - k,
    {
        k = k + 1;
    }
    proof {
        crate::markdown::lemma_find_first_char(token@, ':', k as int);
    }
    if k == n {
        return None;
    }
    let mut m = k + 1;
    while m < n && v[m] != ':'
        invariant
            v@ == token@,
            n == v@.len(),
            k < m <= n,
            forall|j: int| k < j < m ==> v@[j] != ':',
        decreases n - m,
    {
        m = m + 1;
    }
    let ghost rest = token@.subrange(k + 1, n as int);
    if m < n {
        assert(rest[m - k - 1] == ':');
        return None;
    }
    assert(!rest.contains(':')) by {
        if rest.contains(':') {
            let j = choose|j: int| 0 <= j < rest.len() && rest[j] == ':';
            assert(v@[k + 1 + j] == ':');
        }
    }
    Some((string_from(&v, 0, k), string_from(&v, k + 1, n)))
}

/// The registry of an image reference: the part before its first `/`.
pub fn registry_of(image_uri: &str) -> (r: &str)
    ensures
        r@ == before_first(image_uri@, '/'),
{
    prefix_before(image_uri, '/')
}

// ── static site assets ──────────────────────────────────────────────────────

/// The cache policy of an asset: `index.html` must always be fetched again,
/// everything else is immutable for a year.
pub open spec fn cache_control_spec(key: Seq<char>) -> Seq<char> {
    if key == "index.html"@ {
        "no-cache,no-store,must-revalidate"@
    } else {
        "public,max-age=31536000,immutable"@
    }
}

/// The `Cache-Control` value to copy an asset with.
pub fn cache_control_for(key: &str) -> (r: &'static str)
    ensures
        r@ == cache_control_spec(key@),
{
    if crate::text::text_eq(key, "index.html") {
        "no-cache,no-store,must-revalidate"
    } else {
        "public,max-age=31536000,immutable"
    }
}

/// The source of a server-side copy: `bucket/key`.
pub fn copy_source(bucket: &str, key: &str) -> (r: String)
    ensures
        r@ == bucket@ + seq!['/'] + key@,
{
    let mut s = owned(bucket);
    s.push('/');
    s.append(key);
    s
}

// ── release tags ────────────────────────────────────────────────────────────

/// The production tag of a development tag: `dev-vX` becomes `vX`; other tags
/// have none.
pub open spec fn prod_tag_spec(dev_tag: Seq<char>) -> Option<Seq<char>> {
    if dev_tag.len() >= 5 && dev_tag.subrange(0, 5) == "dev-v"@ {
        Some(seq!['v'] + dev_tag.subrange(5, dev_tag.len() as int))
    } else {
        None
    }
}

/// The production tag for a development tag `dev-v<version>`: `v<version>`.
pub fn prod_tag_for(dev_tag: &str) -> (r: Option<String>)
    ensures
        opt_view(r) == prod_tag_spec(dev_tag@),
{
    let v = chars_of(dev_tag);
    let n = v.len();
    proof {
        reveal_strlit("dev-v");
    }
    if n >= 5 && v[0] == 'd' && v[1] == 'e' && v[2] == 'v' && v[3] == '-' && v[4] == 'v' {
        assert(dev_tag@.subrange(0, 5) =~= "dev-v"@);
        let mut s = String::new();
        s.push('v');
        crate::text::push_range(&mut s, &v, 5, n);
        Some(s)
    } else {
        proof {
            if n >= 5 {
                let p = dev_tag@.subrange(0, 5);
                if p == "dev-v"@ {
                    assert(p[0] == v@[0] && p[1] == v@[1] && p[2] == v@[2] && p[3] == v@[3] && p[4]
                        == v@[4]);
                }
            }
        }
        None
    }
}

// ── per-environment deployment settings ─────────────────────────────────────

/// The name of the secret holding an environment's deployment settings.
pub fn secret_name(env: &str) -> (r: String)
    ensures
        r@ == "deploy-baba/"@ + env@ + "/deploy-config"@,
{
    let mut s = owned("deploy-baba/");
    s.append(env);
    s.append("/deploy-config");
    s
}

/// A JSON parse error of `serde_json`, carried through unchanged.
#[verifier::external_type_specification]
#[verifier::external_body]
pub struct ExJsonError(serde_json::Error);

/// The string at `key` of the JSON document `raw`: `None` when `raw` is not
/// JSON; `Some(None)` when the document has no string there.
pub uninterp spec fn json_string_at(raw: Seq<char>, key: Seq<char>) -> Option<Option<Seq<char>>>;

/// Parses `raw` with `serde_json::from_str` into a `serde_json::Value` and
/// reads the string at `key` (`value[key].as_str()`).
///
/// The result is stated through the name `json_string_at`: it is a function
/// of the two texts, and JSON parsing takes pages to write out. A parse error
/// is returned as it is.
#[verifier::external_body]
fn json_string_field(raw: &str, key: &str) -> (r: Result<Option<String>, serde_json::Error>)
    ensures
        match r {
            Ok(o) => json_string_at(raw@, key@) == Some(opt_view(o)),
            Err(_) => json_string_at(raw@, key@) is None,
        },
{
    let value: serde_json::Value = serde_json::from_str(raw)?;
    Ok(value[key].as_str().map(|s| s.to_owned()))
}

/// Deployment settings of one environment.
#[derive(Debug, Clone)]
pub struct EnvConfig {
    pub spa_bucket: String,
    pub cloudfront_id: String,
    pub ui_fn_name: String,
    pub agent_fn_name: String,
    pub fn_url: String,
}

/// Why deployment settings could not be read.
#[derive(Debug)]
pub enum SettingsError {
    /// The secret is not valid JSON.
    Json(serde_json::Error),
}

/// The text of a setting: the string at `key`, or empty when there is none.
pub open spec fn setting(raw: Seq<char>, key: Seq<char>) -> Seq<char> {
    match json_string_at(raw, key) {
        Some(Some(s)) => s,
        _ => Seq::empty(),
    }
}

/// Whether the string at `key` can be read (the document parses).
pub open spec fn readable(raw: Seq<char>, key: Seq<char>) -> bool {
    json_string_at(raw, key) is Some
}

fn read_setting(raw: &str, key: &str) -> (r: Result<String, SettingsError>)
    ensures
        r is Ok <==> readable(raw@, key@),
        r matches Ok(s) ==> s@ == setting(raw@, key@),
{
    match json_string_field(raw, key) {
        Ok(Some(s)) => Ok(s),
        Ok(None) => Ok(String::new()),
        Err(e) => Err(SettingsError::Json(e)),
    }
}

impl EnvConfig {
    /// Read the settings from the JSON text of the secret; a field that is
    /// missing or not a string reads as empty.
    pub fn from_secret_json(raw: &str) -> (r: Result<EnvConfig, SettingsError>)
        ensures
            r is Ok <==> (readable(raw@, "spa_bucket"@) && readable(raw@, "cloudfront_id"@)
                && readable(raw@, "ui_fn_name"@) && readable(raw@, "agent_fn_name"@) && readable(
                raw@,
                "fn_url"@,
            )),
            r matches Ok(c) ==> {
                &&& c.spa_bucket@ == setting(raw@, "spa_bucket"@)
                &&& c.cloudfront_id@ == setting(raw@, "cloudfront_id"@)
                &&& c.ui_fn_name@ == setting(raw@, "ui_fn_name"@)
                &&& c.agent_fn_name@ == setting(raw@, "agent_fn_name"@)
                &&& c.fn_url@ == setting(raw@, "fn_url"@)
            },
    {
        let spa_bucket = read_setting(raw, "spa_bucket")?;
        let cloudfront_id = read_setting(raw, "cloudfront_id")?;
        let ui_fn_name = read_setting(raw, "ui_fn_name")?;
        let agent_fn_name = read_setting(raw, "agent_fn_name")?;
        let fn_url = read_setting(raw, "fn_url")?;
        Ok(EnvConfig { spa_bucket, cloudfront_id, ui_fn_name, agent_fn_name, fn_url })
    }
}

} // verus!
