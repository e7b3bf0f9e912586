//! Decisions of the token-issuing tool: which signing operation its
//! arguments select, how the remote signer's parameters are split, and
//! what moment an expiry argument names. The tool's argument parsing and
//! file reading stay outside; this module only decides.

use vstd::prelude::*;
use vstd::string::StrSliceExecFns;

use crate::token::Error;

verus! {

/// Parameters of the remote signing service, as given on the command line:
/// `<version>:<key-name>:<key-ring>:<location>`.
pub struct GCloudParams {
    pub version: String,
    pub key_name: String,
    pub key_ring: String,
    pub location: String,
}

/// Mathematical model of [`GCloudParams`].
pub ghost struct GCloudParamsView {
    pub version: Seq<char>,
    pub key_name: Seq<char>,
    pub key_ring: Seq<char>,
    pub location: Seq<char>,
}

impl View for GCloudParams {
    type V = GCloudParamsView;

    open spec fn view(&self) -> GCloudParamsView {
        GCloudParamsView {
            version: self.version@,
            key_name: self.key_name@,
            key_ring: self.key_ring@,
            location: self.location@,
        }
    }
}

/// First position at or after `i` holding a colon, or the end.
pub open spec fn find_colon(s: Seq<char>, i: int) -> int
    decreases s.len() - i,
{
    if 0 <= i < s.len() {
        if s[i] == ':' {
            i
        } else {
            find_colon(s, i + 1)
        }
    } else {
        i
    }
}

pub proof fn lemma_find_colon_bounds(s: Seq<char>, i: int)
    ensures
        i <= find_colon(s, i),
        i <= s.len() ==> find_colon(s, i) <= s.len(),
        0 <= i && find_colon(s, i) < s.len() ==> s[find_colon(s, i)] == ':',
    decreases s.len() - i,
{
    if 0 <= i < s.len() && s[i] != ':' {
        lemma_find_colon_bounds(s, i + 1);
    }
}

/// The first four colon-separated pieces of the argument, or nothing where
/// fewer than three colons occur. Anything after a fourth colon is
/// ignored.
pub open spec fn gcloud_params_of(s: Seq<char>) -> Option<GCloudParamsView> {
    let c1 = find_colon(s, 0);
    let c2 = find_colon(s, c1 + 1);
    let c3 = find_colon(s, c2 + 1);
    let c4 = find_colon(s, c3 + 1);
    if c1 < s.len() && c2 < s.len() && c3 < s.len() {
        Some(
            GCloudParamsView {
                version: s.subrange(0, c1),
                key_name: s.subrange(c1 + 1, c2),
                key_ring: s.subrange(c2 + 1, c3),
                location: s.subrange(c3 + 1, c4),
            },
        )
    } else {
        None
    }
}

fn find_colon_exec(s: &str, n: usize, i: usize) -> (r: usize)
    requires
        i <= n,
        n == s@.len(),
    ensures
        r == find_colon(s@, i as int),
        i <= r <= n,
{
    let mut j: usize = i;
    while j < n && s.get_char(j) != ':'
        invariant
            i <= j <= n,
            n == s@.len(),
            find_colon(s@, i as int) == find_colon(s@, j as int),
        decreases n - j,
    {
        assert(find_colon(s@, j as int) == find_colon(s@, j + 1));
        j = j + 1;
    }
    proof {
        lemma_find_colon_bounds(s@, j as int);
    }
    j
}

/// The remote signer's parameters read out of one argument; see
/// [`gcloud_params_of`].
pub fn read_gcloud_params(arg: &str) -> (r: Option<GCloudParams>)
    ensures
        r matches Some(p) ==> gcloud_params_of(arg@) == Some(p@),
        r is None ==> gcloud_params_of(arg@) is None,
{
    let n = arg.unicode_len();
    let c1 = find_colon_exec(arg, n, 0);
    if c1 == n {
        return None;
    }
    let c2 = find_colon_exec(arg, n, c1 + 1);
    if c2 == n {
        return None;
    }
    let c3 = find_colon_exec(arg, n, c2 + 1);
    if c3 == n {
        return None;
    }
    let c4 = find_colon_exec(arg, n, c3 + 1);
    Some(
        GCloudParams {
            version: arg.substring_char(0, c1).to_owned(),
            key_name: arg.substring_char(c1 + 1, c2).to_owned(),
            key_ring: arg.substring_char(c2 + 1, c3).to_owned(),
            location: arg.substring_char(c3 + 1, c4).to_owned(),
        },
    )
}

/// The token-issuing tool's arguments, already read from the command line:
/// the token's fields as text and flags, and at most one signing choice —
/// a private-key path or the remote signer's parameters.
pub struct Args {
    pub origin: String,
    pub feature: String,
    pub expiry: String,
    pub sign: Option<String>,
    pub gcloud_sign: Option<String>,
    pub subdomain: bool,
    pub third_party: bool,
    pub subset_usage: bool,
    pub verbose: bool,
}

/// The selected signing operation: a local private key at a path, or the
/// remote signer.
pub enum SignatureOp {
    Local(String),
    GCloud(GCloudParams),
}

impl Args {
    /// Which signing operation the arguments select, if any. At most one
    /// may be given, and given remote parameters must split into their
    /// four pieces.
    pub fn signature_op(&self) -> (r: Option<SignatureOp>)
        requires
            !(self.sign is Some && self.gcloud_sign is Some),
            self.gcloud_sign matches Some(g) ==> gcloud_params_of(g@) is Some,
        ensures
            self.sign matches Some(path) ==> (r matches Some(op) && op matches SignatureOp::Local(
                p,
            ) && p@ == path@),
            self.sign is None ==> (self.gcloud_sign matches Some(g) ==> (r matches Some(op) && (
            op matches SignatureOp::GCloud(params) && Some(params@) == gcloud_params_of(g@)))),
            self.sign is None && self.gcloud_sign is None ==> r is None,
    {
        if let Some(local_path) = &self.sign {
            return Some(SignatureOp::Local(local_path.clone()));
        }
        if let Some(gcloud) = &self.gcloud_sign {
            match read_gcloud_params(gcloud.as_str()) {
                Some(params) => {
                    return Some(SignatureOp::GCloud(params));
                },
                None => {
                    proof {
                        assert(false);
                    }
                    return None;
                },
            }
        }
        None
    }
}

/// The Unix seconds a date text names, read as the layout of electronic
/// mail dates; depends on the text alone.
pub uninterp spec fn rfc2822_seconds_of(s: Seq<char>) -> Option<i64>;

/// The Unix seconds a date text names, read as the internet timestamp
/// layout; depends on the text alone.
pub uninterp spec fn rfc3339_seconds_of(s: Seq<char>) -> Option<i64>;

/// Relies on chrono::DateTime::parse_from_rfc2822 and timestamp: the Unix
/// seconds of the moment the text names, a function of the text alone.
#[verifier::external_body]
fn parse_rfc2822_seconds(s: &str) -> (r: Option<i64>)
    ensures
        r == rfc2822_seconds_of(s@),
{
    match chrono::DateTime::parse_from_rfc2822(s) {
        Ok(d) => Some(d.timestamp()),
        Err(_) => None,
    }
}

/// Relies on chrono::DateTime::parse_from_rfc3339 and timestamp: the Unix
/// seconds of the moment the text names, a function of the text alone.
#[verifier::external_body]
fn parse_rfc3339_seconds(s: &str) -> (r: Option<i64>)
    ensures
        r == rfc3339_seconds_of(s@),
{
    match chrono::DateTime::parse_from_rfc3339(s) {
        Ok(d) => Some(d.timestamp()),
        Err(_) => None,
    }
}

/// The expiry argument as Unix seconds: the mail date layout is tried
/// first, then the internet timestamp layout; any other shape is an
/// error.
pub fn parse_expiry(datetime: &str) -> (r: Result<i64, Error>)
    ensures
        rfc2822_seconds_of(datetime@) matches Some(t) ==> r == Ok::<i64, Error>(t),
        rfc2822_seconds_of(datetime@) is None ==> (rfc3339_seconds_of(datetime@) matches Some(t)
            ==> r == Ok::<i64, Error>(t)),
        rfc2822_seconds_of(datetime@) is None && rfc3339_seconds_of(datetime@) is None ==> r
            == Err::<i64, Error>(Error::MalformedInput),
{
    if let Some(t) = parse_rfc2822_seconds(datetime) {
        return Ok(t);
    }
    if let Some(t) = parse_rfc3339_seconds(datetime) {
        return Ok(t);
    }
    Err(Error::MalformedInput)
}

} // verus!
