//! The configuration of the policy, and what it means where a property is left out.

use vstd::prelude::*;
use vstd::string::*;

use crate::entitlement;
use crate::entitlement::{claims_of, parse_csv_set, EntitlementPolicy, MaskMode};
use crate::text;
use crate::text::to_ascii_lowercase;

verus! {

/// The configuration of the policy, but for the two services that it calls.
#[derive(Debug, Clone)]
pub struct Config {
    pub allowed_purposes: Option<String>,
    pub cdgc_org_password: String,
    pub cdgc_org_username: String,
    pub clearance_claim: Option<String>,
    pub clearance_header: Option<String>,
    pub cleared_levels: Option<Vec<String>>,
    pub distributed: Option<bool>,
    pub fail_open_on_cdgc_error: Option<bool>,
    pub mask_mode: Option<String>,
    pub mask_token: Option<String>,
    pub purpose_claim: Option<String>,
    pub purpose_header: Option<String>,
    pub records_path: Option<String>,
    pub refresh_interval_seconds: Option<i64>,
    pub schema_id: String,
    pub schema_id_claim: Option<String>,
    pub schema_id_header: Option<String>,
    pub sensitive_levels: Option<Vec<String>>,
    pub sensitive_marker: Option<String>,
    pub timeout: Option<i64>,
}

pub const DEFAULT_TIMEOUT_MS: i64 = 5_000;

pub const DEFAULT_REFRESH_INTERVAL_SECONDS: i64 = 86_400;

/// A stored field map is kept for at least thirty days.
pub const FIELD_MAP_STORE_MIN_TTL_MS: u64 = 2_592_000_000;

pub const DEFAULT_SENSITIVE_MARKER: &'static str = "confidential";

pub const DEFAULT_SCHEMA_ID_HEADER: &'static str = "x-dp-schema-id";

pub const DEFAULT_CLEARANCE_HEADER: &'static str = "x-dp-clearance";

pub const DEFAULT_PURPOSE_HEADER: &'static str = "x-dp-purpose";

pub const DEFAULT_CLEARED_LEVEL: &'static str = "restricted";

pub const DEFAULT_MASK_TOKEN: &'static str = "***";

pub const DEFAULT_MASK_MODE: &'static str = "mask";

/// A configured text, or what stands in for it.
pub open spec fn text_or(v: Option<String>, default: Seq<char>) -> Seq<char> {
    match v {
        Some(s) => s@,
        None => default,
    }
}

fn configured<'a>(v: &'a Option<String>, default: &'a str) -> (r: &'a str)
    ensures
        r@ == text_or(*v, default@),
{
    match v {
        Some(s) => s.as_str(),
        None => default,
    }
}

/// The seconds for which a field map counts as fresh.
pub open spec fn fresh_seconds(interval: Option<i64>) -> i64 {
    match interval {
        Some(s) => if s > 0 {
            s
        } else {
            0
        },
        None => DEFAULT_REFRESH_INTERVAL_SECONDS,
    }
}

/// The milliseconds that one catalog call may take.
pub open spec fn per_call(timeout: Option<i64>) -> i64 {
    match timeout {
        Some(t) => t,
        None => DEFAULT_TIMEOUT_MS,
    }
}

/// The milliseconds for which a store keeps a field map: twice the refresh interval, at least the
/// minimum, and no more than the store can count.
pub open spec fn store_ttl(interval: Option<i64>) -> int {
    let wanted = fresh_seconds(interval) * 2 * 1000;
    let kept = if wanted < FIELD_MAP_STORE_MIN_TTL_MS {
        FIELD_MAP_STORE_MIN_TTL_MS as int
    } else {
        wanted
    };
    if kept > u32::MAX {
        u32::MAX as int
    } else {
        kept
    }
}

/// The clearance levels that see sensitive fields.
pub open spec fn cleared_levels(v: Option<Vec<String>>) -> Set<Seq<char>> {
    match v {
        Some(levels) => entitlement::claim_set(text::texts(levels@)),
        None => entitlement::claim_set(seq![DEFAULT_CLEARED_LEVEL@]),
    }
}

/// The purposes that see sensitive fields; none where purposes are not enforced.
pub open spec fn allowed_purposes(v: Option<String>) -> Set<Seq<char>> {
    entitlement::claim_set(text::pieces(text_or(v, Seq::empty()), ','))
}

impl Config {
    /// The seconds for which a field map counts as fresh.
    pub fn refresh_ttl(&self) -> (r: i64)
        ensures
            r == fresh_seconds(self.refresh_interval_seconds),
    {
        match self.refresh_interval_seconds {
            Some(s) => if s > 0 {
                s
            } else {
                0
            },
            None => DEFAULT_REFRESH_INTERVAL_SECONDS,
        }
    }

    /// The milliseconds that one catalog call may take.
    pub fn per_call_ms(&self) -> (r: i64)
        ensures
            r == per_call(self.timeout),
    {
        match self.timeout {
            Some(t) => t,
            None => DEFAULT_TIMEOUT_MS,
        }
    }

    /// Whether the last known field map is served when the catalog fails.
    pub fn fails_open(&self) -> (r: bool)
        ensures
            r == (self.fail_open_on_cdgc_error != Some(false)),
    {
        match self.fail_open_on_cdgc_error {
            Some(b) => b,
            None => true,
        }
    }

    /// Whether the cache and the refresh lock are shared across replicas.
    pub fn is_distributed(&self) -> (r: bool)
        ensures
            r == (self.distributed == Some(true)),
    {
        match self.distributed {
            Some(b) => b,
            None => false,
        }
    }

    /// The path to the records in a payload.
    pub fn records_path_or_root(&self) -> (r: &str)
        ensures
            r@ == text_or(self.records_path, Seq::empty()),
    {
        proof {
            reveal_strlit("");
            assert(""@ =~= Seq::<char>::empty());
        }
        configured(&self.records_path, "")
    }

    /// What marks a term as sensitive.
    pub fn marker(&self) -> (r: &str)
        ensures
            r@ == text_or(self.sensitive_marker, DEFAULT_SENSITIVE_MARKER@),
    {
        configured(&self.sensitive_marker, DEFAULT_SENSITIVE_MARKER)
    }

    /// The request header that names the schema asset.
    pub fn schema_header(&self) -> (r: String)
        ensures
            r@ == text::ascii_lowercase(
                text_or(self.schema_id_header, DEFAULT_SCHEMA_ID_HEADER@),
            ),
    {
        to_ascii_lowercase(configured(&self.schema_id_header, DEFAULT_SCHEMA_ID_HEADER))
    }

    /// The request header that carries the caller's clearance.
    pub fn clearance_header_name(&self) -> (r: String)
        ensures
            r@ == text::ascii_lowercase(
                text_or(self.clearance_header, DEFAULT_CLEARANCE_HEADER@),
            ),
    {
        to_ascii_lowercase(configured(&self.clearance_header, DEFAULT_CLEARANCE_HEADER))
    }

    /// The request header that carries the caller's declared purpose.
    pub fn purpose_header_name(&self) -> (r: String)
        ensures
            r@ == text::ascii_lowercase(text_or(self.purpose_header, DEFAULT_PURPOSE_HEADER@)),
    {
        to_ascii_lowercase(configured(&self.purpose_header, DEFAULT_PURPOSE_HEADER))
    }
}

/// The milliseconds for which a store keeps a field map.
pub fn field_map_store_ttl_ms(config: &Config) -> (r: u32)
    ensures
        r == store_ttl(config.refresh_interval_seconds),
{
    let wanted: u128 = config.refresh_ttl() as u128 * 2 * 1000;
    let kept: u128 = if wanted < FIELD_MAP_STORE_MIN_TTL_MS as u128 {
        FIELD_MAP_STORE_MIN_TTL_MS as u128
    } else {
        wanted
    };
    if kept > u32::MAX as u128 {
        u32::MAX
    } else {
        kept as u32
    }
}

/// The entitlement rule that is configured.
pub fn entitlement_policy(config: &Config) -> (r: EntitlementPolicy)
    ensures
        r.cleared_levels@ == cleared_levels(config.cleared_levels),
        r.allowed_purposes@ == allowed_purposes(config.allowed_purposes),
        r.mask_mode == entitlement::mode_named(
            entitlement::normalized(text_or(config.mask_mode, DEFAULT_MASK_MODE@)),
        ),
        r.mask_token@ == text_or(config.mask_token, DEFAULT_MASK_TOKEN@),
{
    let cleared_levels = match &config.cleared_levels {
        Some(levels) => claims_of(levels),
        None => {
            let mut levels: Vec<String> = Vec::new();
            levels.push(DEFAULT_CLEARED_LEVEL.to_owned());
            assert(text::texts(levels@) =~= seq![DEFAULT_CLEARED_LEVEL@]);
            claims_of(&levels)
        },
    };
    proof {
        reveal_strlit("");
        assert(""@ =~= Seq::<char>::empty());
    }
    EntitlementPolicy {
        cleared_levels,
        allowed_purposes: parse_csv_set(configured(&config.allowed_purposes, "")),
        mask_mode: MaskMode::parse(configured(&config.mask_mode, DEFAULT_MASK_MODE)),
        mask_token: configured(&config.mask_token, DEFAULT_MASK_TOKEN).to_owned(),
    }
}

} // verus!
