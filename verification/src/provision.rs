//! Decisions about the resources that the functions use: role, table, key, bucket
//! and container repository.
use crate::codec::{base64_bytes, decode_base64, text_strict};
use crate::config::{
    ECR_REPO, KMS_ALIAS, KMS_TAG_KEY, KMS_TAG_VALUE, PREFIX, REGION, S3_BATCH_KEY_CARDINALITY,
    S3_BATCH_PAYLOAD_BYTES, S3_LETTERCOUNT_PAYLOAD_BYTES, TABLE_NAME,
};
use crate::lambda::{bucket_name, bucket_of};
use crate::record::{copy_maybe, maybe_text};
use crate::text::{
    append_decimal, decimal, decimal_int, decimal_int_string, first_of, same_text, split_once,
};
use vstd::prelude::*;
use vstd::string::*;
use vstd::utf8::{decode_utf8, valid_utf8};

verus! {

// ---- role ----

/// Who may assume the execution role.
pub const TRUST_POLICY: &'static str = r#"{
  "Version": "2012-10-17",
  "Statement": [
    { "Effect": "Allow", "Principal": { "Service": "lambda.amazonaws.com" }, "Action": "sts:AssumeRole" }
  ]
}"#;

/// The managed policy that lets functions write logs.
pub const BASIC_EXEC_POLICY_ARN: &'static str =
    "arn:aws:iam::aws:policy/service-role/AWSLambdaBasicExecutionRole";

/// The variable that names the policy bounding the execution role.
pub const EXEC_ROLE_BOUNDARY_POLICY_ENV: &'static str = "LAMBDABENCH_EXEC_ROLE_BOUNDARY_POLICY_ARN";

/// The boundary that was asked for: an empty value asks for none.
pub fn wanted_boundary(value: &Option<String>) -> (r: Option<String>)
    ensures
        maybe_text(r) == (match *value {
            Some(v) => if v@.len() > 0 {
                Some(v@)
            } else {
                None
            },
            None => None,
        }),
{
    match value {
        Some(v) => {
            if v.as_str().is_empty() {
                None
            } else {
                Some(v.clone())
            }
        },
        None => None,
    }
}

/// What to do about the execution role.
pub enum RoleStep {
    /// It is as it should be.
    Keep,
    /// It is there, but is not bounded by this policy.
    SetBoundary(String),
    /// It is not there: create it, bounded by this policy where there is one.
    Create(Option<String>),
}

/// What to do about the execution role: `existing` holds the boundary of a role
/// that is there. One left without the wanted boundary, or with another, is
/// brought under it.
pub fn role_step(existing: &Option<Option<String>>, boundary: &Option<String>) -> (r: RoleStep)
    ensures
        match (*existing, r) {
            (None, RoleStep::Create(b)) => maybe_text(b) == maybe_text(*boundary),
            (Some(current), RoleStep::SetBoundary(b)) => {
                &&& maybe_text(*boundary) == Some(b@)
                &&& maybe_text(current) != Some(b@)
            },
            (Some(current), RoleStep::Keep) => boundary is None || maybe_text(current)
                == maybe_text(*boundary),
            _ => false,
        },
{
    match existing {
        None => RoleStep::Create(copy_maybe(boundary)),
        Some(current) => match boundary {
            None => RoleStep::Keep,
            Some(wanted) => {
                let same: bool = match current {
                    Some(c) => same_text(c.as_str(), wanted.as_str()),
                    None => false,
                };
                if same {
                    RoleStep::Keep
                } else {
                    RoleStep::SetBoundary(wanted.clone())
                }
            },
        },
    }
}

/// The rights of the execution role: the table, keys under the benchmark's alias,
/// and the bucket, each of the one account.
pub open spec fn role_policy_text(account_id: Seq<char>) -> Seq<char> {
    "{\n  \"Version\": \"2012-10-17\",\n  \"Statement\": [\n    { \"Effect\": \"Allow\", \"Action\": [\"dynamodb:GetItem\", \"dynamodb:PutItem\"], \"Resource\": \"arn:aws:dynamodb:"@
        + REGION@ + ":"@ + account_id + ":table/"@ + TABLE_NAME@
        + "\" },\n    { \"Effect\": \"Allow\",\n       \"Action\": [\"kms:Encrypt\"],\n       \"Resource\": \"arn:aws:kms:"@
        + REGION@ + ":"@ + account_id
        + ":key/*\",\n       \"Condition\": { \"ForAnyValue:StringLike\": { \"kms:ResourceAliases\": \"alias/"@
        + PREFIX@
        + "-*\" } } },\n    { \"Effect\": \"Allow\", \"Action\": [\"s3:GetObject\", \"s3:PutObject\"], \"Resource\": \"arn:aws:s3:::"@
        + bucket_of(account_id) + "/*\" }\n  ]\n}"@
}

/// The rights of the execution role.
pub fn role_policy(account_id: &str) -> (r: String)
    ensures
        r@ == role_policy_text(account_id@),
{
    let mut out: String =
        "{\n  \"Version\": \"2012-10-17\",\n  \"Statement\": [\n    { \"Effect\": \"Allow\", \"Action\": [\"dynamodb:GetItem\", \"dynamodb:PutItem\"], \"Resource\": \"arn:aws:dynamodb:".to_owned();
    out.append(REGION);
    out.append(":");
    out.append(account_id);
    out.append(":table/");
    out.append(TABLE_NAME);
    out.append(
        "\" },\n    { \"Effect\": \"Allow\",\n       \"Action\": [\"kms:Encrypt\"],\n       \"Resource\": \"arn:aws:kms:",
    );
    out.append(REGION);
    out.append(":");
    out.append(account_id);
    out.append(
        ":key/*\",\n       \"Condition\": { \"ForAnyValue:StringLike\": { \"kms:ResourceAliases\": \"alias/",
    );
    out.append(PREFIX);
    out.append(
        "-*\" } } },\n    { \"Effect\": \"Allow\", \"Action\": [\"s3:GetObject\", \"s3:PutObject\"], \"Resource\": \"arn:aws:s3:::",
    );
    out.append(bucket_name(account_id).as_str());
    out.append("/*\" }\n  ]\n}");
    out
}

// ---- table ----

/// What a look at the table shows.
#[derive(Debug, Clone, Copy, PartialEq, Eq, Structural)]
pub enum TableSeen {
    Missing,
    Active,
    Deleting,
    /// Being created or updated, or not told.
    Other,
}

/// What to do before waiting for the table.
#[derive(Debug, Clone, Copy, PartialEq, Eq, Structural)]
pub enum TableStep {
    /// Nothing.
    Keep,
    /// Create it.
    Create,
    /// Wait until it is gone, then create it: one that is being deleted cannot be
    /// used.
    DrainAndCreate,
}

/// What to do before waiting for the table.
pub fn table_step(seen: TableSeen) -> (r: TableStep)
    ensures
        r == (match seen {
            TableSeen::Missing => TableStep::Create,
            TableSeen::Deleting => TableStep::DrainAndCreate,
            _ => TableStep::Keep,
        }),
{
    match seen {
        TableSeen::Missing => TableStep::Create,
        TableSeen::Deleting => TableStep::DrainAndCreate,
        TableSeen::Active | TableSeen::Other => TableStep::Keep,
    }
}

/// Most polls for a state of the table.
pub const TABLE_POLLS: u32 = 60;

/// Pause after each poll.
pub const TABLE_POLL_INTERVAL_MS: u64 = 2000;

/// What is waited for.
#[derive(Debug, Clone, Copy, PartialEq, Eq, Structural)]
pub enum TableWait {
    Gone,
    Active,
}

/// Whether the wait is over.
pub fn table_wait_over(wait: TableWait, seen: TableSeen) -> (r: bool)
    ensures
        r == (match wait {
            TableWait::Gone => seen == TableSeen::Missing,
            TableWait::Active => seen == TableSeen::Active,
        }),
{
    match wait {
        TableWait::Gone => seen == TableSeen::Missing,
        TableWait::Active => seen == TableSeen::Active,
    }
}

/// Why a look at the table ends the wait in failure, where it does: a table that is
/// to become active must be there.
pub fn table_wait_failed(wait: TableWait, seen: TableSeen) -> (r: Option<String>)
    ensures
        match r {
            None => !(wait == TableWait::Active && seen == TableSeen::Missing),
            Some(m) => wait == TableWait::Active && seen == TableSeen::Missing && m@
                == "DescribeTable while waiting for ACTIVE: table "@ + TABLE_NAME@ + " not found"@,
        },
{
    match (wait, seen) {
        (TableWait::Active, TableSeen::Missing) => {
            let mut out: String = "DescribeTable while waiting for ACTIVE: table ".to_owned();
            out.append(TABLE_NAME);
            out.append(" not found");
            Some(out)
        },
        _ => None,
    }
}

/// Why a wait ends after so many polls, where it does.
pub fn table_wait_expired(wait: TableWait, polls: u32) -> (r: Option<String>)
    ensures
        match r {
            None => polls < 60,
            Some(m) => polls >= 60 && m@ == "table "@ + TABLE_NAME@ + (match wait {
                TableWait::Gone => " did not finish DELETING in time"@,
                TableWait::Active => " did not become ACTIVE in time"@,
            }),
        },
{
    if polls < TABLE_POLLS {
        return None;
    }
    let mut out: String = "table ".to_owned();
    out.append(TABLE_NAME);
    match wait {
        TableWait::Gone => out.append(" did not finish DELETING in time"),
        TableWait::Active => out.append(" did not become ACTIVE in time"),
    }
    Some(out)
}

// ---- key ----

/// An alias as it is listed: its name and the key it points to.
pub struct AliasEntry {
    pub name: Option<String>,
    pub key_id: Option<String>,
}

/// Whether an alias is the benchmark's and points to a key.
pub open spec fn is_our_alias(a: AliasEntry) -> bool {
    maybe_text(a.name) == Some(KMS_ALIAS@) && a.key_id is Some
}

/// The key behind the benchmark's alias: the first alias of that name that points
/// to one.
pub fn alias_key(aliases: &Vec<AliasEntry>) -> (r: Option<String>)
    ensures
        match r {
            Some(id) => exists|i: int|
                {
                    &&& 0 <= i < aliases@.len()
                    &&& is_our_alias(#[trigger] aliases@[i])
                    &&& forall|k: int| 0 <= k < i ==> !is_our_alias(#[trigger] aliases@[k])
                    &&& aliases@[i].key_id->0@ == id@
                },
            None => forall|i: int| 0 <= i < aliases@.len() ==> !is_our_alias(#[trigger] aliases@[i]),
        },
{
    let mut i: usize = 0;
    while i < aliases.len()
        invariant
            i <= aliases@.len(),
            forall|k: int| 0 <= k < i ==> !is_our_alias(#[trigger] aliases@[k]),
        decreases aliases@.len() - i,
    {
        let named: bool = match &aliases[i].name {
            Some(n) => same_text(n.as_str(), KMS_ALIAS),
            None => false,
        };
        if named {
            if let Some(id) = &aliases[i].key_id {
                proof {
                    assert(is_our_alias(aliases@[i as int]));
                }
                return Some(id.clone());
            }
        }
        i = i + 1;
    }
    None
}

/// Whether a tag is the one that the benchmark's key gets at creation.
pub open spec fn is_creation_tag(tag: (String, String)) -> bool {
    tag.0@ == KMS_TAG_KEY@ && tag.1@ == KMS_TAG_VALUE@
}

/// Whether tags hold the one that the benchmark's key gets at creation, by which a
/// key that never got its alias is found again.
pub fn has_creation_tag(tags: &Vec<(String, String)>) -> (r: bool)
    ensures
        r <==> exists|i: int| 0 <= i < tags@.len() && is_creation_tag(#[trigger] tags@[i]),
{
    let mut i: usize = 0;
    while i < tags.len()
        invariant
            i <= tags@.len(),
            forall|k: int| 0 <= k < i ==> !is_creation_tag(#[trigger] tags@[k]),
        decreases tags@.len() - i,
    {
        if same_text(tags[i].0.as_str(), KMS_TAG_KEY) && same_text(
            tags[i].1.as_str(),
            KMS_TAG_VALUE,
        ) {
            proof {
                assert(is_creation_tag(tags@[i as int]));
            }
            return true;
        }
        i = i + 1;
    }
    false
}

/// Days until a scheduled deletion of a key, the least that is allowed.
pub const KEY_DELETION_WINDOW_DAYS: i32 = 7;

// ---- bucket ----

/// Whether a bucket in the region must be created with a location: every region
/// but one demands it, and that one forbids it.
pub fn needs_location(region: &str) -> (r: bool)
    ensures
        r == (region@ != "us-east-1"@),
{
    !same_text(region, "us-east-1")
}

/// Whether a refused creation means that the bucket is there.
pub fn bucket_is_there(code: &str) -> (r: bool)
    ensures
        r == (code@ == "BucketAlreadyOwnedByYou"@ || code@ == "BucketAlreadyExists"@),
{
    same_text(code, "BucketAlreadyOwnedByYou") || same_text(code, "BucketAlreadyExists")
}

/// The policy that denies every request to a bucket that did not come over TLS.
pub fn tls_only_policy(bucket: &str) -> (r: String)
    ensures
        r@
            == "{\"Version\":\"2012-10-17\",\"Statement\":[{\"Sid\":\"DenyInsecureTransport\",\"Effect\":\"Deny\",\"Principal\":\"*\",\"Action\":\"s3:*\",\"Resource\":[\"arn:aws:s3:::"@
            + bucket@ + "\",\"arn:aws:s3:::"@ + bucket@
            + "/*\"],\"Condition\":{\"Bool\":{\"aws:SecureTransport\":\"false\"}}}]}"@,
{
    let mut out: String =
        "{\"Version\":\"2012-10-17\",\"Statement\":[{\"Sid\":\"DenyInsecureTransport\",\"Effect\":\"Deny\",\"Principal\":\"*\",\"Action\":\"s3:*\",\"Resource\":[\"arn:aws:s3:::".to_owned();
    out.append(bucket);
    out.append("\",\"arn:aws:s3:::");
    out.append(bucket);
    out.append("/*\"],\"Condition\":{\"Bool\":{\"aws:SecureTransport\":\"false\"}}}]}");
    out
}

/// The version of the `lettercount` payload, which changes with what generates it.
pub fn lettercount_version() -> (r: String)
    ensures
        r@ == "lc1-"@ + decimal(1_000_000),
{
    let mut out: String = "lc1-".to_owned();
    append_decimal(&mut out, S3_LETTERCOUNT_PAYLOAD_BYTES as u128);
    out
}

/// The version of the `batch` payload, which changes with what generates it.
pub fn batch_version() -> (r: String)
    ensures
        r@ == "agg1-"@ + decimal(16_000_000) + "-"@ + decimal(1_000),
{
    let mut out: String = "agg1-".to_owned();
    append_decimal(&mut out, S3_BATCH_PAYLOAD_BYTES as u128);
    out.append("-");
    append_decimal(&mut out, S3_BATCH_KEY_CARDINALITY as u128);
    out
}

/// Whether a stored payload is current: `stored` is the version kept with it, where
/// it is there and has one.
pub fn seed_is_current(stored: &Option<String>, version: &str) -> (r: bool)
    ensures
        r == (maybe_text(*stored) == Some(version@)),
{
    match stored {
        Some(v) => same_text(v.as_str(), version),
        None => false,
    }
}

// ---- container repository ----

/// The storage backstop of the repository.
pub const LIFECYCLE_POLICY: &'static str = r#"{
  "rules": [
    {
      "rulePriority": 1,
      "description": "expire untagged images",
      "selection": { "tagStatus": "untagged", "countType": "sinceImagePushed", "countUnit": "days", "countNumber": 1 },
      "action": { "type": "expire" }
    },
    {
      "rulePriority": 2,
      "description": "cap tagged synthdl images",
      "selection": { "tagStatus": "tagged", "tagPrefixList": ["synthdl-"], "countType": "imageCountMoreThan", "countNumber": 20 },
      "action": { "type": "expire" }
    }
  ]
}"#;

/// The registry of an account.
pub open spec fn registry_of(account_id: Seq<char>) -> Seq<char> {
    account_id + ".dkr.ecr."@ + REGION@ + ".amazonaws.com"@
}

/// The registry of an account.
pub fn ecr_registry_host(account_id: &str) -> (r: String)
    ensures
        r@ == registry_of(account_id@),
{
    let mut out: String = account_id.to_owned();
    out.append(".dkr.ecr.");
    out.append(REGION);
    out.append(".amazonaws.com");
    out
}

/// The full name of an image in the repository.
pub fn ecr_image_uri(account_id: &str, tag: &str) -> (r: String)
    ensures
        r@ == registry_of(account_id@) + "/"@ + ECR_REPO@ + ":"@ + tag@,
{
    let mut out: String = ecr_registry_host(account_id);
    out.append("/");
    out.append(ECR_REPO);
    out.append(":");
    out.append(tag);
    out
}

/// An image of the repository, for a message.
pub open spec fn described(tag: Seq<char>) -> Seq<char> {
    "DescribeImages for "@ + ECR_REPO@ + ":"@ + tag
}

fn described_text(tag: &str) -> (r: String)
    ensures
        r@ == described(tag@),
{
    let mut out: String = "DescribeImages for ".to_owned();
    out.append(ECR_REPO);
    out.append(":");
    out.append(tag);
    out
}

/// The size of an image, read from what was described for its tag: exactly one
/// image, with a size that is not negative.
pub fn image_size(tag: &str, details: &Vec<Option<i64>>) -> (r: Result<u64, String>)
    ensures
        match r {
            Ok(n) => details@.len() == 1 && details@[0] == Some(n as i64) && n <= i64::MAX,
            Err(m) => if details@.len() != 1 {
                m@ == described(tag@) + " returned "@ + decimal(details@.len())
                    + " image details (expected exactly 1)"@
            } else {
                match details@[0] {
                    None => m@ == described(tag@) + " returned no size"@,
                    Some(size) => size < 0 && m@ == described(tag@) + " returned negative size "@
                        + decimal_int(size as int),
                }
            },
        },
{
    let mut out: String = described_text(tag);
    if details.len() != 1 {
        out.append(" returned ");
        append_decimal(&mut out, details.len() as u128);
        out.append(" image details (expected exactly 1)");
        return Err(out);
    }
    match details[0] {
        None => {
            out.append(" returned no size");
            Err(out)
        },
        Some(size) => {
            if size < 0 {
                out.append(" returned negative size ");
                out.append(decimal_int_string(size).as_str());
                Err(out)
            } else {
                Ok(size as u64)
            }
        },
    }
}

/// The password in a decoded registry token, which has the form `AWS:password`:
/// what follows the first colon, since a password may hold colons itself.
pub fn password_in(token: &str) -> (r: Result<String, String>)
    ensures
        match r {
            Ok(p) => {
                &&& first_of(token@, ':') < token@.len()
                &&& p@ == token@.skip(first_of(token@, ':') + 1)
            },
            Err(m) => {
                &&& first_of(token@, ':') == token@.len()
                &&& m@ == "ECR authorization token was not in AWS:<password> form"@
            },
        },
{
    match split_once(token, ':') {
        Some((_, password)) => Ok(password.to_owned()),
        None => Err("ECR authorization token was not in AWS:<password> form".to_owned()),
    }
}

/// The password in the bytes of a registry token: nothing where it was no base64.
pub fn password_from_bytes(decoded: Option<Vec<u8>>) -> (r: Result<String, String>)
    ensures
        match decoded {
            None => r is Err && r->Err_0@ == "decoding ECR authorization token"@,
            Some(b) => if !valid_utf8(b@) {
                r is Err && r->Err_0@ == "ECR authorization token is not UTF-8"@
            } else {
                let token = decode_utf8(b@);
                let colon = first_of(token, ':');
                match r {
                    Ok(p) => colon < token.len() && p@ == token.skip(colon + 1),
                    Err(m) => colon == token.len() && m@
                        == "ECR authorization token was not in AWS:<password> form"@,
                }
            },
        },
{
    match decoded {
        None => Err("decoding ECR authorization token".to_owned()),
        Some(bytes) => match text_strict(bytes) {
            None => Err("ECR authorization token is not UTF-8".to_owned()),
            Some(token) => password_in(token.as_str()),
        },
    }
}

/// The password in a registry token as it is handed out, in base64.
pub fn registry_password(token_b64: &str) -> (r: Result<String, String>)
    ensures
        match base64_bytes(token_b64@) {
            None => r is Err && r->Err_0@ == "decoding ECR authorization token"@,
            Some(b) => if !valid_utf8(b) {
                r is Err && r->Err_0@ == "ECR authorization token is not UTF-8"@
            } else {
                let token = decode_utf8(b);
                let colon = first_of(token, ':');
                match r {
                    Ok(p) => colon < token.len() && p@ == token.skip(colon + 1),
                    Err(m) => colon == token.len() && m@
                        == "ECR authorization token was not in AWS:<password> form"@,
                }
            },
        },
{
    let decoded: Option<Vec<u8>> = decode_base64(token_b64);
    password_from_bytes(decoded)
}

} // verus!
