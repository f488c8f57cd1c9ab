//! Benchmark configuration: the dimensions of the matrix, naming conventions,
//! and tunable counts.
//!
//! Everything that defines what gets built, deployed, and measured lives here,
//! so the rest of the library stays mechanism, not policy.
pub use crate::cell::{ArtifactKey, Cell};
pub use crate::clock::{now_unix_ms, run_id};
pub use crate::matrix::{
    all_cells, all_managed_function_names, all_managed_log_group_names, cells_for_langs,
    unique_artifacts,
};
use crate::text::{
    append_decimal, decimal, decimal_int, decimal_int_string, join, joined, same_text, texts, trim,
    trimmed,
};
use vstd::prelude::*;
use vstd::string::*;

verus! {

/// AWS region the benchmark is pinned to, so that an ambient profile can never
/// change where it deploys.
pub const REGION: &'static str = "eu-central-1";

/// Stem of every resource the benchmark owns.
pub const PREFIX: &'static str = "lambdabench";

/// `PREFIX` with its trailing separator.
pub const RESOURCE_PREFIX: &'static str = "lambdabench-";

/// IAM role that the benchmarked functions run as.
pub const ROLE_NAME: &'static str = "lambdabench-lambda-exec";

/// Name of the role's inline policy.
pub const INLINE_POLICY_NAME: &'static str = "lambdabench-scenario-access";

/// DynamoDB table that the scenarios read.
pub const TABLE_NAME: &'static str = "lambdabench-table";

/// Partition key of the table.
pub const TABLE_PK: &'static str = "pk";

/// Key of the single seeded item.
pub const SEED_KEY: &'static str = "lambdabench-item";

/// Payload of the seeded item.
pub const SEED_PAYLOAD: &'static str = "lambdabench-seeded-payload-value";

/// Object metadata key that carries the version of a seeded payload.
pub const SEED_VERSION_META_KEY: &'static str = "lambdabench-seed-version";

/// Stable alias of the benchmark's KMS key.
pub const KMS_ALIAS: &'static str = "alias/lambdabench-key";

/// Tag key set on the KMS key at creation.
pub const KMS_TAG_KEY: &'static str = "lambdabench-managed-kms-key";

/// Tag value set on the KMS key at creation.
pub const KMS_TAG_VALUE: &'static str = "true";

/// First part of the bucket name.
pub const S3_BUCKET_SUFFIX: &'static str = PREFIX;

/// Key of the small seeded object.
pub const S3_OBJECT_KEY: &'static str = "lambdabench-object";

/// Body of the small seeded object.
pub const S3_OBJECT_BODY: &'static str = "lambdabench-seeded-s3-object-body";

/// Key of the `lettercount` payload.
pub const S3_LETTERCOUNT_KEY: &'static str = "lambdabench-lettercount.json";

/// Least size of the `lettercount` payload.
pub const S3_LETTERCOUNT_PAYLOAD_BYTES: usize = 1_000_000;

/// Key of the `batch` payload.
pub const S3_BATCH_KEY: &'static str = "lambdabench-batch.json";

/// Least size of the `batch` payload.
pub const S3_BATCH_PAYLOAD_BYTES: usize = 16_000_000;

/// Number of distinct keys in the `batch` payload.
pub const S3_BATCH_KEY_CARDINALITY: usize = 1_000;

/// What Lambda puts before a function's name to name its log group.
pub const LAMBDA_LOG_GROUP_PREFIX: &'static str = "/aws/lambda/";

/// Padded sizes (MB) of the synthetic download-scaling probe.
pub const SYNTH_DEFAULT_SIZES_MB: [u32; 5] = [1, 10, 50, 100, 200];

/// Families of the synthetic probe deployed from a zip.
pub const SYNTH_ZIP_FAMILIES: [&'static str; 2] = ["python", "rust"];

/// Families of the synthetic probe deployed from a container image, in creation
/// order.
pub const SYNTH_IMAGE_FAMILIES: [&'static str; 2] = ["image-untouched", "image-touched"];

/// The one container repository the benchmark owns.
pub const ECR_REPO: &'static str = "lambdabench-synthdl";

/// A function name that never exists, invoked to warm the client's connection.
pub const PREWARM_NONEXISTENT_FN: &'static str = "lambdabench-probe-prewarm-nonexistent";

/// Key of the order that the `smithyfull` scenario writes.
pub const ORDER_PK: &'static str = "lambdabench-order";

/// Key of the receipt object that the `smithyfull` scenario writes.
pub const S3_RECEIPT_KEY: &'static str = "lambdabench-receipt";

/// Memory sizes (MB) swept across.
pub const MEMORY_MB: [i32; 6] = [128, 256, 512, 1024, 2048, 3008];

/// Most cold cycles of a SnapStart cell: each publishes a version, which is far
/// slower than the environment bump that forces other cells cold.
pub const SNAPSTART_COLD_CYCLES: u32 = 10;

/// Full-profile cold/warm counts of the light scenarios, whose axis is the cold
/// start.
pub const FULL_LIGHT_COUNTS: (u32, u32) = (50, 50);

/// Smoke-profile counts of every cell.
pub const SMOKE_COUNTS: (u32, u32) = (2, 2);

/// Number of functions benchmarked concurrently.
pub const DEFAULT_POOL: usize = 32;

/// Languages under test.
#[derive(Debug, Clone, Copy, PartialEq, Eq, Structural, Hash)]
pub enum Lang {
    Rust,
    Node,
    Java,
    Python,
    Go,
}

impl Lang {
    /// Every value, in sweep order.
    pub const ALL: [Lang; 5] = [
        Lang::Rust,
        Lang::Node,
        Lang::Java,
        Lang::Python,
        Lang::Go,
    ];

    /// The canonical name.
    pub open spec fn name(self) -> Seq<char> {
        match self {
            Lang::Rust => "rust"@,
            Lang::Node => "node"@,
            Lang::Java => "java"@,
            Lang::Python => "python"@,
            Lang::Go => "go"@,
        }
    }

    /// The canonical name, used in names and labels.
    pub fn as_str(self) -> (r: &'static str)
        ensures
            r@ == self.name(),
    {
        match self {
            Lang::Rust => "rust",
            Lang::Node => "node",
            Lang::Java => "java",
            Lang::Python => "python",
            Lang::Go => "go",
        }
    }

    /// The canonical names, in sweep order.
    pub open spec fn names() -> Seq<Seq<char>> {
        seq![
            "rust"@,
            "node"@,
            "java"@,
            "python"@,
            "go"@,
        ]
    }

    fn name_list() -> (r: Vec<String>)
        ensures
            texts(r@) == Lang::names(),
    {
        let mut names: Vec<String> = Vec::new();
        let all: [Lang; 5] = Lang::ALL;
        let mut i: usize = 0;
        while i < 5
            invariant
                i <= 5,
                all@ == Lang::ALL@,
                names@.len() == i,
                forall|k: int| 0 <= k < i ==> (#[trigger] names@[k])@ == all@[k].name(),
            decreases 5 - i,
        {
            names.push(all[i].as_str().to_owned());
            i = i + 1;
        }
        proof {
            assert(texts(names@) =~= Lang::names());
        }
        names
    }

    /// Parses a language name, ignoring white space around it. The complaint about
    /// any other text lists the valid names.
    pub fn parse(s: &str) -> (r: Result<Lang, String>)
        ensures
            match r {
                Ok(x) => x.name() == trimmed(s@),
                Err(m) => {
                    &&& forall|x: Lang| #[trigger] x.name() != trimmed(s@)
                    &&& m@ == unknown_message("lang"@, s@, Lang::names())
                },
            },
    {
        let t: &str = trim(s);
        let all: [Lang; 5] = Lang::ALL;
        let mut i: usize = 0;
        while i < 5
            invariant
                i <= 5,
                all@ == Lang::ALL@,
                t@ == trimmed(s@),
                forall|k: int| 0 <= k < i ==> (#[trigger] all@[k]).name() != t@,
            decreases 5 - i,
        {
            if same_text(all[i].as_str(), t) {
                return Ok(all[i]);
            }
            i = i + 1;
        }
        proof {
            assert forall|x: Lang| #[trigger] x.name() != trimmed(s@) by {
                match x {
                    Lang::Rust => { assert(all@[0].name() != t@); },
                    Lang::Node => { assert(all@[1].name() != t@); },
                    Lang::Java => { assert(all@[2].name() != t@); },
                    Lang::Python => { assert(all@[3].name() != t@); },
                    Lang::Go => { assert(all@[4].name() != t@); },
                }
            }
        }
        Err(unknown_name("lang", s, &Lang::name_list()))
    }

    /// The Lambda runtime identifier.
    pub open spec fn runtime_id(self) -> Seq<char> {
        match self {
            Lang::Rust => "provided.al2023"@,
            Lang::Node => "nodejs24.x"@,
            Lang::Java => "java25"@,
            Lang::Python => "python3.14"@,
            Lang::Go => "provided.al2023"@,
        }
    }

    /// The Lambda runtime identifier.
    pub fn runtime(self) -> (r: &'static str)
        ensures
            r@ == self.runtime_id(),
    {
        match self {
            Lang::Rust => "provided.al2023",
            Lang::Node => "nodejs24.x",
            Lang::Java => "java25",
            Lang::Python => "python3.14",
            Lang::Go => "provided.al2023",
        }
    }

    /// Whether the language hosts the scenario: there is no Smithy server SDK for
    /// Python and Go.
    pub open spec fn hosts(self, scenario: Scenario) -> bool {
        (self == Lang::Python || self == Lang::Go) ==> !scenario.http_fronted()
    }

    /// Whether the language hosts the scenario.
    pub fn supports(self, scenario: Scenario) -> (r: bool)
        ensures
            r == self.hosts(scenario),
    {
        match self {
            Lang::Python | Lang::Go => !matches!(scenario, Scenario::Smithy | Scenario::SmithyFull),
            _ => true,
        }
    }
}

/// Workloads under test.
#[derive(Debug, Clone, Copy, PartialEq, Eq, Structural, Hash)]
pub enum Scenario {
    Hello,
    Smithy,
    OneClient,
    ThreeClient,
    SmithyFull,
    LetterCount,
    Authz,
    Batch,
    Cache,
}

impl Scenario {
    /// Every value, in sweep order.
    pub const ALL: [Scenario; 9] = [
        Scenario::Hello,
        Scenario::Smithy,
        Scenario::OneClient,
        Scenario::ThreeClient,
        Scenario::SmithyFull,
        Scenario::LetterCount,
        Scenario::Authz,
        Scenario::Batch,
        Scenario::Cache,
    ];

    /// The canonical name.
    pub open spec fn name(self) -> Seq<char> {
        match self {
            Scenario::Hello => "hello"@,
            Scenario::Smithy => "smithy"@,
            Scenario::OneClient => "oneclient"@,
            Scenario::ThreeClient => "threeclient"@,
            Scenario::SmithyFull => "smithyfull"@,
            Scenario::LetterCount => "lettercount"@,
            Scenario::Authz => "authz"@,
            Scenario::Batch => "batch"@,
            Scenario::Cache => "cache"@,
        }
    }

    /// The canonical name, used in names and labels.
    pub fn as_str(self) -> (r: &'static str)
        ensures
            r@ == self.name(),
    {
        match self {
            Scenario::Hello => "hello",
            Scenario::Smithy => "smithy",
            Scenario::OneClient => "oneclient",
            Scenario::ThreeClient => "threeclient",
            Scenario::SmithyFull => "smithyfull",
            Scenario::LetterCount => "lettercount",
            Scenario::Authz => "authz",
            Scenario::Batch => "batch",
            Scenario::Cache => "cache",
        }
    }

    /// The canonical names, in sweep order.
    pub open spec fn names() -> Seq<Seq<char>> {
        seq![
            "hello"@,
            "smithy"@,
            "oneclient"@,
            "threeclient"@,
            "smithyfull"@,
            "lettercount"@,
            "authz"@,
            "batch"@,
            "cache"@,
        ]
    }

    fn name_list() -> (r: Vec<String>)
        ensures
            texts(r@) == Scenario::names(),
    {
        let mut names: Vec<String> = Vec::new();
        let all: [Scenario; 9] = Scenario::ALL;
        let mut i: usize = 0;
        while i < 9
            invariant
                i <= 9,
                all@ == Scenario::ALL@,
                names@.len() == i,
                forall|k: int| 0 <= k < i ==> (#[trigger] names@[k])@ == all@[k].name(),
            decreases 9 - i,
        {
            names.push(all[i].as_str().to_owned());
            i = i + 1;
        }
        proof {
            assert(texts(names@) =~= Scenario::names());
        }
        names
    }

    /// Parses a scenario name, ignoring white space around it. The complaint about
    /// any other text lists the valid names.
    pub fn parse(s: &str) -> (r: Result<Scenario, String>)
        ensures
            match r {
                Ok(x) => x.name() == trimmed(s@),
                Err(m) => {
                    &&& forall|x: Scenario| #[trigger] x.name() != trimmed(s@)
                    &&& m@ == unknown_message("scenario"@, s@, Scenario::names())
                },
            },
    {
        let t: &str = trim(s);
        let all: [Scenario; 9] = Scenario::ALL;
        let mut i: usize = 0;
        while i < 9
            invariant
                i <= 9,
                all@ == Scenario::ALL@,
                t@ == trimmed(s@),
                forall|k: int| 0 <= k < i ==> (#[trigger] all@[k]).name() != t@,
            decreases 9 - i,
        {
            if same_text(all[i].as_str(), t) {
                return Ok(all[i]);
            }
            i = i + 1;
        }
        proof {
            assert forall|x: Scenario| #[trigger] x.name() != trimmed(s@) by {
                match x {
                    Scenario::Hello => { assert(all@[0].name() != t@); },
                    Scenario::Smithy => { assert(all@[1].name() != t@); },
                    Scenario::OneClient => { assert(all@[2].name() != t@); },
                    Scenario::ThreeClient => { assert(all@[3].name() != t@); },
                    Scenario::SmithyFull => { assert(all@[4].name() != t@); },
                    Scenario::LetterCount => { assert(all@[5].name() != t@); },
                    Scenario::Authz => { assert(all@[6].name() != t@); },
                    Scenario::Batch => { assert(all@[7].name() != t@); },
                    Scenario::Cache => { assert(all@[8].name() != t@); },
                }
            }
        }
        Err(unknown_name("scenario", s, &Scenario::name_list()))
    }

    /// The least memory tier at which the scenario runs in the given language and
    /// variant.
    pub open spec fn floor_mb(self, lang: Lang, snapstart: bool) -> int {
        if self == Scenario::Batch {
            if lang != Lang::Java {
                256
            } else if snapstart {
                1024
            } else {
                512
            }
        } else if self == Scenario::Cache || (self == Scenario::LetterCount && lang == Lang::Java) {
            512
        } else if self == Scenario::SmithyFull && lang == Lang::Java && snapstart {
            256
        } else {
            128
        }
    }

    /// The least memory tier at which the scenario runs.
    pub fn min_memory_mb(self, lang: Lang, snapstart: bool) -> (r: i32)
        ensures
            r == self.floor_mb(lang, snapstart),
    {
        match (self, lang) {
            (Scenario::Batch, Lang::Java) => {
                if snapstart {
                    1024
                } else {
                    512
                }
            },
            (Scenario::Batch, _) => 256,
            (Scenario::SmithyFull, Lang::Java) if snapstart => 256,
            (Scenario::LetterCount, Lang::Java) => 512,
            (Scenario::Cache, _) => 512,
            _ => 128,
        }
    }

    /// Whether the scenario is served behind an HTTP front.
    pub open spec fn http_fronted(self) -> bool {
        self == Scenario::Smithy || self == Scenario::SmithyFull
    }

    /// Whether the scenario is served behind an HTTP front, so that its reply is
    /// an HTTP envelope.
    pub fn is_http_fronted(self) -> (r: bool)
        ensures
            r == self.http_fronted(),
    {
        matches!(self, Scenario::Smithy | Scenario::SmithyFull)
    }

    /// Whether the scenario reads the table.
    pub open spec fn uses_ddb(self) -> bool {
        self == Scenario::OneClient || self == Scenario::ThreeClient || self == Scenario::SmithyFull
    }

    /// Whether the scenario reads the table.
    pub fn needs_ddb(self) -> (r: bool)
        ensures
            r == self.uses_ddb(),
    {
        matches!(self, Scenario::OneClient | Scenario::ThreeClient | Scenario::SmithyFull)
    }

    /// Whether the scenario uses the KMS key and the bucket.
    pub open spec fn uses_kms_s3(self) -> bool {
        self == Scenario::ThreeClient || self == Scenario::SmithyFull
    }

    /// Whether the scenario uses the KMS key and the bucket.
    pub fn needs_kms_s3(self) -> (r: bool)
        ensures
            r == self.uses_kms_s3(),
    {
        matches!(self, Scenario::ThreeClient | Scenario::SmithyFull)
    }

    /// Whether the scenario uses the bucket.
    pub open spec fn uses_s3(self) -> bool {
        self.uses_kms_s3() || self == Scenario::LetterCount || self == Scenario::Batch
    }

    /// Whether the scenario uses the bucket.
    pub fn needs_s3(self) -> (r: bool)
        ensures
            r == self.uses_s3(),
            self.uses_kms_s3() ==> r,
    {
        self.needs_kms_s3() || matches!(self, Scenario::LetterCount | Scenario::Batch)
    }

    /// The full-profile cold/warm counts before the jitter and SnapStart rules:
    /// the CPU probes run few cold cycles with long warm runs, thinned for Python
    /// on the slowest tiers; every other scenario uses the light counts.
    pub open spec fn base_counts(self, lang: Lang, memory_mb: int) -> (u32, u32) {
        let starved_python = lang == Lang::Python && memory_mb <= 256;
        match self {
            Scenario::LetterCount => (5, if starved_python { 300 } else { 1500 }),
            Scenario::Authz | Scenario::Cache => (5, 1500),
            Scenario::Batch => (if starved_python { 5 } else { 15 }, 200),
            _ => (50, 50),
        }
    }

    /// The full-profile cold/warm counts before the jitter and SnapStart rules.
    pub fn full_base_counts(self, lang: Lang, memory_mb: i32) -> (r: (u32, u32))
        ensures
            r == self.base_counts(lang, memory_mb as int),
    {
        let starved_python: bool = lang == Lang::Python && memory_mb <= 256;
        match self {
            Scenario::LetterCount if starved_python => (5, 300),
            Scenario::Cache => (5, 1500),
            Scenario::LetterCount | Scenario::Authz => (5, 1500),
            Scenario::Batch if starved_python => (5, 200),
            Scenario::Batch => (15, 200),
            _ => FULL_LIGHT_COUNTS,
        }
    }
}

/// CPU architectures under test.
#[derive(Debug, Clone, Copy, PartialEq, Eq, Structural, Hash)]
pub enum Arch {
    Arm64,
    X86_64,
}

impl Arch {
    /// Every value, in sweep order.
    pub const ALL: [Arch; 2] = [
        Arch::Arm64,
        Arch::X86_64,
    ];

    /// The canonical name.
    pub open spec fn name(self) -> Seq<char> {
        match self {
            Arch::Arm64 => "arm64"@,
            Arch::X86_64 => "x86_64"@,
        }
    }

    /// The canonical name, used in names and labels.
    pub fn as_str(self) -> (r: &'static str)
        ensures
            r@ == self.name(),
    {
        match self {
            Arch::Arm64 => "arm64",
            Arch::X86_64 => "x86_64",
        }
    }

    /// The canonical names, in sweep order.
    pub open spec fn names() -> Seq<Seq<char>> {
        seq![
            "arm64"@,
            "x86_64"@,
        ]
    }

    fn name_list() -> (r: Vec<String>)
        ensures
            texts(r@) == Arch::names(),
    {
        let mut names: Vec<String> = Vec::new();
        let all: [Arch; 2] = Arch::ALL;
        let mut i: usize = 0;
        while i < 2
            invariant
                i <= 2,
                all@ == Arch::ALL@,
                names@.len() == i,
                forall|k: int| 0 <= k < i ==> (#[trigger] names@[k])@ == all@[k].name(),
            decreases 2 - i,
        {
            names.push(all[i].as_str().to_owned());
            i = i + 1;
        }
        proof {
            assert(texts(names@) =~= Arch::names());
        }
        names
    }

    /// Parses an architecture name, ignoring white space around it. The complaint about
    /// any other text lists the valid names.
    pub fn parse(s: &str) -> (r: Result<Arch, String>)
        ensures
            match r {
                Ok(x) => x.name() == trimmed(s@),
                Err(m) => {
                    &&& forall|x: Arch| #[trigger] x.name() != trimmed(s@)
                    &&& m@ == unknown_message("arch"@, s@, Arch::names())
                },
            },
    {
        let t: &str = trim(s);
        let all: [Arch; 2] = Arch::ALL;
        let mut i: usize = 0;
        while i < 2
            invariant
                i <= 2,
                all@ == Arch::ALL@,
                t@ == trimmed(s@),
                forall|k: int| 0 <= k < i ==> (#[trigger] all@[k]).name() != t@,
            decreases 2 - i,
        {
            if same_text(all[i].as_str(), t) {
                return Ok(all[i]);
            }
            i = i + 1;
        }
        proof {
            assert forall|x: Arch| #[trigger] x.name() != trimmed(s@) by {
                match x {
                    Arch::Arm64 => { assert(all@[0].name() != t@); },
                    Arch::X86_64 => { assert(all@[1].name() != t@); },
                }
            }
        }
        Err(unknown_name("arch", s, &Arch::name_list()))
    }

    /// Lambda's spelling of the architecture.
    pub open spec fn lambda_spelling(self) -> Seq<char> {
        match self {
            Arch::Arm64 => "arm64"@,
            Arch::X86_64 => "x86_64"@,
        }
    }

    /// Lambda's spelling of the architecture.
    pub fn lambda_arch(self) -> (r: &'static str)
        ensures
            r@ == self.lambda_spelling(),
    {
        match self {
            Arch::Arm64 => "arm64",
            Arch::X86_64 => "x86_64",
        }
    }

    /// The container world's spelling of the architecture.
    pub open spec fn oci_spelling(self) -> Seq<char> {
        match self {
            Arch::Arm64 => "arm64"@,
            Arch::X86_64 => "amd64"@,
        }
    }

    /// The container world's spelling of the architecture.
    pub fn oci_arch(self) -> (r: &'static str)
        ensures
            r@ == self.oci_spelling(),
    {
        match self {
            Arch::Arm64 => "arm64",
            Arch::X86_64 => "amd64",
        }
    }
}

/// Iteration-count profile of a run.
#[derive(Debug, Clone, Copy, PartialEq, Eq, Structural)]
pub enum Profile {
    /// The published methodology.
    Full,
    /// A tiny flat count over the whole matrix, for a quick pass end to end.
    Smoke,
}

impl Default for Profile {
    fn default() -> (r: Profile)
        ensures
            r == Profile::Full,
    {
        Profile::Full
    }
}

/// Compiler optimization level, a Rust-only dimension.
#[derive(Debug, Clone, Copy, PartialEq, Eq, Structural, Hash)]
pub enum Opt {
    /// All optimizations, larger binary.
    O3,
    /// Optimize for size.
    Oz,
}

impl Opt {
    /// Every value, in sweep order.
    pub const ALL: [Opt; 2] = [
        Opt::O3,
        Opt::Oz,
    ];

    /// The canonical name.
    pub open spec fn name(self) -> Seq<char> {
        match self {
            Opt::O3 => "o3"@,
            Opt::Oz => "oz"@,
        }
    }

    /// The canonical name, used in names and labels.
    pub fn as_str(self) -> (r: &'static str)
        ensures
            r@ == self.name(),
    {
        match self {
            Opt::O3 => "o3",
            Opt::Oz => "oz",
        }
    }

    /// The `opt-level` value of the build profile.
    pub open spec fn cargo_value(self) -> Seq<char> {
        match self {
            Opt::O3 => "3"@,
            Opt::Oz => "z"@,
        }
    }

    /// The `opt-level` value of the build profile.
    pub fn cargo_opt_level(self) -> (r: &'static str)
        ensures
            r@ == self.cargo_value(),
    {
        match self {
            Opt::O3 => "3",
            Opt::Oz => "z",
        }
    }
}

/// Whether the Rust binary keeps the CPU jitter-entropy seeding of its crypto
/// library, a Rust-only diagnostic dimension.
#[derive(Debug, Clone, Copy, PartialEq, Eq, Structural, Hash)]
pub enum Jitter {
    /// Seeding enabled: the diagnostic variant.
    On,
    /// Seeding disabled at build time: the standing default.
    Off,
}

impl Jitter {
    /// The canonical name.
    pub open spec fn name(self) -> Seq<char> {
        match self {
            Jitter::On => "on"@,
            Jitter::Off => "off"@,
        }
    }

    /// The canonical name, used in names and labels.
    pub fn as_str(self) -> (r: &'static str)
        ensures
            r@ == self.name(),
    {
        match self {
            Jitter::On => "on",
            Jitter::Off => "off",
        }
    }
}

/// Scenarios that carry the jitter=On variant beside the default cells.
pub const JITTER_AB_SCENARIOS: [Scenario; 2] = [Scenario::OneClient, Scenario::LetterCount];

/// Whether a memory size is one of the swept tiers.
pub open spec fn is_tier(m: int) -> bool {
    m == 128 || m == 256 || m == 512 || m == 1024 || m == 2048 || m == 3008
}

/// The renderings of the swept tiers.
pub open spec fn tier_names() -> Seq<Seq<char>> {
    MEMORY_MB@.map_values(|m: i32| decimal_int(m as int))
}

/// The complaint about a memory size that is not swept.
pub open spec fn tier_message(m: int) -> Seq<char> {
    "--memory "@ + decimal_int(m) + " is not a swept tier (valid: "@ + joined(
        tier_names(),
        ", "@,
    ) + ")"@
}

fn is_swept(m: i32) -> (r: bool)
    ensures
        r == is_tier(m as int),
{
    let mut i: usize = 0;
    let tiers: [i32; 6] = MEMORY_MB;
    while i < 6
        invariant
            i <= 6,
            tiers@ == MEMORY_MB@,
            forall|k: int| 0 <= k < i ==> #[trigger] tiers@[k] != m,
        decreases 6 - i,
    {
        if tiers[i] == m {
            return true;
        }
        i = i + 1;
    }
    proof {
        assert(tiers@[0] != m && tiers@[1] != m && tiers@[2] != m && tiers@[3] != m && tiers@[4] != m
            && tiers@[5] != m);
    }
    false
}

/// Accepts exactly the lists of swept tiers; the complaint names the first value
/// that is none.
pub fn validate_memory_tiers(values: &[i32]) -> (r: Result<(), String>)
    ensures
        match r {
            Ok(_) => forall|i: int| 0 <= i < values@.len() ==> is_tier(#[trigger] values@[i] as int),
            Err(m) => exists|i: int|
                {
                    &&& 0 <= i < values@.len()
                    &&& !is_tier(values@[i] as int)
                    &&& forall|k: int| 0 <= k < i ==> is_tier(#[trigger] values@[k] as int)
                    &&& m@ == tier_message(#[trigger] values@[i] as int)
                },
        },
{
    let mut i: usize = 0;
    while i < values.len()
        invariant
            i <= values@.len(),
            forall|k: int| 0 <= k < i ==> is_tier(#[trigger] values@[k] as int),
        decreases values@.len() - i,
    {
        if !is_swept(values[i]) {
            let mut out: String = "--memory ".to_owned();
            out.append(decimal_int_string(values[i] as i64).as_str());
            out.append(" is not a swept tier (valid: ");
            let tiers: [i32; 6] = MEMORY_MB;
            let mut names: Vec<String> = Vec::new();
            let mut j: usize = 0;
            while j < 6
                invariant
                    j <= 6,
                    tiers@ == MEMORY_MB@,
                    names@.len() == j,
                    forall|k: int|
                        0 <= k < j ==> (#[trigger] names@[k])@ == decimal_int(tiers@[k] as int),
                decreases 6 - j,
            {
                names.push(decimal_int_string(tiers[j] as i64));
                j = j + 1;
            }
            proof {
                assert(texts(names@) =~= tier_names());
            }
            out.append(join(&names, ", ").as_str());
            out.append(")");
            proof {
                assert(out@ == tier_message(values@[i as int] as int));
            }
            return Err(out);
        }
        i = i + 1;
    }
    Ok(())
}

/// The complaint about a name that is not one of `names`.
pub open spec fn unknown_message(
    kind: Seq<char>,
    s: Seq<char>,
    names: Seq<Seq<char>>,
) -> Seq<char> {
    "unknown "@ + kind + " '"@ + s + "' (valid: "@ + joined(names, ", "@) + ")"@
}

fn unknown_name(kind: &str, s: &str, names: &Vec<String>) -> (r: String)
    ensures
        r@ == unknown_message(kind@, s@, texts(names@)),
{
    let list: String = join(names, ", ");
    let mut out: String = "unknown ".to_owned();
    out.append(kind);
    out.append(" '");
    out.append(s);
    out.append("' (valid: ");
    out.append(list.as_str());
    out.append(")");
    out
}

/// The name of a synthetic-probe function.
pub open spec fn synth_name(family: Seq<char>, size_mb: nat) -> Seq<char> {
    RESOURCE_PREFIX@ + "synthdl-"@ + family + "-"@ + decimal(size_mb) + "mb"@
}

/// The name of the synthetic-probe function of a family at a padded size.
pub fn synth_function_name(family: &str, size_mb: u32) -> (r: String)
    ensures
        r@ == synth_name(family@, size_mb as nat),
{
    let mut out: String = RESOURCE_PREFIX.to_owned();
    out.append("synthdl-");
    out.append(family);
    out.append("-");
    append_decimal(&mut out, size_mb as u128);
    out.append("mb");
    out
}

} // verus!
