//! One point of the benchmark matrix, what it is named, how often it is invoked
//! and which artifact it deploys.
use crate::config::{
    Arch, Jitter, Lang, Opt, Profile, Scenario, FULL_LIGHT_COUNTS, JITTER_AB_SCENARIOS, PREFIX,
    SMOKE_COUNTS, SNAPSTART_COLD_CYCLES,
};
use crate::text::{decimal_int, decimal_int_string, join, joined, texts};
use vstd::prelude::*;
use vstd::string::*;

verus! {

/// One point in the benchmark matrix: a single deployed function.
#[derive(Debug, Clone, Copy, PartialEq, Eq, Structural)]
pub struct Cell {
    pub lang: Lang,
    pub scenario: Scenario,
    pub arch: Arch,
    pub memory_mb: i32,
    /// Rust-only optimization level.
    pub opt: Option<Opt>,
    /// Java-only: measured through published versions restored from a snapshot.
    pub snapstart: bool,
    /// Rust-only jitter-entropy build dimension.
    pub jitter: Option<Jitter>,
}

/// Whether a scenario carries the jitter=On variant.
pub open spec fn in_jitter_ab(scenario: Scenario) -> bool {
    scenario == Scenario::OneClient || scenario == Scenario::LetterCount
}

/// Whether a scenario carries the jitter=On variant.
pub fn carries_jitter_ab(scenario: Scenario) -> (r: bool)
    ensures
        r == in_jitter_ab(scenario),
{
    let scoped: [Scenario; 2] = JITTER_AB_SCENARIOS;
    scoped[0] == scenario || scoped[1] == scenario
}

/// Whether artifacts of a language and scenario differ by architecture.
pub open spec fn per_arch(lang: Lang, scenario: Scenario) -> bool {
    lang == Lang::Rust || lang == Lang::Go || (lang == Lang::Python && scenario == Scenario::Authz)
}

/// Whether artifacts of a language and scenario differ by architecture: native
/// binaries do, and so does the one Python bundle with a native wheel.
pub fn arch_significant(lang: Lang, scenario: Scenario) -> (r: bool)
    ensures
        r == per_arch(lang, scenario),
{
    match lang {
        Lang::Rust | Lang::Go => true,
        Lang::Python => scenario == Scenario::Authz,
        Lang::Node | Lang::Java => false,
    }
}

/// Class-name stem of a scenario's Java handler.
pub open spec fn class_stem(scenario: Scenario) -> Seq<char> {
    match scenario {
        Scenario::Hello => "Hello"@,
        Scenario::Smithy => "Smithy"@,
        Scenario::OneClient => "OneClient"@,
        Scenario::ThreeClient => "ThreeClient"@,
        Scenario::SmithyFull => "SmithyFull"@,
        Scenario::LetterCount => "LetterCount"@,
        Scenario::Authz => "Authz"@,
        Scenario::Batch => "Batch"@,
        Scenario::Cache => "Cache"@,
    }
}

/// Class-name stem of a scenario's Java handler.
pub fn scenario_class(scenario: Scenario) -> (r: &'static str)
    ensures
        r@ == class_stem(scenario),
{
    match scenario {
        Scenario::Hello => "Hello",
        Scenario::Smithy => "Smithy",
        Scenario::OneClient => "OneClient",
        Scenario::ThreeClient => "ThreeClient",
        Scenario::SmithyFull => "SmithyFull",
        Scenario::LetterCount => "LetterCount",
        Scenario::Authz => "Authz",
        Scenario::Batch => "Batch",
        Scenario::Cache => "Cache",
    }
}

impl Cell {
    /// Whether the cell takes part in the jitter comparison.
    pub open spec fn jitter_ab(self) -> bool {
        self.lang == Lang::Rust && self.opt == Some(Opt::O3) && in_jitter_ab(self.scenario)
    }

    /// Whether the cell takes part in the jitter comparison. Both jitter values
    /// do, so the two sides get the same counts.
    pub fn is_jitter_ab(&self) -> (r: bool)
        ensures
            r == self.jitter_ab(),
    {
        self.lang == Lang::Rust && matches!(self.opt, Some(Opt::O3)) && carries_jitter_ab(
            self.scenario,
        )
    }

    /// What every cell holds to: `opt` and `jitter` are set exactly for Rust,
    /// SnapStart is Java only, and jitter=On is scoped to the comparison.
    pub open spec fn valid(self) -> bool {
        &&& self.opt is Some <==> self.lang == Lang::Rust
        &&& self.jitter is Some <==> self.lang == Lang::Rust
        &&& self.snapstart ==> self.lang == Lang::Java
        &&& self.jitter == Some(Jitter::On) ==> self.jitter_ab()
    }

    /// Whether the cell holds to the structural rules.
    pub fn is_valid(&self) -> (r: bool)
        ensures
            r == self.valid(),
            r ==> !(self.snapstart && self.jitter == Some(Jitter::On)),
    {
        let rust: bool = self.lang == Lang::Rust;
        let jitter_on: bool = matches!(self.jitter, Some(Jitter::On));
        self.opt.is_some() == rust && self.jitter.is_some() == rust && (!self.snapstart || self.lang
            == Lang::Java) && (!jitter_on || self.is_jitter_ab())
    }

    /// The cold/warm counts of the cell under a profile: the flat smoke counts; or
    /// the scenario's own, with the light counts in their place on both sides of
    /// the jitter comparison. SnapStart bounds the cold count.
    pub open spec fn counts(self, profile: Profile) -> (u32, u32) {
        let base: (u32, u32) = if profile == Profile::Smoke {
            (2, 2)
        } else if self.jitter_ab() {
            (50, 50)
        } else {
            self.scenario.base_counts(self.lang, self.memory_mb as int)
        };
        if self.snapstart && base.0 > 10 {
            (10, base.1)
        } else {
            base
        }
    }

    /// The cold/warm counts of the cell under a profile.
    pub fn iterations(&self, profile: Profile) -> (r: (u32, u32))
        ensures
            r == self.counts(profile),
    {
        let counts: (u32, u32) = match profile {
            Profile::Smoke => SMOKE_COUNTS,
            Profile::Full => {
                if self.is_jitter_ab() {
                    FULL_LIGHT_COUNTS
                } else {
                    self.scenario.full_base_counts(self.lang, self.memory_mb)
                }
            },
        };
        if self.snapstart && counts.0 > SNAPSTART_COLD_CYCLES {
            (SNAPSTART_COLD_CYCLES, counts.1)
        } else {
            counts
        }
    }

    /// The segments of the function name.
    pub open spec fn name_parts(self) -> Seq<Seq<char>> {
        let base = seq![PREFIX@, self.lang.name(), self.scenario.name(), self.arch.name()];
        let opt = match self.opt {
            Some(o) => base.push(o.name()),
            None => base,
        };
        let snap = if self.snapstart {
            opt.push("snap"@)
        } else {
            opt
        };
        let jitter = if self.jitter == Some(Jitter::On) {
            snap.push("jitter"@)
        } else {
            snap
        };
        jitter.push(decimal_int(self.memory_mb as int))
    }

    /// The deployed function's name.
    pub open spec fn full_name(self) -> Seq<char> {
        joined(self.name_parts(), "-"@)
    }

    /// The deployed function's name: language, scenario, architecture, the
    /// optimization level for Rust, `snap` under SnapStart, `jitter` for the
    /// jitter=On variant, and the memory size.
    pub fn function_name(&self) -> (r: String)
        ensures
            r@ == self.full_name(),
    {
        let mut parts: Vec<String> = Vec::new();
        parts.push(PREFIX.to_owned());
        parts.push(self.lang.as_str().to_owned());
        parts.push(self.scenario.as_str().to_owned());
        parts.push(self.arch.as_str().to_owned());
        if let Some(opt) = self.opt {
            parts.push(opt.as_str().to_owned());
        }
        if self.snapstart {
            parts.push("snap".to_owned());
        }
        if matches!(self.jitter, Some(Jitter::On)) {
            parts.push("jitter".to_owned());
        }
        parts.push(decimal_int_string(self.memory_mb as i64));
        proof {
            assert(texts(parts@) =~= self.name_parts());
        }
        join(&parts, "-")
    }

    /// The handler string of the cell's function.
    pub open spec fn handler_text(self) -> Seq<char> {
        match self.lang {
            Lang::Rust | Lang::Go => "bootstrap"@,
            Lang::Node => "index.handler"@,
            Lang::Python => "handler.handler"@,
            Lang::Java => if self.scenario.http_fronted() {
                "software.amazon.smithy.java.aws.integrations.lambda.LambdaEndpoint::handleRequest"@
            } else {
                "lambdabench."@ + class_stem(self.scenario) + "Handler::handleRequest"@
            },
        }
    }

    /// The handler string of the cell's function: the entry of a native binary is
    /// `bootstrap`, Java's depends on the scenario.
    pub fn handler(&self) -> (r: String)
        ensures
            r@ == self.handler_text(),
    {
        match self.lang {
            Lang::Rust | Lang::Go => "bootstrap".to_owned(),
            Lang::Node => "index.handler".to_owned(),
            Lang::Python => "handler.handler".to_owned(),
            Lang::Java => match self.scenario {
                Scenario::Smithy | Scenario::SmithyFull => {
                    "software.amazon.smithy.java.aws.integrations.lambda.LambdaEndpoint::handleRequest".to_owned()
                },
                other => {
                    let mut out: String = "lambdabench.".to_owned();
                    out.append(scenario_class(other));
                    out.append("Handler::handleRequest");
                    out
                },
            },
        }
    }

    /// The artifact that the cell deploys: memory and SnapStart do not key it, and
    /// the architecture only where the bytes differ by it.
    pub open spec fn key(self) -> ArtifactKey {
        ArtifactKey {
            lang: self.lang,
            scenario: self.scenario,
            arch: if per_arch(self.lang, self.scenario) {
                self.arch
            } else {
                Arch::Arm64
            },
            opt: self.opt,
            jitter: self.jitter,
        }
    }

    /// The artifact that the cell deploys.
    pub fn artifact_key(&self) -> (r: ArtifactKey)
        ensures
            r == self.key(),
    {
        ArtifactKey {
            lang: self.lang,
            scenario: self.scenario,
            arch: if arch_significant(self.lang, self.scenario) {
                self.arch
            } else {
                Arch::Arm64
            },
            opt: self.opt,
            jitter: self.jitter,
        }
    }
}

/// Identifies a build artifact, shared by every cell that deploys it.
#[derive(Debug, Clone, Copy, PartialEq, Eq, Structural, Hash)]
pub struct ArtifactKey {
    pub lang: Lang,
    pub scenario: Scenario,
    pub arch: Arch,
    /// Rust-only optimization level.
    pub opt: Option<Opt>,
    /// Rust-only jitter-entropy build dimension.
    pub jitter: Option<Jitter>,
}

impl ArtifactKey {
    /// The segments of the label.
    pub open spec fn label_parts(self) -> Seq<Seq<char>> {
        let base = seq![self.lang.name(), self.scenario.name()];
        let arch = if per_arch(self.lang, self.scenario) {
            base.push(self.arch.name())
        } else {
            base
        };
        if self.lang == Lang::Rust {
            let opt = match self.opt {
                Some(o) => arch.push(o.name()),
                None => arch.push("o3"@),
            };
            if self.jitter == Some(Jitter::On) {
                opt.push("jitter"@)
            } else {
                opt
            }
        } else {
            arch
        }
    }

    /// The label.
    pub open spec fn label_text(self) -> Seq<char> {
        joined(self.label_parts(), "-"@)
    }

    /// The label that names the artifact on disk and in messages: language and
    /// scenario, the architecture where it matters, for Rust the optimization
    /// level (`o3` where none is set) and `jitter` for the jitter=On build.
    pub fn label(&self) -> (r: String)
        ensures
            r@ == self.label_text(),
    {
        let mut parts: Vec<String> = Vec::new();
        parts.push(self.lang.as_str().to_owned());
        parts.push(self.scenario.as_str().to_owned());
        if arch_significant(self.lang, self.scenario) {
            parts.push(self.arch.as_str().to_owned());
        }
        if self.lang == Lang::Rust {
            match self.opt {
                Some(o) => parts.push(o.as_str().to_owned()),
                None => parts.push("o3".to_owned()),
            }
            if matches!(self.jitter, Some(Jitter::On)) {
                parts.push("jitter".to_owned());
            }
        }
        proof {
            assert(texts(parts@) =~= self.label_parts());
        }
        join(&parts, "-")
    }
}

} // verus!
