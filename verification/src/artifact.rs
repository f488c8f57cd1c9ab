//! Planning the builds: what is built together, with which settings, and where the
//! outputs go.
use crate::cell::{ArtifactKey, Cell};
use crate::config::{Arch, Jitter, Lang, Opt, Scenario};
use crate::laws::law_labels_identify_artifacts;
use crate::text::{append_decimal, decimal, texts, trim, trimmed};
use crate::text_lemmas::{all_lack, lacks, lemma_joined_lacks, lemma_last_separator};
use vstd::prelude::*;
use vstd::string::*;

verus! {

/// The artifacts of one language, in the given order.
pub fn keys_of_lang(keys: &[ArtifactKey], lang: Lang) -> (r: Vec<ArtifactKey>)
    ensures
        r@ == keys@.filter(|k: ArtifactKey| k.lang == lang),
{
    let mut out: Vec<ArtifactKey> = Vec::new();
    let mut i: usize = 0;
    let ghost wanted = |k: ArtifactKey| k.lang == lang;
    proof {
        reveal(Seq::filter);
        assert(out@ =~= keys@.take(0).filter(wanted));
    }
    while i < keys.len()
        invariant
            i <= keys@.len(),
            wanted == (|k: ArtifactKey| k.lang == lang),
            out@ == keys@.take(i as int).filter(wanted),
        decreases keys@.len() - i,
    {
        proof {
            reveal(Seq::filter);
            assert(keys@.take(i + 1).drop_last() =~= keys@.take(i as int));
            assert(keys@.take(i + 1).last() == keys@[i as int]);
        }
        if keys[i].lang == lang {
            out.push(keys[i]);
        }
        i = i + 1;
    }
    proof {
        assert(keys@.take(keys@.len() as int) =~= keys@);
    }
    out
}

/// The name of an artifact's archive.
pub fn zip_name(key: &ArtifactKey) -> (r: String)
    ensures
        r@ == key.label_text() + ".zip"@,
{
    let mut out: String = key.label();
    out.append(".zip");
    out
}

/// How a Rust artifact is built. Directories are relative to the repository.
pub struct RustBuild {
    pub arch_flag: &'static str,
    /// Where the build runs.
    pub workdir: &'static str,
    /// The workspace member that is built; a project of its own names none.
    pub package: Option<String>,
    /// Whether the server code must be generated first.
    pub codegen: bool,
    pub target_dir: String,
    pub out_dir: String,
    pub opt_level: &'static str,
    /// Whether the jitter-entropy seeding is switched off.
    pub no_jitter: bool,
}

/// The optimization level of a Rust artifact.
pub open spec fn opt_of(key: ArtifactKey) -> Opt {
    match key.opt {
        Some(o) => o,
        None => Opt::O3,
    }
}

/// The project that a Rust scenario is built in.
pub open spec fn workdir_of(scenario: Scenario) -> Seq<char> {
    match scenario {
        Scenario::Smithy => "scenarios/rust/smithy/server"@,
        Scenario::SmithyFull => "scenarios/rust/smithyfull"@,
        _ => ""@,
    }
}

/// The target directory of a Rust artifact: one for each optimization level and
/// jitter setting, since the latter does not key the build's own caching.
pub open spec fn target_dir_of(key: ArtifactKey) -> Seq<char> {
    let root = match key.scenario {
        Scenario::Smithy => "scenarios/rust/smithy/server/target-"@,
        Scenario::SmithyFull => "scenarios/rust/smithyfull/target-"@,
        _ => "target-"@,
    };
    let tag = if key.jitter == Some(Jitter::On) {
        opt_of(key).name() + "-jitter"@
    } else {
        opt_of(key).name()
    };
    root + tag
}

/// The output directory of a Rust artifact: one for each artifact, since every
/// build writes the same file name.
pub open spec fn out_dir_of(key: ArtifactKey) -> Seq<char> {
    target_dir_of(key) + "/"@ + ("out-"@ + key.label_text())
}

/// The workspace member of a Rust scenario.
pub open spec fn package_of(scenario: Scenario) -> Option<Seq<char>> {
    if scenario.http_fronted() {
        None
    } else {
        Some("lambdabench-rust-"@ + scenario.name())
    }
}

/// Plans the build of a Rust artifact, which always has a jitter setting.
pub fn rust_build(key: &ArtifactKey) -> (r: RustBuild)
    requires
        key.jitter is Some,
    ensures
        r.arch_flag@ == (if key.arch == Arch::Arm64 {
            "--arm64"@
        } else {
            "--x86-64"@
        }),
        r.workdir@ == workdir_of(key.scenario),
        crate::record::maybe_text(r.package) == package_of(key.scenario),
        r.codegen == key.scenario.http_fronted(),
        r.target_dir@ == target_dir_of(*key),
        r.out_dir@ == out_dir_of(*key),
        r.opt_level@ == opt_of(*key).cargo_value(),
        r.no_jitter == (key.jitter == Some(Jitter::Off)),
{
    let opt: Opt = match key.opt {
        Some(o) => o,
        None => Opt::O3,
    };
    let on: bool = matches!(key.jitter, Some(Jitter::On));
    let arch_flag: &'static str = match key.arch {
        Arch::Arm64 => "--arm64",
        Arch::X86_64 => "--x86-64",
    };
    let workdir: &'static str = match key.scenario {
        Scenario::Smithy => "scenarios/rust/smithy/server",
        Scenario::SmithyFull => "scenarios/rust/smithyfull",
        _ => "",
    };
    let package: Option<String> = if key.scenario.is_http_fronted() {
        None
    } else {
        let mut name: String = "lambdabench-rust-".to_owned();
        name.append(key.scenario.as_str());
        Some(name)
    };
    let mut target_dir: String = match key.scenario {
        Scenario::Smithy => "scenarios/rust/smithy/server/target-".to_owned(),
        Scenario::SmithyFull => "scenarios/rust/smithyfull/target-".to_owned(),
        _ => "target-".to_owned(),
    };
    target_dir.append(opt.as_str());
    if on {
        target_dir.append("-jitter");
    }
    proof {
        assert(target_dir@ =~= target_dir_of(*key));
    }
    let mut out_dir: String = target_dir.clone();
    out_dir.append("/");
    out_dir.append("out-");
    out_dir.append(key.label().as_str());
    proof {
        assert(out_dir@ =~= out_dir_of(*key));
    }
    RustBuild {
        arch_flag,
        workdir,
        package,
        codegen: key.scenario.is_http_fronted(),
        target_dir,
        out_dir,
        opt_level: opt.cargo_opt_level(),
        no_jitter: !on,
    }
}

proof fn lemma_label_lacks_slash(key: ArtifactKey)
    ensures
        lacks(key.label_text(), '/'),
{
    reveal_strlit("rust");
    reveal_strlit("node");
    reveal_strlit("java");
    reveal_strlit("python");
    reveal_strlit("go");
    reveal_strlit("hello");
    reveal_strlit("smithy");
    reveal_strlit("oneclient");
    reveal_strlit("threeclient");
    reveal_strlit("smithyfull");
    reveal_strlit("lettercount");
    reveal_strlit("authz");
    reveal_strlit("batch");
    reveal_strlit("cache");
    reveal_strlit("arm64");
    reveal_strlit("x86_64");
    reveal_strlit("o3");
    reveal_strlit("oz");
    reveal_strlit("jitter");
    reveal_strlit("-");
    assert(all_lack(key.label_parts(), '/'));
    lemma_joined_lacks(key.label_parts(), "-"@, '/');
}

/// Two different Rust artifacts never share an output directory, so that one build
/// cannot overwrite another's binary.
pub proof fn law_rust_outputs_apart(a: Cell, b: Cell)
    requires
        a.valid(),
        b.valid(),
        a.key() != b.key(),
    ensures
        out_dir_of(a.key()) != out_dir_of(b.key()),
{
    reveal_strlit("/");
    reveal_strlit("out-");
    assert("/"@ =~= seq!['/']);
    if out_dir_of(a.key()) == out_dir_of(b.key()) {
        let x = "out-"@ + a.key().label_text();
        let y = "out-"@ + b.key().label_text();
        lemma_label_lacks_slash(a.key());
        lemma_label_lacks_slash(b.key());
        assert(lacks(x, '/'));
        assert(lacks(y, '/'));
        lemma_last_separator(target_dir_of(a.key()), target_dir_of(b.key()), x, y, '/');
        assert(x.skip(4) =~= a.key().label_text());
        assert(y.skip(4) =~= b.key().label_text());
        law_labels_identify_artifacts(a, b);
    }
}

/// Builds of one scenario with and without jitter never share a target directory.
pub proof fn law_jitter_builds_apart(key: ArtifactKey)
    requires
        key.jitter is Some,
    ensures
        target_dir_of(ArtifactKey { jitter: Some(Jitter::On), ..key }) != target_dir_of(
            ArtifactKey { jitter: Some(Jitter::Off), ..key },
        ),
{
    reveal_strlit("-jitter");
    let on = target_dir_of(ArtifactKey { jitter: Some(Jitter::On), ..key });
    let off = target_dir_of(ArtifactKey { jitter: Some(Jitter::Off), ..key });
    assert(on.len() == off.len() + 7);
}

/// The build task of a Java artifact.
pub open spec fn java_task(key: ArtifactKey) -> Seq<char> {
    ":"@ + key.scenario.name() + ":buildZip"@
}

/// The build tasks of Java artifacts, which share one invocation.
pub fn java_tasks(keys: &[ArtifactKey]) -> (r: Vec<String>)
    ensures
        texts(r@) == keys@.map_values(|k: ArtifactKey| java_task(k)),
{
    let mut out: Vec<String> = Vec::new();
    let mut i: usize = 0;
    while i < keys.len()
        invariant
            i <= keys@.len(),
            out@.len() == i,
            forall|k: int| 0 <= k < i ==> (#[trigger] out@[k])@ == java_task(keys@[k]),
        decreases keys@.len() - i,
    {
        let mut task: String = ":".to_owned();
        task.append(keys[i].scenario.as_str());
        task.append(":buildZip");
        out.push(task);
        i = i + 1;
    }
    proof {
        assert(texts(out@) =~= keys@.map_values(|k: ArtifactKey| java_task(k)));
    }
    out
}

/// Go's spelling of the architecture, which is the container world's.
pub fn go_arch(arch: Arch) -> (r: &'static str)
    ensures
        r@ == arch.oci_spelling(),
{
    arch.oci_arch()
}

/// The spelling of the architecture in the names of Python platforms.
pub open spec fn wheel_arch_text(arch: Arch) -> Seq<char> {
    match arch {
        Arch::Arm64 => "aarch64"@,
        Arch::X86_64 => "x86_64"@,
    }
}

/// The platforms whose wheels a Python bundle may take, oldest first.
pub fn wheel_platforms(arch: Arch) -> (r: (String, String))
    ensures
        r.0@ == "manylinux2014_"@ + wheel_arch_text(arch),
        r.1@ == "manylinux_2_28_"@ + wheel_arch_text(arch),
{
    let spelling: &'static str = match arch {
        Arch::Arm64 => "aarch64",
        Arch::X86_64 => "x86_64",
    };
    let mut older: String = "manylinux2014_".to_owned();
    older.append(spelling);
    let mut newer: String = "manylinux_2_28_".to_owned();
    newer.append(spelling);
    (older, newer)
}

/// The one archive in a directory; none or several are refused.
pub fn single_zip(zips: &Vec<String>, dir: &str) -> (r: Result<String, String>)
    ensures
        match r {
            Ok(z) => zips@.len() == 1 && z@ == zips@[0]@,
            Err(m) => if zips@.len() == 0 {
                m@ == "no .zip found in "@ + dir@
            } else {
                zips@.len() > 1 && m@ == "expected exactly one .zip in "@ + dir@ + ", found "@
                    + decimal(zips@.len())
            },
        },
{
    if zips.len() == 1 {
        return Ok(zips[0].clone());
    }
    if zips.len() == 0 {
        let mut out: String = "no .zip found in ".to_owned();
        out.append(dir);
        return Err(out);
    }
    let mut out: String = "expected exactly one .zip in ".to_owned();
    out.append(dir);
    out.append(", found ");
    append_decimal(&mut out, zips.len() as u128);
    Err(out)
}

/// The recorded version of a tool: what it printed, or that it could not be asked.
pub fn tool_version(printed: &Option<String>) -> (r: String)
    ensures
        r@ == (match *printed {
            Some(p) => if trimmed(p@).len() > 0 {
                trimmed(p@)
            } else {
                "<unavailable>"@
            },
            None => "<unavailable>"@,
        }),
{
    match printed {
        Some(p) => {
            let t: &str = trim(p.as_str());
            if t.is_empty() {
                "<unavailable>".to_owned()
            } else {
                t.to_owned()
            }
        },
        None => "<unavailable>".to_owned(),
    }
}

} // verus!
