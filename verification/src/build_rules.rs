//! What building is for: where each artifact comes from, and what the archives of the
//! synthetic probe hold.
use crate::artifact::{
    java_task, opt_of, out_dir_of, package_of, target_dir_of, wheel_arch_text, workdir_of,
};
use crate::cell::ArtifactKey;
use crate::config::{Arch, Jitter, Opt, Scenario, SYNTH_DEFAULT_SIZES_MB};
use crate::synthetic::{
    byte_of, mixed, pad_bytes, padding, padding_byte, state_after, target_bytes, too_small_message,
    unit_is, zip_runtime, SynthRuntime, SynthUnit, MAX_SYNTHETIC_MB,
};
use crate::text::{decimal, has_prefix};
use vstd::prelude::*;
use vstd::string::*;

verus! {

/// Where a Rust artifact is built: the two scenarios behind an HTTP front are projects
/// of their own, every other is a member of the workspace, and each level and jitter
/// setting has a target directory of its own, with one output directory for each
/// artifact.
pub proof fn law_where_rust_is_built(key: ArtifactKey)
    ensures
        workdir_of(key.scenario) == (match key.scenario {
            Scenario::Smithy => "scenarios/rust/smithy/server"@,
            Scenario::SmithyFull => "scenarios/rust/smithyfull"@,
            _ => ""@,
        }),
        package_of(key.scenario) == (match key.scenario {
            Scenario::Smithy => None,
            Scenario::SmithyFull => None,
            Scenario::Hello => Some("lambdabench-rust-"@ + "hello"@),
            Scenario::OneClient => Some("lambdabench-rust-"@ + "oneclient"@),
            Scenario::ThreeClient => Some("lambdabench-rust-"@ + "threeclient"@),
            Scenario::LetterCount => Some("lambdabench-rust-"@ + "lettercount"@),
            Scenario::Authz => Some("lambdabench-rust-"@ + "authz"@),
            Scenario::Batch => Some("lambdabench-rust-"@ + "batch"@),
            Scenario::Cache => Some("lambdabench-rust-"@ + "cache"@),
        }),
        opt_of(key) == (if key.opt == Some(Opt::Oz) {
            Opt::Oz
        } else {
            Opt::O3
        }),
        ({
            let root = match key.scenario {
                Scenario::Smithy => "scenarios/rust/smithy/server/target-"@,
                Scenario::SmithyFull => "scenarios/rust/smithyfull/target-"@,
                _ => "target-"@,
            };
            let level = if key.opt == Some(Opt::Oz) {
                "oz"@
            } else {
                "o3"@
            };
            &&& key.jitter == Some(Jitter::On) ==> target_dir_of(key) == root + (level
                + "-jitter"@)
            &&& key.jitter != Some(Jitter::On) ==> target_dir_of(key) == root + level
        }),
        out_dir_of(key) == target_dir_of(key) + "/"@ + ("out-"@ + key.label_text()),
{
}

/// How Java's build tasks and Python's platforms are spelled.
pub proof fn law_how_builds_are_spelled(key: ArtifactKey)
    ensures
        java_task(key) == ":"@ + key.scenario.name() + ":buildZip"@,
        wheel_arch_text(Arch::Arm64) == "aarch64"@,
        wheel_arch_text(Arch::X86_64) == "x86_64"@,
{
}

/// The two zip families: how each is run, and under which entry its code stands.
pub proof fn law_zip_families(rt: SynthRuntime)
    ensures
        rt == SynthRuntime::Python ==> rt.family_name() == "python"@ && rt.runtime_id()
            == "python3.14"@ && rt.handler_text() == "handler.handler"@ && rt.entry_text()
            == "handler.py"@,
        rt == SynthRuntime::Rust ==> rt.family_name() == "rust"@ && rt.runtime_id()
            == "provided.al2023"@ && rt.handler_text() == "bootstrap"@ && rt.entry_text()
            == "bootstrap"@,
        zip_runtime(0) == SynthRuntime::Python,
        zip_runtime(1) == SynthRuntime::Rust,
{
}

/// A function of the zip families has the runtime and entry point of its family, the
/// name of its family and size, 512 MB, and the architecture asked for.
pub proof fn law_units_of_the_probe(u: SynthUnit, f: int, k: int, arch: Arch)
    requires
        0 <= f < 2,
        0 <= k < 5,
        unit_is(u, f, k, arch),
    ensures
        u.runtime == (if f == 0 {
            SynthRuntime::Python
        } else {
            SynthRuntime::Rust
        }),
        u.size_mb == (if k == 0 {
            1u32
        } else if k == 1 {
            10
        } else if k == 2 {
            50
        } else if k == 3 {
            100
        } else {
            200
        }),
        u.function.name@ == "lambdabench-"@ + "synthdl-"@ + (if f == 0 {
            "python"@
        } else {
            "rust"@
        }) + "-"@ + decimal(u.size_mb as nat) + "mb"@,
        f == 0 ==> u.function.runtime@ == "python3.14"@ && u.function.handler@
            == "handler.handler"@,
        f == 1 ==> u.function.runtime@ == "provided.al2023"@ && u.function.handler@
            == "bootstrap"@,
        u.function.memory_mb == 512,
        arch == Arch::Arm64 ==> u.function.arch@ == "arm64"@,
        arch == Arch::X86_64 ==> u.function.arch@ == "x86_64"@,
{
}

/// Code and padding together fall short of the size by exactly the room left for the
/// archive's headers; code that leaves no room for padding is refused.
pub proof fn law_padding_fills_the_size(base_len: nat, size_mb: u32)
    ensures
        target_bytes(size_mb) == size_mb * 1_048_576,
        match pad_bytes(base_len, size_mb) {
            Some(n) => n > 0 && base_len + n + 1024 == size_mb * 1_048_576,
            None => base_len + 1024 >= size_mb * 1_048_576,
        },
{
    assert(size_mb * 1024 * 1024 == size_mb * 1_048_576) by (nonlinear_arith);
}

/// The padding is as long as asked, and its bytes are those of the generator's words,
/// eight of each, the least significant first.
pub proof fn law_padding_is_the_generators_output(len: nat, i: int)
    requires
        0 <= i < len,
    ensures
        padding(len).len() == len,
        padding(len)[i] == padding_byte(i),
        padding_byte(i) == byte_of(mixed(state_after((i / 8 + 1) as nat)), i % 8),
        i % 8 == 0 ==> padding_byte(i) == (mixed(state_after((i / 8 + 1) as nat)) & 0xff) as u8,
{
    if i % 8 == 0 {
        let w = mixed(state_after((i / 8 + 1) as nat));
        assert(((w >> 0u64) & 0xff) as u8 == (w & 0xff) as u8) by (bit_vector);
    }
}

/// The generator starts at its increment and advances by it, wrapping round.
pub proof fn law_generator_advances(k: nat)
    ensures
        state_after(0) == 0x9E37_79B9_7F4A_7C15u64,
        state_after(k + 1) as int == (state_after(k) + 0x9E37_79B9_7F4A_7C15u64)
            % 0x1_0000_0000_0000_0000,
{
}

/// The bytes of a word, the least significant first.
pub proof fn law_bytes_of_a_word(w: u64)
    ensures
        byte_of(w, 0) == w % 0x100,
        byte_of(w, 1) == w / 0x100 % 0x100,
        byte_of(w, 2) == w / 0x1_0000 % 0x100,
        byte_of(w, 3) == w / 0x100_0000 % 0x100,
        byte_of(w, 4) == w / 0x1_0000_0000 % 0x100,
        byte_of(w, 5) == w / 0x100_0000_0000 % 0x100,
        byte_of(w, 6) == w / 0x1_0000_0000_0000 % 0x100,
        byte_of(w, 7) == w / 0x100_0000_0000_0000 % 0x100,
{
    assert(((w >> 0u64) & 0xff) as u8 == w % 0x100) by (bit_vector);
    assert(((w >> 8u64) & 0xff) as u8 == w / 0x100 % 0x100) by (bit_vector);
    assert(((w >> 16u64) & 0xff) as u8 == w / 0x1_0000 % 0x100) by (bit_vector);
    assert(((w >> 24u64) & 0xff) as u8 == w / 0x100_0000 % 0x100) by (bit_vector);
    assert(((w >> 32u64) & 0xff) as u8 == w / 0x1_0000_0000 % 0x100) by (bit_vector);
    assert(((w >> 40u64) & 0xff) as u8 == w / 0x100_0000_0000 % 0x100) by (bit_vector);
    assert(((w >> 48u64) & 0xff) as u8 == w / 0x1_0000_0000_0000 % 0x100) by (bit_vector);
    assert(((w >> 56u64) & 0xff) as u8 == w / 0x100_0000_0000_0000 % 0x100) by (bit_vector);
}

/// What is told of a size that is too small names the size and what it is too small
/// for.
pub proof fn law_small_sizes_are_named(rt: SynthRuntime, base_len: nat, size_mb: u32)
    ensures
        has_prefix(
            too_small_message(rt, base_len, size_mb),
            "synthetic size "@ + decimal(size_mb as nat) + " MB is too small for the "@
                + rt.entry_text() + " base entry ("@ + decimal(base_len) + " bytes"@,
        ),
{
    reveal_strlit(" bytes");
    reveal_strlit(" bytes + overhead); raise this SYNTH_DEFAULT_SIZES_MB entry");
    let head = "synthetic size "@ + decimal(size_mb as nat) + " MB is too small for the "@
        + rt.entry_text() + " base entry ("@ + decimal(base_len) + " bytes"@;
    let m = too_small_message(rt, base_len, size_mb);
    assert(m.take(head.len() as int) =~= head);
}

/// The generator mixes a state in two rounds, each a shift against itself and a
/// multiplication that wraps round, and a last shift.
pub proof fn law_generator_mixes(state: u64, a: u64, b: u64)
    requires
        a == ((state ^ (state >> 30u64)) * 0xBF58_476D_1CE4_E5B9u64) % 0x1_0000_0000_0000_0000,
        b == ((a ^ (a >> 27u64)) * 0x94D0_49BB_1331_11EBu64) % 0x1_0000_0000_0000_0000,
    ensures
        mixed(state) == b ^ (b >> 31u64),
{
}

/// Every size that is probed can be deployed.
pub proof fn law_probed_sizes_can_be_deployed(k: int)
    requires
        0 <= k < 5,
    ensures
        0 < SYNTH_DEFAULT_SIZES_MB@[k] <= MAX_SYNTHETIC_MB,
        k < 4 ==> SYNTH_DEFAULT_SIZES_MB@[k] < SYNTH_DEFAULT_SIZES_MB@[k + 1],
        MAX_SYNTHETIC_MB < 250,
{
}

} // verus!
