//! The synthetic download-scaling probe: functions padded to given sizes, and the
//! archives they are deployed from.
use crate::archive::{
    add_entry, all_named, drafted, finish, is_entry_name, name_length, new_draft, read_entry,
    storable, stored_length, zip_member, zip_mode, ZipDraft,
};
use crate::codec::maybe_bytes;
use crate::config::{
    synth_function_name, synth_name, Arch, SYNTH_DEFAULT_SIZES_MB, SYNTH_IMAGE_FAMILIES,
    SYNTH_ZIP_FAMILIES,
};
use crate::lambda::SyntheticFn;
use crate::matrix::{is_synth_name, nth_synth_name};
use crate::text::{append_decimal, decimal, same_text};
use vstd::prelude::*;
use vstd::string::*;
use vstd::utf8::is_ascii_chars_encode_utf8;

verus! {

/// Memory of every synthetic function.
pub const SYNTH_MEMORY_MB: i32 = 512;

/// Largest padded size that the platform takes.
pub const MAX_SYNTHETIC_MB: u32 = 240;

/// The runtimes of the zip families.
#[derive(Debug, Clone, Copy, PartialEq, Eq, Structural)]
pub enum SynthRuntime {
    Python,
    Rust,
}

impl SynthRuntime {
    /// The family of the runtime.
    pub open spec fn family_name(self) -> Seq<char> {
        match self {
            SynthRuntime::Python => "python"@,
            SynthRuntime::Rust => "rust"@,
        }
    }

    /// The family of the runtime.
    pub fn family(self) -> (r: &'static str)
        ensures
            r@ == self.family_name(),
    {
        match self {
            SynthRuntime::Python => "python",
            SynthRuntime::Rust => "rust",
        }
    }

    /// The Lambda runtime identifier.
    pub open spec fn runtime_id(self) -> Seq<char> {
        match self {
            SynthRuntime::Python => "python3.14"@,
            SynthRuntime::Rust => "provided.al2023"@,
        }
    }

    /// The Lambda runtime identifier.
    pub fn runtime(self) -> (r: &'static str)
        ensures
            r@ == self.runtime_id(),
    {
        match self {
            SynthRuntime::Python => "python3.14",
            SynthRuntime::Rust => "provided.al2023",
        }
    }

    /// The handler string.
    pub open spec fn handler_text(self) -> Seq<char> {
        match self {
            SynthRuntime::Python => "handler.handler"@,
            SynthRuntime::Rust => "bootstrap"@,
        }
    }

    /// The handler string.
    pub fn handler(self) -> (r: &'static str)
        ensures
            r@ == self.handler_text(),
    {
        match self {
            SynthRuntime::Python => "handler.handler",
            SynthRuntime::Rust => "bootstrap",
        }
    }

    /// The name of the archive entry that holds the code.
    pub open spec fn entry_text(self) -> Seq<char> {
        match self {
            SynthRuntime::Python => "handler.py"@,
            SynthRuntime::Rust => "bootstrap"@,
        }
    }

    /// The name of the archive entry that holds the code.
    pub fn entry_name(self) -> (r: &'static str)
        ensures
            r@ == self.entry_text(),
    {
        match self {
            SynthRuntime::Python => "handler.py",
            SynthRuntime::Rust => "bootstrap",
        }
    }

    /// The permissions of the archive entry that holds the code: a binary must be
    /// executable.
    pub fn entry_mode(self) -> (r: u32)
        ensures
            r == (if self == SynthRuntime::Rust {
                0o755u32
            } else {
                0o644u32
            }),
    {
        match self {
            SynthRuntime::Python => 0o644,
            SynthRuntime::Rust => 0o755,
        }
    }
}

/// What the generator starts from, and what it is advanced by.
pub const GAMMA: u64 = 0x9E37_79B9_7F4A_7C15;

/// The state of the generator after `k` advances.
pub open spec fn state_after(k: nat) -> u64
    decreases k,
{
    if k == 0 {
        GAMMA
    } else {
        state_after((k - 1) as nat).wrapping_add(GAMMA)
    }
}

/// The output of the generator in a state.
pub open spec fn mixed(state: u64) -> u64 {
    let a = (state ^ (state >> 30)).wrapping_mul(0xBF58_476D_1CE4_E5B9);
    let b = (a ^ (a >> 27)).wrapping_mul(0x94D0_49BB_1331_11EB);
    b ^ (b >> 31)
}

/// A byte of a word, the least significant first.
pub open spec fn byte_of(word: u64, j: int) -> u8 {
    ((word >> ((8 * j) as u64)) & 0xff) as u8
}

/// A byte of the padding: the words of the generator one after the other.
pub open spec fn padding_byte(i: int) -> u8 {
    byte_of(mixed(state_after((i / 8 + 1) as nat)), i % 8)
}

/// Padding of a length.
pub open spec fn padding(len: nat) -> Seq<u8> {
    Seq::new(len, |i: int| padding_byte(i))
}

fn mix(state: u64) -> (r: u64)
    ensures
        r == mixed(state),
{
    let a: u64 = (state ^ (state >> 30)).wrapping_mul(0xBF58_476D_1CE4_E5B9);
    let b: u64 = (a ^ (a >> 27)).wrapping_mul(0x94D0_49BB_1331_11EB);
    b ^ (b >> 31)
}

/// Deterministic bytes that do not compress, so that a padded size is what is
/// really transferred.
pub fn write_incompressible(len: usize) -> (r: Vec<u8>)
    ensures
        r@ == padding(len as nat),
{
    let mut out: Vec<u8> = Vec::new();
    let mut state: u64 = GAMMA;
    let mut word: u64 = 0;
    let mut i: usize = 0;
    let mut words: Ghost<nat> = Ghost(0);
    proof {
        assert(out@ =~= padding(0));
    }
    while i < len
        invariant
            i <= len,
            out@ == padding(i as nat),
            words@ == (i + 7) / 8,
            state == state_after(words@),
            i % 8 != 0 ==> word == mixed(state),
        decreases len - i,
    {
        if i % 8 == 0 {
            state = state.wrapping_add(GAMMA);
            word = mix(state);
            proof {
                words@ = words@ + 1;
            }
        }
        let j: u64 = (i % 8) as u64;
        let shifted: u64 = word >> (8 * j);
        let masked: u64 = shifted & 0xff;
        proof {
            assert(shifted & 0xff <= 0xff) by (bit_vector);
        }
        out.push(masked as u8);
        proof {
            assert(words@ == i / 8 + 1);
            assert(out@ =~= padding((i + 1) as nat));
        }
        i = i + 1;
    }
    out
}

/// Shorter padding is the beginning of longer padding.
pub proof fn law_padding_is_a_prefix(short: nat, long: nat)
    requires
        short <= long,
    ensures
        padding(long).take(short as int) == padding(short),
{
    assert(padding(long).take(short as int) =~= padding(short));
}

/// The bytes that an archive is padded to.
pub open spec fn target_bytes(size_mb: u32) -> int {
    size_mb * 1024 * 1024
}

/// The complaint about a size that the code alone exceeds.
pub open spec fn too_small_message(rt: SynthRuntime, base_len: nat, size_mb: u32) -> Seq<char> {
    "synthetic size "@ + decimal(size_mb as nat) + " MB is too small for the "@ + rt.entry_text()
        + " base entry ("@ + decimal(base_len)
        + " bytes + overhead); raise this SYNTH_DEFAULT_SIZES_MB entry"@
}

fn too_small(rt: SynthRuntime, base_len: usize, size_mb: u32) -> (r: String)
    ensures
        r@ == too_small_message(rt, base_len as nat, size_mb),
{
    let mut out: String = "synthetic size ".to_owned();
    append_decimal(&mut out, size_mb as u128);
    out.append(" MB is too small for the ");
    out.append(rt.entry_name());
    out.append(" base entry (");
    append_decimal(&mut out, base_len as u128);
    out.append(" bytes + overhead); raise this SYNTH_DEFAULT_SIZES_MB entry");
    out
}

/// The padding that brings code of a length to a size, with room left for the
/// archive's own headers; nothing where the code alone takes the size.
pub open spec fn pad_bytes(base_len: nat, size_mb: u32) -> Option<nat> {
    if base_len + 1024 >= target_bytes(size_mb) {
        None
    } else {
        Some((target_bytes(size_mb) - base_len - 1024) as nat)
    }
}

proof fn lemma_padded_length(base_name: Seq<char>, mode: u32, base: Seq<u8>, pad: Seq<u8>)
    ensures
        stored_length(
            seq![(base_name, mode, true, base), ("padding.bin"@, 0o644u32, true, pad)],
        ) == 22 + 76 + 2 * name_length(base_name) + base.len() + 76 + 2 * name_length(
            "padding.bin"@,
        ) + pad.len(),
{
    let two = seq![(base_name, mode, true, base), ("padding.bin"@, 0o644u32, true, pad)];
    let one = two.drop_last();
    assert(one =~= seq![(base_name, mode, true, base)]);
    let none = one.drop_last();
    assert(none =~= Seq::empty());
    assert(stored_length(none) == 22);
    assert(stored_length(one) == 22 + 76 + 2 * name_length(base_name) + base.len());
}

/// Builds the archive of a synthetic function: the code and as much padding as
/// brings the two to the size. A size that the code alone exceeds is refused,
/// since it would mislabel the archive, and so is one that takes an entry of more
/// than 32 bits' worth of bytes. An archive that is built holds both entries, the
/// binary of the Rust family executable, and its length stays within a kilobyte of
/// the size.
pub fn build_padded_zip(rt: SynthRuntime, base: &Vec<u8>, size_mb: u32) -> (r: Result<
    Vec<u8>,
    String,
>)
    requires
        target_bytes(size_mb) <= usize::MAX,
    ensures
        pad_bytes(base@.len(), size_mb) is None ==> r is Err && r->Err_0@ == too_small_message(
            rt,
            base@.len(),
            size_mb,
        ),
        r is Ok <==> pad_bytes(base@.len(), size_mb) is Some && base@.len() <= 0xffff_ffff
            && pad_bytes(base@.len(), size_mb)->0 <= 0xffff_ffff,
        r is Ok ==> {
            &&& zip_member(r->Ok_0@, rt.entry_text()) == Some(base@)
            &&& zip_mode(r->Ok_0@, rt.entry_text()) == Some(
                if rt == SynthRuntime::Rust {
                    0o100755u32
                } else {
                    0o100644u32
                },
            )
            &&& zip_member(r->Ok_0@, "padding.bin"@) == Some(
                padding(pad_bytes(base@.len(), size_mb)->0),
            )
            &&& zip_mode(r->Ok_0@, "padding.bin"@) == Some(0o100644u32)
            &&& target_bytes(size_mb) - 1024 < r->Ok_0@.len() <= target_bytes(size_mb)
        },
{
    let target: usize = size_mb as usize * 1024 * 1024;
    if base.len() >= target || target - base.len() <= 1024 {
        return Err(too_small(rt, base.len(), size_mb));
    }
    let pad: usize = target - base.len() - 1024;
    let filler: Vec<u8> = write_incompressible(pad);
    let mode: u32 = rt.entry_mode();
    let mut draft: ZipDraft = new_draft();
    let ghost two = seq![
        (rt.entry_text(), mode, true, base@),
        ("padding.bin"@, 0o644u32, true, filler@),
    ];
    proof {
        reveal_strlit("handler.py");
        reveal_strlit("bootstrap");
        reveal_strlit("padding.bin");
        is_ascii_chars_encode_utf8(rt.entry_text());
        is_ascii_chars_encode_utf8("padding.bin"@);
        lemma_padded_length(rt.entry_text(), mode, base@, filler@);
        let one = drafted(draft).push((rt.entry_text(), mode, true, base@));
        assert(one.push(("padding.bin"@, 0o644u32, true, filler@)) =~= two);
        assert(is_entry_name(rt.entry_text()));
        assert(is_entry_name("padding.bin"@));
        assert(rt.entry_text().len() != "padding.bin"@.len());
        assert(base@.len() <= 0xffff_ffff ==> storable(one));
        assert(base@.len() <= 0xffff_ffff && filler@.len() <= 0xffff_ffff ==> storable(two));
        assert(0o100000u32 | (0o644u32 & 0o777u32) == 0o100644u32) by (bit_vector);
        assert(0o100000u32 | (0o755u32 & 0o777u32) == 0o100755u32) by (bit_vector);
    }
    match add_entry(&mut draft, rt.entry_name(), mode, true, base) {
        Ok(_) => {},
        Err(e) => {
            return Err(e);
        },
    }
    match add_entry(&mut draft, "padding.bin", 0o644, true, &filler) {
        Ok(_) => {},
        Err(e) => {
            return Err(e);
        },
    }
    proof {
        let entries = drafted(draft);
        assert(entries =~= two);
        assert(is_entry_name(entries[0].0));
        assert(is_entry_name(entries[1].0));
        assert(name_length(entries.last().0) != 16);
        assert(all_named(entries));
    }
    finish(draft)
}

/// The code that the Rust family reuses: the binary in the archive of the plain
/// `hello` build.
pub fn bootstrap_from_zip(archive: &Vec<u8>) -> (r: Option<Vec<u8>>)
    ensures
        maybe_bytes(r) == zip_member(archive@, "bootstrap"@),
{
    read_entry(archive, "bootstrap")
}

/// The label of the build that the Rust family reuses.
pub fn bootstrap_label(arch: Arch) -> (r: String)
    ensures
        r@ == "rust-hello-"@ + arch.name() + "-o3"@,
{
    let mut out: String = "rust-hello-".to_owned();
    out.append(arch.as_str());
    out.append("-o3");
    out
}

/// The code of the Python family.
pub const SYNTH_PY_HANDLER: &'static str = "def handler(event, context):\n    return {'ok': True}\n";

/// One function of the zip families.
pub struct SynthUnit {
    pub runtime: SynthRuntime,
    pub size_mb: u32,
    pub function: SyntheticFn,
}

/// The runtime of a zip family.
pub open spec fn zip_runtime(f: int) -> SynthRuntime {
    if f == 0 {
        SynthRuntime::Python
    } else {
        SynthRuntime::Rust
    }
}

/// Whether a unit is the function of the `f`-th zip family at the `k`-th size.
pub open spec fn unit_is(u: SynthUnit, f: int, k: int, arch: Arch) -> bool {
    &&& u.runtime == zip_runtime(f)
    &&& u.size_mb == SYNTH_DEFAULT_SIZES_MB@[k]
    &&& u.function.name@ == nth_synth_name(f, k)
    &&& u.function.runtime@ == u.runtime.runtime_id()
    &&& u.function.handler@ == u.runtime.handler_text()
    &&& u.function.memory_mb == 512
    &&& u.function.arch@ == arch.lambda_spelling()
}

/// The functions of the zip families, family by family, sizes ascending.
pub fn synthetic_units(arch: Arch) -> (r: Vec<SynthUnit>)
    ensures
        r@.len() == 10,
        forall|i: int| 0 <= i < 10 ==> unit_is(#[trigger] r@[i], i / 5, i % 5, arch),
{
    let sizes: [u32; 5] = SYNTH_DEFAULT_SIZES_MB;
    let mut out: Vec<SynthUnit> = Vec::new();
    let mut i: usize = 0;
    while i < 10
        invariant
            i <= 10,
            sizes@ == SYNTH_DEFAULT_SIZES_MB@,
            out@.len() == i,
            forall|k: int| 0 <= k < i ==> unit_is(#[trigger] out@[k], k / 5, k % 5, arch),
        decreases 10 - i,
    {
        let runtime: SynthRuntime = if i < 5 {
            SynthRuntime::Python
        } else {
            SynthRuntime::Rust
        };
        let size_mb: u32 = sizes[i % 5];
        let function: SyntheticFn = SyntheticFn {
            name: synth_function_name(runtime.family(), size_mb),
            runtime: runtime.runtime(),
            handler: runtime.handler(),
            memory_mb: SYNTH_MEMORY_MB,
            arch: arch.lambda_arch(),
        };
        proof {
            assert(SYNTH_ZIP_FAMILIES@[0]@ == "python"@);
            assert(SYNTH_ZIP_FAMILIES@[1]@ == "rust"@);
            assert(i / 5 == (if i < 5 { 0int } else { 1 }));
        }
        out.push(SynthUnit { runtime, size_mb, function });
        i = i + 1;
    }
    out
}

/// Every function that the zip families create is one that teardown deletes.
pub proof fn law_synthetic_units_are_managed(u: SynthUnit, i: int, arch: Arch)
    requires
        0 <= i < 10,
        unit_is(u, i / 5, i % 5, arch),
    ensures
        is_synth_name(u.function.name@),
{
    assert(u.function.name@ == nth_synth_name(i / 5, i % 5));
}

/// The family of an image function: its handler reads the padding or leaves it.
pub fn image_family(touch: bool) -> (r: &'static str)
    ensures
        r@ == SYNTH_IMAGE_FAMILIES@[if touch { 1int } else { 0 }]@,
{
    let families: [&'static str; 2] = SYNTH_IMAGE_FAMILIES;
    if touch {
        families[1]
    } else {
        families[0]
    }
}

/// The name of the image function at a size.
pub fn image_function_name(touch: bool, size_mb: u32) -> (r: String)
    ensures
        r@ == synth_name(
            SYNTH_IMAGE_FAMILIES@[if touch { 1int } else { 0 }]@,
            size_mb as nat,
        ),
{
    synth_function_name(image_family(touch), size_mb)
}

/// Every image function at a default size is one that teardown deletes.
pub proof fn law_image_functions_are_managed(touch: bool, k: int)
    requires
        0 <= k < 5,
    ensures
        is_synth_name(
            synth_name(
                SYNTH_IMAGE_FAMILIES@[if touch { 1int } else { 0 }]@,
                SYNTH_DEFAULT_SIZES_MB@[k] as nat,
            ),
        ),
{
    let f: int = if touch { 3 } else { 2 };
    assert(nth_synth_name(f, k) == synth_name(
        SYNTH_IMAGE_FAMILIES@[if touch { 1int } else { 0 }]@,
        SYNTH_DEFAULT_SIZES_MB@[k] as nat,
    ));
}

/// The tag of an image: its padded size, architecture, and the nonce of the run.
pub fn image_tag(size_mb: u32, arch: Arch, nonce: &str) -> (r: String)
    ensures
        r@ == "synthdl-image-"@ + decimal(size_mb as nat) + "mb-"@ + arch.name() + "-"@ + nonce@,
{
    let mut out: String = "synthdl-image-".to_owned();
    append_decimal(&mut out, size_mb as u128);
    out.append("mb-");
    out.append(arch.as_str());
    out.append("-");
    out.append(nonce);
    out
}

/// The platform of an image.
pub fn image_platform(arch: Arch) -> (r: String)
    ensures
        r@ == "linux/"@ + arch.oci_spelling(),
{
    let mut out: String = "linux/".to_owned();
    out.append(arch.oci_arch());
    out
}

/// What the base of an image takes, estimated from the smallest image: what it
/// takes beyond its padding, and nothing where it takes less.
pub fn base_image_estimate(image_bytes: u64, size_mb: u32) -> (r: u64)
    ensures
        r == (if image_bytes >= target_bytes(size_mb) {
            image_bytes - target_bytes(size_mb)
        } else {
            0
        }),
{
    let padding: u64 = size_mb as u64 * 1024 * 1024;
    if image_bytes >= padding {
        image_bytes - padding
    } else {
        0
    }
}

/// Whether a family is the one that image functions are compared with: the zip
/// family on the same managed runtime.
pub fn is_zip_baseline(family: &str) -> (r: bool)
    ensures
        r == (family@ == "python"@),
{
    same_text(family, "python")
}

} // verus!
