//! The benchmark matrix: every cell, the names the project can create, and the
//! artifacts that cells share.
use crate::cell::{carries_jitter_ab, ArtifactKey, Cell};
use crate::config::{
    is_tier, synth_function_name, synth_name, Arch, Jitter, Lang, Opt, Scenario,
    LAMBDA_LOG_GROUP_PREFIX, MEMORY_MB, SYNTH_DEFAULT_SIZES_MB, SYNTH_IMAGE_FAMILIES,
    SYNTH_ZIP_FAMILIES,
};
use crate::count_laws::{law_managed_name_count, law_matrix_sizes, Part};
use crate::text::{ascending, insert_sorted, precedes, texts};
use crate::text_lemmas::lemma_precedes_prefix;
use vstd::prelude::*;
use vstd::string::*;

verus! {

/// Whether a cell belongs to the matrix: it is valid, its language hosts the
/// scenario, and its memory is a swept tier no less than the scenario's floor.
pub open spec fn in_matrix(c: Cell) -> bool {
    &&& c.valid()
    &&& c.lang.hosts(c.scenario)
    &&& is_tier(c.memory_mb as int)
    &&& c.memory_mb >= c.scenario.floor_mb(c.lang, c.snapstart)
}

/// Position of a language in the sweep.
pub open spec fn lang_rank(l: Lang) -> int {
    match l {
        Lang::Rust => 0,
        Lang::Node => 1,
        Lang::Java => 2,
        Lang::Python => 3,
        Lang::Go => 4,
    }
}

/// Position of a scenario in the sweep.
pub open spec fn scenario_rank(s: Scenario) -> int {
    match s {
        Scenario::Hello => 0,
        Scenario::Smithy => 1,
        Scenario::OneClient => 2,
        Scenario::ThreeClient => 3,
        Scenario::SmithyFull => 4,
        Scenario::LetterCount => 5,
        Scenario::Authz => 6,
        Scenario::Batch => 7,
        Scenario::Cache => 8,
    }
}

/// Position of an architecture in the sweep.
pub open spec fn arch_rank(a: Arch) -> int {
    match a {
        Arch::Arm64 => 0,
        Arch::X86_64 => 1,
    }
}

/// Position of a swept tier in the sweep.
pub open spec fn tier_rank(m: int) -> int {
    if m == 128 {
        0
    } else if m == 256 {
        1
    } else if m == 512 {
        2
    } else if m == 1024 {
        3
    } else if m == 2048 {
        4
    } else {
        5
    }
}

/// Position of a cell among those that differ from it only in variant: plain
/// before SnapStart, `o3` before `oz` before the jitter=On variant.
pub open spec fn variant_rank(c: Cell) -> int {
    if c.snapstart || c.opt == Some(Opt::Oz) {
        1
    } else if c.jitter == Some(Jitter::On) {
        2
    } else {
        0
    }
}

/// Position of a cell in the sweep: language, then scenario, architecture,
/// memory and variant.
pub open spec fn rank(c: Cell) -> int {
    lang_rank(c.lang) * 432 + scenario_rank(c.scenario) * 48 + arch_rank(c.arch) * 24 + tier_rank(
        c.memory_mb as int,
    ) * 4 + variant_rank(c)
}

/// Whether cells stand in sweep order, none of them twice.
pub open spec fn in_sweep_order(cells: Seq<Cell>) -> bool {
    forall|i: int, j: int|
        0 <= i < j < cells.len() ==> rank(#[trigger] cells[i]) < rank(#[trigger] cells[j])
}

/// Whether `cells` is the part of the matrix that comes before position `end`.
spec fn swept_to(cells: Seq<Cell>, end: int) -> bool {
    &&& in_sweep_order(cells)
    &&& forall|i: int|
        0 <= i < cells.len() ==> in_matrix(#[trigger] cells[i]) && rank(cells[i]) < end
    &&& forall|c: Cell| in_matrix(c) && rank(c) < end ==> #[trigger] cells.contains(c)
}

/// Two cells of the matrix at the same position are the same cell.
proof fn lemma_rank_injective(a: Cell, b: Cell)
    requires
        in_matrix(a),
        in_matrix(b),
        rank(a) == rank(b),
    ensures
        a == b,
{
    assert(lang_rank(a.lang) == lang_rank(b.lang));
    assert(scenario_rank(a.scenario) == scenario_rank(b.scenario));
    assert(arch_rank(a.arch) == arch_rank(b.arch));
    assert(tier_rank(a.memory_mb as int) == tier_rank(b.memory_mb as int));
    assert(variant_rank(a) == variant_rank(b));
    assert(a.opt == b.opt);
    assert(a.jitter == b.jitter);
}

/// Adding the cell at position `end` extends the swept part by one.
proof fn lemma_push_swept(cells: Seq<Cell>, c: Cell, end: int)
    requires
        swept_to(cells, end),
        in_matrix(c),
        rank(c) == end,
    ensures
        swept_to(cells.push(c), end + 1),
{
    let more = cells.push(c);
    assert forall|x: Cell| in_matrix(x) && rank(x) < end + 1 implies #[trigger] more.contains(x) by {
        if rank(x) == end {
            lemma_rank_injective(x, c);
            assert(more[cells.len() as int] == x);
        } else {
            assert(cells.contains(x));
            let i = choose|i: int| 0 <= i < cells.len() && cells[i] == x;
            assert(more[i] == x);
        }
    }
}

/// A position that no cell of the matrix takes can be passed over.
proof fn lemma_skip_swept(cells: Seq<Cell>, end: int, to: int)
    requires
        swept_to(cells, end),
        end <= to,
        forall|c: Cell| in_matrix(c) && end <= #[trigger] rank(c) ==> to <= rank(c),
    ensures
        swept_to(cells, to),
{
}

/// Appends the cells of one language, scenario, architecture and tier.
fn push_variants(cells: &mut Vec<Cell>, lang: Lang, scenario: Scenario, arch: Arch, memory_mb: i32)
    requires
        lang.hosts(scenario),
        is_tier(memory_mb as int),
        swept_to(
            old(cells)@,
            lang_rank(lang) * 432 + scenario_rank(scenario) * 48 + arch_rank(arch) * 24 + tier_rank(
                memory_mb as int,
            ) * 4,
        ),
    ensures
        swept_to(
            final(cells)@,
            lang_rank(lang) * 432 + scenario_rank(scenario) * 48 + arch_rank(arch) * 24 + tier_rank(
                memory_mb as int,
            ) * 4 + 4,
        ),
{
    let ghost base = lang_rank(lang) * 432 + scenario_rank(scenario) * 48 + arch_rank(arch) * 24
        + tier_rank(memory_mb as int) * 4;
    let floor: i32 = scenario.min_memory_mb(lang, false);
    proof {
        assert forall|c: Cell| in_matrix(c) && base <= #[trigger] rank(c) < base + 4 implies c.lang
            == lang && c.scenario == scenario && c.arch == arch && c.memory_mb == memory_mb by {
            assert(lang_rank(c.lang) == lang_rank(lang));
            assert(scenario_rank(c.scenario) == scenario_rank(scenario));
            assert(arch_rank(c.arch) == arch_rank(arch));
            assert(tier_rank(c.memory_mb as int) == tier_rank(memory_mb as int));
        }
    }
    match lang {
        Lang::Rust => {
            if memory_mb >= floor {
                let o3: Cell = Cell {
                    lang,
                    scenario,
                    arch,
                    memory_mb,
                    opt: Some(Opt::O3),
                    snapstart: false,
                    jitter: Some(Jitter::Off),
                };
                let oz: Cell = Cell {
                    lang,
                    scenario,
                    arch,
                    memory_mb,
                    opt: Some(Opt::Oz),
                    snapstart: false,
                    jitter: Some(Jitter::Off),
                };
                proof {
                    lemma_push_swept(cells@, o3, base);
                }
                cells.push(o3);
                proof {
                    lemma_push_swept(cells@, oz, base + 1);
                }
                cells.push(oz);
                if carries_jitter_ab(scenario) {
                    let on: Cell = Cell {
                        lang,
                        scenario,
                        arch,
                        memory_mb,
                        opt: Some(Opt::O3),
                        snapstart: false,
                        jitter: Some(Jitter::On),
                    };
                    proof {
                        lemma_push_swept(cells@, on, base + 2);
                        lemma_skip_swept(cells@.push(on), base + 3, base + 4);
                    }
                    cells.push(on);
                } else {
                    proof {
                        lemma_skip_swept(cells@, base + 2, base + 4);
                    }
                }
            } else {
                proof {
                    lemma_skip_swept(cells@, base, base + 4);
                }
            }
        },
        Lang::Java => {
            let plain: Cell = Cell {
                lang,
                scenario,
                arch,
                memory_mb,
                opt: None,
                snapstart: false,
                jitter: None,
            };
            let snap: Cell = Cell {
                lang,
                scenario,
                arch,
                memory_mb,
                opt: None,
                snapstart: true,
                jitter: None,
            };
            if memory_mb >= floor {
                proof {
                    lemma_push_swept(cells@, plain, base);
                }
                cells.push(plain);
            } else {
                proof {
                    lemma_skip_swept(cells@, base, base + 1);
                }
            }
            if memory_mb >= scenario.min_memory_mb(lang, true) {
                proof {
                    lemma_push_swept(cells@, snap, base + 1);
                }
                cells.push(snap);
                proof {
                    lemma_skip_swept(cells@, base + 2, base + 4);
                }
            } else {
                proof {
                    lemma_skip_swept(cells@, base + 1, base + 4);
                }
            }
        },
        Lang::Node | Lang::Python | Lang::Go => {
            if memory_mb >= floor {
                let plain: Cell = Cell {
                    lang,
                    scenario,
                    arch,
                    memory_mb,
                    opt: None,
                    snapstart: false,
                    jitter: None,
                };
                proof {
                    lemma_push_swept(cells@, plain, base);
                    lemma_skip_swept(cells@.push(plain), base + 1, base + 4);
                }
                cells.push(plain);
            } else {
                proof {
                    lemma_skip_swept(cells@, base, base + 4);
                }
            }
        },
    }
}

/// The full benchmark matrix, in sweep order.
pub fn all_cells() -> (r: Vec<Cell>)
    ensures
        in_sweep_order(r@),
        forall|c: Cell| #[trigger] r@.contains(c) <==> in_matrix(c),
        r@.len() == 674,
{
    let mut cells: Vec<Cell> = Vec::new();
    let langs: [Lang; 5] = Lang::ALL;
    let scenarios: [Scenario; 9] = Scenario::ALL;
    let arches: [Arch; 2] = Arch::ALL;
    let tiers: [i32; 6] = MEMORY_MB;
    let mut l: usize = 0;
    while l < 5
        invariant
            l <= 5,
            langs@ == Lang::ALL@,
            scenarios@ == Scenario::ALL@,
            arches@ == Arch::ALL@,
            tiers@ == MEMORY_MB@,
            swept_to(cells@, l * 432),
        decreases 5 - l,
    {
        let lang: Lang = langs[l];
        assert(lang_rank(lang) == l);
        let mut s: usize = 0;
        while s < 9
            invariant
                l < 5,
                s <= 9,
                lang_rank(lang) == l,
                scenarios@ == Scenario::ALL@,
                arches@ == Arch::ALL@,
                tiers@ == MEMORY_MB@,
                swept_to(cells@, l * 432 + s * 48),
            decreases 9 - s,
        {
            let scenario: Scenario = scenarios[s];
            assert(scenario_rank(scenario) == s);
            if lang.supports(scenario) {
                let mut a: usize = 0;
                while a < 2
                    invariant
                        a <= 2,
                        lang_rank(lang) == l,
                        scenario_rank(scenario) == s,
                        lang.hosts(scenario),
                        arches@ == Arch::ALL@,
                        tiers@ == MEMORY_MB@,
                        swept_to(cells@, l * 432 + s * 48 + a * 24),
                    decreases 2 - a,
                {
                    let arch: Arch = arches[a];
                    assert(arch_rank(arch) == a);
                    let mut m: usize = 0;
                    while m < 6
                        invariant
                            m <= 6,
                            lang_rank(lang) == l,
                            scenario_rank(scenario) == s,
                            arch_rank(arch) == a,
                            lang.hosts(scenario),
                            tiers@ == MEMORY_MB@,
                            swept_to(cells@, l * 432 + s * 48 + a * 24 + m * 4),
                        decreases 6 - m,
                    {
                        let memory_mb: i32 = tiers[m];
                        assert(is_tier(memory_mb as int) && tier_rank(memory_mb as int) == m);
                        push_variants(&mut cells, lang, scenario, arch, memory_mb);
                        m = m + 1;
                    }
                    a = a + 1;
                }
            } else {
                proof {
                    let base = l * 432 + s * 48;
                    assert forall|c: Cell| in_matrix(c) && base <= #[trigger] rank(c) implies base
                        + 48 <= rank(c) by {
                        if rank(c) < base + 48 {
                            assert(lang_rank(c.lang) == lang_rank(lang));
                            assert(scenario_rank(c.scenario) == scenario_rank(scenario));
                        }
                    }
                    lemma_skip_swept(cells@, base, base + 48);
                }
            }
            s = s + 1;
        }
        l = l + 1;
    }
    proof {
        assert forall|c: Cell| #[trigger] cells@.contains(c) <==> in_matrix(c) by {
            assert(in_matrix(c) ==> rank(c) < 5 * 432);
        }
        law_matrix_sizes(cells@, Part::All);
    }
    cells
}

/// Whether `t` names a function of the synthetic probe.
pub open spec fn is_synth_name(t: Seq<char>) -> bool {
    exists|f: int, k: int|
        {
            &&& 0 <= f < 4
            &&& 0 <= k < 5
            &&& t == #[trigger] nth_synth_name(f, k)
        }
}

/// The name of the synthetic function of the `f`-th family, zip families first,
/// at the `k`-th size.
pub open spec fn nth_synth_name(f: int, k: int) -> Seq<char> {
    synth_name(
        if f < 2 {
            SYNTH_ZIP_FAMILIES@[f]@
        } else {
            SYNTH_IMAGE_FAMILIES@[f - 2]@
        },
        SYNTH_DEFAULT_SIZES_MB@[k] as nat,
    )
}

/// Whether `t` names a function of the matrix.
pub open spec fn is_matrix_name(t: Seq<char>) -> bool {
    exists|c: Cell| in_matrix(c) && t == #[trigger] c.full_name()
}

/// Whether the project can create a function named `t`.
pub open spec fn is_managed_name(t: Seq<char>) -> bool {
    is_matrix_name(t) || is_synth_name(t)
}

/// Every function name the project can create, ascending: exactly the set that
/// teardown deletes.
pub fn all_managed_function_names() -> (r: Vec<String>)
    ensures
        ascending(texts(r@)),
        forall|t: Seq<char>| #[trigger] texts(r@).contains(t) <==> is_managed_name(t),
        r@.len() == 694,
{
    let cells: Vec<Cell> = all_cells();
    let mut names: Vec<String> = Vec::new();
    let mut i: usize = 0;
    while i < cells.len()
        invariant
            i <= cells.len(),
            ascending(texts(names@)),
            forall|t: Seq<char>| #[trigger]
                texts(names@).contains(t) <==> exists|k: int|
                    0 <= k < i && t == (#[trigger] cells@[k]).full_name(),
        decreases cells.len() - i,
    {
        let ghost before = texts(names@);
        insert_sorted(&mut names, cells[i].function_name());
        proof {
            assert forall|t: Seq<char>| #[trigger] texts(names@).contains(t) <==> exists|k: int|
                0 <= k < i + 1 && t == (#[trigger] cells@[k]).full_name() by {
                assert(texts(names@).contains(t) <==> before.contains(t) || t
                    == cells@[i as int].full_name());
            }
        }
        i = i + 1;
    }
    proof {
        assert forall|t: Seq<char>| #[trigger] texts(names@).contains(t) <==> is_matrix_name(t) by {
            if is_matrix_name(t) {
                let c = choose|c: Cell| in_matrix(c) && t == #[trigger] c.full_name();
                assert(cells@.contains(c));
                let k = choose|k: int| 0 <= k < cells@.len() && cells@[k] == c;
                assert(t == cells@[k].full_name());
            }
            if texts(names@).contains(t) {
                let k = choose|k: int|
                    0 <= k < cells@.len() && t == (#[trigger] cells@[k]).full_name();
                assert(cells@.contains(cells@[k]));
            }
        }
    }
    let zips: [&'static str; 2] = SYNTH_ZIP_FAMILIES;
    let images: [&'static str; 2] = SYNTH_IMAGE_FAMILIES;
    let sizes: [u32; 5] = SYNTH_DEFAULT_SIZES_MB;
    let mut f: usize = 0;
    while f < 4
        invariant
            f <= 4,
            zips@ == SYNTH_ZIP_FAMILIES@,
            images@ == SYNTH_IMAGE_FAMILIES@,
            sizes@ == SYNTH_DEFAULT_SIZES_MB@,
            ascending(texts(names@)),
            forall|t: Seq<char>| #[trigger]
                texts(names@).contains(t) <==> is_matrix_name(t) || exists|g: int, k: int|
                    0 <= g < f && 0 <= k < 5 && t == #[trigger] nth_synth_name(g, k),
        decreases 4 - f,
    {
        let family: &'static str = if f < 2 {
            zips[f]
        } else {
            images[f - 2]
        };
        let ghost outer = texts(names@);
        let mut j: usize = 0;
        while j < 5
            invariant
                f < 4,
                j <= 5,
                sizes@ == SYNTH_DEFAULT_SIZES_MB@,
                family@ == (if f < 2 {
                    SYNTH_ZIP_FAMILIES@[f as int]@
                } else {
                    SYNTH_IMAGE_FAMILIES@[f - 2]@
                }),
                ascending(texts(names@)),
                forall|t: Seq<char>| #[trigger]
                    texts(names@).contains(t) <==> outer.contains(t) || exists|k: int|
                        0 <= k < j && t == #[trigger] nth_synth_name(f as int, k),
            decreases 5 - j,
        {
            let ghost before = texts(names@);
            insert_sorted(&mut names, synth_function_name(family, sizes[j]));
            proof {
                assert forall|t: Seq<char>| #[trigger] texts(names@).contains(t) <==> outer.contains(
                    t,
                ) || exists|k: int| 0 <= k < j + 1 && t == #[trigger] nth_synth_name(f as int, k) by {
                    assert(texts(names@).contains(t) <==> before.contains(t) || t
                        == nth_synth_name(f as int, j as int));
                }
            }
            j = j + 1;
        }
        proof {
            assert forall|t: Seq<char>| #[trigger] texts(names@).contains(t) <==> is_matrix_name(t)
                || exists|g: int, k: int|
                0 <= g < f + 1 && 0 <= k < 5 && t == #[trigger] nth_synth_name(g, k) by {
                assert(texts(names@).contains(t) <==> outer.contains(t) || exists|k: int|
                    0 <= k < 5 && t == #[trigger] nth_synth_name(f as int, k));
            }
        }
        f = f + 1;
    }
    proof {
        law_managed_name_count(texts(names@));
    }
    names
}

/// Whether `t` is the log group of a function the project can create.
pub open spec fn is_managed_log_group(t: Seq<char>) -> bool {
    exists|n: Seq<char>| #[trigger] is_managed_name(n) && t == LAMBDA_LOG_GROUP_PREFIX@ + n
}

/// The log group of every function the project can create, ascending.
pub fn all_managed_log_group_names() -> (r: Vec<String>)
    ensures
        ascending(texts(r@)),
        forall|t: Seq<char>| #[trigger] texts(r@).contains(t) <==> is_managed_log_group(t),
        r@.len() == 694,
{
    let names: Vec<String> = all_managed_function_names();
    let mut out: Vec<String> = Vec::new();
    let mut i: usize = 0;
    while i < names.len()
        invariant
            i <= names.len(),
            out@.len() == i,
            forall|k: int|
                0 <= k < i ==> (#[trigger] out@[k])@ == LAMBDA_LOG_GROUP_PREFIX@ + texts(
                    names@,
                )[k],
        decreases names.len() - i,
    {
        let mut name: String = LAMBDA_LOG_GROUP_PREFIX.to_owned();
        name.append(names[i].as_str());
        out.push(name);
        i = i + 1;
    }
    proof {
        let all = texts(names@);
        let groups = texts(out@);
        let p = LAMBDA_LOG_GROUP_PREFIX@;
        assert forall|k: int| 0 <= k < groups.len() implies #[trigger] groups[k] == p + all[k] by {
            assert(groups[k] == out@[k]@);
        }
        assert forall|a: int, b: int| 0 <= a < b < groups.len() implies precedes(
            #[trigger] groups[a],
            #[trigger] groups[b],
        ) by {
            assert(precedes(all[a], all[b]));
            lemma_precedes_prefix(p, all[a], all[b]);
        }
        assert forall|t: Seq<char>| #[trigger] groups.contains(t) <==> is_managed_log_group(t) by {
            if groups.contains(t) {
                let k = choose|k: int| 0 <= k < groups.len() && groups[k] == t;
                assert(all.contains(all[k]));
                assert(is_managed_name(all[k]) && t == p + all[k]);
            }
            if is_managed_log_group(t) {
                let n = choose|n: Seq<char>| #[trigger] is_managed_name(n) && t == p + n;
                assert(all.contains(n));
                let k = choose|k: int| 0 <= k < all.len() && all[k] == n;
                assert(groups[k] == t);
            }
        }
    }
    out
}

/// Whether a language is asked for: an empty list asks for every language.
pub open spec fn asks_for(langs: Seq<Lang>, lang: Lang) -> bool {
    langs.len() == 0 || langs.contains(lang)
}

/// Whether a language is asked for.
pub fn is_asked_for(langs: &[Lang], lang: Lang) -> (r: bool)
    ensures
        r == asks_for(langs@, lang),
{
    let mut i: usize = 0;
    while i < langs.len()
        invariant
            i <= langs@.len(),
            forall|k: int| 0 <= k < i ==> langs@[k] != lang,
        decreases langs@.len() - i,
    {
        if langs[i] == lang {
            return true;
        }
        i = i + 1;
    }
    langs.len() == 0
}

/// The matrix restricted to the given languages, in sweep order. An empty list
/// restricts nothing.
pub fn cells_for_langs(langs: &[Lang]) -> (r: Vec<Cell>)
    ensures
        in_sweep_order(r@),
        forall|c: Cell| #[trigger] r@.contains(c) <==> in_matrix(c) && asks_for(langs@, c.lang),
{
    let cells: Vec<Cell> = all_cells();
    let mut out: Vec<Cell> = Vec::new();
    let mut i: usize = 0;
    while i < cells.len()
        invariant
            i <= cells.len(),
            in_sweep_order(cells@),
            forall|c: Cell| #[trigger] cells@.contains(c) <==> in_matrix(c),
            in_sweep_order(out@),
            forall|k: int|
                0 <= k < out@.len() ==> cells@.contains(#[trigger] out@[k]) && asks_for(
                    langs@,
                    out@[k].lang,
                ),
            forall|k: int, m: int|
                0 <= k < out@.len() && i <= m < cells@.len() ==> rank(#[trigger] out@[k]) < rank(
                    #[trigger] cells@[m],
                ),
            forall|m: int|
                0 <= m < i && asks_for(langs@, (#[trigger] cells@[m]).lang) ==> out@.contains(
                    cells@[m],
                ),
        decreases cells.len() - i,
    {
        let ghost before = out@;
        if is_asked_for(langs, cells[i].lang) {
            out.push(cells[i]);
            proof {
                assert(out@.last() == cells@[i as int]);
                assert forall|m: int|
                    0 <= m < i + 1 && asks_for(langs@, (#[trigger] cells@[m]).lang) implies
                    out@.contains(cells@[m]) by {
                    if m < i {
                        let k = choose|k: int| 0 <= k < before.len() && before[k] == cells@[m];
                        assert(out@[k] == cells@[m]);
                    }
                }
            }
        }
        i = i + 1;
    }
    proof {
        assert forall|c: Cell| in_matrix(c) && asks_for(langs@, c.lang) implies
            #[trigger] out@.contains(c) by {
            assert(cells@.contains(c));
        }
    }
    out
}

/// The distinct items of a sequence, in the order of their first appearance.
pub open spec fn first_seen<A>(keys: Seq<A>) -> Seq<A>
    decreases keys.len(),
{
    if keys.len() == 0 {
        Seq::empty()
    } else {
        let before = first_seen(keys.drop_last());
        if before.contains(keys.last()) {
            before
        } else {
            before.push(keys.last())
        }
    }
}

/// The artifacts of cells, one for each cell.
pub open spec fn keys_of(cells: Seq<Cell>) -> Seq<ArtifactKey> {
    cells.map_values(|c: Cell| c.key())
}

fn has_key(keys: &Vec<ArtifactKey>, key: ArtifactKey) -> (r: bool)
    ensures
        r == keys@.contains(key),
{
    let mut i: usize = 0;
    while i < keys.len()
        invariant
            i <= keys.len(),
            forall|k: int| 0 <= k < i ==> keys@[k] != key,
        decreases keys.len() - i,
    {
        if keys[i] == key {
            return true;
        }
        i = i + 1;
    }
    false
}

/// The artifacts that need building for the given cells, each once, in the order
/// of their first use.
pub fn unique_artifacts(cells: &[Cell]) -> (r: Vec<ArtifactKey>)
    ensures
        r@ == first_seen(keys_of(cells@)),
{
    let mut out: Vec<ArtifactKey> = Vec::new();
    let mut i: usize = 0;
    while i < cells.len()
        invariant
            i <= cells@.len(),
            out@ == first_seen(keys_of(cells@).take(i as int)),
        decreases cells@.len() - i,
    {
        let key: ArtifactKey = cells[i].artifact_key();
        proof {
            let all = keys_of(cells@);
            assert(all.take(i + 1).drop_last() =~= all.take(i as int));
            assert(all.take(i + 1).last() == cells@[i as int].key());
        }
        if !has_key(&out, key) {
            out.push(key);
        }
        i = i + 1;
    }
    proof {
        assert(keys_of(cells@).take(cells@.len() as int) =~= keys_of(cells@));
    }
    out
}

} // verus!
