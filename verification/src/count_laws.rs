//! How many cells, names and artifacts the configuration makes.
use crate::cell::{in_jitter_ab, per_arch, ArtifactKey, Cell};
use crate::config::{
    is_tier, Arch, Jitter, Lang, Opt, Scenario, MEMORY_MB, RESOURCE_PREFIX,
    SYNTH_DEFAULT_SIZES_MB, SYNTH_IMAGE_FAMILIES, SYNTH_ZIP_FAMILIES,
};
use crate::laws::{
    law_ascending_holds_nothing_twice, law_first_seen_is_the_set, law_matrix_names_unique,
    law_synth_names_disjoint,
};
use crate::matrix::{
    arch_rank, first_seen, in_matrix, in_sweep_order, is_managed_name, is_matrix_name,
    is_synth_name, keys_of, lang_rank, nth_synth_name, rank, scenario_rank, tier_rank,
    variant_rank,
};
use crate::text::{ascending, decimal};
use crate::text_lemmas::lemma_decimal_injective;
use vstd::prelude::*;

verus! {

/// How many of the places below `n` are taken.
spec fn count(taken: spec_fn(int) -> bool, n: int) -> int
    decreases n,
{
    if n <= 0 {
        0
    } else {
        count(taken, n - 1) + if taken(n - 1) {
            1int
        } else {
            0
        }
    }
}

/// Items that fill the taken places, each a place of its own, are as many as those
/// places.
proof fn lemma_len_is_count<A>(
    v: Seq<A>,
    place: spec_fn(A) -> int,
    taken: spec_fn(int) -> bool,
    n: int,
)
    requires
        forall|i: int|
            0 <= i < v.len() ==> 0 <= place(#[trigger] v[i]) < n && taken(place(v[i])),
        forall|i: int, j: int|
            0 <= i < j < v.len() ==> place(#[trigger] v[i]) != place(#[trigger] v[j]),
        forall|p: int|
            0 <= p < n && #[trigger] taken(p) ==> exists|i: int|
                0 <= i < v.len() && place(#[trigger] v[i]) == p,
    ensures
        v.len() == count(taken, n),
    decreases n,
{
    if n <= 0 {
        if v.len() > 0 {
            assert(0 <= place(v[0]) < n);
        }
    } else if taken(n - 1) {
        let at = choose|i: int| 0 <= i < v.len() && place(#[trigger] v[i]) == n - 1;
        let rest = v.remove(at);
        assert forall|i: int| 0 <= i < rest.len() implies 0 <= place(#[trigger] rest[i]) < n - 1
            && taken(place(rest[i])) by {
            let j = if i < at { i } else { i + 1 };
            assert(rest[i] == v[j]);
            assert(place(v[j]) != place(v[at]));
        }
        assert forall|i: int, j: int| 0 <= i < j < rest.len() implies place(#[trigger] rest[i])
            != place(#[trigger] rest[j]) by {
            let a = if i < at { i } else { i + 1 };
            let b = if j < at { j } else { j + 1 };
            assert(rest[i] == v[a] && rest[j] == v[b]);
        }
        assert forall|p: int| 0 <= p < n - 1 && #[trigger] taken(p) implies exists|i: int|
            0 <= i < rest.len() && place(#[trigger] rest[i]) == p by {
            let j = choose|j: int| 0 <= j < v.len() && place(#[trigger] v[j]) == p;
            let i = if j < at { j } else { j - 1 };
            assert(rest[i] == v[j]);
        }
        lemma_len_is_count(rest, place, taken, n - 1);
    } else {
        assert forall|i: int| 0 <= i < v.len() implies 0 <= place(#[trigger] v[i]) < n - 1
            && taken(place(v[i])) by {}
        lemma_len_is_count(v, place, taken, n - 1);
    }
}

/// Places that are taken alike are as many.
proof fn lemma_same_count(a: spec_fn(int) -> bool, b: spec_fn(int) -> bool, n: int)
    requires
        forall|p: int| 0 <= p < n ==> #[trigger] a(p) == b(p),
    ensures
        count(a, n) == count(b, n),
    decreases n,
{
    if n > 0 {
        assert(a(n - 1) == b(n - 1));
        lemma_same_count(a, b, n - 1);
    }
}

// ---- cells ----

/// A part of the matrix.
pub ghost enum Part {
    All,
    Of(Lang),
    PlainJava,
    SnapStart,
    JitterOn,
}

/// Whether a cell belongs to a part.
pub open spec fn in_part(part: Part, c: Cell) -> bool {
    match part {
        Part::All => true,
        Part::Of(lang) => c.lang == lang,
        Part::PlainJava => c.lang == Lang::Java && !c.snapstart,
        Part::SnapStart => c.snapstart,
        Part::JitterOn => c.jitter == Some(Jitter::On),
    }
}

/// How many cells a part has.
pub open spec fn part_size(part: Part) -> int {
    match part {
        Part::All => 674,
        Part::Of(Lang::Rust) => 228,
        Part::Of(Lang::Node) => 102,
        Part::Of(Lang::Java) => 188,
        Part::Of(Lang::Python) => 78,
        Part::Of(Lang::Go) => 78,
        Part::PlainJava => 96,
        Part::SnapStart => 92,
        Part::JitterOn => 24,
    }
}

/// The cell that a variant makes.
spec fn variant_cell(lang: Lang, scenario: Scenario, arch: Arch, memory_mb: i32, v: int) -> Cell {
    Cell {
        lang,
        scenario,
        arch,
        memory_mb,
        opt: if lang != Lang::Rust {
            None
        } else if v == 1 {
            Some(Opt::Oz)
        } else {
            Some(Opt::O3)
        },
        snapstart: lang == Lang::Java && v == 1,
        jitter: if lang != Lang::Rust {
            None
        } else if v == 2 {
            Some(Jitter::On)
        } else {
            Some(Jitter::Off)
        },
    }
}

/// The cell that would stand at a place of the sweep.
spec fn cell_at(p: int) -> Cell {
    variant_cell(
        Lang::ALL@[p / 432],
        Scenario::ALL@[p % 432 / 48],
        Arch::ALL@[p % 48 / 24],
        MEMORY_MB@[p % 24 / 4],
        p % 4,
    )
}

/// Whether a cell of a part stands at a place of the sweep.
spec fn takes(part: Part, p: int) -> bool {
    in_matrix(cell_at(p)) && rank(cell_at(p)) == p && in_part(part, cell_at(p))
}

/// Whether the parts of a place are those of a tier, and the variant after them.
spec fn decodes(p: int, l: int, s: int, a: int, t: int, v: int) -> bool {
    p / 432 == l && p % 432 / 48 == s && p % 48 / 24 == a && p % 24 / 4 == t && p % 4 == v
}

proof fn lemma_decodes(l: int, s: int, a: int, t: int, v: int)
    requires
        0 <= l < 5,
        0 <= s < 9,
        0 <= a < 2,
        0 <= t < 6,
        0 <= v < 4,
    ensures
        decodes(l * 432 + s * 48 + a * 24 + t * 4 + v, l, s, a, t, v),
{
}

/// The lists of the sweep hold at each position the item of that rank.
proof fn lemma_ranked_lists(lang: Lang, scenario: Scenario, arch: Arch, memory_mb: i32)
    requires
        is_tier(memory_mb as int),
    ensures
        0 <= lang_rank(lang) < 5 && Lang::ALL@[lang_rank(lang)] == lang,
        0 <= scenario_rank(scenario) < 9 && Scenario::ALL@[scenario_rank(scenario)] == scenario,
        0 <= arch_rank(arch) < 2 && Arch::ALL@[arch_rank(arch)] == arch,
        0 <= tier_rank(memory_mb as int) < 6 && MEMORY_MB@[tier_rank(memory_mb as int)]
            == memory_mb,
{
}

/// A cell of the matrix stands at its place.
proof fn lemma_cell_at_rank(c: Cell)
    requires
        in_matrix(c),
    ensures
        0 <= rank(c) < 2160,
        cell_at(rank(c)) == c,
{
    lemma_ranked_lists(c.lang, c.scenario, c.arch, c.memory_mb);
    lemma_decodes(
        lang_rank(c.lang),
        scenario_rank(c.scenario),
        arch_rank(c.arch),
        tier_rank(c.memory_mb as int),
        variant_rank(c),
    );
    let at = variant_cell(c.lang, c.scenario, c.arch, c.memory_mb, variant_rank(c));
    assert(cell_at(rank(c)) == at);
    match c.opt {
        Some(Opt::O3) => {},
        Some(Opt::Oz) => {},
        None => {},
    }
    match c.jitter {
        Some(Jitter::On) => {},
        Some(Jitter::Off) => {},
        None => {},
    }
    assert(at.opt == c.opt);
    assert(at.jitter == c.jitter);
    assert(at.snapstart == c.snapstart);
}

/// How many plain cells one language, scenario and tier have on an architecture.
spec fn plain_cells(lang: Lang, scenario: Scenario, memory_mb: int) -> int {
    if !lang.hosts(scenario) || memory_mb < scenario.floor_mb(lang, false) {
        0
    } else if lang == Lang::Rust {
        2
    } else {
        1
    }
}

/// How many SnapStart cells one language, scenario and tier have on an architecture.
spec fn snap_cells(lang: Lang, scenario: Scenario, memory_mb: int) -> int {
    if lang == Lang::Java && memory_mb >= scenario.floor_mb(lang, true) {
        1
    } else {
        0
    }
}

/// How many jitter=On cells one language, scenario and tier have on an architecture.
spec fn on_cells(lang: Lang, scenario: Scenario, memory_mb: int) -> int {
    if lang == Lang::Rust && in_jitter_ab(scenario) && memory_mb >= scenario.floor_mb(
        lang,
        false,
    ) {
        1
    } else {
        0
    }
}

/// What a part keeps of plain, SnapStart and jitter=On cells of a language.
spec fn kept(part: Part, lang: Lang, plain: int, snap: int, on: int) -> int {
    match part {
        Part::All => plain + snap + on,
        Part::Of(of) => if of == lang {
            plain + snap + on
        } else {
            0
        },
        Part::PlainJava => if lang == Lang::Java {
            plain
        } else {
            0
        },
        Part::SnapStart => snap,
        Part::JitterOn => on,
    }
}

/// How many cells of a part one language, scenario and tier have on an
/// architecture.
spec fn tier_count(part: Part, lang: Lang, scenario: Scenario, memory_mb: int) -> int {
    kept(
        part,
        lang,
        plain_cells(lang, scenario, memory_mb),
        snap_cells(lang, scenario, memory_mb),
        on_cells(lang, scenario, memory_mb),
    )
}

/// Which variants of a language, scenario, architecture and tier are cells.
proof fn lemma_variants(lang: Lang, scenario: Scenario, arch: Arch, memory_mb: i32)
    requires
        is_tier(memory_mb as int),
    ensures
        ({
            let c0 = variant_cell(lang, scenario, arch, memory_mb, 0);
            let c1 = variant_cell(lang, scenario, arch, memory_mb, 1);
            let c2 = variant_cell(lang, scenario, arch, memory_mb, 2);
            let c3 = variant_cell(lang, scenario, arch, memory_mb, 3);
            let plain = plain_cells(lang, scenario, memory_mb as int);
            &&& variant_rank(c0) == 0 && variant_rank(c3) == 0
            &&& variant_rank(c1) == (if lang == Lang::Rust || lang == Lang::Java { 1int } else { 0 })
            &&& variant_rank(c2) == (if lang == Lang::Rust { 2int } else { 0 })
            &&& in_matrix(c0) <==> plain > 0
            &&& lang == Lang::Rust ==> (in_matrix(c1) <==> plain > 0)
            &&& lang == Lang::Java ==> (in_matrix(c1) <==> snap_cells(
                lang,
                scenario,
                memory_mb as int,
            ) > 0)
            &&& lang == Lang::Rust ==> (in_matrix(c2) <==> on_cells(
                lang,
                scenario,
                memory_mb as int,
            ) > 0)
        }),
{
}

proof fn lemma_count_tier(part: Part, l: int, s: int, a: int, t: int)
    requires
        0 <= l < 5,
        0 <= s < 9,
        0 <= a < 2,
        0 <= t < 6,
    ensures
        ({
            let base = l * 432 + s * 48 + a * 24 + t * 4;
            let taken = |p: int| takes(part, p);
            count(taken, base + 4) == count(taken, base) + tier_count(
                part,
                Lang::ALL@[l],
                Scenario::ALL@[s],
                MEMORY_MB@[t] as int,
            )
        }),
{
    let base = l * 432 + s * 48 + a * 24 + t * 4;
    let taken = |p: int| takes(part, p);
    let lang = Lang::ALL@[l];
    let scenario = Scenario::ALL@[s];
    let arch = Arch::ALL@[a];
    let memory_mb = MEMORY_MB@[t];
    assert(lang_rank(lang) == l);
    assert(scenario_rank(scenario) == s);
    assert(arch_rank(arch) == a);
    assert(tier_rank(memory_mb as int) == t && is_tier(memory_mb as int));
    lemma_variants(lang, scenario, arch, memory_mb);
    lemma_decodes(l, s, a, t, 0);
    lemma_decodes(l, s, a, t, 1);
    lemma_decodes(l, s, a, t, 2);
    lemma_decodes(l, s, a, t, 3);
    let c0 = variant_cell(lang, scenario, arch, memory_mb, 0);
    let c1 = variant_cell(lang, scenario, arch, memory_mb, 1);
    let c2 = variant_cell(lang, scenario, arch, memory_mb, 2);
    let c3 = variant_cell(lang, scenario, arch, memory_mb, 3);
    assert(cell_at(base + 0) == c0);
    assert(cell_at(base + 1) == c1);
    assert(cell_at(base + 2) == c2);
    assert(cell_at(base + 3) == c3);
    assert(rank(c0) == base + variant_rank(c0));
    assert(rank(c1) == base + variant_rank(c1));
    assert(rank(c2) == base + variant_rank(c2));
    assert(rank(c3) == base + variant_rank(c3));
    let n0: int = if taken(base + 0) { 1 } else { 0 };
    let n1: int = if taken(base + 1) { 1 } else { 0 };
    let n2: int = if taken(base + 2) { 1 } else { 0 };
    assert(!taken(base + 3));
    assert(count(taken, base + 4) == count(taken, base + 3));
    assert(count(taken, base + 3) == count(taken, base + 2) + n2);
    assert(count(taken, base + 2) == count(taken, base + 1) + n1);
    assert(count(taken, base + 1) == count(taken, base + 0) + n0);
    assert(n0 + n1 + n2 == tier_count(part, lang, scenario, memory_mb as int)) by {
        match lang {
            Lang::Rust => {},
            Lang::Java => {},
            Lang::Node | Lang::Python | Lang::Go => {},
        }
    }
}

/// How many cells of a part one language and scenario have on an architecture.
#[verifier::opaque]
spec fn arch_count(part: Part, lang: Lang, scenario: Scenario) -> int {
    tier_count(part, lang, scenario, 128) + tier_count(part, lang, scenario, 256) + tier_count(
        part,
        lang,
        scenario,
        512,
    ) + tier_count(part, lang, scenario, 1024) + tier_count(part, lang, scenario, 2048)
        + tier_count(part, lang, scenario, 3008)
}

/// How many tiers are no less than a floor.
spec fn tiers_from(floor: int) -> int {
    if floor <= 128 {
        6
    } else if floor <= 256 {
        5
    } else if floor <= 512 {
        4
    } else {
        3
    }
}

proof fn lemma_arch_count(part: Part, lang: Lang, scenario: Scenario)
    ensures
        ({
            let tiers = tiers_from(scenario.floor_mb(lang, false));
            let plain = if !lang.hosts(scenario) {
                0
            } else if lang == Lang::Rust {
                2 * tiers
            } else {
                tiers
            };
            let snap = if lang == Lang::Java {
                tiers_from(scenario.floor_mb(lang, true))
            } else {
                0
            };
            let on = if lang == Lang::Rust && in_jitter_ab(scenario) {
                tiers
            } else {
                0
            };
            arch_count(part, lang, scenario) == kept(part, lang, plain, snap, on)
        }),
{
    reveal(arch_count);
}

proof fn lemma_count_scenario(part: Part, l: int, s: int)
    requires
        0 <= l < 5,
        0 <= s < 9,
    ensures
        ({
            let base = l * 432 + s * 48;
            let taken = |p: int| takes(part, p);
            count(taken, base + 48) == count(taken, base) + 2 * arch_count(
                part,
                Lang::ALL@[l],
                Scenario::ALL@[s],
            )
        }),
{
    reveal(arch_count);
    lemma_count_tier(part, l, s, 0, 0);
    lemma_count_tier(part, l, s, 0, 1);
    lemma_count_tier(part, l, s, 0, 2);
    lemma_count_tier(part, l, s, 0, 3);
    lemma_count_tier(part, l, s, 0, 4);
    lemma_count_tier(part, l, s, 0, 5);
    lemma_count_tier(part, l, s, 1, 0);
    lemma_count_tier(part, l, s, 1, 1);
    lemma_count_tier(part, l, s, 1, 2);
    lemma_count_tier(part, l, s, 1, 3);
    lemma_count_tier(part, l, s, 1, 4);
    lemma_count_tier(part, l, s, 1, 5);
}

/// How many cells of a part a language has.
#[verifier::opaque]
spec fn lang_count(part: Part, lang: Lang) -> int {
    2 * (arch_count(part, lang, Scenario::Hello) + arch_count(part, lang, Scenario::Smithy)
        + arch_count(part, lang, Scenario::OneClient) + arch_count(
        part,
        lang,
        Scenario::ThreeClient,
    ) + arch_count(part, lang, Scenario::SmithyFull) + arch_count(part, lang, Scenario::LetterCount)
        + arch_count(part, lang, Scenario::Authz) + arch_count(part, lang, Scenario::Batch)
        + arch_count(part, lang, Scenario::Cache))
}

proof fn lemma_count_lang(part: Part, l: int)
    requires
        0 <= l < 5,
    ensures
        ({
            let taken = |p: int| takes(part, p);
            count(taken, (l + 1) * 432) == count(taken, l * 432) + lang_count(part, Lang::ALL@[l])
        }),
{
    reveal(lang_count);
    lemma_count_scenario(part, l, 0);
    lemma_count_scenario(part, l, 1);
    lemma_count_scenario(part, l, 2);
    lemma_count_scenario(part, l, 3);
    lemma_count_scenario(part, l, 4);
    lemma_count_scenario(part, l, 5);
    lemma_count_scenario(part, l, 6);
    lemma_count_scenario(part, l, 7);
    lemma_count_scenario(part, l, 8);
}

proof fn lemma_lang_count(part: Part, lang: Lang)
    ensures
        lang_count(part, lang) == match lang {
            Lang::Rust => kept(part, lang, 204, 0, 24),
            Lang::Node => kept(part, lang, 102, 0, 0),
            Lang::Java => kept(part, lang, 96, 92, 0),
            Lang::Python => kept(part, lang, 78, 0, 0),
            Lang::Go => kept(part, lang, 78, 0, 0),
        },
{
    reveal(lang_count);
    lemma_arch_count(part, lang, Scenario::Hello);
    lemma_arch_count(part, lang, Scenario::Smithy);
    lemma_arch_count(part, lang, Scenario::OneClient);
    lemma_arch_count(part, lang, Scenario::ThreeClient);
    lemma_arch_count(part, lang, Scenario::SmithyFull);
    lemma_arch_count(part, lang, Scenario::LetterCount);
    lemma_arch_count(part, lang, Scenario::Authz);
    lemma_arch_count(part, lang, Scenario::Batch);
    lemma_arch_count(part, lang, Scenario::Cache);
}

proof fn lemma_count_cells(part: Part)
    ensures
        ({
            let taken = |p: int| takes(part, p);
            count(taken, 2160) == part_size(part)
        }),
{
    lemma_count_lang(part, 0);
    lemma_count_lang(part, 1);
    lemma_count_lang(part, 2);
    lemma_count_lang(part, 3);
    lemma_count_lang(part, 4);
    lemma_lang_count(part, Lang::Rust);
    lemma_lang_count(part, Lang::Node);
    lemma_lang_count(part, Lang::Java);
    lemma_lang_count(part, Lang::Python);
    lemma_lang_count(part, Lang::Go);
}

/// The matrix has 674 cells: 228 for Rust, 102 for Node, 188 for Java, 96 of them
/// plain and 92 with SnapStart, 78 for Python and 78 for Go; 24 are built with
/// jitter.
pub proof fn law_matrix_sizes(cells: Seq<Cell>, part: Part)
    requires
        in_sweep_order(cells),
        forall|c: Cell| #[trigger] cells.contains(c) <==> in_matrix(c) && in_part(part, c),
    ensures
        cells.len() == part_size(part),
{
    let taken = |p: int| takes(part, p);
    let place = |c: Cell| rank(c);
    assert forall|i: int| 0 <= i < cells.len() implies 0 <= place(#[trigger] cells[i]) < 2160
        && taken(place(cells[i])) by {
        assert(cells.contains(cells[i]));
        lemma_cell_at_rank(cells[i]);
    }
    assert forall|p: int| 0 <= p < 2160 && #[trigger] taken(p) implies exists|i: int|
        0 <= i < cells.len() && place(#[trigger] cells[i]) == p by {
        let c = cell_at(p);
        assert(cells.contains(c));
        let i = choose|i: int| 0 <= i < cells.len() && cells[i] == c;
        assert(place(cells[i]) == p);
    }
    lemma_len_is_count(cells, place, taken, 2160);
    lemma_count_cells(part);
}

// ---- names ----

/// The names of synthetic functions tell their family and size.
proof fn lemma_synth_names_distinct(f: int, k: int, g: int, j: int)
    requires
        0 <= f < 4,
        0 <= k < 5,
        0 <= g < 4,
        0 <= j < 5,
        nth_synth_name(f, k) == nth_synth_name(g, j),
    ensures
        f == g && k == j,
{
    reveal_strlit("python");
    reveal_strlit("rust");
    reveal_strlit("image-untouched");
    reveal_strlit("image-touched");
    reveal_strlit("synthdl-");
    reveal_strlit("-");
    reveal_strlit("mb");
    let head = RESOURCE_PREFIX@ + "synthdl-"@;
    let h = head.len() as int;
    let a = nth_synth_name(f, k);
    let b = nth_synth_name(g, j);
    let x = family_text(f);
    let y = family_text(g);
    let m = decimal(SYNTH_DEFAULT_SIZES_MB@[k] as nat);
    let n = decimal(SYNTH_DEFAULT_SIZES_MB@[j] as nat);
    assert(a =~= head + x + "-"@ + m + "mb"@);
    assert(b =~= head + y + "-"@ + n + "mb"@);
    assert(a[h] == x[0] && b[h] == y[0]);
    if f >= 2 && g >= 2 {
        assert(a[h + 6] == x[6] && b[h + 6] == y[6]);
    }
    assert(f == g);
    let from = h + x.len() + 1;
    assert(a.subrange(from, a.len() - 2) =~= m);
    assert(b.subrange(from, b.len() - 2) =~= n);
    lemma_decimal_injective(
        SYNTH_DEFAULT_SIZES_MB@[k] as nat,
        SYNTH_DEFAULT_SIZES_MB@[j] as nat,
    );
    assert(SYNTH_DEFAULT_SIZES_MB@ =~= seq![1u32, 10, 50, 100, 200]);
}

/// The spelling of the `f`-th family, zip families first.
spec fn family_text(f: int) -> Seq<char> {
    if f < 2 {
        SYNTH_ZIP_FAMILIES@[f]@
    } else {
        SYNTH_IMAGE_FAMILIES@[f - 2]@
    }
}

/// The cell of a name of the matrix.
spec fn named_cell(t: Seq<char>) -> Cell {
    choose|c: Cell| in_matrix(c) && t == #[trigger] c.full_name()
}

/// The family and size of a synthetic name.
spec fn named_synth(t: Seq<char>) -> (int, int) {
    choose|f: int, k: int| 0 <= f < 4 && 0 <= k < 5 && t == #[trigger] nth_synth_name(f, k)
}

/// The place of a name: those of the matrix as their cells, the synthetic ones
/// after them.
spec fn name_place(t: Seq<char>) -> int {
    if is_matrix_name(t) {
        rank(named_cell(t))
    } else {
        2160 + named_synth(t).0 * 5 + named_synth(t).1
    }
}

/// Whether a managed name has a place.
spec fn takes_name(p: int) -> bool {
    p < 2160 ==> takes(Part::All, p)
}

proof fn lemma_count_names(n: int)
    requires
        0 <= n <= 20,
    ensures
        count(|p: int| takes_name(p), 2160 + n) == 674 + n,
    decreases n,
{
    let taken = |p: int| takes_name(p);
    if n == 0 {
        let cells = |p: int| takes(Part::All, p);
        lemma_count_cells(Part::All);
        lemma_same_count(taken, cells, 2160);
    } else {
        lemma_count_names(n - 1);
        assert(taken(2160 + n - 1));
    }
}

proof fn lemma_matrix_name_place(c: Cell)
    requires
        in_matrix(c),
    ensures
        is_matrix_name(c.full_name()),
        name_place(c.full_name()) == rank(c),
{
    let t = c.full_name();
    assert(is_matrix_name(t));
    let d = named_cell(t);
    assert(in_matrix(d) && t == d.full_name());
    law_matrix_names_unique(c, d);
}

proof fn lemma_synth_name_place(f: int, k: int)
    requires
        0 <= f < 4,
        0 <= k < 5,
    ensures
        is_synth_name(nth_synth_name(f, k)),
        name_place(nth_synth_name(f, k)) == 2160 + f * 5 + k,
{
    let t = nth_synth_name(f, k);
    assert(is_synth_name(t));
    if is_matrix_name(t) {
        law_synth_names_disjoint(
            named_cell(t),
            family_text(f),
            SYNTH_DEFAULT_SIZES_MB@[k] as nat,
        );
    }
    let (g, j) = named_synth(t);
    assert(0 <= g < 4 && 0 <= j < 5 && t == nth_synth_name(g, j));
    lemma_synth_names_distinct(f, k, g, j);
}

/// The project can create functions under 694 names: one for each cell, and one for
/// each synthetic function.
pub proof fn law_managed_name_count(names: Seq<Seq<char>>)
    requires
        ascending(names),
        forall|t: Seq<char>| #[trigger] names.contains(t) <==> is_managed_name(t),
    ensures
        names.len() == 694,
{
    let taken = |p: int| takes_name(p);
    let place = |t: Seq<char>| name_place(t);
    law_ascending_holds_nothing_twice(names);
    assert forall|i: int| 0 <= i < names.len() implies 0 <= place(#[trigger] names[i]) < 2180
        && taken(place(names[i])) && (if is_matrix_name(names[i]) {
        place(names[i]) < 2160
    } else {
        place(names[i]) >= 2160
    }) by {
        let t = names[i];
        assert(names.contains(t));
        if is_matrix_name(t) {
            lemma_cell_at_rank(named_cell(t));
        }
    }
    assert forall|i: int, j: int| 0 <= i < j < names.len() implies place(#[trigger] names[i])
        != place(#[trigger] names[j]) by {
        let (t, u) = (names[i], names[j]);
        assert(names.contains(t) && names.contains(u));
        if place(t) == place(u) {
            if is_matrix_name(t) {
                lemma_cell_at_rank(named_cell(t));
                lemma_cell_at_rank(named_cell(u));
                assert(t == u);
            } else {
                assert(named_synth(t) == named_synth(u));
                assert(t == u);
            }
        }
    }
    assert forall|p: int| 0 <= p < 2180 && #[trigger] taken(p) implies exists|i: int|
        0 <= i < names.len() && place(#[trigger] names[i]) == p by {
        let t = if p < 2160 {
            cell_at(p).full_name()
        } else {
            nth_synth_name((p - 2160) / 5, (p - 2160) % 5)
        };
        if p < 2160 {
            lemma_matrix_name_place(cell_at(p));
        } else {
            lemma_synth_name_place((p - 2160) / 5, (p - 2160) % 5);
        }
        assert(names.contains(t));
        let i = choose|i: int| 0 <= i < names.len() && names[i] == t;
        assert(place(names[i]) == p);
    }
    lemma_len_is_count(names, place, taken, 2180);
    lemma_count_names(20);
}

// ---- artifacts ----

/// Place of an artifact among all that could be.
spec fn key_place(k: ArtifactKey) -> int {
    lang_rank(k.lang) * 54 + scenario_rank(k.scenario) * 6 + arch_rank(k.arch) * 3 + (if k.opt
        == Some(Opt::Oz) {
        1int
    } else if k.jitter == Some(Jitter::On) {
        2
    } else {
        0
    })
}

/// The cell at the largest tier whose artifact would stand at a place.
spec fn maker_at(p: int) -> Cell {
    let lang = Lang::ALL@[p / 54];
    let v = p % 3;
    variant_cell(
        lang,
        Scenario::ALL@[p % 54 / 6],
        Arch::ALL@[p % 6 / 3],
        3008,
        if lang == Lang::Rust {
            v
        } else {
            0
        },
    )
}

/// Whether the artifact of a cell of the matrix stands at a place.
spec fn takes_key(p: int) -> bool {
    in_matrix(maker_at(p)) && key_place(maker_at(p).key()) == p
}

proof fn lemma_maker_at(l: int, s: int, a: int, v: int)
    requires
        0 <= l < 5,
        0 <= s < 9,
        0 <= a < 2,
        0 <= v < 3,
    ensures
        ({
            let p = l * 54 + s * 6 + a * 3 + v;
            let lang = Lang::ALL@[l];
            maker_at(p) == variant_cell(
                lang,
                Scenario::ALL@[s],
                Arch::ALL@[a],
                3008,
                if lang == Lang::Rust {
                    v
                } else {
                    0
                },
            )
        }),
{
    let p = l * 54 + s * 6 + a * 3 + v;
    assert(p / 54 == l && p % 54 / 6 == s && p % 6 / 3 == a && p % 3 == v);
}

/// The artifact of a cell stands at its place.
proof fn lemma_key_place(c: Cell)
    requires
        in_matrix(c),
    ensures
        0 <= key_place(c.key()) < 270,
        takes_key(key_place(c.key())),
        maker_at(key_place(c.key())).key() == c.key(),
{
    let k = c.key();
    let v: int = if k.opt == Some(Opt::Oz) {
        1
    } else if k.jitter == Some(Jitter::On) {
        2
    } else {
        0
    };
    lemma_ranked_lists(k.lang, k.scenario, k.arch, 3008);
    lemma_maker_at(lang_rank(k.lang), scenario_rank(k.scenario), arch_rank(k.arch), v);
    match c.opt {
        Some(Opt::O3) => {},
        Some(Opt::Oz) => {},
        None => {},
    }
    match c.jitter {
        Some(Jitter::On) => {},
        Some(Jitter::Off) => {},
        None => {},
    }
    let m = maker_at(key_place(k));
    assert(m.key().opt == k.opt);
    assert(m.key().jitter == k.jitter);
    assert(m.key() == k);
    assert(in_matrix(m));
}

/// How many artifacts a language and scenario have.
spec fn key_count(lang: Lang, scenario: Scenario) -> int {
    if !lang.hosts(scenario) {
        0
    } else if lang == Lang::Rust {
        if in_jitter_ab(scenario) {
            6
        } else {
            4
        }
    } else if per_arch(lang, scenario) {
        2
    } else {
        1
    }
}

proof fn lemma_count_keys_of_scenario(l: int, s: int)
    requires
        0 <= l < 5,
        0 <= s < 9,
    ensures
        ({
            let base = l * 54 + s * 6;
            let taken = |p: int| takes_key(p);
            count(taken, base + 6) == count(taken, base) + key_count(
                Lang::ALL@[l],
                Scenario::ALL@[s],
            )
        }),
{
    let base = l * 54 + s * 6;
    let taken = |p: int| takes_key(p);
    let lang = Lang::ALL@[l];
    let scenario = Scenario::ALL@[s];
    assert(lang_rank(lang) == l);
    assert(scenario_rank(scenario) == s);
    assert(Arch::ALL@[0] == Arch::Arm64 && Arch::ALL@[1] == Arch::X86_64);
    lemma_maker_at(l, s, 0, 0);
    lemma_maker_at(l, s, 0, 1);
    lemma_maker_at(l, s, 0, 2);
    lemma_maker_at(l, s, 1, 0);
    lemma_maker_at(l, s, 1, 1);
    lemma_maker_at(l, s, 1, 2);
    lemma_variants(lang, scenario, Arch::Arm64, 3008);
    lemma_variants(lang, scenario, Arch::X86_64, 3008);
    let rust = lang == Lang::Rust;
    let hosted = lang.hosts(scenario);
    assert(taken(base + 0) <==> hosted);
    assert(taken(base + 1) <==> rust);
    assert(taken(base + 2) <==> rust && in_jitter_ab(scenario));
    assert(taken(base + 3) <==> hosted && per_arch(lang, scenario));
    assert(taken(base + 4) <==> rust);
    assert(taken(base + 5) <==> rust && in_jitter_ab(scenario));
    assert(count(taken, base + 6) == count(taken, base + 5) + if taken(base + 5) { 1int } else { 0 });
    assert(count(taken, base + 5) == count(taken, base + 4) + if taken(base + 4) { 1int } else { 0 });
    assert(count(taken, base + 4) == count(taken, base + 3) + if taken(base + 3) { 1int } else { 0 });
    assert(count(taken, base + 3) == count(taken, base + 2) + if taken(base + 2) { 1int } else { 0 });
    assert(count(taken, base + 2) == count(taken, base + 1) + if taken(base + 1) { 1int } else { 0 });
    assert(count(taken, base + 1) == count(taken, base + 0) + if taken(base + 0) { 1int } else { 0 });
}

proof fn lemma_count_keys_of_lang(l: int)
    requires
        0 <= l < 5,
    ensures
        ({
            let taken = |p: int| takes_key(p);
            count(taken, (l + 1) * 54) == count(taken, l * 54) + match Lang::ALL@[l] {
                Lang::Rust => 40int,
                Lang::Node => 9,
                Lang::Java => 9,
                Lang::Python => 8,
                Lang::Go => 14,
            }
        }),
{
    lemma_count_keys_of_scenario(l, 0);
    lemma_count_keys_of_scenario(l, 1);
    lemma_count_keys_of_scenario(l, 2);
    lemma_count_keys_of_scenario(l, 3);
    lemma_count_keys_of_scenario(l, 4);
    lemma_count_keys_of_scenario(l, 5);
    lemma_count_keys_of_scenario(l, 6);
    lemma_count_keys_of_scenario(l, 7);
    lemma_count_keys_of_scenario(l, 8);
}

/// The cells of the matrix deploy 80 artifacts between them.
pub proof fn law_artifact_count(cells: Seq<Cell>)
    requires
        forall|c: Cell| #[trigger] cells.contains(c) <==> in_matrix(c),
    ensures
        first_seen(keys_of(cells)).len() == 80,
{
    let taken = |p: int| takes_key(p);
    let place = |k: ArtifactKey| key_place(k);
    let all = keys_of(cells);
    let keys = first_seen(all);
    law_first_seen_is_the_set(all);
    assert forall|i: int| 0 <= i < keys.len() implies 0 <= place(#[trigger] keys[i]) < 270 && taken(
        place(keys[i]),
    ) && maker_at(place(keys[i])).key() == keys[i] by {
        assert(keys.contains(keys[i]));
        let j = choose|j: int| 0 <= j < all.len() && all[j] == keys[i];
        assert(cells.contains(cells[j]));
        lemma_key_place(cells[j]);
    }
    assert forall|i: int, j: int| 0 <= i < j < keys.len() implies place(#[trigger] keys[i]) != place(
        #[trigger] keys[j],
    ) by {
        if place(keys[i]) == place(keys[j]) {
            assert(keys[i] == keys[j]);
        }
    }
    assert forall|p: int| 0 <= p < 270 && #[trigger] taken(p) implies exists|i: int|
        0 <= i < keys.len() && place(#[trigger] keys[i]) == p by {
        let c = maker_at(p);
        assert(cells.contains(c));
        let j = choose|j: int| 0 <= j < cells.len() && cells[j] == c;
        assert(all[j] == c.key());
        assert(keys.contains(c.key()));
        let i = choose|i: int| 0 <= i < keys.len() && keys[i] == c.key();
        assert(place(keys[i]) == p);
    }
    lemma_len_is_count(keys, place, taken, 270);
    lemma_count_keys_of_lang(0);
    lemma_count_keys_of_lang(1);
    lemma_count_keys_of_lang(2);
    lemma_count_keys_of_lang(3);
    lemma_count_keys_of_lang(4);
}

} // verus!
