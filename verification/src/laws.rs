//! What holds of the configuration as a whole.
use crate::cell::{per_arch, Cell};
use crate::config::{
    synth_name, Arch, Jitter, Lang, Opt, Profile, Scenario, LAMBDA_LOG_GROUP_PREFIX, PREFIX,
    RESOURCE_PREFIX,
};
use crate::matrix::{asks_for, first_seen, in_matrix, is_managed_name, is_matrix_name, nth_synth_name};
use crate::clock::run_id_text;
use crate::select::only_entry;
use crate::text::{
    ascending, decimal, digit, has_prefix, is_white_space, joined, precedes, trimmed,
};
use crate::text_lemmas::{
    all_lack, lacks, lemma_decimal_digits, lemma_decimal_injective, lemma_joined_injective,
    lemma_joined_take, lemma_precedes_irreflexive, lemma_precedes_prefix, lemma_trimmed_padded,
};
use vstd::prelude::*;

verus! {

/// Spells out the names of the dimensions.
pub proof fn lemma_spellings()
    ensures
        forall|l: Lang| lacks(#[trigger] l.name(), '-') && l.name().len() > 0,
        forall|s: Scenario| lacks(#[trigger] s.name(), '-') && s.name().len() > 0,
        forall|a: Arch| lacks(#[trigger] a.name(), '-') && a.name().len() > 0,
        forall|o: Opt| lacks(#[trigger] o.name(), '-') && o.name().len() == 2,
        forall|a: Lang, b: Lang| #[trigger] a.name() == #[trigger] b.name() ==> a == b,
        forall|a: Scenario, b: Scenario| #[trigger] a.name() == #[trigger] b.name() ==> a == b,
        forall|a: Arch, b: Arch| #[trigger] a.name() == #[trigger] b.name() ==> a == b,
        forall|a: Opt, b: Opt| #[trigger] a.name() == #[trigger] b.name() ==> a == b,
        forall|l: Lang| (#[trigger] l.name())[0] != 's',
        PREFIX@.len() == 11,
        lacks(PREFIX@, '-'),
        RESOURCE_PREFIX@ == PREFIX@ + "-"@,
        "-"@ == seq!['-'],
        "snap"@ == seq!['s', 'n', 'a', 'p'],
        "jitter"@ == seq!['j', 'i', 't', 't', 'e', 'r'],
        "o3"@ == seq!['o', '3'],
{
    reveal_strlit("rust");
    reveal_strlit("node");
    reveal_strlit("java");
    reveal_strlit("python");
    reveal_strlit("go");
    reveal_strlit("hello");
    reveal_strlit("smithy");
    reveal_strlit("oneclient");
    reveal_strlit("threeclient");
    reveal_strlit("smithyfull");
    reveal_strlit("lettercount");
    reveal_strlit("authz");
    reveal_strlit("batch");
    reveal_strlit("cache");
    reveal_strlit("arm64");
    reveal_strlit("x86_64");
    reveal_strlit("o3");
    reveal_strlit("oz");
    reveal_strlit("snap");
    reveal_strlit("jitter");
    reveal_strlit("-");
    reveal_strlit("lambdabench");
    reveal_strlit("lambdabench-");
    assert(RESOURCE_PREFIX@ =~= PREFIX@ + "-"@);
    assert("-"@ =~= seq!['-']);
    assert("snap"@ =~= seq!['s', 'n', 'a', 'p']);
    assert("jitter"@ =~= seq!['j', 'i', 't', 't', 'e', 'r']);
    assert("o3"@ =~= seq!['o', '3']);
    assert forall|a: Lang, b: Lang| #[trigger] a.name() == #[trigger] b.name() implies a == b by {
        assert(a.name()[0] == b.name()[0]);
    }
    assert forall|a: Scenario, b: Scenario| #[trigger] a.name() == #[trigger] b.name() implies a
        == b by {
        assert(a.name().len() == b.name().len());
        assert(a.name()[0] == b.name()[0]);
    }
    assert forall|a: Arch, b: Arch| #[trigger] a.name() == #[trigger] b.name() implies a == b by {
        assert(a.name()[0] == b.name()[0]);
    }
    assert forall|a: Opt, b: Opt| #[trigger] a.name() == #[trigger] b.name() implies a == b by {
        assert(a.name()[1] == b.name()[1]);
    }
}

/// A canonical name, white space put round it or not, is read back as the
/// language it names; no two languages share a name.
pub proof fn law_lang_round_trip(l: Lang, left: Seq<char>, right: Seq<char>)
    requires
        forall|i: int| 0 <= i < left.len() ==> is_white_space(#[trigger] left[i]),
        forall|i: int| 0 <= i < right.len() ==> is_white_space(#[trigger] right[i]),
    ensures
        trimmed(left + l.name() + right) == l.name(),
        forall|other: Lang| #[trigger] other.name() == l.name() ==> other == l,
{
    lemma_spellings();
    reveal_strlit("rust");
    reveal_strlit("node");
    reveal_strlit("java");
    reveal_strlit("python");
    reveal_strlit("go");
    lemma_trimmed_padded(left, l.name(), right);
}

/// A canonical name, white space put round it or not, is read back as the
/// scenario it names; no two scenarios share a name.
pub proof fn law_scenario_round_trip(s: Scenario, left: Seq<char>, right: Seq<char>)
    requires
        forall|i: int| 0 <= i < left.len() ==> is_white_space(#[trigger] left[i]),
        forall|i: int| 0 <= i < right.len() ==> is_white_space(#[trigger] right[i]),
    ensures
        trimmed(left + s.name() + right) == s.name(),
        forall|other: Scenario| #[trigger] other.name() == s.name() ==> other == s,
{
    lemma_spellings();
    reveal_strlit("hello");
    reveal_strlit("smithy");
    reveal_strlit("oneclient");
    reveal_strlit("threeclient");
    reveal_strlit("smithyfull");
    reveal_strlit("lettercount");
    reveal_strlit("authz");
    reveal_strlit("batch");
    reveal_strlit("cache");
    lemma_trimmed_padded(left, s.name(), right);
}

/// A canonical name, white space put round it or not, is read back as the
/// architecture it names; the two do not share a name.
pub proof fn law_arch_round_trip(a: Arch, left: Seq<char>, right: Seq<char>)
    requires
        forall|i: int| 0 <= i < left.len() ==> is_white_space(#[trigger] left[i]),
        forall|i: int| 0 <= i < right.len() ==> is_white_space(#[trigger] right[i]),
    ensures
        trimmed(left + a.name() + right) == a.name(),
        forall|other: Arch| #[trigger] other.name() == a.name() ==> other == a,
{
    lemma_spellings();
    reveal_strlit("arm64");
    reveal_strlit("x86_64");
    lemma_trimmed_padded(left, a.name(), right);
}

/// The parts of a name do not hold the separator.
proof fn lemma_parts_lack(c: Cell)
    requires
        c.memory_mb >= 0,
    ensures
        all_lack(c.name_parts(), '-'),
        c.name_parts().len() >= 5,
{
    lemma_spellings();
    lemma_decimal_digits(c.memory_mb as nat);
}

/// Two different valid cells never share a function name.
pub proof fn law_function_names_unique(a: Cell, b: Cell)
    requires
        a.valid(),
        b.valid(),
        a.memory_mb >= 0,
        b.memory_mb >= 0,
        a.full_name() == b.full_name(),
    ensures
        a == b,
{
    lemma_spellings();
    lemma_parts_lack(a);
    lemma_parts_lack(b);
    lemma_joined_injective(a.name_parts(), b.name_parts(), '-');
    let p = a.name_parts();
    let q = b.name_parts();
    assert(p.len() == q.len());
    assert(p[1] == a.lang.name() && q[1] == b.lang.name());
    assert(p[2] == a.scenario.name() && q[2] == b.scenario.name());
    assert(p[3] == a.arch.name() && q[3] == b.arch.name());
    assert(p.last() == decimal(a.memory_mb as nat));
    assert(q.last() == decimal(b.memory_mb as nat));
    lemma_decimal_injective(a.memory_mb as nat, b.memory_mb as nat);
    if a.lang == Lang::Rust {
        assert(p[4] == a.opt->0.name() && q[4] == b.opt->0.name());
        assert(a.opt == b.opt);
        assert(a.jitter == b.jitter);
    }
}

/// Cells of the matrix and their names correspond one to one.
pub proof fn law_matrix_names_unique(a: Cell, b: Cell)
    requires
        in_matrix(a),
        in_matrix(b),
    ensures
        a.full_name() == b.full_name() <==> a == b,
{
    if a.full_name() == b.full_name() {
        law_function_names_unique(a, b);
    }
}

/// Building with jitter adds the segment `jitter` to the name and changes
/// nothing else in it.
pub proof fn law_jitter_only_tags(c: Cell)
    requires
        c.valid(),
        c.jitter == Some(Jitter::Off),
    ensures
        ({
            let on = Cell { jitter: Some(Jitter::On), ..c };
            let off_parts = c.name_parts();
            on.name_parts() == off_parts.drop_last().push("jitter"@).push(off_parts.last())
        }),
{
    let on = Cell { jitter: Some(Jitter::On), ..c };
    assert(on.name_parts() =~= c.name_parts().drop_last().push("jitter"@).push(
        c.name_parts().last(),
    ));
}

/// Every name of a cell begins with the resource prefix and goes on with the
/// language.
pub proof fn lemma_matrix_name_head(c: Cell)
    ensures
        has_prefix(c.full_name(), RESOURCE_PREFIX@ + c.lang.name()),
{
    lemma_spellings();
    let parts = c.name_parts();
    assert(parts.len() >= 5);
    lemma_joined_take(parts, "-"@, 2);
    let two = parts.take(2);
    assert(two.drop_last() =~= seq![PREFIX@]);
    assert(joined(seq![PREFIX@], "-"@) == PREFIX@);
    assert(joined(two, "-"@) == PREFIX@ + "-"@ + c.lang.name());
    let head = RESOURCE_PREFIX@ + c.lang.name();
    assert(c.full_name().take(head.len() as int) =~= head) by {
        let longer = joined(two, "-"@) + "-"@;
        assert(c.full_name().take(longer.len() as int) == longer);
        assert(longer.take(head.len() as int) =~= head);
        assert(c.full_name().take(longer.len() as int).take(head.len() as int)
            =~= c.full_name().take(head.len() as int));
    }
}

/// Every name that teardown deletes carries the resource prefix, so that nothing
/// else in an account can be caught.
pub proof fn law_managed_names_carry_prefix(t: Seq<char>)
    requires
        is_managed_name(t),
    ensures
        has_prefix(t, RESOURCE_PREFIX@),
{
    if is_matrix_name(t) {
        let c = choose|c: Cell| in_matrix(c) && t == #[trigger] c.full_name();
        lemma_matrix_name_head(c);
        let longer = RESOURCE_PREFIX@ + c.lang.name();
        assert(t.take(longer.len() as int).take(RESOURCE_PREFIX@.len() as int) =~= t.take(
            RESOURCE_PREFIX@.len() as int,
        ));
        assert(longer.take(RESOURCE_PREFIX@.len() as int) =~= RESOURCE_PREFIX@);
    } else {
        let (f, k) = choose|f: int, k: int|
            0 <= f < 4 && 0 <= k < 5 && t == #[trigger] nth_synth_name(f, k);
        assert(t.take(RESOURCE_PREFIX@.len() as int) =~= RESOURCE_PREFIX@);
    }
}

/// No function of the matrix shares its name with a synthetic function, whatever
/// the family and size.
pub proof fn law_synth_names_disjoint(c: Cell, family: Seq<char>, size_mb: nat)
    ensures
        c.full_name() != synth_name(family, size_mb),
{
    lemma_spellings();
    lemma_matrix_name_head(c);
    reveal_strlit("synthdl-");
    let p = RESOURCE_PREFIX@.len() as int;
    let head = RESOURCE_PREFIX@ + c.lang.name();
    assert(head[p] == c.lang.name()[0]);
    assert(c.full_name().take(head.len() as int)[p] == c.full_name()[p]);
    assert(synth_name(family, size_mb)[p] == 's');
}

/// Two log groups are the same only for the same function.
pub proof fn law_log_groups_unique(a: Seq<char>, b: Seq<char>)
    requires
        LAMBDA_LOG_GROUP_PREFIX@ + a == LAMBDA_LOG_GROUP_PREFIX@ + b,
    ensures
        a == b,
{
    let p = LAMBDA_LOG_GROUP_PREFIX@;
    assert(a =~= (p + a).skip(p.len() as int));
    assert(b =~= (p + b).skip(p.len() as int));
}

/// An ascending list, such as the managed names, holds nothing twice.
pub proof fn law_ascending_holds_nothing_twice(v: Seq<Seq<char>>)
    requires
        ascending(v),
    ensures
        v.no_duplicates(),
{
    assert forall|i: int, j: int| 0 <= i < v.len() && 0 <= j < v.len() && i != j implies v[i]
        != v[j] by {
        lemma_precedes_irreflexive(v[i]);
        if i < j {
            assert(precedes(v[i], v[j]));
        } else {
            assert(precedes(v[j], v[i]));
        }
    }
}

/// SnapStart never raises a count and never changes the warm count.
pub proof fn law_snapstart_only_clamps_cold(c: Cell, profile: Profile)
    ensures
        ({
            let plain = Cell { snapstart: false, ..c };
            let snap = Cell { snapstart: true, ..c };
            &&& snap.counts(profile).1 == plain.counts(profile).1
            &&& snap.counts(profile).0 <= plain.counts(profile).0
            &&& snap.counts(profile).0 <= 10
            &&& plain.counts(profile).0 <= 10 ==> snap.counts(profile) == plain.counts(profile)
        }),
{
}

/// The two sides of the jitter comparison get the same counts, the light ones
/// under the full profile.
pub proof fn law_jitter_pair_counts(c: Cell, profile: Profile)
    requires
        c.valid(),
        c.jitter_ab(),
    ensures
        ({
            let on = Cell { jitter: Some(Jitter::On), ..c };
            let off = Cell { jitter: Some(Jitter::Off), ..c };
            &&& on.counts(profile) == off.counts(profile)
            &&& profile == Profile::Full ==> on.counts(profile) == (50u32, 50u32)
        }),
{
}

/// Under every profile every cell is run cold and warm at least once.
pub proof fn law_counts_positive(c: Cell, profile: Profile)
    ensures
        c.counts(profile).0 >= 1,
        c.counts(profile).1 >= 1,
{
}

/// Two valid cells deploy the same artifact exactly when their labels agree.
pub proof fn law_labels_identify_artifacts(a: Cell, b: Cell)
    requires
        a.valid(),
        b.valid(),
    ensures
        a.key().label_text() == b.key().label_text() <==> a.key() == b.key(),
{
    lemma_spellings();
    let p = a.key().label_parts();
    let q = b.key().label_parts();
    if a.key().label_text() == b.key().label_text() {
        lemma_joined_injective(p, q, '-');
        assert(p[0] == a.lang.name() && q[0] == b.lang.name());
        assert(p[1] == a.scenario.name() && q[1] == b.scenario.name());
        if per_arch(a.lang, a.scenario) {
            assert(p[2] == a.arch.name() && q[2] == b.arch.name());
        }
        if a.lang == Lang::Rust {
            assert(p[3] == a.opt->0.name() && q[3] == b.opt->0.name());
            assert(p.len() == q.len());
            assert(a.jitter == b.jitter);
        }
    }
}

/// Memory and SnapStart do not decide which artifact a cell deploys.
pub proof fn law_artifact_ignores_memory_and_snapstart(c: Cell, memory_mb: i32, snapstart: bool)
    ensures
        (Cell { memory_mb, snapstart, ..c }).key() == c.key(),
{
}

/// Where artifacts do not differ by architecture, both architectures deploy the
/// same one; elsewhere each has its own.
pub proof fn law_artifact_arch(c: Cell)
    ensures
        ({
            let arm = Cell { arch: Arch::Arm64, ..c };
            let x86 = Cell { arch: Arch::X86_64, ..c };
            arm.key() == x86.key() <==> !per_arch(c.lang, c.scenario)
        }),
{
}

/// The list of distinct items, such as the artifacts that cells share, holds each
/// item once and no other.
pub proof fn law_first_seen_is_the_set<A>(keys: Seq<A>)
    ensures
        first_seen(keys).no_duplicates(),
        forall|k: A| #[trigger] first_seen(keys).contains(k) <==> keys.contains(k),
    decreases keys.len(),
{
    if keys.len() > 0 {
        let front = keys.drop_last();
        let before = first_seen(front);
        law_first_seen_is_the_set(front);
        assert forall|k: A| #[trigger] first_seen(keys).contains(k) <==> keys.contains(
            k,
        ) by {
            if keys.contains(k) && k != keys.last() {
                let i = choose|i: int| 0 <= i < keys.len() && keys[i] == k;
                assert(front[i] == k);
                assert(before.contains(k));
            }
            if front.contains(k) {
                let i = choose|i: int| 0 <= i < front.len() && front[i] == k;
                assert(keys[i] == k);
            }
            assert(keys[keys.len() - 1] == keys.last());
            if before.contains(k) {
                let i = choose|i: int| 0 <= i < before.len() && before[i] == k;
                assert(first_seen(keys)[i] == k);
            }
            if !before.contains(keys.last()) {
                assert(first_seen(keys)[before.len() as int] == keys.last());
                if first_seen(keys).contains(k) && k != keys.last() {
                    let i = choose|i: int|
                        0 <= i < first_seen(keys).len() && first_seen(keys)[i] == k;
                    assert(before[i] == k);
                }
            }
        }
    }
}

/// The matrix holds Python and Go cells for every scenario but the two behind an
/// HTTP front, and the other languages for every scenario.
pub proof fn law_unsupported_scenarios(c: Cell)
    requires
        in_matrix(c),
    ensures
        c.scenario.http_fronted() ==> c.lang != Lang::Python && c.lang != Lang::Go,
{
}

/// Every scenario that a language hosts has a cell at the largest tier for both
/// architectures, so that no floor empties a series.
pub proof fn law_every_series_present(lang: Lang, scenario: Scenario, arch: Arch)
    requires
        lang.hosts(scenario),
    ensures
        exists|c: Cell| #[trigger]
            in_matrix(c) && c.lang == lang && c.scenario == scenario && c.arch == arch
                && c.memory_mb == 3008,
{
    let rust = lang == Lang::Rust;
    let c = Cell {
        lang,
        scenario,
        arch,
        memory_mb: 3008,
        opt: if rust { Some(Opt::O3) } else { None },
        snapstart: false,
        jitter: if rust { Some(Jitter::Off) } else { None },
    };
    assert(in_matrix(c));
}

/// Numbers with as many digits are ordered as their renderings are, whatever
/// follows.
proof fn lemma_decimal_order(a: nat, b: nat, x: Seq<char>, y: Seq<char>)
    requires
        a < b,
        decimal(a).len() == decimal(b).len(),
    ensures
        precedes(decimal(a) + x, decimal(b) + y),
    decreases a,
{
    lemma_decimal_digits(a / 10);
    lemma_decimal_digits(b / 10);
    if b < 10 {
        assert((decimal(a) + x)[0] == digit(a as int));
        assert((decimal(b) + y)[0] == digit(b as int));
    } else if a >= 10 {
        let p = decimal(a / 10);
        let q = decimal(b / 10);
        let s = seq![digit((a % 10) as int)] + x;
        let t = seq![digit((b % 10) as int)] + y;
        assert(decimal(a) + x =~= p + s);
        assert(decimal(b) + y =~= q + t);
        if a / 10 < b / 10 {
            lemma_decimal_order(a / 10, b / 10, s, t);
        } else {
            lemma_precedes_prefix(p, s, t);
            assert(s[0] == digit((a % 10) as int));
            assert(t[0] == digit((b % 10) as int));
        }
    } else {
        assert(decimal(b).len() == decimal(b / 10).len() + 1);
    }
}

/// Run ids of moments with as many digits, as all have for centuries, sort by
/// time, whatever their random suffixes.
pub proof fn law_run_ids_sort_by_time(a: nat, b: nat, x: Seq<char>, y: Seq<char>)
    requires
        a < b,
        decimal(a).len() == decimal(b).len(),
    ensures
        precedes(run_id_text(a, x), run_id_text(b, y)),
{
    assert(run_id_text(a, x) =~= decimal(a) + ("-"@ + x));
    assert(run_id_text(b, y) =~= decimal(b) + ("-"@ + y));
    lemma_decimal_order(a, b, "-"@ + x, "-"@ + y);
}

/// A pair that the `--only` filter accepts has cells in the matrix on either
/// architecture, so that an accepted filter alone never selects nothing.
pub proof fn law_accepted_pairs_have_cells(
    part: Seq<char>,
    langs: Seq<Lang>,
    arch: Arch,
)
    requires
        only_entry(part, langs) is Ok,
    ensures
        ({
            let (lang, scenario) = only_entry(part, langs)->Ok_0;
            &&& asks_for(langs, lang)
            &&& exists|c: Cell| #[trigger]
                in_matrix(c) && c.lang == lang && c.scenario == scenario && c.arch == arch
        }),
{
    let (lang, scenario) = only_entry(part, langs)->Ok_0;
    law_every_series_present(lang, scenario, arch);
}

} // verus!
