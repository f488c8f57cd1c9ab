//! What choosing the probe's targets is for: which functions it measures, in terms of
//! what was typed.
use crate::cell::Cell;
use crate::config::{Arch, Jitter, Lang, Opt, Scenario};
use crate::laws::law_first_seen_is_the_set;
use crate::matrix::{first_seen, in_matrix};
use crate::select::{lang_in, scenario_in};
use crate::selection_rules::{
    law_names_are_read_as_spelled, lemma_tiers, spelled_in, spells_lang, spells_pair, spells_scenario,
};
use crate::targets::{
    at_each, crossed, default_axes, named_memory, no_cell_message, pairs_of, plain_cell,
    probe_entries, probe_entry, resolved, skip_note, undeployed_message, wanted, Target, TargetArgs,
};
use crate::text::{decimal, decimal_int, first_of, has_prefix, has_text, joined, pieces};
use crate::text_lemmas::lemma_holds_middle;
use crate::text_rules::law_first_occurrence;
use vstd::prelude::*;
use vstd::string::*;

verus! {

/// Whether a target is one of the default selection: the plain Rust handler at three
/// sizes; at 512 MB the plain handlers, the large and the middling artifacts; and at a
/// low and a high size the realistic handler of each language.
pub open spec fn is_default_target(t: Target) -> bool {
    match (t.0, t.1) {
        (Lang::Rust, Scenario::Hello) => t.2 == 128 || t.2 == 512 || t.2 == 3008,
        (Lang::Node, Scenario::Hello) => t.2 == 512,
        (Lang::Python, Scenario::Hello) => t.2 == 512,
        (Lang::Java, Scenario::Hello) => t.2 == 512,
        (Lang::Python, Scenario::Authz) => t.2 == 512,
        (Lang::Rust, Scenario::SmithyFull) => t.2 == 512 || t.2 == 3008,
        (Lang::Java, Scenario::SmithyFull) => t.2 == 512 || t.2 == 3008,
        (Lang::Node, Scenario::SmithyFull) => t.2 == 512 || t.2 == 3008,
        (Lang::Python, Scenario::OneClient) => t.2 == 512 || t.2 == 3008,
        (Lang::Go, Scenario::OneClient) => t.2 == 512 || t.2 == 3008,
        _ => false,
    }
}

proof fn lemma_default_axes(t: Target)
    ensures
        default_axes().contains(t) <==> is_default_target(t),
{
    let axes = default_axes();
    if axes.contains(t) {
        let i = choose|i: int| 0 <= i < axes.len() && axes[i] == t;
        assert(0 <= i < 20);
        assert(is_default_target(axes[i]));
    }
    if is_default_target(t) {
        assert(axes[0] == (Lang::Rust, Scenario::Hello, 128i32));
        assert(axes[1] == (Lang::Rust, Scenario::Hello, 512i32));
        assert(axes[2] == (Lang::Rust, Scenario::Hello, 3008i32));
        assert(axes[3] == (Lang::Node, Scenario::Hello, 512i32));
        assert(axes[4] == (Lang::Python, Scenario::Hello, 512i32));
        assert(axes[5] == (Lang::Java, Scenario::Hello, 512i32));
        assert(axes[6] == (Lang::Python, Scenario::Authz, 512i32));
        assert(axes[7] == (Lang::Rust, Scenario::SmithyFull, 512i32));
        assert(axes[8] == (Lang::Java, Scenario::SmithyFull, 512i32));
        assert(axes[9] == (Lang::Python, Scenario::OneClient, 512i32));
        assert(axes[12] == (Lang::Node, Scenario::SmithyFull, 512i32));
        assert(axes[14] == (Lang::Go, Scenario::OneClient, 512i32));
        assert(axes[15] == (Lang::Rust, Scenario::SmithyFull, 3008i32));
        assert(axes[16] == (Lang::Java, Scenario::SmithyFull, 3008i32));
        assert(axes[17] == (Lang::Node, Scenario::SmithyFull, 3008i32));
        assert(axes[18] == (Lang::Python, Scenario::OneClient, 3008i32));
        assert(axes[19] == (Lang::Go, Scenario::OneClient, 3008i32));
    }
}

proof fn lemma_crossed(pairs: Seq<(Lang, Scenario)>, mems: Seq<i32>, t: Target)
    ensures
        crossed(pairs, mems).contains(t) <==> pairs.contains((t.0, t.1)) && mems.contains(t.2),
    decreases pairs.len(),
{
    if pairs.len() > 0 {
        let front = pairs.drop_last();
        let last = pairs.last();
        let before = crossed(front, mems);
        let more = at_each(last, mems);
        let all = before + more;
        lemma_crossed(front, mems, t);
        assert(pairs.contains((t.0, t.1)) <==> front.contains((t.0, t.1)) || last == (t.0, t.1)) by {
            if pairs.contains((t.0, t.1)) {
                let i = choose|i: int| 0 <= i < pairs.len() && pairs[i] == (t.0, t.1);
                if i < front.len() {
                    assert(front[i] == (t.0, t.1));
                }
            }
            if front.contains((t.0, t.1)) {
                let i = choose|i: int| 0 <= i < front.len() && front[i] == (t.0, t.1);
                assert(pairs[i] == (t.0, t.1));
            }
            if last == (t.0, t.1) {
                assert(pairs[pairs.len() - 1] == (t.0, t.1));
            }
        }
        assert(more.contains(t) <==> last == (t.0, t.1) && mems.contains(t.2)) by {
            if more.contains(t) {
                let i = choose|i: int| 0 <= i < more.len() && more[i] == t;
                assert(mems[i] == t.2);
            }
            if last == (t.0, t.1) && mems.contains(t.2) {
                let i = choose|i: int| 0 <= i < mems.len() && mems[i] == t.2;
                assert(more[i] == t);
            }
        }
        if all.contains(t) {
            let i = choose|i: int| 0 <= i < all.len() && all[i] == t;
            if i < before.len() {
                assert(before[i] == t);
            } else {
                assert(more[i - before.len()] == t);
            }
        }
        if before.contains(t) {
            let i = choose|i: int| 0 <= i < before.len() && before[i] == t;
            assert(all[i] == t);
        }
        if more.contains(t) {
            let i = choose|i: int| 0 <= i < more.len() && more[i] == t;
            assert(all[before.len() + i] == t);
        }
    }
}

/// An entry of the probe's filter that is accepted names the pair that it spells, which
/// the language hosts; every entry that spells such a pair is accepted.
pub proof fn law_accepted_probe_entry_spells_its_pair(part: Seq<char>)
    ensures
        forall|l: Lang, s: Scenario|
            probe_entry(part) == Ok::<(Lang, Scenario), Seq<char>>((l, s)) <==> (
            #[trigger] spells_pair(part, l, s) && !((l == Lang::Python || l == Lang::Go) && (s
                == Scenario::Smithy || s == Scenario::SmithyFull))),
{
    let k = first_of(part, ':');
    law_first_occurrence(part, ':');
    assert forall|l: Lang, s: Scenario|
        probe_entry(part) == Ok::<(Lang, Scenario), Seq<char>>((l, s)) <==> (#[trigger] spells_pair(
            part,
            l,
            s,
        ) && !((l == Lang::Python || l == Lang::Go) && (s == Scenario::Smithy || s
            == Scenario::SmithyFull))) by {
        if k < part.len() {
            law_names_are_read_as_spelled(part.take(k));
            law_names_are_read_as_spelled(part.skip(k + 1));
            if spells_pair(part, l, s) {
                let j = choose|j: int|
                    {
                        &&& 0 <= j < part.len()
                        &&& #[trigger] part[j] == ':'
                        &&& forall|i: int| 0 <= i < j ==> part[i] != ':'
                        &&& spells_lang(part.take(j), l)
                        &&& spells_scenario(part.skip(j + 1), s)
                    };
                assert(part[j] == ':' && part[k] == ':');
                assert(j == k);
            }
            if probe_entry(part) == Ok::<(Lang, Scenario), Seq<char>>((l, s)) {
                assert(spells_lang(part.take(k), l));
                assert(spells_scenario(part.skip(k + 1), s));
                assert(part[k] == ':');
            }
        } else {
            assert forall|j: int| 0 <= j < part.len() implies #[trigger] part[j] != ':' by {}
        }
    }
}

proof fn lemma_probe_entries(parts: Seq<Seq<char>>)
    ensures
        match probe_entries(parts) {
            Ok(v) => {
                &&& v.len() == parts.len()
                &&& forall|i: int|
                    0 <= i < parts.len() ==> probe_entry(#[trigger] parts[i]) == Ok::<
                        (Lang, Scenario),
                        Seq<char>,
                    >(v[i])
            },
            Err(_) => exists|i: int| 0 <= i < parts.len() && probe_entry(#[trigger] parts[i]) is Err,
        },
    decreases parts.len(),
{
    if parts.len() > 0 {
        let front = parts.drop_last();
        lemma_probe_entries(front);
        assert(parts.last() == parts[parts.len() - 1]);
        match probe_entries(front) {
            Err(_) => {
                let i = choose|i: int|
                    0 <= i < front.len() && probe_entry(#[trigger] front[i]) is Err;
                assert(parts[i] == front[i]);
            },
            Ok(before) => {
                assert forall|j: int| 0 <= j < front.len() implies probe_entry(#[trigger] parts[j])
                    == Ok::<(Lang, Scenario), Seq<char>>(before[j]) by {
                    assert(front[j] == parts[j]);
                }
            },
        }
    }
}

/// The targets that are wanted: without filters the default selection; with memory
/// sizes alone, the pairs of the default selection at each of those; with pairs, each
/// pair that is spelled at each of the sizes, or at 512 MB where none is given.
pub proof fn law_which_targets_are_wanted(args: TargetArgs, t: Target)
    requires
        wanted(args) is Ok,
    ensures
        wanted(args)->Ok_0.contains(t) <==> match args.only {
            None => if args.memory@.len() == 0 {
                is_default_target(t)
            } else {
                args.memory@.contains(t.2) && (is_default_target((t.0, t.1, 512i32)))
            },
            Some(only) => spelled_in(only@, t.0, t.1) && (if args.memory@.len() == 0 {
                t.2 == 512
            } else {
                args.memory@.contains(t.2)
            }),
        },
{
    let axes = default_axes();
    law_first_seen_is_the_set(axes);
    lemma_default_axes(t);
    match args.only {
        None => {
            if args.memory@.len() > 0 {
                let distinct = first_seen(axes);
                let pairs = pairs_of(distinct);
                law_first_seen_is_the_set(pairs);
                lemma_crossed(first_seen(pairs), args.memory@, t);
                let at = (t.0, t.1, 512i32);
                lemma_default_axes(at);
                if pairs.contains((t.0, t.1)) {
                    let i = choose|i: int| 0 <= i < pairs.len() && pairs[i] == (t.0, t.1);
                    let d = distinct[i];
                    assert(distinct.contains(d));
                    lemma_default_axes(d);
                    assert(is_default_target(d));
                    assert(d.0 == t.0 && d.1 == t.1);
                }
                if is_default_target(at) {
                    assert(distinct.contains(at));
                    let i = choose|i: int| 0 <= i < distinct.len() && distinct[i] == at;
                    assert(pairs[i] == (t.0, t.1));
                }
            }
        },
        Some(only) => {
            let parts = pieces(only@, ',');
            lemma_probe_entries(parts);
            let pairs = probe_entries(parts)->Ok_0;
            lemma_crossed(pairs, named_memory(args.memory@), t);
            assert(named_memory(args.memory@).contains(t.2) <==> if args.memory@.len() == 0 {
                t.2 == 512
            } else {
                args.memory@.contains(t.2)
            }) by {
                assert(seq![512i32][0] == 512i32);
            }
            if pairs.contains((t.0, t.1)) {
                let i = choose|i: int| 0 <= i < pairs.len() && pairs[i] == (t.0, t.1);
                law_accepted_probe_entry_spells_its_pair(parts[i]);
                assert(spells_pair(parts[i], t.0, t.1));
            }
            if spelled_in(only@, t.0, t.1) {
                let i = choose|i: int|
                    0 <= i < parts.len() && spells_pair(#[trigger] parts[i], t.0, t.1);
                law_accepted_probe_entry_spells_its_pair(parts[i]);
                let (l, s) = pairs[i];
                assert(spells_pair(parts[i], l, s));
                lemma_spells_one_pair(parts[i], l, s, t.0, t.1);
                assert(pairs[i] == (t.0, t.1));
            }
        },
    }
}

proof fn lemma_spells_one_pair(part: Seq<char>, l: Lang, s: Scenario, m: Lang, x: Scenario)
    requires
        spells_pair(part, l, s),
        spells_pair(part, m, x),
    ensures
        l == m,
        s == x,
{
    let j = choose|j: int|
        {
            &&& 0 <= j < part.len()
            &&& #[trigger] part[j] == ':'
            &&& forall|i: int| 0 <= i < j ==> part[i] != ':'
            &&& spells_lang(part.take(j), l)
            &&& spells_scenario(part.skip(j + 1), s)
        };
    let k = choose|k: int|
        {
            &&& 0 <= k < part.len()
            &&& #[trigger] part[k] == ':'
            &&& forall|i: int| 0 <= i < k ==> part[i] != ':'
            &&& spells_lang(part.take(k), m)
            &&& spells_scenario(part.skip(k + 1), x)
        };
    assert(part[j] == ':' && part[k] == ':');
    assert(j == k);
    law_names_are_read_as_spelled(part.take(k));
    law_names_are_read_as_spelled(part.skip(k + 1));
}

/// The cell that a target stands for: of the same language, scenario, memory size and
/// the asked architecture, without SnapStart, and for Rust the `o3` build without
/// jitter.
pub proof fn law_which_cell_a_target_stands_for(t: Target, arch: Arch)
    ensures
        ({
            let c = plain_cell(t, arch);
            &&& c.lang == t.0 && c.scenario == t.1 && c.memory_mb == t.2 && c.arch == arch
            &&& !c.snapstart
            &&& t.0 == Lang::Rust ==> c.opt == Some(Opt::O3) && c.jitter == Some(Jitter::Off)
            &&& t.0 != Lang::Rust ==> c.opt is None && c.jitter is None
        }),
{
}

/// One more target brings in its cell, behind those before it, unless it is there
/// already; below the floor of its scenario it brings a note that names it instead.
pub proof fn law_each_target_brings_its_cell(targets: Seq<Target>, t: Target, arch: Arch)
    requires
        resolved(targets, arch) is Ok,
    ensures
        ({
            let (cells, notes) = resolved(targets, arch)->Ok_0;
            let c = plain_cell(t, arch);
            let next = resolved(targets.push(t), arch);
            let floor: int = match (t.0, t.1) {
                (Lang::Java, Scenario::Batch) => 512,
                (_, Scenario::Batch) => 256,
                (Lang::Java, Scenario::LetterCount) => 512,
                (_, Scenario::Cache) => 512,
                _ => 128,
            };
            &&& t.2 < floor ==> next is Ok && next->Ok_0.0 == cells && next->Ok_0.1.len()
                == notes.len() + 1 && next->Ok_0.1.drop_last() == notes
            &&& t.2 >= floor && !in_matrix(c) ==> next is Err
            &&& t.2 >= floor && in_matrix(c) && cells.contains(c) ==> next is Ok && next->Ok_0.0
                == cells && next->Ok_0.1 == notes
            &&& t.2 >= floor && in_matrix(c) && !cells.contains(c) ==> next is Ok && next->Ok_0.0
                == cells.push(c) && next->Ok_0.1 == notes
        }),
        resolved(Seq::empty(), arch) == Ok::<(Seq<Cell>, Seq<Seq<char>>), Seq<char>>(
            (Seq::empty(), Seq::empty()),
        ),
{
    assert(targets.push(t).drop_last() =~= targets);
    let (cells, notes) = resolved(targets, arch)->Ok_0;
    let note = skip_note(t);
    assert(notes.push(note).drop_last() =~= notes);
}

/// The complaint about missing functions lists how many and which.
pub proof fn law_how_missing_targets_are_told(names: Seq<Seq<char>>)
    ensures
        undeployed_message(names) == decimal(names.len()) + " probe function(s) are not deployed: "@
            + joined(names, ", "@)
            + ". Deploy the matrix first (`bencher run` or `bencher run --skip-build`)."@,
{
}

/// What is told of a target that is skipped or refused names its language, its scenario
/// and its memory size.
pub proof fn law_targets_are_told_by_name(t: Target, arch: Arch)
    ensures
        has_prefix(
            skip_note(t),
            "skip "@ + t.0.name() + ":"@ + t.1.name() + " @ "@ + decimal_int(t.2 as int) + " MB"@,
        ),
        has_prefix(
            no_cell_message(t, arch),
            "no matrix cell for "@ + t.0.name() + ":"@ + t.1.name() + " @ "@ + decimal_int(
                t.2 as int,
            ) + " MB "@ + arch.name(),
        ),
{
    reveal_strlit(" MB");
    reveal_strlit(" MB (below floor ");
    let a = "skip "@ + t.0.name() + ":"@ + t.1.name() + " @ "@ + decimal_int(t.2 as int) + " MB"@;
    assert(skip_note(t).take(a.len() as int) =~= a);
    let b = "no matrix cell for "@ + t.0.name() + ":"@ + t.1.name() + " @ "@ + decimal_int(
        t.2 as int,
    ) + " MB "@ + arch.name();
    assert(no_cell_message(t, arch).take(b.len() as int) =~= b);
}

/// What is told of an entry that is refused names it.
pub proof fn law_refused_probe_entries_are_named(part: Seq<char>)
    requires
        probe_entry(part) is Err,
    ensures
        has_text(probe_entry(part)->Err_0, "'"@ + part + "'"@),
{
    reveal_strlit("--only entry '");
    reveal_strlit("--only entry ");
    reveal_strlit("'");
    reveal_strlit(" in '");
    reveal_strlit(" in ");
    reveal_strlit("' must be lang:scenario");
    reveal_strlit("' selects ");
    let m = probe_entry(part)->Err_0;
    let entry = "'"@ + part + "'"@;
    let none = Seq::<char>::empty();
    let colon = first_of(part, ':');
    law_first_occurrence(part, ':');
    if colon < part.len() && (lang_in(part.take(colon)) is None || scenario_in(
        part.skip(colon + 1),
    ) is None) {
        let head = m.take(m.len() - entry.len());
        assert(m =~= head + entry + none);
        lemma_holds_middle(head, entry, none);
    } else {
        let head = "--only entry "@;
        let tail = if colon == part.len() {
            " must be lang:scenario"@
        } else {
            let lang = lang_in(part.take(colon))->0;
            let scenario = scenario_in(part.skip(colon + 1))->0;
            " selects "@ + (lang.name() + ":"@ + scenario.name() + ", not part of the matrix"@)
        };
        reveal_strlit(" must be lang:scenario");
        reveal_strlit(" selects ");
        assert("--only entry '"@ =~= head + "'"@);
        assert("' must be lang:scenario"@ =~= "'"@ + " must be lang:scenario"@);
        assert("' selects "@ =~= "'"@ + " selects "@);
        assert(m =~= head + entry + tail);
        lemma_holds_middle(head, entry, tail);
    }
}

/// The probe's filters are refused exactly where a memory size is not one of the six, or
/// an entry spells no pair that its language hosts.
pub proof fn law_when_targets_are_refused(args: TargetArgs)
    ensures
        wanted(args) is Ok <==> {
            &&& forall|i: int|
                0 <= i < args.memory@.len() ==> {
                    let m = #[trigger] args.memory@[i];
                    m == 128 || m == 256 || m == 512 || m == 1024 || m == 2048 || m == 3008
                }
            &&& args.only is Some ==> forall|i: int|
                0 <= i < pieces(args.only->0@, ',').len() ==> probe_entry(
                    #[trigger] pieces(args.only->0@, ',')[i],
                ) is Ok
        },
{
    lemma_tiers(args.memory@);
    if args.only is Some {
        lemma_probe_entries(pieces(args.only->0@, ','));
    }
}

/// Targets come pair by pair, each at the memory sizes in their order.
pub proof fn law_targets_come_pair_by_pair(
    pairs: Seq<(Lang, Scenario)>,
    pair: (Lang, Scenario),
    mems: Seq<i32>,
    i: int,
)
    requires
        0 <= i < mems.len(),
    ensures
        crossed(Seq::empty(), mems).len() == 0,
        crossed(pairs.push(pair), mems).len() == crossed(pairs, mems).len() + mems.len(),
        crossed(pairs.push(pair), mems).take(crossed(pairs, mems).len() as int) == crossed(
            pairs,
            mems,
        ),
        crossed(pairs.push(pair), mems)[crossed(pairs, mems).len() + i] == (
            pair.0,
            pair.1,
            mems[i],
        ),
{
    assert(pairs.push(pair).drop_last() =~= pairs);
    let before = crossed(pairs, mems);
    assert((before + at_each(pair, mems)).take(before.len() as int) =~= before);
}

/// The default selection goes along its three axes: memory, artifact size, and language
/// at a low and then a high size.
pub proof fn law_default_selection_in_order()
    ensures
        default_axes().len() == 20,
        default_axes().take(3) == seq![
            (Lang::Rust, Scenario::Hello, 128i32),
            (Lang::Rust, Scenario::Hello, 512i32),
            (Lang::Rust, Scenario::Hello, 3008i32),
        ],
        default_axes().subrange(3, 10) == seq![
            (Lang::Node, Scenario::Hello, 512i32),
            (Lang::Python, Scenario::Hello, 512i32),
            (Lang::Java, Scenario::Hello, 512i32),
            (Lang::Python, Scenario::Authz, 512i32),
            (Lang::Rust, Scenario::SmithyFull, 512i32),
            (Lang::Java, Scenario::SmithyFull, 512i32),
            (Lang::Python, Scenario::OneClient, 512i32),
        ],
        forall|k: int|
            0 <= k < 5 ==> #[trigger] default_axes()[15 + k].0 == default_axes()[10 + k].0
                && default_axes()[15 + k].1 == default_axes()[10 + k].1 && default_axes()[15 + k].2
                == 3008 && default_axes()[10 + k].2 == 512,
{
    assert(default_axes().take(3) =~= seq![
        (Lang::Rust, Scenario::Hello, 128i32),
        (Lang::Rust, Scenario::Hello, 512i32),
        (Lang::Rust, Scenario::Hello, 3008i32),
    ]);
    assert(default_axes().subrange(3, 10) =~= seq![
        (Lang::Node, Scenario::Hello, 512i32),
        (Lang::Python, Scenario::Hello, 512i32),
        (Lang::Java, Scenario::Hello, 512i32),
        (Lang::Python, Scenario::Authz, 512i32),
        (Lang::Rust, Scenario::SmithyFull, 512i32),
        (Lang::Java, Scenario::SmithyFull, 512i32),
        (Lang::Python, Scenario::OneClient, 512i32),
    ]);
}

} // verus!
