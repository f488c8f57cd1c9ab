//! What the filters of a run are for: which cells they leave, and when they are
//! refused, in terms of what was typed.
use crate::cell::Cell;
use crate::config::{is_tier, Arch, Lang, Scenario};
use crate::matrix::in_matrix;
use crate::plan::{is_selected, steps_of, RunStep};
use crate::select::{
    arch_in, filters, lang_in, langs_in, lemma_memory_complaint, memory_complaint, only_entries,
    only_entry, quoted_names, scenario_in, RunArgs,
};
use crate::laws::lemma_spellings;
use crate::text::{decimal_int, first_of, has_prefix, has_text, joined, pieces, texts, trimmed};
use crate::text_lemmas::lemma_holds_middle;
use crate::text_rules::law_first_occurrence;
use vstd::prelude::*;
use vstd::string::*;

verus! {

/// Whether a text, white space round it ignored, spells a language.
pub open spec fn spells_lang(t: Seq<char>, lang: Lang) -> bool {
    match lang {
        Lang::Rust => trimmed(t) == "rust"@,
        Lang::Node => trimmed(t) == "node"@,
        Lang::Java => trimmed(t) == "java"@,
        Lang::Python => trimmed(t) == "python"@,
        Lang::Go => trimmed(t) == "go"@,
    }
}

/// Whether a text spells no language at all.
pub open spec fn spells_no_lang(t: Seq<char>) -> bool {
    forall|l: Lang| !#[trigger] spells_lang(t, l)
}

/// Whether a text, white space round it ignored, spells a scenario.
pub open spec fn spells_scenario(t: Seq<char>, scenario: Scenario) -> bool {
    match scenario {
        Scenario::Hello => trimmed(t) == "hello"@,
        Scenario::Smithy => trimmed(t) == "smithy"@,
        Scenario::OneClient => trimmed(t) == "oneclient"@,
        Scenario::ThreeClient => trimmed(t) == "threeclient"@,
        Scenario::SmithyFull => trimmed(t) == "smithyfull"@,
        Scenario::LetterCount => trimmed(t) == "lettercount"@,
        Scenario::Authz => trimmed(t) == "authz"@,
        Scenario::Batch => trimmed(t) == "batch"@,
        Scenario::Cache => trimmed(t) == "cache"@,
    }
}

/// Whether a text, white space round it ignored, spells an architecture.
pub open spec fn spells_arch(t: Seq<char>, arch: Arch) -> bool {
    match arch {
        Arch::Arm64 => trimmed(t) == "arm64"@,
        Arch::X86_64 => trimmed(t) == "x86_64"@,
    }
}

/// Whether a text spells a language and a scenario, the first colon between them.
pub open spec fn spells_pair(t: Seq<char>, lang: Lang, scenario: Scenario) -> bool {
    exists|k: int|
        {
            &&& 0 <= k < t.len()
            &&& #[trigger] t[k] == ':'
            &&& forall|i: int| 0 <= i < k ==> t[i] != ':'
            &&& spells_lang(t.take(k), lang)
            &&& spells_scenario(t.skip(k + 1), scenario)
        }
}

/// Whether texts are as typed: no text spells a language, scenario or architecture
/// but the one that it is read as.
pub proof fn law_names_are_read_as_spelled(t: Seq<char>)
    ensures
        forall|l: Lang| lang_in(t) == Some(l) <==> #[trigger] spells_lang(t, l),
        forall|s: Scenario| scenario_in(t) == Some(s) <==> #[trigger] spells_scenario(t, s),
        forall|a: Arch| arch_in(t) == Some(a) <==> #[trigger] spells_arch(t, a),
{
    lemma_spellings();
    assert forall|l: Lang| lang_in(t) == Some(l) <==> #[trigger] spells_lang(t, l) by {
        if spells_lang(t, l) {
            assert(l.name() == trimmed(t));
        }
    }
    assert forall|s: Scenario| scenario_in(t) == Some(s) <==> #[trigger] spells_scenario(t, s) by {
        if spells_scenario(t, s) {
            assert(s.name() == trimmed(t));
        }
    }
    assert forall|a: Arch| arch_in(t) == Some(a) <==> #[trigger] spells_arch(t, a) by {
        if spells_arch(t, a) {
            assert(a.name() == trimmed(t));
        }
    }
}

/// An entry that is accepted names the pair that it spells.
pub proof fn law_accepted_entry_spells_its_pair(part: Seq<char>, langs: Seq<Lang>)
    ensures
        match only_entry(part, langs) {
            Ok((l, s)) => {
                &&& spells_pair(part, l, s)
                &&& langs.len() > 0 ==> langs.contains(l)
                &&& l == Lang::Python || l == Lang::Go ==> s != Scenario::Smithy && s
                    != Scenario::SmithyFull
            },
            Err(_) => forall|l: Lang, s: Scenario| #[trigger]
                spells_pair(part, l, s) ==> (langs.len() > 0 && !langs.contains(l)) || ((l
                    == Lang::Python || l == Lang::Go) && (s == Scenario::Smithy || s
                    == Scenario::SmithyFull)),
        },
{
    let k = first_of(part, ':');
    law_first_occurrence(part, ':');
    if k < part.len() {
        law_names_are_read_as_spelled(part.take(k));
        law_names_are_read_as_spelled(part.skip(k + 1));
        assert forall|l: Lang, s: Scenario| #[trigger] spells_pair(part, l, s) implies spells_lang(
            part.take(k),
            l,
        ) && spells_scenario(part.skip(k + 1), s) by {
            let j = choose|j: int|
                {
                    &&& 0 <= j < part.len()
                    &&& #[trigger] part[j] == ':'
                    &&& forall|i: int| 0 <= i < j ==> part[i] != ':'
                    &&& spells_lang(part.take(j), l)
                    &&& spells_scenario(part.skip(j + 1), s)
                };
            assert(part[j] == ':' && part[k] == ':');
            assert(j == k);
        }
        match only_entry(part, langs) {
            Ok((l, s)) => {
                assert(spells_lang(part.take(k), l));
                assert(spells_scenario(part.skip(k + 1), s));
                assert(part[k] == ':');
            },
            Err(_) => {},
        }
    } else {
        assert forall|l: Lang, s: Scenario| !(#[trigger] spells_pair(part, l, s)) by {
            assert forall|j: int| 0 <= j < part.len() implies #[trigger] part[j] != ':' by {}
        }
    }
}

proof fn lemma_entries(parts: Seq<Seq<char>>, langs: Seq<Lang>)
    ensures
        match only_entries(parts, langs) {
            Ok(v) => {
                &&& v.len() == parts.len()
                &&& forall|i: int|
                    0 <= i < parts.len() ==> only_entry(#[trigger] parts[i], langs) == Ok::<
                        (Lang, Scenario),
                        Seq<char>,
                    >(v[i])
            },
            Err(m) => exists|i: int|
                {
                    &&& 0 <= i < parts.len()
                    &&& only_entry(#[trigger] parts[i], langs) == Err::<(Lang, Scenario), Seq<char>>(m)
                    &&& forall|j: int| 0 <= j < i ==> only_entry(#[trigger] parts[j], langs) is Ok
                },
        },
    decreases parts.len(),
{
    if parts.len() > 0 {
        let front = parts.drop_last();
        lemma_entries(front, langs);
        assert forall|i: int| 0 <= i < front.len() implies #[trigger] front[i] == parts[i] by {}
        match only_entries(front, langs) {
            Err(m) => {
                let i = choose|i: int|
                    {
                        &&& 0 <= i < front.len()
                        &&& only_entry(#[trigger] front[i], langs) == Err::<
                            (Lang, Scenario),
                            Seq<char>,
                        >(m)
                        &&& forall|j: int| 0 <= j < i ==> only_entry(#[trigger] front[j], langs) is Ok
                    };
                assert(parts[i] == front[i]);
                assert forall|j: int| 0 <= j < i implies only_entry(#[trigger] parts[j], langs) is Ok by {
                    assert(front[j] == parts[j]);
                }
            },
            Ok(before) => {
                assert forall|j: int| 0 <= j < front.len() implies only_entry(
                    #[trigger] parts[j],
                    langs,
                ) == Ok::<(Lang, Scenario), Seq<char>>(before[j]) by {
                    assert(front[j] == parts[j]);
                }
                assert(parts.last() == parts[parts.len() - 1]);
            },
        }
    }
}

proof fn lemma_langs(values: Seq<Seq<char>>)
    ensures
        match langs_in(values) {
            Ok(v) => {
                &&& v.len() == values.len()
                &&& forall|i: int| 0 <= i < values.len() ==> spells_lang(#[trigger] values[i], v[i])
            },
            Err(_) => exists|i: int|
                0 <= i < values.len() && spells_no_lang(#[trigger] values[i]),
        },
    decreases values.len(),
{
    if values.len() > 0 {
        let front = values.drop_last();
        lemma_langs(front);
        law_names_are_read_as_spelled(values.last());
        assert(values.last() == values[values.len() - 1]);
        match langs_in(front) {
            Err(_) => {
                let i = choose|i: int|
                    0 <= i < front.len() && spells_no_lang(#[trigger] front[i]);
                assert(values[i] == front[i]);
            },
            Ok(before) => {
                assert forall|j: int| 0 <= j < front.len() implies spells_lang(
                    #[trigger] values[j],
                    before[j],
                ) by {
                    assert(front[j] == values[j]);
                }
                if lang_in(values.last()) is None {
                    assert(spells_no_lang(values.last()));
                }
            },
        }
    }
}

/// A memory size is complained about exactly where one is not among the six.
pub proof fn lemma_tiers(values: Seq<i32>)
    ensures
        memory_complaint(values) is None <==> forall|i: int|
            0 <= i < values.len() ==> {
                let m = #[trigger] values[i];
                m == 128 || m == 256 || m == 512 || m == 1024 || m == 2048 || m == 3008
            },
    decreases values.len(),
{
    if values.len() > 0 {
        let rest = values.drop_first();
        lemma_tiers(rest);
        assert forall|i: int| 0 <= i < rest.len() implies #[trigger] rest[i] == values[i + 1] by {}
        if forall|i: int|
            0 <= i < rest.len() ==> {
                let m = #[trigger] rest[i];
                m == 128 || m == 256 || m == 512 || m == 1024 || m == 2048 || m == 3008
            } {
            assert forall|i: int| 1 <= i < values.len() implies {
                let m = #[trigger] values[i];
                m == 128 || m == 256 || m == 512 || m == 1024 || m == 2048 || m == 3008
            } by {
                assert(values[i] == rest[i - 1]);
            }
        }
    }
}

/// What `--lang` typed as nothing, or as names: whether it takes in a language.
pub open spec fn takes_lang(typed: Seq<Seq<char>>, lang: Lang) -> bool {
    typed.len() == 0 || exists|i: int| 0 <= i < typed.len() && spells_lang(#[trigger] typed[i], lang)
}

/// Whether a comma-separated text spells a pair.
pub open spec fn spelled_in(t: Seq<char>, lang: Lang, scenario: Scenario) -> bool {
    exists|i: int|
        0 <= i < pieces(t, ',').len() && spells_pair(#[trigger] pieces(t, ',')[i], lang, scenario)
}

/// Whether every filter that was given takes a cell in: its memory is one of those
/// asked for, its architecture is the one asked for, its pair is spelled by an entry
/// of `--only`, and its language by one of `--lang`.
pub open spec fn taken_in(args: RunArgs, c: Cell) -> bool {
    &&& args.memory@.len() > 0 ==> args.memory@.contains(c.memory_mb)
    &&& args.arch is Some ==> spells_arch(args.arch->0@, c.arch)
    &&& args.only is Some ==> spelled_in(args.only->0@, c.lang, c.scenario)
    &&& takes_lang(texts(args.lang@), c.lang)
}

/// The chosen cells are exactly those of the matrix that every filter given takes in;
/// a filter that is not given takes in everything.
pub proof fn law_chosen_exactly_when_every_filter_takes_it_in(args: RunArgs, c: Cell)
    requires
        langs_in(texts(args.lang@)) is Ok,
        filters(args, langs_in(texts(args.lang@))->Ok_0) is Ok,
    ensures
        is_selected(args, c) <==> in_matrix(c) && taken_in(args, c),
{
    let typed = texts(args.lang@);
    let langs = langs_in(typed)->Ok_0;
    let (pairs, arch) = filters(args, langs)->Ok_0;
    lemma_spellings();
    lemma_langs(typed);
    if is_selected(args, c) && typed.len() > 0 {
        let i = choose|i: int| 0 <= i < langs.len() && langs[i] == c.lang;
        assert(spells_lang(typed[i], langs[i]));
    }
    if args.arch is Some {
        law_names_are_read_as_spelled(args.arch->0@);
        assert(spells_arch(args.arch->0@, arch->0));
    }
    if args.only is Some {
        let parts = pieces(args.only->0@, ',');
        lemma_entries(parts, langs);
        if is_selected(args, c) {
            let i = choose|i: int| 0 <= i < pairs->0.len() && pairs->0[i] == (c.lang, c.scenario);
            law_accepted_entry_spells_its_pair(parts[i], langs);
            assert(spells_pair(parts[i], c.lang, c.scenario));
        }
        if exists|i: int|
            0 <= i < parts.len() && spells_pair(#[trigger] parts[i], c.lang, c.scenario) {
            let i = choose|i: int|
                0 <= i < parts.len() && spells_pair(#[trigger] parts[i], c.lang, c.scenario);
            lemma_pair_read(parts[i], langs, c.lang, c.scenario);
            assert(only_entry(parts[i], langs) == Ok::<(Lang, Scenario), Seq<char>>(pairs->0[i]));
            assert(pairs->0.contains((c.lang, c.scenario)));
        }
    }
    if takes_lang(typed, c.lang) && typed.len() > 0 {
        let i = choose|i: int| 0 <= i < typed.len() && spells_lang(#[trigger] typed[i], c.lang);
        law_names_are_read_as_spelled(typed[i]);
        assert(spells_lang(typed[i], langs[i]));
        assert(langs[i] == c.lang);
        assert(langs.contains(c.lang));
    }
}

proof fn lemma_pair_read(part: Seq<char>, langs: Seq<Lang>, l: Lang, s: Scenario)
    requires
        spells_pair(part, l, s),
        only_entry(part, langs) is Ok,
    ensures
        only_entry(part, langs) == Ok::<(Lang, Scenario), Seq<char>>((l, s)),
{
    let k = first_of(part, ':');
    law_first_occurrence(part, ':');
    let j = choose|j: int|
        {
            &&& 0 <= j < part.len()
            &&& #[trigger] part[j] == ':'
            &&& forall|i: int| 0 <= i < j ==> part[i] != ':'
            &&& spells_lang(part.take(j), l)
            &&& spells_scenario(part.skip(j + 1), s)
        };
    assert(part[j] == ':' && part[k] == ':');
    assert(j == k);
    law_names_are_read_as_spelled(part.take(k));
    law_names_are_read_as_spelled(part.skip(k + 1));
}

/// The filters are refused exactly where an entry of `--only` is, where `--arch` spells
/// no architecture, or where a memory size is not one of the six swept.
pub proof fn law_when_filters_are_refused(args: RunArgs, langs: Seq<Lang>)
    ensures
        filters(args, langs) is Ok <==> {
            &&& args.only is Some ==> forall|i: int|
                0 <= i < pieces(args.only->0@, ',').len() ==> only_entry(
                    #[trigger] pieces(args.only->0@, ',')[i],
                    langs,
                ) is Ok
            &&& args.arch is Some ==> trimmed(args.arch->0@) == "arm64"@ || trimmed(args.arch->0@)
                == "x86_64"@
            &&& forall|i: int|
                0 <= i < args.memory@.len() ==> {
                    let m = #[trigger] args.memory@[i];
                    m == 128 || m == 256 || m == 512 || m == 1024 || m == 2048 || m == 3008
                }
        },
{
    lemma_tiers(args.memory@);
    if args.only is Some {
        lemma_entries(pieces(args.only->0@, ','), langs);
    }
    if args.arch is Some {
        law_names_are_read_as_spelled(args.arch->0@);
        assert(spells_arch(args.arch->0@, Arch::Arm64) == (trimmed(args.arch->0@) == "arm64"@));
        assert(spells_arch(args.arch->0@, Arch::X86_64) == (trimmed(args.arch->0@) == "x86_64"@));
    }
}

/// Languages are refused exactly where one of the texts spells none.
pub proof fn law_when_languages_are_refused(values: Seq<Seq<char>>)
    ensures
        langs_in(values) is Ok <==> forall|i: int|
            0 <= i < values.len() ==> !spells_no_lang(#[trigger] values[i]),
        langs_in(values) is Ok ==> langs_in(values)->Ok_0.len() == values.len(),
        langs_in(values) is Ok ==> forall|i: int|
            0 <= i < values.len() ==> spells_lang(#[trigger] values[i], langs_in(values)->Ok_0[i]),
{
    lemma_langs(values);
}

/// A run measures once, between its two summaries, and has artifacts and functions
/// before that: built or taken, deployed or seen to be there, as asked.
pub proof fn law_order_of_a_run(skip_build: bool, skip_deploy: bool)
    ensures
        ({
            let steps = steps_of(skip_build, skip_deploy);
            &&& steps.len() == 5
            &&& steps[0] == RunStep::Build <==> !skip_build
            &&& steps[0] == RunStep::LoadBuilt <==> skip_build
            &&& steps[1] == RunStep::Deploy <==> !skip_deploy
            &&& steps[1] == RunStep::CheckDeployed <==> skip_deploy
            &&& steps[2] == RunStep::OpenSummary
            &&& steps[3] == RunStep::Measure
            &&& steps[4] == RunStep::CloseSummary
        }),
{
}

/// What is told of an entry that is refused names the entry.
pub proof fn law_refused_entries_are_named(part: Seq<char>, langs: Seq<Lang>)
    requires
        only_entry(part, langs) is Err,
    ensures
        has_text(only_entry(part, langs)->Err_0, "--only entry '"@ + part + "'"@),
{
    let m = only_entry(part, langs)->Err_0;
    let entry = "--only entry '"@ + part + "'"@;
    let none = Seq::<char>::empty();
    let colon = first_of(part, ':');
    law_first_occurrence(part, ':');
    if colon < part.len() && (lang_in(part.take(colon)) is None || scenario_in(
        part.skip(colon + 1),
    ) is None) {
        let head = m.take(m.len() - entry.len());
        assert(m =~= head + entry + none);
        lemma_holds_middle(head, entry, none);
    } else if colon == part.len() {
        lemma_holds_middle(none, entry, " must be lang:scenario"@);
        assert(m =~= none + entry + " must be lang:scenario"@);
    } else {
        let lang = lang_in(part.take(colon))->0;
        let scenario = scenario_in(part.skip(colon + 1))->0;
        let tail = if !lang.hosts(scenario) {
            " selects "@ + (lang.name() + ":"@ + scenario.name()
                + ", which is not part of the matrix ("@ + lang.name() + " has no "@
                + scenario.name() + " scenario)"@)
        } else {
            " names lang '"@ + (lang.name() + "', which is excluded by --lang "@ + quoted_names(
                langs,
            ) + "; the two filters select nothing in common"@)
        };
        assert(m =~= none + entry + tail);
        lemma_holds_middle(none, entry, tail);
    }
}

/// What is told of a memory size that is not swept names it, and only such a size is
/// complained about: the first.
pub proof fn law_refused_memory_is_named(values: Seq<i32>, i: int)
    requires
        0 <= i < values.len(),
        forall|k: int| 0 <= k < i ==> is_tier(#[trigger] values[k] as int),
        !is_tier(values[i] as int),
    ensures
        memory_complaint(values) is Some,
        has_prefix(memory_complaint(values)->0, "--memory "@ + decimal_int(values[i] as int)),
{
    lemma_memory_complaint(values, i);
    let m = memory_complaint(values)->0;
    let head = "--memory "@ + decimal_int(values[i] as int);
    assert(m.take(head.len() as int) =~= head);
}

/// Languages are listed between quotes, in their order.
pub proof fn law_how_languages_are_listed(langs: Seq<Lang>)
    ensures
        quoted_names(langs) == "["@ + joined(
            Seq::new(langs.len(), |i: int| "\""@ + langs[i].name() + "\""@),
            ", "@,
        ) + "]"@,
{
    assert(langs.map_values(|l: Lang| "\""@ + l.name() + "\""@) =~= Seq::new(
        langs.len(),
        |i: int| "\""@ + langs[i].name() + "\""@,
    ));
}

} // verus!
