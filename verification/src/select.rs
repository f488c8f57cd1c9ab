//! What a run measures: reading the filters, picking the cells, and planning the
//! number of invocations.
use crate::cell::Cell;
use crate::config::{
    is_tier, tier_message, unknown_message, validate_memory_tiers, Arch, Lang, Profile, Scenario,
};
use crate::laws::lemma_spellings;
use crate::matrix::{asks_for, cells_for_langs, in_matrix, in_sweep_order, is_asked_for, rank};
use crate::text::{first_of, join, joined, pieces, split, split_once, texts, trimmed};
use vstd::prelude::*;
use vstd::string::*;

verus! {

/// The language that a text names, white space round it ignored.
pub open spec fn lang_in(s: Seq<char>) -> Option<Lang> {
    if exists|l: Lang| #[trigger] l.name() == trimmed(s) {
        Some(choose|l: Lang| #[trigger] l.name() == trimmed(s))
    } else {
        None
    }
}

/// The scenario that a text names, white space round it ignored.
pub open spec fn scenario_in(s: Seq<char>) -> Option<Scenario> {
    if exists|x: Scenario| #[trigger] x.name() == trimmed(s) {
        Some(choose|x: Scenario| #[trigger] x.name() == trimmed(s))
    } else {
        None
    }
}

/// The architecture that a text names, white space round it ignored.
pub open spec fn arch_in(s: Seq<char>) -> Option<Arch> {
    if exists|a: Arch| #[trigger] a.name() == trimmed(s) {
        Some(choose|a: Arch| #[trigger] a.name() == trimmed(s))
    } else {
        None
    }
}

/// The languages that texts name, or the complaint about the first text that
/// names none.
pub open spec fn langs_in(values: Seq<Seq<char>>) -> Result<Seq<Lang>, Seq<char>>
    decreases values.len(),
{
    if values.len() == 0 {
        Ok(Seq::empty())
    } else {
        match langs_in(values.drop_last()) {
            Err(m) => Err(m),
            Ok(before) => match lang_in(values.last()) {
                Some(l) => Ok(before.push(l)),
                None => Err(unknown_message("lang"@, values.last(), Lang::names())),
            },
        }
    }
}

/// Once a text is refused, the texts after it do not matter.
proof fn lemma_langs_in_refused(values: Seq<Seq<char>>, k: int)
    requires
        0 <= k <= values.len(),
        langs_in(values.take(k)) is Err,
    ensures
        langs_in(values) == langs_in(values.take(k)),
    decreases values.len(),
{
    if k == values.len() {
        assert(values.take(k) =~= values);
    } else {
        assert(values.drop_last().take(k) =~= values.take(k));
        lemma_langs_in_refused(values.drop_last(), k);
    }
}

/// Reads language names; the first that is unknown is refused.
pub fn parse_langs(values: &[String]) -> (r: Result<Vec<Lang>, String>)
    ensures
        match r {
            Ok(v) => langs_in(texts(values@)) == Ok::<Seq<Lang>, Seq<char>>(v@),
            Err(m) => langs_in(texts(values@)) == Err::<Seq<Lang>, Seq<char>>(m@),
        },
{
    let mut out: Vec<Lang> = Vec::new();
    let mut i: usize = 0;
    while i < values.len()
        invariant
            i <= values@.len(),
            langs_in(texts(values@).take(i as int)) == Ok::<Seq<Lang>, Seq<char>>(out@),
        decreases values@.len() - i,
    {
        proof {
            lemma_spellings();
            let head = texts(values@).take(i + 1);
            assert(head.drop_last() =~= texts(values@).take(i as int));
            assert(head.last() == values@[i as int]@);
        }
        match Lang::parse(values[i].as_str()) {
            Ok(l) => {
                out.push(l);
            },
            Err(m) => {
                proof {
                    lemma_langs_in_refused(texts(values@), i + 1);
                }
                return Err(m);
            },
        }
        i = i + 1;
    }
    proof {
        assert(texts(values@).take(values@.len() as int) =~= texts(values@));
    }
    Ok(out)
}

/// What a run was asked for.
pub struct RunArgs {
    pub profile: Profile,
    pub pool: usize,
    /// Comma-separated `lang:scenario` pairs.
    pub only: Option<String>,
    pub lang: Vec<String>,
    pub memory: Vec<i32>,
    pub arch: Option<String>,
    pub skip_build: bool,
    pub skip_deploy: bool,
}

/// The names of languages as a quoted, bracketed list.
pub open spec fn quoted_names(langs: Seq<Lang>) -> Seq<char> {
    "["@ + joined(langs.map_values(|l: Lang| "\""@ + l.name() + "\""@), ", "@) + "]"@
}

fn quoted_list(langs: &[Lang]) -> (r: String)
    ensures
        r@ == quoted_names(langs@),
{
    let mut quoted: Vec<String> = Vec::new();
    let mut i: usize = 0;
    while i < langs.len()
        invariant
            i <= langs@.len(),
            quoted@.len() == i,
            forall|k: int|
                0 <= k < i ==> (#[trigger] quoted@[k])@ == "\""@ + langs@[k].name() + "\""@,
        decreases langs@.len() - i,
    {
        let mut q: String = "\"".to_owned();
        q.append(langs[i].as_str());
        q.append("\"");
        quoted.push(q);
        i = i + 1;
    }
    proof {
        assert(texts(quoted@) =~= langs@.map_values(|l: Lang| "\""@ + l.name() + "\""@));
    }
    let mut out: String = "[".to_owned();
    out.append(join(&quoted, ", ").as_str());
    out.append("]");
    out
}

/// One entry of the `--only` filter: the pair it names, or the complaint about
/// it.
pub open spec fn only_entry(part: Seq<char>, langs: Seq<Lang>) -> Result<
    (Lang, Scenario),
    Seq<char>,
> {
    let colon = first_of(part, ':');
    let entry = "--only entry '"@ + part + "'"@;
    if colon == part.len() {
        Err(entry + " must be lang:scenario"@)
    } else {
        let l = part.take(colon);
        let s = part.skip(colon + 1);
        match lang_in(l) {
            None => Err(unknown_message("lang"@, l, Lang::names()) + " in "@ + entry),
            Some(lang) => match scenario_in(s) {
                None => Err(unknown_message("scenario"@, s, Scenario::names()) + " in "@ + entry),
                Some(scenario) => if !lang.hosts(scenario) {
                    Err(
                        entry + " selects "@ + lang.name() + ":"@ + scenario.name()
                            + ", which is not part of the matrix ("@ + lang.name() + " has no "@
                            + scenario.name() + " scenario)"@,
                    )
                } else if !asks_for(langs, lang) {
                    Err(
                        entry + " names lang '"@ + lang.name() + "', which is excluded by --lang "@
                            + quoted_names(langs) + "; the two filters select nothing in common"@,
                    )
                } else {
                    Ok((lang, scenario))
                },
            },
        }
    }
}

/// The pairs that entries name, or the complaint about the first bad entry.
pub open spec fn only_entries(parts: Seq<Seq<char>>, langs: Seq<Lang>) -> Result<
    Seq<(Lang, Scenario)>,
    Seq<char>,
>
    decreases parts.len(),
{
    if parts.len() == 0 {
        Ok(Seq::empty())
    } else {
        match only_entries(parts.drop_last(), langs) {
            Err(m) => Err(m),
            Ok(before) => match only_entry(parts.last(), langs) {
                Ok(pair) => Ok(before.push(pair)),
                Err(m) => Err(m),
            },
        }
    }
}

proof fn lemma_only_refused(parts: Seq<Seq<char>>, langs: Seq<Lang>, k: int)
    requires
        0 <= k <= parts.len(),
        only_entries(parts.take(k), langs) is Err,
    ensures
        only_entries(parts, langs) == only_entries(parts.take(k), langs),
    decreases parts.len(),
{
    if k == parts.len() {
        assert(parts.take(k) =~= parts);
    } else {
        assert(parts.drop_last().take(k) =~= parts.take(k));
        lemma_only_refused(parts.drop_last(), langs, k);
    }
}

fn entry_text(part: &str) -> (r: String)
    ensures
        r@ == "--only entry '"@ + part@ + "'"@,
{
    let mut out: String = "--only entry '".to_owned();
    out.append(part);
    out.append("'");
    out
}

/// Reads one entry of the `--only` filter.
fn parse_only_entry(part: &str, langs: &[Lang]) -> (r: Result<(Lang, Scenario), String>)
    ensures
        match r {
            Ok(pair) => only_entry(part@, langs@) == Ok::<(Lang, Scenario), Seq<char>>(pair),
            Err(m) => only_entry(part@, langs@) == Err::<(Lang, Scenario), Seq<char>>(m@),
        },
{
    proof {
        lemma_spellings();
    }
    let mut entry: String = entry_text(part);
    let (l, s): (&str, &str) = match split_once(part, ':') {
        None => {
            entry.append(" must be lang:scenario");
            return Err(entry);
        },
        Some(halves) => halves,
    };
    let lang: Lang = match Lang::parse(l) {
        Ok(lang) => lang,
        Err(m) => {
            let mut out: String = m;
            out.append(" in ");
            out.append(entry.as_str());
            return Err(out);
        },
    };
    let scenario: Scenario = match Scenario::parse(s) {
        Ok(scenario) => scenario,
        Err(m) => {
            let mut out: String = m;
            out.append(" in ");
            out.append(entry.as_str());
            return Err(out);
        },
    };
    if !lang.supports(scenario) {
        entry.append(" selects ");
        entry.append(lang.as_str());
        entry.append(":");
        entry.append(scenario.as_str());
        entry.append(", which is not part of the matrix (");
        entry.append(lang.as_str());
        entry.append(" has no ");
        entry.append(scenario.as_str());
        entry.append(" scenario)");
        return Err(entry);
    }
    if !is_asked_for(langs, lang) {
        entry.append(" names lang '");
        entry.append(lang.as_str());
        entry.append("', which is excluded by --lang ");
        entry.append(quoted_list(langs).as_str());
        entry.append("; the two filters select nothing in common");
        return Err(entry);
    }
    Ok((lang, scenario))
}

/// The first memory value that is not a swept tier, as a complaint.
pub open spec fn memory_complaint(values: Seq<i32>) -> Option<Seq<char>>
    decreases values.len(),
{
    if values.len() == 0 {
        None
    } else if !is_tier(values[0] as int) {
        Some(tier_message(values[0] as int))
    } else {
        memory_complaint(values.drop_first())
    }
}

pub proof fn lemma_memory_complaint(values: Seq<i32>, i: int)
    requires
        0 <= i <= values.len(),
        forall|k: int| 0 <= k < i ==> is_tier(#[trigger] values[k] as int),
        i < values.len() ==> !is_tier(values[i] as int),
    ensures
        memory_complaint(values) == (if i < values.len() {
            Some(tier_message(values[i] as int))
        } else {
            None
        }),
    decreases values.len(),
{
    if i > 0 {
        let rest = values.drop_first();
        assert forall|k: int| 0 <= k < i - 1 implies is_tier(#[trigger] rest[k] as int) by {
            assert(rest[k] == values[k + 1]);
        }
        lemma_memory_complaint(rest, i - 1);
    }
}

/// What the filters say: the pairs, the architecture, or the first complaint, in
/// the order pairs, architecture, memory.
pub open spec fn filters(args: RunArgs, langs: Seq<Lang>) -> Result<
    (Option<Seq<(Lang, Scenario)>>, Option<Arch>),
    Seq<char>,
> {
    let only: Result<Option<Seq<(Lang, Scenario)>>, Seq<char>> = match args.only {
        None => Ok(None),
        Some(s) => match only_entries(pieces(s@, ','), langs) {
            Ok(v) => Ok(Some(v)),
            Err(m) => Err(m),
        },
    };
    let arch: Result<Option<Arch>, Seq<char>> = match args.arch {
        None => Ok(None),
        Some(a) => match arch_in(a@) {
            Some(x) => Ok(Some(x)),
            None => Err(unknown_message("arch"@, a@, Arch::names())),
        },
    };
    match only {
        Err(m) => Err(m),
        Ok(pairs) => match arch {
            Err(m) => Err(m),
            Ok(a) => match memory_complaint(args.memory@) {
                Some(m) => Err(m),
                None => Ok((pairs, a)),
            },
        },
    }
}

/// Whether the filters keep a cell.
pub open spec fn keeps(
    pairs: Option<Seq<(Lang, Scenario)>>,
    arch: Option<Arch>,
    memory: Seq<i32>,
    c: Cell,
) -> bool {
    &&& pairs is Some ==> pairs->0.contains((c.lang, c.scenario))
    &&& memory.len() == 0 || memory.contains(c.memory_mb)
    &&& arch is Some ==> arch->0 == c.arch
}

/// Whether a pair is among others.
pub(crate) fn has_pair(pairs: &Vec<(Lang, Scenario)>, lang: Lang, scenario: Scenario) -> (r: bool)
    ensures
        r == pairs@.contains((lang, scenario)),
{
    let mut i: usize = 0;
    while i < pairs.len()
        invariant
            i <= pairs.len(),
            forall|k: int| 0 <= k < i ==> pairs@[k] != (lang, scenario),
        decreases pairs.len() - i,
    {
        if pairs[i].0 == lang && pairs[i].1 == scenario {
            proof {
                assert(pairs@[i as int] == (lang, scenario));
            }
            return true;
        }
        i = i + 1;
    }
    false
}

fn has_memory(memory: &Vec<i32>, m: i32) -> (r: bool)
    ensures
        r == (memory@.len() == 0 || memory@.contains(m)),
{
    let mut i: usize = 0;
    while i < memory.len()
        invariant
            i <= memory.len(),
            forall|k: int| 0 <= k < i ==> memory@[k] != m,
        decreases memory.len() - i,
    {
        if memory[i] == m {
            return true;
        }
        i = i + 1;
    }
    memory.len() == 0
}

spec fn pair_views(pairs: Option<Vec<(Lang, Scenario)>>) -> Option<Seq<(Lang, Scenario)>> {
    match pairs {
        Some(v) => Some(v@),
        None => None,
    }
}

/// Whether the filters keep a cell.
fn is_kept(
    pairs: &Option<Vec<(Lang, Scenario)>>,
    arch: Option<Arch>,
    memory: &Vec<i32>,
    c: &Cell,
) -> (r: bool)
    ensures
        r == keeps(
            pair_views(*pairs),
            arch,
            memory@,
            *c,
        ),
{
    let pair: bool = match pairs {
        Some(v) => has_pair(v, c.lang, c.scenario),
        None => true,
    };
    let same_arch: bool = match arch {
        Some(a) => a == c.arch,
        None => true,
    };
    pair && has_memory(memory, c.memory_mb) && same_arch
}

/// The cells that the filters keep, in sweep order. An entry that names an
/// unknown or unhosted pair, or a language outside `langs`, is refused, as are an
/// unknown architecture and a memory size that is not swept.
pub fn select_cells(args: &RunArgs, langs: &[Lang]) -> (r: Result<Vec<Cell>, String>)
    ensures
        match (r, filters(*args, langs@)) {
            (Err(m), Err(e)) => m@ == e,
            (Ok(cells), Ok((pairs, arch))) => {
                &&& in_sweep_order(cells@)
                &&& forall|c: Cell| #[trigger]
                    cells@.contains(c) <==> in_matrix(c) && asks_for(langs@, c.lang) && keeps(
                        pairs,
                        arch,
                        args.memory@,
                        c,
                    )
                &&& forall|i: int|
                    0 <= i < cells@.len() ==> (args.memory@.len() > 0 ==> args.memory@.contains(
                        (#[trigger] cells@[i]).memory_mb,
                    ))
                &&& forall|i: int|
                    0 <= i < cells@.len() ==> (args.arch is Some ==> trimmed(args.arch->0@) == (
                    #[trigger] cells@[i]).arch.name())
            },
            _ => false,
        },
{
    proof {
        lemma_spellings();
    }
    let pairs: Option<Vec<(Lang, Scenario)>> = match &args.only {
        None => None,
        Some(s) => {
            let parts: Vec<String> = split(s.as_str(), ',');
            let mut v: Vec<(Lang, Scenario)> = Vec::new();
            let mut i: usize = 0;
            while i < parts.len()
                invariant
                    i <= parts.len(),
                    args.only == Some(*s),
                    texts(parts@) == pieces(s@, ','),
                    only_entries(texts(parts@).take(i as int), langs@) == Ok::<
                        Seq<(Lang, Scenario)>,
                        Seq<char>,
                    >(v@),
                decreases parts.len() - i,
            {
                proof {
                    let head = texts(parts@).take(i + 1);
                    assert(head.drop_last() =~= texts(parts@).take(i as int));
                    assert(head.last() == parts@[i as int]@);
                }
                match parse_only_entry(parts[i].as_str(), langs) {
                    Ok(pair) => {
                        v.push(pair);
                    },
                    Err(m) => {
                        proof {
                            lemma_only_refused(texts(parts@), langs@, i + 1);
                        }
                        return Err(m);
                    },
                }
                i = i + 1;
            }
            proof {
                assert(texts(parts@).take(parts@.len() as int) =~= texts(parts@));
            }
            Some(v)
        },
    };
    let arch: Option<Arch> = match &args.arch {
        None => None,
        Some(a) => match Arch::parse(a.as_str()) {
            Ok(x) => Some(x),
            Err(m) => {
                return Err(m);
            },
        },
    };
    match validate_memory_tiers(args.memory.as_slice()) {
        Ok(_) => {
            proof {
                lemma_memory_complaint(args.memory@, args.memory@.len() as int);
            }
        },
        Err(m) => {
            proof {
                let i = choose|i: int|
                    {
                        &&& 0 <= i < args.memory@.len()
                        &&& !is_tier(args.memory@[i] as int)
                        &&& forall|k: int|
                            0 <= k < i ==> is_tier(#[trigger] args.memory@[k] as int)
                        &&& m@ == tier_message(#[trigger] args.memory@[i] as int)
                    };
                lemma_memory_complaint(args.memory@, i);
            }
            return Err(m);
        },
    }
    let cells: Vec<Cell> = cells_for_langs(langs);
    let ghost pairs_view = pair_views(pairs);
    let mut out: Vec<Cell> = Vec::new();
    let mut i: usize = 0;
    while i < cells.len()
        invariant
            i <= cells.len(),
            in_sweep_order(cells@),
            forall|c: Cell| #[trigger] cells@.contains(c) <==> in_matrix(c) && asks_for(langs@, c.lang),
            pairs_view == pair_views(pairs),
            in_sweep_order(out@),
            forall|k: int|
                0 <= k < out@.len() ==> cells@.contains(#[trigger] out@[k]) && keeps(
                    pairs_view,
                    arch,
                    args.memory@,
                    out@[k],
                ),
            forall|k: int, m: int|
                0 <= k < out@.len() && i <= m < cells@.len() ==> rank(#[trigger] out@[k]) < rank(
                    #[trigger] cells@[m],
                ),
            forall|m: int|
                0 <= m < i && keeps(pairs_view, arch, args.memory@, #[trigger] cells@[m])
                    ==> out@.contains(cells@[m]),
        decreases cells.len() - i,
    {
        let ghost before = out@;
        if is_kept(&pairs, arch, &args.memory, &cells[i]) {
            out.push(cells[i]);
            proof {
                assert(out@.last() == cells@[i as int]);
                assert forall|m: int|
                    0 <= m < i + 1 && keeps(pairs_view, arch, args.memory@, #[trigger] cells@[m])
                    implies out@.contains(cells@[m]) by {
                    if m < i {
                        let k = choose|k: int| 0 <= k < before.len() && before[k] == cells@[m];
                        assert(out@[k] == cells@[m]);
                    }
                }
            }
        }
        i = i + 1;
    }
    proof {
        assert forall|c: Cell|
            in_matrix(c) && asks_for(langs@, c.lang) && keeps(pairs_view, arch, args.memory@, c) implies
            #[trigger] out@.contains(c) by {
            assert(cells@.contains(c));
        }
    }
    Ok(out)
}

} // verus!
