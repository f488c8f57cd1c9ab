//! The functions that the download+start probe measures.
use crate::cell::{ArtifactKey, Cell};
use crate::config::{
    is_tier, tier_message, unknown_message, validate_memory_tiers, Arch, Jitter, Lang, Opt,
    Scenario,
};
use crate::laws::{law_first_seen_is_the_set, lemma_spellings};
use crate::matrix::{all_cells, first_seen, in_matrix, keys_of, unique_artifacts};
use crate::select::{arch_in, has_pair, lang_in, lemma_memory_complaint, memory_complaint, scenario_in};
use crate::text::{
    append_decimal, ascending, decimal, decimal_int, decimal_int_string, first_of, join, joined,
    pieces, same_members, sort_distinct, split, split_once, texts,
};
use vstd::prelude::*;
use vstd::string::*;

verus! {

/// A language, a scenario and a memory size.
pub type Target = (Lang, Scenario, i32);

/// The three axes of the default selection: memory, artifact size, and language
/// on a realistic handler at a low and a high tier.
pub open spec fn default_axes() -> Seq<Target> {
    seq![
        (Lang::Rust, Scenario::Hello, 128i32),
        (Lang::Rust, Scenario::Hello, 512i32),
        (Lang::Rust, Scenario::Hello, 3008i32),
        (Lang::Node, Scenario::Hello, 512i32),
        (Lang::Python, Scenario::Hello, 512i32),
        (Lang::Java, Scenario::Hello, 512i32),
        (Lang::Python, Scenario::Authz, 512i32),
        (Lang::Rust, Scenario::SmithyFull, 512i32),
        (Lang::Java, Scenario::SmithyFull, 512i32),
        (Lang::Python, Scenario::OneClient, 512i32),
        (Lang::Rust, Scenario::SmithyFull, 512i32),
        (Lang::Java, Scenario::SmithyFull, 512i32),
        (Lang::Node, Scenario::SmithyFull, 512i32),
        (Lang::Python, Scenario::OneClient, 512i32),
        (Lang::Go, Scenario::OneClient, 512i32),
        (Lang::Rust, Scenario::SmithyFull, 3008i32),
        (Lang::Java, Scenario::SmithyFull, 3008i32),
        (Lang::Node, Scenario::SmithyFull, 3008i32),
        (Lang::Python, Scenario::OneClient, 3008i32),
        (Lang::Go, Scenario::OneClient, 3008i32),
    ]
}

fn has_target(targets: &Vec<Target>, t: Target) -> (r: bool)
    ensures
        r == targets@.contains(t),
{
    let mut i: usize = 0;
    while i < targets.len()
        invariant
            i <= targets.len(),
            forall|k: int| 0 <= k < i ==> targets@[k] != t,
        decreases targets.len() - i,
    {
        let x: Target = targets[i];
        if x.0 == t.0 && x.1 == t.1 && x.2 == t.2 {
            proof {
                assert(targets@[i as int] == t);
            }
            return true;
        }
        i = i + 1;
    }
    false
}

/// The distinct targets, in the order of their first appearance.
pub fn dedup_targets(targets: Vec<Target>) -> (r: Vec<Target>)
    ensures
        r@ == first_seen(targets@),
{
    let mut out: Vec<Target> = Vec::new();
    let mut i: usize = 0;
    while i < targets.len()
        invariant
            i <= targets.len(),
            out@ == first_seen(targets@.take(i as int)),
        decreases targets.len() - i,
    {
        proof {
            assert(targets@.take(i + 1).drop_last() =~= targets@.take(i as int));
            assert(targets@.take(i + 1).last() == targets@[i as int]);
        }
        if !has_target(&out, targets[i]) {
            out.push(targets[i]);
        }
        i = i + 1;
    }
    proof {
        assert(targets@.take(targets@.len() as int) =~= targets@);
    }
    out
}

/// The default selection: the three axes, each target once.
pub fn default_targets() -> (r: Vec<Target>)
    ensures
        r@ == first_seen(default_axes()),
{
    let mut t: Vec<Target> = Vec::new();
    t.push((Lang::Rust, Scenario::Hello, 128));
    t.push((Lang::Rust, Scenario::Hello, 512));
    t.push((Lang::Rust, Scenario::Hello, 3008));
    t.push((Lang::Node, Scenario::Hello, 512));
    t.push((Lang::Python, Scenario::Hello, 512));
    t.push((Lang::Java, Scenario::Hello, 512));
    t.push((Lang::Python, Scenario::Authz, 512));
    t.push((Lang::Rust, Scenario::SmithyFull, 512));
    t.push((Lang::Java, Scenario::SmithyFull, 512));
    t.push((Lang::Python, Scenario::OneClient, 512));
    push_languages(&mut t, 512);
    push_languages(&mut t, 3008);
    proof {
        assert(t@ =~= default_axes());
    }
    dedup_targets(t)
}

/// Every language on its most realistic handler, at one tier.
fn push_languages(t: &mut Vec<Target>, memory_mb: i32)
    ensures
        final(t)@ == old(t)@ + seq![
            (Lang::Rust, Scenario::SmithyFull, memory_mb),
            (Lang::Java, Scenario::SmithyFull, memory_mb),
            (Lang::Node, Scenario::SmithyFull, memory_mb),
            (Lang::Python, Scenario::OneClient, memory_mb),
            (Lang::Go, Scenario::OneClient, memory_mb),
        ],
{
    t.push((Lang::Rust, Scenario::SmithyFull, memory_mb));
    t.push((Lang::Java, Scenario::SmithyFull, memory_mb));
    t.push((Lang::Node, Scenario::SmithyFull, memory_mb));
    t.push((Lang::Python, Scenario::OneClient, memory_mb));
    t.push((Lang::Go, Scenario::OneClient, memory_mb));
    proof {
        assert(t@ =~= old(t)@ + seq![
            (Lang::Rust, Scenario::SmithyFull, memory_mb),
            (Lang::Java, Scenario::SmithyFull, memory_mb),
            (Lang::Node, Scenario::SmithyFull, memory_mb),
            (Lang::Python, Scenario::OneClient, memory_mb),
            (Lang::Go, Scenario::OneClient, memory_mb),
        ]);
    }
}

/// What the probe was asked for.
pub struct TargetArgs {
    /// Comma-separated `lang:scenario` pairs.
    pub only: Option<String>,
    pub memory: Vec<i32>,
}

/// One entry of the probe's `--only` filter.
pub open spec fn probe_entry(part: Seq<char>) -> Result<(Lang, Scenario), Seq<char>> {
    let colon = first_of(part, ':');
    if colon == part.len() {
        Err("--only entry '"@ + part + "' must be lang:scenario"@)
    } else {
        let l = part.take(colon);
        let s = part.skip(colon + 1);
        match lang_in(l) {
            None => Err(unknown_message("lang"@, l, Lang::names()) + " in '"@ + part + "'"@),
            Some(lang) => match scenario_in(s) {
                None => Err(
                    unknown_message("scenario"@, s, Scenario::names()) + " in '"@ + part + "'"@,
                ),
                Some(scenario) => if !lang.hosts(scenario) {
                    Err(
                        "--only entry '"@ + part + "' selects "@ + lang.name() + ":"@
                            + scenario.name() + ", not part of the matrix"@,
                    )
                } else {
                    Ok((lang, scenario))
                },
            },
        }
    }
}

fn parse_probe_entry(part: &str) -> (r: Result<(Lang, Scenario), String>)
    ensures
        match r {
            Ok(pair) => probe_entry(part@) == Ok::<(Lang, Scenario), Seq<char>>(pair),
            Err(m) => probe_entry(part@) == Err::<(Lang, Scenario), Seq<char>>(m@),
        },
{
    proof {
        lemma_spellings();
    }
    let (l, s): (&str, &str) = match split_once(part, ':') {
        None => {
            let mut out: String = "--only entry '".to_owned();
            out.append(part);
            out.append("' must be lang:scenario");
            return Err(out);
        },
        Some(halves) => halves,
    };
    let lang: Lang = match Lang::parse(l) {
        Ok(lang) => lang,
        Err(m) => {
            let mut out: String = m;
            out.append(" in '");
            out.append(part);
            out.append("'");
            return Err(out);
        },
    };
    let scenario: Scenario = match Scenario::parse(s) {
        Ok(scenario) => scenario,
        Err(m) => {
            let mut out: String = m;
            out.append(" in '");
            out.append(part);
            out.append("'");
            return Err(out);
        },
    };
    if !lang.supports(scenario) {
        let mut out: String = "--only entry '".to_owned();
        out.append(part);
        out.append("' selects ");
        out.append(lang.as_str());
        out.append(":");
        out.append(scenario.as_str());
        out.append(", not part of the matrix");
        return Err(out);
    }
    Ok((lang, scenario))
}

/// Every pair at every memory size, pair by pair.
pub open spec fn crossed(pairs: Seq<(Lang, Scenario)>, mems: Seq<i32>) -> Seq<Target>
    decreases pairs.len(),
{
    if pairs.len() == 0 {
        Seq::empty()
    } else {
        crossed(pairs.drop_last(), mems) + at_each(pairs.last(), mems)
    }
}

/// One pair at every memory size.
pub open spec fn at_each(pair: (Lang, Scenario), mems: Seq<i32>) -> Seq<Target> {
    mems.map_values(|m: i32| (pair.0, pair.1, m))
}

fn push_at_each(out: &mut Vec<Target>, lang: Lang, scenario: Scenario, mems: &Vec<i32>)
    ensures
        final(out)@ == old(out)@ + at_each((lang, scenario), mems@),
{
    let ghost all = at_each((lang, scenario), mems@);
    let mut i: usize = 0;
    proof {
        assert(out@ =~= old(out)@ + all.take(0));
    }
    while i < mems.len()
        invariant
            i <= mems@.len(),
            all == at_each((lang, scenario), mems@),
            out@ == old(out)@ + all.take(i as int),
        decreases mems@.len() - i,
    {
        out.push((lang, scenario, mems[i]));
        proof {
            assert(out@ =~= old(out)@ + all.take(i + 1));
        }
        i = i + 1;
    }
    proof {
        assert(all.take(mems@.len() as int) =~= all);
    }
}

/// The pairs that entries name, or the complaint about the first bad entry.
pub open spec fn probe_entries(parts: Seq<Seq<char>>) -> Result<Seq<(Lang, Scenario)>, Seq<char>>
    decreases parts.len(),
{
    if parts.len() == 0 {
        Ok(Seq::empty())
    } else {
        match probe_entries(parts.drop_last()) {
            Err(m) => Err(m),
            Ok(before) => match probe_entry(parts.last()) {
                Ok(pair) => Ok(before.push(pair)),
                Err(m) => Err(m),
            },
        }
    }
}

proof fn lemma_probe_refused(parts: Seq<Seq<char>>, k: int)
    requires
        0 <= k <= parts.len(),
        probe_entries(parts.take(k)) is Err,
    ensures
        probe_entries(parts) == probe_entries(parts.take(k)),
    decreases parts.len(),
{
    if k == parts.len() {
        assert(parts.take(k) =~= parts);
    } else {
        assert(parts.drop_last().take(k) =~= parts.take(k));
        lemma_probe_refused(parts.drop_last(), k);
    }
}

/// The pairs of targets, memory left out.
pub open spec fn pairs_of(targets: Seq<Target>) -> Seq<(Lang, Scenario)> {
    targets.map_values(|t: Target| (t.0, t.1))
}

/// The memory sizes of pairs that were named: the given ones, or the one where
/// the size axis stands.
pub open spec fn named_memory(memory: Seq<i32>) -> Seq<i32> {
    if memory.len() == 0 {
        seq![512i32]
    } else {
        memory
    }
}

/// The targets that the probe is asked for, or the complaint.
pub open spec fn wanted(args: TargetArgs) -> Result<Seq<Target>, Seq<char>> {
    match memory_complaint(args.memory@) {
        Some(m) => Err(m),
        None => match args.only {
            None => if args.memory@.len() == 0 {
                Ok(first_seen(default_axes()))
            } else {
                Ok(crossed(first_seen(pairs_of(first_seen(default_axes()))), args.memory@))
            },
            Some(only) => match probe_entries(pieces(only@, ',')) {
                Err(m) => Err(m),
                Ok(pairs) => Ok(crossed(pairs, named_memory(args.memory@))),
            },
        },
    }
}

/// The distinct pairs of targets, in the order of their first appearance.
fn distinct_pairs(targets: &Vec<Target>) -> (r: Vec<(Lang, Scenario)>)
    ensures
        r@ == first_seen(pairs_of(targets@)),
{
    let mut out: Vec<(Lang, Scenario)> = Vec::new();
    let mut i: usize = 0;
    while i < targets.len()
        invariant
            i <= targets.len(),
            out@ == first_seen(pairs_of(targets@).take(i as int)),
        decreases targets.len() - i,
    {
        let t: Target = targets[i];
        proof {
            let all = pairs_of(targets@);
            assert(all.take(i + 1).drop_last() =~= all.take(i as int));
            assert(all.take(i + 1).last() == (t.0, t.1));
        }
        if !has_pair(&out, t.0, t.1) {
            out.push((t.0, t.1));
        }
        i = i + 1;
    }
    proof {
        assert(pairs_of(targets@).take(targets@.len() as int) =~= pairs_of(targets@));
    }
    out
}

/// Every pair at every memory size, pair by pair.
fn cross(pairs: &Vec<(Lang, Scenario)>, mems: &Vec<i32>) -> (r: Vec<Target>)
    ensures
        r@ == crossed(pairs@, mems@),
{
    let mut out: Vec<Target> = Vec::new();
    let mut i: usize = 0;
    while i < pairs.len()
        invariant
            i <= pairs.len(),
            out@ == crossed(pairs@.take(i as int), mems@),
        decreases pairs.len() - i,
    {
        push_at_each(&mut out, pairs[i].0, pairs[i].1, mems);
        proof {
            assert(pairs@.take(i + 1).drop_last() =~= pairs@.take(i as int));
            assert(pairs@.take(i + 1).last() == pairs@[i as int]);
        }
        i = i + 1;
    }
    proof {
        assert(pairs@.take(pairs@.len() as int) =~= pairs@);
    }
    out
}

/// Reads what the probe is asked for.
fn wanted_targets(args: &TargetArgs) -> (r: Result<Vec<Target>, String>)
    ensures
        match r {
            Ok(v) => wanted(*args) == Ok::<Seq<Target>, Seq<char>>(v@),
            Err(m) => wanted(*args) == Err::<Seq<Target>, Seq<char>>(m@),
        },
{
    match validate_memory_tiers(args.memory.as_slice()) {
        Ok(_) => {
            proof {
                lemma_memory_complaint(args.memory@, args.memory@.len() as int);
            }
        },
        Err(m) => {
            proof {
                let i = choose|i: int|
                    {
                        &&& 0 <= i < args.memory@.len()
                        &&& !is_tier(args.memory@[i] as int)
                        &&& forall|k: int|
                            0 <= k < i ==> is_tier(#[trigger] args.memory@[k] as int)
                        &&& m@ == tier_message(#[trigger] args.memory@[i] as int)
                    };
                lemma_memory_complaint(args.memory@, i);
            }
            return Err(m);
        },
    }
    match &args.only {
        None => {
            let defaults: Vec<Target> = default_targets();
            if args.memory.len() == 0 {
                Ok(defaults)
            } else {
                Ok(cross(&distinct_pairs(&defaults), &args.memory))
            }
        },
        Some(only) => {
            let parts: Vec<String> = split(only.as_str(), ',');
            let mut pairs: Vec<(Lang, Scenario)> = Vec::new();
            let mut i: usize = 0;
            while i < parts.len()
                invariant
                    i <= parts.len(),
                    args.only == Some(*only),
                    memory_complaint(args.memory@) is None,
                    texts(parts@) == pieces(only@, ','),
                    probe_entries(texts(parts@).take(i as int)) == Ok::<
                        Seq<(Lang, Scenario)>,
                        Seq<char>,
                    >(pairs@),
                decreases parts.len() - i,
            {
                proof {
                    let head = texts(parts@).take(i + 1);
                    assert(head.drop_last() =~= texts(parts@).take(i as int));
                    assert(head.last() == parts@[i as int]@);
                }
                match parse_probe_entry(parts[i].as_str()) {
                    Ok(pair) => {
                        pairs.push(pair);
                    },
                    Err(m) => {
                        proof {
                            lemma_probe_refused(texts(parts@), i + 1);
                        }
                        return Err(m);
                    },
                }
                i = i + 1;
            }
            proof {
                assert(texts(parts@).take(parts@.len() as int) =~= texts(parts@));
            }
            if args.memory.len() == 0 {
                let mut one: Vec<i32> = Vec::new();
                one.push(512);
                proof {
                    assert(one@ =~= named_memory(args.memory@));
                }
                Ok(cross(&pairs, &one))
            } else {
                Ok(cross(&pairs, &args.memory))
            }
        },
    }
}

/// The plain cell of a target: for Rust the headline build, elsewhere the one
/// without SnapStart.
pub open spec fn plain_cell(t: Target, arch: Arch) -> Cell {
    let rust = t.0 == Lang::Rust;
    Cell {
        lang: t.0,
        scenario: t.1,
        arch,
        memory_mb: t.2,
        opt: if rust {
            Some(Opt::O3)
        } else {
            None
        },
        snapstart: false,
        jitter: if rust {
            Some(Jitter::Off)
        } else {
            None
        },
    }
}

/// The plain cell of a target in the matrix, where it has one.
fn find_plain(all: &Vec<Cell>, t: Target, arch: Arch) -> (r: Option<Cell>)
    requires
        forall|c: Cell| #[trigger] all@.contains(c) <==> in_matrix(c),
    ensures
        r == (if in_matrix(plain_cell(t, arch)) {
            Some(plain_cell(t, arch))
        } else {
            None
        }),
{
    let mut i: usize = 0;
    while i < all.len()
        invariant
            i <= all.len(),
            forall|c: Cell| #[trigger] all@.contains(c) <==> in_matrix(c),
            forall|k: int| 0 <= k < i ==> all@[k] != plain_cell(t, arch),
        decreases all.len() - i,
    {
        let c: Cell = all[i];
        proof {
            assert(all@.contains(all@[i as int]));
        }
        if c.lang == t.0 && c.scenario == t.1 && c.arch == arch && c.memory_mb == t.2 && !c.snapstart
            && !matches!(c.jitter, Some(Jitter::On)) && (t.0 != Lang::Rust || matches!(
            c.opt,
            Some(Opt::O3)
        )) {
            proof {
                assert(c == plain_cell(t, arch));
            }
            return Some(c);
        }
        i = i + 1;
    }
    proof {
        if in_matrix(plain_cell(t, arch)) {
            assert(all@.contains(plain_cell(t, arch)));
        }
    }
    None
}

/// The note about a target below its scenario's floor.
pub open spec fn skip_note(t: Target) -> Seq<char> {
    "skip "@ + t.0.name() + ":"@ + t.1.name() + " @ "@ + decimal_int(t.2 as int)
        + " MB (below floor "@ + decimal_int(t.1.floor_mb(t.0, false)) + " MB)"@
}

/// The complaint about a target that the matrix does not hold.
pub open spec fn no_cell_message(t: Target, arch: Arch) -> Seq<char> {
    "no matrix cell for "@ + t.0.name() + ":"@ + t.1.name() + " @ "@ + decimal_int(t.2 as int)
        + " MB "@ + arch.name() + " (check --arch and the matrix)"@
}

/// The cells of targets, each once in the order of the targets, and the notes
/// about those below their floor.
pub open spec fn resolved(targets: Seq<Target>, arch: Arch) -> Result<
    (Seq<Cell>, Seq<Seq<char>>),
    Seq<char>,
>
    decreases targets.len(),
{
    if targets.len() == 0 {
        Ok((Seq::empty(), Seq::empty()))
    } else {
        match resolved(targets.drop_last(), arch) {
            Err(m) => Err(m),
            Ok((cells, notes)) => {
                let t = targets.last();
                let c = plain_cell(t, arch);
                if t.2 < t.1.floor_mb(t.0, false) {
                    Ok((cells, notes.push(skip_note(t))))
                } else if !in_matrix(c) {
                    Err(no_cell_message(t, arch))
                } else if cells.contains(c) {
                    Ok((cells, notes))
                } else {
                    Ok((cells.push(c), notes))
                }
            },
        }
    }
}

proof fn lemma_resolved_refused(targets: Seq<Target>, arch: Arch, k: int)
    requires
        0 <= k <= targets.len(),
        resolved(targets.take(k), arch) is Err,
    ensures
        resolved(targets, arch) == resolved(targets.take(k), arch),
    decreases targets.len(),
{
    if k == targets.len() {
        assert(targets.take(k) =~= targets);
    } else {
        assert(targets.drop_last().take(k) =~= targets.take(k));
        lemma_resolved_refused(targets.drop_last(), arch, k);
    }
}

fn has_cell(cells: &Vec<Cell>, c: Cell) -> (r: bool)
    ensures
        r == cells@.contains(c),
{
    let mut i: usize = 0;
    while i < cells.len()
        invariant
            i <= cells.len(),
            forall|k: int| 0 <= k < i ==> cells@[k] != c,
        decreases cells.len() - i,
    {
        if cells[i] == c {
            return true;
        }
        i = i + 1;
    }
    false
}

fn skip_text(t: Target) -> (r: String)
    ensures
        r@ == skip_note(t),
{
    let mut out: String = "skip ".to_owned();
    out.append(t.0.as_str());
    out.append(":");
    out.append(t.1.as_str());
    out.append(" @ ");
    out.append(decimal_int_string(t.2 as i64).as_str());
    out.append(" MB (below floor ");
    out.append(decimal_int_string(t.1.min_memory_mb(t.0, false) as i64).as_str());
    out.append(" MB)");
    out
}

fn no_cell_text(t: Target, arch: Arch) -> (r: String)
    ensures
        r@ == no_cell_message(t, arch),
{
    let mut out: String = "no matrix cell for ".to_owned();
    out.append(t.0.as_str());
    out.append(":");
    out.append(t.1.as_str());
    out.append(" @ ");
    out.append(decimal_int_string(t.2 as i64).as_str());
    out.append(" MB ");
    out.append(arch.as_str());
    out.append(" (check --arch and the matrix)");
    out
}

/// The cells to probe, and the notes about targets that were passed over.
pub struct Targets {
    pub cells: Vec<Cell>,
    pub notes: Vec<String>,
}

/// Resolves the targets of the probe against the matrix, each cell once, leaving
/// out with a note those below their scenario's memory floor.
pub fn resolve_targets(args: &TargetArgs, arch: Arch) -> (r: Result<Targets, String>)
    ensures
        match wanted(*args) {
            Err(m) => r is Err && r->Err_0@ == m,
            Ok(targets) => match (r, resolved(targets, arch)) {
                (Ok(t), Ok((cells, notes))) => t.cells@ == cells && texts(t.notes@) == notes,
                (Err(e), Err(m)) => e@ == m,
                _ => false,
            },
        },
{
    let targets: Vec<Target> = match wanted_targets(args) {
        Ok(targets) => targets,
        Err(m) => {
            return Err(m);
        },
    };
    let all: Vec<Cell> = all_cells();
    let mut cells: Vec<Cell> = Vec::new();
    let mut notes: Vec<String> = Vec::new();
    let mut i: usize = 0;
    proof {
        assert(texts(notes@) =~= Seq::<Seq<char>>::empty());
    }
    while i < targets.len()
        invariant
            i <= targets.len(),
            wanted(*args) == Ok::<Seq<Target>, Seq<char>>(targets@),
            forall|c: Cell| #[trigger] all@.contains(c) <==> in_matrix(c),
            resolved(targets@.take(i as int), arch) == Ok::<
                (Seq<Cell>, Seq<Seq<char>>),
                Seq<char>,
            >((cells@, texts(notes@))),
        decreases targets.len() - i,
    {
        let t: Target = targets[i];
        let ghost notes_before = texts(notes@);
        proof {
            assert(targets@.take(i + 1).drop_last() =~= targets@.take(i as int));
            assert(targets@.take(i + 1).last() == t);
        }
        if t.2 < t.1.min_memory_mb(t.0, false) {
            notes.push(skip_text(t));
            proof {
                assert(texts(notes@) =~= notes_before.push(skip_note(t)));
            }
        } else {
            match find_plain(&all, t, arch) {
                Some(c) => {
                    if !has_cell(&cells, c) {
                        cells.push(c);
                    }
                },
                None => {
                    proof {
                        lemma_resolved_refused(targets@, arch, i + 1);
                    }
                    return Err(no_cell_text(t, arch));
                },
            }
        }
        i = i + 1;
    }
    proof {
        assert(targets@.take(targets@.len() as int) =~= targets@);
    }
    Ok(Targets { cells, notes })
}

/// The targets that the probe is asked for name pairs that their language hosts,
/// at swept tiers.
proof fn lemma_wanted_in_reach(args: TargetArgs)
    requires
        wanted(args) is Ok,
    ensures
        forall|k: int|
            0 <= k < wanted(args)->Ok_0.len() ==> {
                let t = #[trigger] wanted(args)->Ok_0[k];
                t.0.hosts(t.1) && is_tier(t.2 as int)
            },
{
    let axes = default_axes();
    assert forall|k: int| 0 <= k < axes.len() implies (#[trigger] axes[k]).0.hosts(axes[k].1) && is_tier(
        axes[k].2 as int,
    ) by {}
    law_first_seen_is_the_set(axes);
    let defaults = first_seen(axes);
    assert forall|k: int| 0 <= k < defaults.len() implies (#[trigger] defaults[k]).0.hosts(
        defaults[k].1,
    ) && is_tier(defaults[k].2 as int) by {
        assert(defaults.contains(defaults[k]));
        assert(axes.contains(defaults[k]));
        let i = choose|i: int| 0 <= i < axes.len() && axes[i] == defaults[k];
        assert(axes[i].0.hosts(axes[i].1));
    }
    lemma_no_memory_complaint(args.memory@);
    match args.only {
        None => {
            if args.memory@.len() > 0 {
                let pairs = pairs_of(defaults);
                law_first_seen_is_the_set(pairs);
                let distinct = first_seen(pairs);
                assert forall|k: int| 0 <= k < distinct.len() implies (#[trigger] distinct[k]).0.hosts(
                    distinct[k].1,
                ) by {
                    assert(distinct.contains(distinct[k]));
                    assert(pairs.contains(distinct[k]));
                    let i = choose|i: int| 0 <= i < pairs.len() && pairs[i] == distinct[k];
                    assert(defaults[i].0.hosts(defaults[i].1));
                }
                lemma_crossed_in_reach(distinct, args.memory@);
            }
        },
        Some(only) => {
            let parts = pieces(only@, ',');
            lemma_entries_hosted(parts);
            lemma_crossed_in_reach(probe_entries(parts)->Ok_0, named_memory(args.memory@));
        },
    }
}

proof fn lemma_no_memory_complaint(values: Seq<i32>)
    requires
        memory_complaint(values) is None,
    ensures
        forall|k: int| 0 <= k < values.len() ==> is_tier(#[trigger] values[k] as int),
    decreases values.len(),
{
    if values.len() > 0 {
        let rest = values.drop_first();
        lemma_no_memory_complaint(rest);
        assert forall|k: int| 0 <= k < values.len() implies is_tier(#[trigger] values[k] as int) by {
            if k > 0 {
                assert(rest[k - 1] == values[k]);
            }
        }
    }
}

proof fn lemma_entries_hosted(parts: Seq<Seq<char>>)
    requires
        probe_entries(parts) is Ok,
    ensures
        forall|k: int|
            0 <= k < probe_entries(parts)->Ok_0.len() ==> (#[trigger] probe_entries(
                parts,
            )->Ok_0[k]).0.hosts(probe_entries(parts)->Ok_0[k].1),
    decreases parts.len(),
{
    if parts.len() > 0 {
        lemma_entries_hosted(parts.drop_last());
    }
}

proof fn lemma_crossed_in_reach(pairs: Seq<(Lang, Scenario)>, mems: Seq<i32>)
    requires
        forall|k: int| 0 <= k < pairs.len() ==> (#[trigger] pairs[k]).0.hosts(pairs[k].1),
        forall|k: int| 0 <= k < mems.len() ==> is_tier(#[trigger] mems[k] as int),
    ensures
        forall|k: int|
            0 <= k < crossed(pairs, mems).len() ==> {
                let t = #[trigger] crossed(pairs, mems)[k];
                t.0.hosts(t.1) && is_tier(t.2 as int)
            },
    decreases pairs.len(),
{
    if pairs.len() > 0 {
        let front = pairs.drop_last();
        assert forall|k: int| 0 <= k < front.len() implies (#[trigger] front[k]).0.hosts(front[k].1) by {
            assert(front[k] == pairs[k]);
        }
        lemma_crossed_in_reach(front, mems);
        let last = pairs[pairs.len() - 1];
        assert(last.0.hosts(last.1));
        let before = crossed(front, mems);
        assert forall|k: int| 0 <= k < crossed(pairs, mems).len() implies {
            let t = #[trigger] crossed(pairs, mems)[k];
            t.0.hosts(t.1) && is_tier(t.2 as int)
        } by {
            if k < before.len() {
                assert(crossed(pairs, mems)[k] == before[k]);
            } else {
                assert(is_tier(mems[k - before.len()] as int));
            }
        }
    }
}

proof fn lemma_resolved_ok(targets: Seq<Target>, arch: Arch)
    requires
        forall|k: int|
            0 <= k < targets.len() ==> (#[trigger] targets[k]).0.hosts(targets[k].1) && is_tier(
                targets[k].2 as int,
            ),
    ensures
        resolved(targets, arch) is Ok,
        resolved(targets, arch)->Ok_0.0.no_duplicates(),
        forall|k: int|
            0 <= k < resolved(targets, arch)->Ok_0.0.len() ==> {
                let c = #[trigger] resolved(targets, arch)->Ok_0.0[k];
                in_matrix(c) && !c.snapstart && c.jitter != Some(Jitter::On) && c.arch == arch
            },
    decreases targets.len(),
{
    if targets.len() > 0 {
        let front = targets.drop_last();
        assert forall|k: int| 0 <= k < front.len() implies (#[trigger] front[k]).0.hosts(front[k].1)
            && is_tier(front[k].2 as int) by {
            assert(front[k] == targets[k]);
        }
        lemma_resolved_ok(front, arch);
        let t = targets[targets.len() - 1];
        assert(t.0.hosts(t.1) && is_tier(t.2 as int));
    }
}

/// Whatever the probe is asked for, once the filters are accepted every target is
/// found: the cells are plain cells of the matrix on the asked architecture, none
/// of them twice.
pub proof fn law_targets_are_plain_matrix_cells(args: TargetArgs, arch: Arch)
    requires
        wanted(args) is Ok,
    ensures
        resolved(wanted(args)->Ok_0, arch) is Ok,
        resolved(wanted(args)->Ok_0, arch)->Ok_0.0.no_duplicates(),
        forall|k: int|
            0 <= k < resolved(wanted(args)->Ok_0, arch)->Ok_0.0.len() ==> {
                let c = #[trigger] resolved(wanted(args)->Ok_0, arch)->Ok_0.0[k];
                in_matrix(c) && !c.snapstart && c.jitter != Some(Jitter::On) && c.arch == arch
            },
{
    lemma_wanted_in_reach(args);
    lemma_resolved_ok(wanted(args)->Ok_0, arch);
}

proof fn lemma_no_notes(targets: Seq<Target>, arch: Arch)
    requires
        forall|k: int|
            0 <= k < targets.len() ==> {
                let t = #[trigger] targets[k];
                t.0.hosts(t.1) && is_tier(t.2 as int) && t.2 >= t.1.floor_mb(t.0, false)
            },
    ensures
        resolved(targets, arch) is Ok,
        resolved(targets, arch)->Ok_0.1.len() == 0,
        forall|k: int|
            0 <= k < targets.len() ==> resolved(targets, arch)->Ok_0.0.contains(
                plain_cell(#[trigger] targets[k], arch),
            ),
    decreases targets.len(),
{
    if targets.len() > 0 {
        let front = targets.drop_last();
        assert forall|k: int| 0 <= k < front.len() implies {
            let t = #[trigger] front[k];
            t.0.hosts(t.1) && is_tier(t.2 as int) && t.2 >= t.1.floor_mb(t.0, false)
        } by {
            assert(front[k] == targets[k]);
        }
        lemma_no_notes(front, arch);
        let t = targets[targets.len() - 1];
        let before = resolved(front, arch)->Ok_0.0;
        let cells = resolved(targets, arch)->Ok_0.0;
        assert(in_matrix(plain_cell(t, arch)));
        assert forall|k: int| 0 <= k < targets.len() implies cells.contains(
            plain_cell(#[trigger] targets[k], arch),
        ) by {
            if k < front.len() {
                assert(front[k] == targets[k]);
                let c = plain_cell(front[k], arch);
                assert(before.contains(c));
                let i = choose|i: int| 0 <= i < before.len() && before[i] == c;
                assert(cells[i] == c);
            } else if !before.contains(plain_cell(t, arch)) {
                assert(cells[before.len() as int] == plain_cell(t, arch));
            }
        }
    }
}

/// Every target of the default selection is probed, on either architecture: none
/// is below its scenario's floor.
pub proof fn law_default_targets_are_all_probed(arch: Arch)
    ensures
        resolved(first_seen(default_axes()), arch) is Ok,
        resolved(first_seen(default_axes()), arch)->Ok_0.1.len() == 0,
        forall|k: int|
            0 <= k < default_axes().len() ==> resolved(
                first_seen(default_axes()),
                arch,
            )->Ok_0.0.contains(plain_cell(#[trigger] default_axes()[k], arch)),
{
    let axes = default_axes();
    let targets = first_seen(axes);
    law_first_seen_is_the_set(axes);
    assert forall|k: int| 0 <= k < axes.len() implies {
        let t = #[trigger] axes[k];
        t.0.hosts(t.1) && is_tier(t.2 as int) && t.2 >= t.1.floor_mb(t.0, false)
    } by {}
    assert forall|k: int| 0 <= k < targets.len() implies {
        let t = #[trigger] targets[k];
        t.0.hosts(t.1) && is_tier(t.2 as int) && t.2 >= t.1.floor_mb(t.0, false)
    } by {
        assert(targets.contains(targets[k]));
        assert(axes.contains(targets[k]));
        let i = choose|i: int| 0 <= i < axes.len() && axes[i] == targets[k];
        assert(axes[i] == targets[k]);
    }
    lemma_no_notes(targets, arch);
    assert forall|k: int| 0 <= k < axes.len() implies resolved(targets, arch)->Ok_0.0.contains(
        plain_cell(#[trigger] axes[k], arch),
    ) by {
        assert(axes.contains(axes[k]));
        assert(targets.contains(axes[k]));
        let i = choose|i: int| 0 <= i < targets.len() && targets[i] == axes[k];
        assert(targets[i] == axes[k]);
    }
}

/// What the probe measures: its cells, the artifacts they deploy, and the notes
/// about targets that were passed over.
pub struct ProbePlan {
    pub arch: Arch,
    pub cells: Vec<Cell>,
    pub keys: Vec<ArtifactKey>,
    pub notes: Vec<String>,
}

/// Plans the download+start probe. Refused are an unknown architecture, filters
/// that `resolve_targets` refuses, and filters that leave no cell.
pub fn plan_download_start(args: &TargetArgs, arch: &str) -> (r: Result<ProbePlan, String>)
    ensures
        match arch_in(arch@) {
            None => r is Err && r->Err_0@ == unknown_message("arch"@, arch@, Arch::names()),
            Some(a) => match wanted(*args) {
                Err(m) => r is Err && r->Err_0@ == m,
                Ok(targets) => {
                    let cells = resolved(targets, a)->Ok_0.0;
                    match r {
                        Ok(plan) => {
                            &&& cells.len() > 0
                            &&& plan.arch == a
                            &&& plan.cells@ == cells
                            &&& plan.keys@ == first_seen(keys_of(cells))
                            &&& texts(plan.notes@) == resolved(targets, a)->Ok_0.1
                        },
                        Err(m) => {
                            &&& cells.len() == 0
                            &&& m@
                                == "no target cells selected (check --only/--memory/--arch and scenario memory floors)"@
                        },
                    }
                },
            },
        },
{
    proof {
        lemma_spellings();
    }
    let arch: Arch = match Arch::parse(arch) {
        Ok(a) => a,
        Err(m) => {
            return Err(m);
        },
    };
    proof {
        if wanted(*args) is Ok {
            law_targets_are_plain_matrix_cells(*args, arch);
        }
    }
    let targets: Targets = match resolve_targets(args, arch) {
        Ok(targets) => targets,
        Err(m) => {
            return Err(m);
        },
    };
    if targets.cells.len() == 0 {
        return Err(
            "no target cells selected (check --only/--memory/--arch and scenario memory floors)".to_owned(),
        );
    }
    let keys: Vec<ArtifactKey> = unique_artifacts(targets.cells.as_slice());
    Ok(ProbePlan { arch, cells: targets.cells, keys, notes: targets.notes })
}

/// The complaint about targets that are not deployed, given their distinct names
/// in ascending order.
pub open spec fn undeployed_message(names: Seq<Seq<char>>) -> Seq<char> {
    decimal(names.len()) + " probe function(s) are not deployed: "@ + joined(names, ", "@)
        + ". Deploy the matrix first (`bencher run` or `bencher run --skip-build`)."@
}

/// Accepts the probe exactly where no target is missing; the complaint lists each
/// missing function once, in ascending order.
pub fn check_targets_deployed(missing: &Vec<String>) -> (r: Result<(), String>)
    ensures
        match r {
            Ok(_) => missing@.len() == 0,
            Err(m) => missing@.len() > 0 && exists|names: Seq<Seq<char>>|
                {
                    &&& #[trigger] ascending(names)
                    &&& same_members(names, texts(missing@))
                    &&& m@ == undeployed_message(names)
                },
        },
{
    if missing.len() == 0 {
        return Ok(());
    }
    let names: Vec<String> = sort_distinct(missing);
    let mut out: String = String::new();
    append_decimal(&mut out, names.len() as u128);
    out.append(" probe function(s) are not deployed: ");
    out.append(join(&names, ", ").as_str());
    out.append(". Deploy the matrix first (`bencher run` or `bencher run --skip-build`).");
    proof {
        let views = texts(names@);
        assert(views.len() == names@.len());
        assert(out@ =~= undeployed_message(views));
        assert(ascending(views));
    }
    Err(out)
}

/// Where a probe writes its output: where it was told to, or a file of its own for
/// each run.
pub fn probe_out_path(explicit: &Option<String>, kind: &str, run_id: &str) -> (r: String)
    ensures
        r@ == (match *explicit {
            Some(p) => p@,
            None => "results/lifecycle-"@ + kind@ + "-"@ + run_id@ + ".json"@,
        }),
{
    match explicit {
        Some(p) => p.clone(),
        None => {
            let mut out: String = "results/lifecycle-".to_owned();
            out.append(kind);
            out.append("-");
            out.append(run_id);
            out.append(".json");
            out
        },
    }
}

} // verus!
