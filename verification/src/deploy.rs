//! Decisions of a deployment: which artifact each cell takes, and what is recorded
//! of its size.
use crate::cell::{ArtifactKey, Cell};
use crate::record::ArtifactSizes;
use crate::text::same_text;
use vstd::prelude::*;
use vstd::string::*;

verus! {

/// A built artifact.
pub struct Artifact {
    pub key: ArtifactKey,
    pub zip_path: String,
    pub zip_size_bytes: u64,
    pub unzipped_size_bytes: u64,
}

/// The position of the first artifact with the given label, or the number of
/// artifacts where none has it.
pub open spec fn artifact_at(artifacts: Seq<Artifact>, label: Seq<char>) -> int
    decreases artifacts.len(),
{
    if artifacts.len() == 0 || artifacts[0].key.label_text() == label {
        0
    } else {
        1 + artifact_at(artifacts.drop_first(), label)
    }
}

/// Finds the artifact with the given label.
pub fn find_artifact(artifacts: &Vec<Artifact>, label: &str) -> (r: Option<usize>)
    ensures
        match r {
            Some(i) => i == artifact_at(artifacts@, label@) && i < artifacts@.len()
                && artifacts@[i as int].key.label_text() == label@,
            None => artifact_at(artifacts@, label@) == artifacts@.len(),
        },
{
    let mut i: usize = 0;
    proof {
        assert(artifacts@.skip(0) =~= artifacts@);
    }
    while i < artifacts.len()
        invariant
            i <= artifacts.len(),
            artifact_at(artifacts@, label@) == i + artifact_at(artifacts@.skip(i as int), label@),
        decreases artifacts.len() - i,
    {
        proof {
            assert(artifacts@.skip(i as int)[0] == artifacts@[i as int]);
            assert(artifacts@.skip(i as int).drop_first() =~= artifacts@.skip(i + 1));
        }
        if same_text(artifacts[i].key.label().as_str(), label) {
            return Some(i);
        }
        i = i + 1;
    }
    None
}

/// Whether a cell's artifact was built.
pub open spec fn is_built(artifacts: Seq<Artifact>, cell: Cell) -> bool {
    artifact_at(artifacts, cell.key().label_text()) < artifacts.len()
}

/// The sizes of a cell's artifact.
pub open spec fn sizes_of(artifacts: Seq<Artifact>, cell: Cell) -> ArtifactSizes {
    let a = artifacts[artifact_at(artifacts, cell.key().label_text())];
    ArtifactSizes { zip: a.zip_size_bytes, unzipped: a.unzipped_size_bytes }
}

/// The complaint about a cell whose artifact was not built.
pub open spec fn unbuilt_message(cell: Cell) -> Seq<char> {
    "no built artifact "@ + cell.key().label_text() + " for cell "@ + cell.full_name()
        + " (cannot record real sizes)"@
}

/// The sizes of every cell's artifact, by function name. Refused where an artifact
/// is missing: the sizes that are recorded are measured, never made up.
pub fn sizes_from_artifacts(artifacts: &Vec<Artifact>, cells: &[Cell]) -> (r: Result<
    Vec<(String, ArtifactSizes)>,
    String,
>)
    ensures
        match r {
            Ok(v) => {
                &&& v@.len() == cells@.len()
                &&& forall|i: int|
                    0 <= i < cells@.len() ==> {
                        &&& is_built(artifacts@, #[trigger] cells@[i])
                        &&& v@[i].0@ == cells@[i].full_name()
                        &&& v@[i].1 == sizes_of(artifacts@, cells@[i])
                    }
            },
            Err(m) => exists|i: int|
                {
                    &&& 0 <= i < cells@.len()
                    &&& !is_built(artifacts@, cells@[i])
                    &&& forall|k: int| 0 <= k < i ==> is_built(artifacts@, #[trigger] cells@[k])
                    &&& m@ == unbuilt_message(#[trigger] cells@[i])
                },
        },
{
    let mut out: Vec<(String, ArtifactSizes)> = Vec::new();
    let mut i: usize = 0;
    while i < cells.len()
        invariant
            i <= cells@.len(),
            out@.len() == i,
            forall|k: int|
                0 <= k < i ==> {
                    &&& is_built(artifacts@, #[trigger] cells@[k])
                    &&& out@[k].0@ == cells@[k].full_name()
                    &&& out@[k].1 == sizes_of(artifacts@, cells@[k])
                },
        decreases cells@.len() - i,
    {
        let label: String = cells[i].artifact_key().label();
        match find_artifact(artifacts, label.as_str()) {
            Some(at) => {
                let sizes: ArtifactSizes = ArtifactSizes {
                    zip: artifacts[at].zip_size_bytes,
                    unzipped: artifacts[at].unzipped_size_bytes,
                };
                out.push((cells[i].function_name(), sizes));
            },
            None => {
                let mut m: String = "no built artifact ".to_owned();
                m.append(label.as_str());
                m.append(" for cell ");
                m.append(cells[i].function_name().as_str());
                m.append(" (cannot record real sizes)");
                proof {
                    assert(m@ == unbuilt_message(cells@[i as int]));
                }
                return Err(m);
            },
        }
        i = i + 1;
    }
    Ok(out)
}

/// The position of the first entry with the given name, or the number of entries.
pub open spec fn entry_at(sizes: Seq<(String, ArtifactSizes)>, name: Seq<char>) -> int
    decreases sizes.len(),
{
    if sizes.len() == 0 || sizes[0].0@ == name {
        0
    } else {
        1 + entry_at(sizes.drop_first(), name)
    }
}

/// The complaint about a cell without sizes.
pub open spec fn unsized_message(cell: Cell) -> Seq<char> {
    "no artifact sizes for cell "@ + cell.full_name() + " (size map and run cells disagree)"@
}

/// The sizes of a cell; refused where there are none.
pub fn cell_sizes(sizes: &Vec<(String, ArtifactSizes)>, cell: &Cell) -> (r: Result<
    ArtifactSizes,
    String,
>)
    ensures
        match r {
            Ok(s) => {
                &&& entry_at(sizes@, cell.full_name()) < sizes@.len()
                &&& s == sizes@[entry_at(sizes@, cell.full_name())].1
            },
            Err(m) => {
                &&& entry_at(sizes@, cell.full_name()) == sizes@.len()
                &&& m@ == unsized_message(*cell)
            },
        },
{
    let name: String = cell.function_name();
    let mut i: usize = 0;
    proof {
        assert(sizes@.skip(0) =~= sizes@);
    }
    while i < sizes.len()
        invariant
            i <= sizes.len(),
            name@ == cell.full_name(),
            entry_at(sizes@, name@) == i + entry_at(sizes@.skip(i as int), name@),
        decreases sizes.len() - i,
    {
        proof {
            assert(sizes@.skip(i as int)[0] == sizes@[i as int]);
            assert(sizes@.skip(i as int).drop_first() =~= sizes@.skip(i + 1));
        }
        if same_text(sizes[i].0.as_str(), name.as_str()) {
            return Ok(sizes[i].1);
        }
        i = i + 1;
    }
    let mut m: String = "no artifact sizes for cell ".to_owned();
    m.append(name.as_str());
    m.append(" (size map and run cells disagree)");
    Err(m)
}

/// Sizes that were computed for cells are found for each of them, and are those of
/// the artifact that the cell deploys.
pub proof fn law_every_cell_has_sizes(
    artifacts: Seq<Artifact>,
    cells: Seq<Cell>,
    sizes: Seq<(String, ArtifactSizes)>,
    i: int,
)
    requires
        sizes.len() == cells.len(),
        forall|k: int|
            0 <= k < cells.len() ==> {
                &&& (#[trigger] cells[k]).valid()
                &&& cells[k].memory_mb >= 0
                &&& sizes[k].0@ == cells[k].full_name()
                &&& sizes[k].1 == sizes_of(artifacts, cells[k])
            },
        0 <= i < cells.len(),
    ensures
        entry_at(sizes, cells[i].full_name()) < sizes.len(),
        sizes[entry_at(sizes, cells[i].full_name())].1 == sizes_of(artifacts, cells[i]),
{
    let name = cells[i].full_name();
    lemma_entry_found(sizes, name, i);
    let at = entry_at(sizes, name);
    assert(cells[at].full_name() == name);
    crate::laws::law_function_names_unique(cells[at], cells[i]);
}

proof fn lemma_entry_found(sizes: Seq<(String, ArtifactSizes)>, name: Seq<char>, i: int)
    requires
        0 <= i < sizes.len(),
        sizes[i].0@ == name,
    ensures
        0 <= entry_at(sizes, name) <= i,
        sizes[entry_at(sizes, name)].0@ == name,
    decreases sizes.len(),
{
    if sizes[0].0@ != name {
        assert(sizes.drop_first()[i - 1] == sizes[i]);
        lemma_entry_found(sizes.drop_first(), name, i - 1);
    }
}

/// The complaint about a cell that cannot be deployed.
pub open spec fn undeployable_message(cell: Cell) -> Seq<char> {
    "no built artifact for "@ + cell.key().label_text() + " (run `build` first)"@
}

/// The artifact that each cell is deployed from, by position; refused where one was
/// not built.
pub fn deploy_sources(artifacts: &Vec<Artifact>, cells: &[Cell]) -> (r: Result<Vec<usize>, String>)
    ensures
        match r {
            Ok(v) => {
                &&& v@.len() == cells@.len()
                &&& forall|i: int|
                    0 <= i < cells@.len() ==> {
                        &&& is_built(artifacts@, #[trigger] cells@[i])
                        &&& v@[i] == artifact_at(artifacts@, cells@[i].key().label_text())
                    }
            },
            Err(m) => exists|i: int|
                {
                    &&& 0 <= i < cells@.len()
                    &&& !is_built(artifacts@, cells@[i])
                    &&& forall|k: int| 0 <= k < i ==> is_built(artifacts@, #[trigger] cells@[k])
                    &&& m@ == undeployable_message(#[trigger] cells@[i])
                },
        },
{
    let mut out: Vec<usize> = Vec::new();
    let mut i: usize = 0;
    while i < cells.len()
        invariant
            i <= cells@.len(),
            out@.len() == i,
            forall|k: int|
                0 <= k < i ==> {
                    &&& is_built(artifacts@, #[trigger] cells@[k])
                    &&& out@[k] == artifact_at(artifacts@, cells@[k].key().label_text())
                },
        decreases cells@.len() - i,
    {
        let label: String = cells[i].artifact_key().label();
        match find_artifact(artifacts, label.as_str()) {
            Some(at) => {
                out.push(at);
            },
            None => {
                let mut m: String = "no built artifact for ".to_owned();
                m.append(label.as_str());
                m.append(" (run `build` first)");
                proof {
                    assert(m@ == undeployable_message(cells@[i as int]));
                }
                return Err(m);
            },
        }
        i = i + 1;
    }
    Ok(out)
}

/// The first failure among the deployments of functions, where there is one.
pub fn first_failure(results: &Vec<Result<(), String>>) -> (r: Result<(), String>)
    ensures
        match r {
            Ok(_) => forall|i: int| 0 <= i < results@.len() ==> #[trigger] results@[i] is Ok,
            Err(m) => exists|i: int|
                {
                    &&& 0 <= i < results@.len()
                    &&& (#[trigger] results@[i]) is Err
                    &&& results@[i]->Err_0@ == m@
                    &&& forall|k: int| 0 <= k < i ==> #[trigger] results@[k] is Ok
                },
        },
{
    let mut i: usize = 0;
    while i < results.len()
        invariant
            i <= results@.len(),
            forall|k: int| 0 <= k < i ==> #[trigger] results@[k] is Ok,
        decreases results@.len() - i,
    {
        match &results[i] {
            Ok(_) => {},
            Err(e) => {
                proof {
                    assert(results@[i as int] is Err);
                }
                return Err(e.clone());
            },
        }
        i = i + 1;
    }
    Ok(())
}

/// Keeps the key that a deployment resolved: the first one is kept, and another
/// one after it is refused, since functions would be wired to a stale key.
pub fn settle_key(stored: &Option<String>, resolved: &str) -> (r: Result<String, String>)
    ensures
        match r {
            Ok(k) => k@ == resolved@ && (stored is None || stored->0@ == resolved@),
            Err(m) => stored is Some && stored->0@ != resolved@ && m@ == "KMS key id already set to "@
                + stored->0@ + " but deploy resolved "@ + resolved@
                + "; functions would be wired to a stale key"@,
        },
{
    match stored {
        None => Ok(resolved.to_owned()),
        Some(s) => {
            if same_text(s.as_str(), resolved) {
                Ok(resolved.to_owned())
            } else {
                let mut m: String = "KMS key id already set to ".to_owned();
                m.append(s.as_str());
                m.append(" but deploy resolved ");
                m.append(resolved);
                m.append("; functions would be wired to a stale key");
                Err(m)
            }
        },
    }
}

} // verus!
