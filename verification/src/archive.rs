//! Zip archives in memory.
use crate::codec::maybe_bytes;
use std::io::{Read, Write};
use vstd::prelude::*;
use vstd::utf8::encode_utf8;

verus! {

/// An archive that is being written, in memory.
#[verifier::external_body]
pub struct ZipDraft {
    writer: zip::ZipWriter<std::io::Cursor<Vec<u8>>>,
}

/// The entries of a draft, in the order in which they were added: name,
/// permissions, whether the body is stored as it is, and the body.
pub uninterp spec fn drafted(d: ZipDraft) -> Seq<(Seq<char>, u32, bool, Seq<u8>)>;

/// Whether nothing has gone wrong with a draft.
pub uninterp spec fn sound(d: ZipDraft) -> bool;

/// The body that an archive gives back under a name, where it has a readable
/// entry of that name.
pub uninterp spec fn zip_member(archive: Seq<u8>, name: Seq<char>) -> Option<Seq<u8>>;

/// The unix mode that an archive gives for the entry of a name, where it has one.
pub uninterp spec fn zip_mode(archive: Seq<u8>, name: Seq<char>) -> Option<u32>;

/// The uncompressed sizes that an archive gives for its entries, in order;
/// nothing where it cannot be read.
pub uninterp spec fn zip_sizes(archive: Seq<u8>) -> Option<Seq<u64>>;

/// The bytes that a name takes in an archive.
pub open spec fn name_length(name: Seq<char>) -> int {
    encode_utf8(name).len() as int
}

/// Whether a name is short enough for an entry.
pub open spec fn is_entry_name(name: Seq<char>) -> bool {
    name_length(name) <= 0xffff
}

/// The mode of an entry that was added with some permissions: those of a regular
/// file.
pub open spec fn file_mode(permissions: u32) -> u32 {
    0o100000u32 | (permissions & 0o777u32)
}

/// The bytes that stored entries take in an archive: their headers, twice their
/// names, and their bodies.
pub open spec fn stored_length(entries: Seq<(Seq<char>, u32, bool, Seq<u8>)>) -> int
    decreases entries.len(),
{
    if entries.len() == 0 {
        22
    } else {
        stored_length(entries.drop_last()) + 76 + 2 * name_length(entries.last().0)
            + entries.last().3.len()
    }
}

/// Whether every name is short enough for an entry.
pub open spec fn all_named(entries: Seq<(Seq<char>, u32, bool, Seq<u8>)>) -> bool {
    forall|i: int| 0 <= i < entries.len() ==> is_entry_name((#[trigger] entries[i]).0)
}

/// Whether entries, their headers counted, stay well within what an archive holds
/// without extensions, deflated or not.
pub open spec fn fits_archive(entries: Seq<(Seq<char>, u32, bool, Seq<u8>)>) -> bool {
    entries.len() < 0xffff && stored_length(entries) < 0x7fff_ffff
}

/// Whether entries are all stored as they are, none larger than an entry may be.
pub open spec fn storable(entries: Seq<(Seq<char>, u32, bool, Seq<u8>)>) -> bool {
    forall|i: int|
        0 <= i < entries.len() ==> (#[trigger] entries[i]).2 && entries[i].3.len() <= 0xffff_ffff
}

/// Whether entries can be written for certain.
pub open spec fn writable(entries: Seq<(Seq<char>, u32, bool, Seq<u8>)>) -> bool {
    fits_archive(entries) || storable(entries)
}

/// Whether a name has no control characters.
pub open spec fn lacks_controls(name: Seq<char>) -> bool {
    forall|i: int| 0 <= i < name.len() ==> ' ' <= #[trigger] name[i]
}

/// Whether entries can be read back for certain: their names are short enough, and
/// where the archive is large, its end cannot be taken for another record.
pub open spec fn reads_back(entries: Seq<(Seq<char>, u32, bool, Seq<u8>)>) -> bool {
    &&& all_named(entries)
    &&& fits_archive(entries) || (lacks_controls(entries.last().0) && (entries.len() == 1
        || name_length(entries.last().0) != 16))
}

/// Whether no entry has a name.
pub open spec fn lacks_name(
    entries: Seq<(Seq<char>, u32, bool, Seq<u8>)>,
    name: Seq<char>,
) -> bool {
    forall|i: int| 0 <= i < entries.len() ==> (#[trigger] entries[i]).0 != name
}

/// `zip::ZipWriter::new` over an empty buffer: an archive without entries.
#[verifier::external_body]
pub(crate) fn new_draft() -> (r: ZipDraft)
    ensures
        drafted(r) == Seq::<(Seq<char>, u32, bool, Seq<u8>)>::empty(),
        sound(r),
{
    ZipDraft { writer: zip::ZipWriter::new(std::io::Cursor::new(Vec::new())) }
}

/// `zip::ZipWriter::start_file` and the writing of the body: adds an entry with
/// the given permissions, stored as it is or deflated. It succeeds on a sound draft
/// for a name that is not in it yet, as long as the entries can be written. It fails
/// for a name that a sound draft has already, for one whose length does not fit 16
/// bits, and for a body whose length does not fit 32 bits, which needs an option that
/// is not set. Where it fails, nothing is claimed of the draft.
#[verifier::external_body]
pub(crate) fn add_entry(
    draft: &mut ZipDraft,
    name: &str,
    mode: u32,
    stored: bool,
    body: &Vec<u8>,
) -> (r: Result<(), String>)
    ensures
        r is Ok ==> drafted(*final(draft)) == drafted(*old(draft)).push(
            (name@, mode, stored, body@),
        ),
        r is Ok && sound(*old(draft)) ==> sound(*final(draft)),
        body@.len() > 0xffff_ffff ==> r is Err,
        !is_entry_name(name@) ==> r is Err,
        sound(*old(draft)) && !lacks_name(drafted(*old(draft)), name@) ==> r is Err,
        sound(*old(draft)) && is_entry_name(name@) && lacks_name(drafted(*old(draft)), name@)
            && writable(drafted(*old(draft)).push((name@, mode, stored, body@))) ==> r is Ok,
{
    let method = match stored {
        true => zip::CompressionMethod::Stored,
        false => zip::CompressionMethod::Deflated,
    };
    let options: zip::write::FileOptions<()> = zip::write::FileOptions::default()
        .compression_method(method)
        .unix_permissions(mode);
    draft.writer.start_file(name, options).map_err(|e| e.to_string())?;
    draft.writer.write_all(body).map_err(|e| e.to_string())
}

/// `zip::ZipWriter::finish`: the bytes of the archive. It succeeds on a sound draft
/// whose entries can be written. What was added to a sound draft is what
/// `zip_member`, `zip_mode` and `zip_sizes` give back, where it reads back for
/// certain: in an archive at the limit of what goes without extensions, a last name
/// of sixteen bytes, or one with control characters, lets the tail of its header
/// stand where a reader looks for an extension, and of that nothing is claimed. Where every body is stored, the
/// length is that of the bodies and their headers, and of the extensions of a large
/// archive: at most 28 bytes for an entry and 76 at the end.
#[verifier::external_body]
pub(crate) fn finish(draft: ZipDraft) -> (r: Result<Vec<u8>, String>)
    ensures
        sound(draft) && all_named(drafted(draft)) && writable(drafted(draft)) ==> r is Ok,
        r is Ok && sound(draft) && reads_back(drafted(draft)) ==> {
            &&& forall|i: int|
                0 <= i < drafted(draft).len() ==> zip_member(
                    r->Ok_0@,
                    (#[trigger] drafted(draft)[i]).0,
                ) == Some(drafted(draft)[i].3)
            &&& forall|i: int|
                0 <= i < drafted(draft).len() ==> zip_mode(
                    r->Ok_0@,
                    (#[trigger] drafted(draft)[i]).0,
                ) == Some(file_mode(drafted(draft)[i].1))
            &&& zip_sizes(r->Ok_0@) == Some(
                drafted(draft).map_values(|e: (Seq<char>, u32, bool, Seq<u8>)| e.3.len() as u64),
            )
        },
        r is Ok && sound(draft) && all_named(drafted(draft)) && storable(drafted(draft)) ==> {
            let least = stored_length(drafted(draft));
            &&& least <= r->Ok_0@.len() <= least + 28 * drafted(draft).len() + 76
            &&& least <= 0xffff_ffff && drafted(draft).len() <= 0xffff ==> r->Ok_0@.len() == least
        },
{
    draft.writer.finish().map(|c| c.into_inner()).map_err(|e| e.to_string())
}

/// `zip::ZipArchive::by_name` and the reading of the entry: its body, where the
/// archive has it. Which bytes are an archive is the zip crate's to say: the
/// result is named, not spelled out.
#[verifier::external_body]
pub(crate) fn read_entry(archive: &Vec<u8>, name: &str) -> (r: Option<Vec<u8>>)
    ensures
        maybe_bytes(r) == zip_member(archive@, name@),
{
    let mut zip = zip::ZipArchive::new(std::io::Cursor::new(archive)).ok()?;
    let mut body = Vec::new();
    zip.by_name(name).ok()?.read_to_end(&mut body).ok()?;
    Some(body)
}

/// `zip::ZipArchive::by_name` and `unix_mode`: the mode of an entry, where the
/// archive has it. Which bytes are an archive is the zip crate's to say: the result
/// is named, not spelled out.
#[verifier::external_body]
fn read_mode(archive: &Vec<u8>, name: &str) -> (r: Option<u32>)
    ensures
        r == zip_mode(archive@, name@),
{
    let mut zip = zip::ZipArchive::new(std::io::Cursor::new(archive)).ok()?;
    let file = zip.by_name(name).ok()?;
    file.unix_mode()
}

/// The unix mode of an entry, where the archive has it.
pub fn unix_mode(archive: &Vec<u8>, name: &str) -> (r: Option<u32>)
    ensures
        r == zip_mode(archive@, name@),
{
    read_mode(archive, name)
}

/// The sizes of an optional vector.
pub open spec fn maybe_sizes(v: Option<Vec<u64>>) -> Option<Seq<u64>> {
    match v {
        Some(s) => Some(s@),
        None => None,
    }
}

/// `zip::ZipArchive::by_index` and `size` for every entry: the uncompressed
/// sizes, in order. Which bytes are an archive is the zip crate's to say: the
/// result is named, not spelled out.
#[verifier::external_body]
fn entry_sizes(archive: &Vec<u8>) -> (r: Option<Vec<u64>>)
    ensures
        maybe_sizes(r) == zip_sizes(archive@),
{
    let mut zip = zip::ZipArchive::new(std::io::Cursor::new(archive)).ok()?;
    (0..zip.len()).map(|i| zip.by_index(i).ok().map(|f| f.size())).collect()
}

/// The sum of sizes.
pub open spec fn sum_of(sizes: Seq<u64>) -> int
    decreases sizes.len(),
{
    if sizes.len() == 0 {
        0
    } else {
        sum_of(sizes.drop_last()) + sizes.last()
    }
}

proof fn lemma_sum_grows(sizes: Seq<u64>, n: int)
    requires
        0 <= n <= sizes.len(),
    ensures
        0 <= sum_of(sizes.take(n)) <= sum_of(sizes),
    decreases sizes.len(),
{
    if n == sizes.len() {
        assert(sizes.take(n) =~= sizes);
        if n > 0 {
            lemma_sum_grows(sizes.drop_last(), n - 1);
            assert(sizes.drop_last().take(n - 1) =~= sizes.drop_last());
        }
    } else {
        lemma_sum_grows(sizes.drop_last(), n);
        assert(sizes.drop_last().take(n) =~= sizes.take(n));
    }
}

/// The sum of sizes, where it fits.
pub fn sum_sizes(sizes: &Vec<u64>) -> (r: Option<u64>)
    ensures
        match r {
            Some(n) => n == sum_of(sizes@),
            None => sum_of(sizes@) > u64::MAX,
        },
{
    let mut total: u64 = 0;
    let mut i: usize = 0;
    while i < sizes.len()
        invariant
            i <= sizes@.len(),
            total == sum_of(sizes@.take(i as int)),
        decreases sizes@.len() - i,
    {
        proof {
            assert(sizes@.take(i + 1).drop_last() =~= sizes@.take(i as int));
            assert(sizes@.take(i + 1).last() == sizes@[i as int]);
            lemma_sum_grows(sizes@, i + 1);
        }
        if sizes[i] > u64::MAX - total {
            return None;
        }
        total = total + sizes[i];
        i = i + 1;
    }
    proof {
        assert(sizes@.take(sizes@.len() as int) =~= sizes@);
    }
    Some(total)
}

/// The uncompressed size of an archive: the sum over its entries, not what the
/// archive itself takes. Nothing where it cannot be read or the sum does not fit.
pub fn unzipped_size(archive: &Vec<u8>) -> (r: Option<u64>)
    ensures
        match r {
            Some(n) => zip_sizes(archive@) is Some && n == sum_of(zip_sizes(archive@)->0),
            None => zip_sizes(archive@) is None || sum_of(zip_sizes(archive@)->0) > u64::MAX,
        },
{
    match entry_sizes(archive) {
        Some(sizes) => sum_sizes(&sizes),
        None => None,
    }
}

/// An archive of one deflated entry, with the given permissions.
pub fn zip_single(name: &str, body: &Vec<u8>, mode: u32) -> (r: Result<Vec<u8>, String>)
    ensures
        is_entry_name(name@) && fits_archive(seq![(name@, mode, false, body@)]) ==> r is Ok,
        !is_entry_name(name@) || body@.len() > 0xffff_ffff ==> r is Err,
        r is Ok && reads_back(seq![(name@, mode, false, body@)]) ==> {
            &&& zip_member(r->Ok_0@, name@) == Some(body@)
            &&& zip_mode(r->Ok_0@, name@) == Some(file_mode(mode))
            &&& zip_sizes(r->Ok_0@) == Some(seq![body@.len() as u64])
        },
{
    let mut draft: ZipDraft = new_draft();
    let ghost one = seq![(name@, mode, false, body@)];
    proof {
        assert(drafted(draft).push((name@, mode, false, body@)) =~= one);
    }
    match add_entry(&mut draft, name, mode, false, body) {
        Ok(_) => {},
        Err(e) => {
            return Err(e);
        },
    }
    proof {
        assert(drafted(draft) =~= one);
        assert(all_named(one));
    }
    let r: Result<Vec<u8>, String> = finish(draft);
    proof {
        if r is Ok && reads_back(one) {
            assert(one[0].0 == name@);
            assert(one.map_values(|e: (Seq<char>, u32, bool, Seq<u8>)| e.3.len() as u64) =~= seq![
                body@.len() as u64,
            ]);
        }
    }
    r
}

/// A file of an archive: its name in it, and its body.
pub struct ArchiveFile {
    pub name: String,
    pub body: Vec<u8>,
}

/// The entries that files make, deflated and readable by all.
pub open spec fn file_entries(files: Seq<ArchiveFile>) -> Seq<(Seq<char>, u32, bool, Seq<u8>)> {
    files.map_values(|f: ArchiveFile| (f.name@, 0o644u32, false, f.body@))
}

/// Fewer entries take less room.
proof fn lemma_stored_length_grows(entries: Seq<(Seq<char>, u32, bool, Seq<u8>)>, n: int)
    requires
        0 <= n <= entries.len(),
    ensures
        stored_length(entries.take(n)) <= stored_length(entries),
    decreases entries.len(),
{
    if n == entries.len() {
        assert(entries.take(n) =~= entries);
    } else {
        lemma_stored_length_grows(entries.drop_last(), n);
        assert(entries.drop_last().take(n) =~= entries.take(n));
    }
}

/// Whether no two files have the same name.
pub open spec fn names_differ(files: Seq<ArchiveFile>) -> bool {
    forall|i: int, j: int|
        0 <= i < j < files.len() ==> (#[trigger] files[i]).name@ != (#[trigger] files[j]).name@
}

/// An archive of files, each deflated and readable by all, in the given order. A
/// name that comes twice, or is too long, is refused.
pub fn zip_files(files: &Vec<ArchiveFile>) -> (r: Result<Vec<u8>, String>)
    ensures
        all_named(file_entries(files@)) && names_differ(files@) && fits_archive(
            file_entries(files@),
        ) ==> r is Ok,
        !all_named(file_entries(files@)) || !names_differ(files@) ==> r is Err,
        (exists|i: int| 0 <= i < files@.len() && (#[trigger] files@[i]).body@.len() > 0xffff_ffff)
            ==> r is Err,
        r is Ok && reads_back(file_entries(files@)) ==> {
            &&& forall|i: int|
                0 <= i < files@.len() ==> zip_member(r->Ok_0@, (#[trigger] files@[i]).name@)
                    == Some(files@[i].body@)
            &&& forall|i: int|
                0 <= i < files@.len() ==> zip_mode(r->Ok_0@, (#[trigger] files@[i]).name@) == Some(
                    0o100644u32,
                )
            &&& zip_sizes(r->Ok_0@) == Some(
                files@.map_values(|f: ArchiveFile| f.body@.len() as u64),
            )
        },
{
    let mut draft: ZipDraft = new_draft();
    let mut i: usize = 0;
    let ghost all = file_entries(files@);
    proof {
        assert(drafted(draft) =~= all.take(0));
    }
    while i < files.len()
        invariant
            i <= files@.len(),
            all == file_entries(files@),
            drafted(draft) == all.take(i as int),
            sound(draft),
            forall|k: int| 0 <= k < i ==> is_entry_name((#[trigger] all[k]).0),
            forall|k: int| 0 <= k < i ==> (#[trigger] files@[k]).body@.len() <= 0xffff_ffff,
            names_differ(files@.take(i as int)),
        decreases files@.len() - i,
    {
        let ghost f = files@[i as int];
        proof {
            assert(all.take(i as int).push((f.name@, 0o644u32, false, f.body@)) =~= all.take(
                i + 1,
            ));
            lemma_stored_length_grows(all, i + 1);
            assert(all[i as int].0 == f.name@);
            if names_differ(files@) {
                assert forall|k: int| 0 <= k < drafted(draft).len() implies (
                #[trigger] drafted(draft)[k]).0 != f.name@ by {
                    assert(drafted(draft)[k].0 == files@[k].name@);
                }
            }
            if all_named(all) {
                assert(is_entry_name(all[i as int].0));
            }
            if !lacks_name(drafted(draft), f.name@) {
                let k = choose|k: int|
                    0 <= k < drafted(draft).len() && (#[trigger] drafted(draft)[k]).0 == f.name@;
                assert(files@[k].name@ == files@[i as int].name@);
                assert(!names_differ(files@));
            }
        }
        let ghost before = drafted(draft);
        match add_entry(&mut draft, files[i].name.as_str(), 0o644, false, &files[i].body) {
            Ok(_) => {},
            Err(e) => {
                return Err(e);
            },
        }
        proof {
            assert(drafted(draft) =~= all.take(i + 1));
            let longer = files@.take(i + 1);
            assert forall|k: int, m: int| 0 <= k < m < longer.len() implies (
            #[trigger] longer[k]).name@ != (#[trigger] longer[m]).name@ by {
                if m < i {
                    let shorter = files@.take(i as int);
                    assert(shorter[k].name@ != shorter[m].name@);
                } else {
                    assert(before[k].0 == files@[k].name@);
                }
            }
        }
        i = i + 1;
    }
    proof {
        assert(files@.take(files@.len() as int) =~= files@);
    }
    let ghost entries = drafted(draft);
    proof {
        assert(entries =~= all);
    }
    let r: Result<Vec<u8>, String> = finish(draft);
    proof {
        if r is Ok && reads_back(all) {
            assert(0o100000u32 | (0o644u32 & 0o777u32) == 0o100644u32) by (bit_vector);
            assert forall|k: int| 0 <= k < files@.len() implies zip_member(
                r->Ok_0@,
                (#[trigger] files@[k]).name@,
            ) == Some(files@[k].body@) by {
                assert(entries[k].0 == files@[k].name@);
            }
            assert forall|k: int| 0 <= k < files@.len() implies zip_mode(
                r->Ok_0@,
                (#[trigger] files@[k]).name@,
            ) == Some(0o100644u32) by {
                assert(entries[k].0 == files@[k].name@);
            }
            assert(entries.map_values(|e: (Seq<char>, u32, bool, Seq<u8>)| e.3.len() as u64)
                =~= files@.map_values(|f: ArchiveFile| f.body@.len() as u64));
        }
    }
    r
}

} // verus!
