//! What the benchmarked handlers compute: counting letters, grouping records,
//! churning a retained working set, and mapping the claims of a token.
use crate::json::{
    field_among, maybe_json, read_string, string_field, value_field, value_fields, Json, JsonView,
};
use crate::matrix::first_seen;
use crate::text::{joined, same_text, texts};
use vstd::prelude::*;
use vstd::string::*;

verus! {

// ---- lettercount ----

/// How often `c` occurs in a text.
pub open spec fn occurrences(s: Seq<char>, c: char) -> int
    decreases s.len(),
{
    if s.len() == 0 {
        0
    } else {
        occurrences(s.drop_last(), c) + if s.last() == c {
            1int
        } else {
            0
        }
    }
}

/// How often `c` occurs in texts.
pub open spec fn total_occurrences(v: Seq<Seq<char>>, c: char) -> int
    decreases v.len(),
{
    if v.len() == 0 {
        0
    } else {
        total_occurrences(v.drop_last(), c) + occurrences(v.last(), c)
    }
}

/// How many characters texts have.
pub open spec fn total_length(v: Seq<Seq<char>>) -> int
    decreases v.len(),
{
    if v.len() == 0 {
        0
    } else {
        total_length(v.drop_last()) + v.last().len()
    }
}

/// The lower-case letter of an index.
pub open spec fn letter(j: int) -> char {
    seq![
        'a', 'b', 'c', 'd', 'e', 'f', 'g', 'h', 'i', 'j', 'k', 'l', 'm', 'n', 'o', 'p', 'q', 'r',
        's', 't', 'u', 'v', 'w', 'x', 'y', 'z',
    ][j]
}

proof fn lemma_letter(j: int, c: char)
    requires
        0 <= j < 26,
    ensures
        letter(j) == c <==> c as u32 == 'a' as u32 + j,
{
}

proof fn lemma_occurrences_bound(s: Seq<char>, c: char, n: int)
    requires
        0 <= n <= s.len(),
    ensures
        0 <= occurrences(s.take(n), c) <= n,
    decreases n,
{
    if n > 0 {
        assert(s.take(n).drop_last() =~= s.take(n - 1));
        lemma_occurrences_bound(s, c, n - 1);
    }
}

proof fn lemma_total_length_grows(v: Seq<Seq<char>>, n: int)
    requires
        0 <= n <= v.len(),
    ensures
        0 <= total_length(v.take(n)) <= total_length(v),
    decreases v.len(),
{
    if n == v.len() {
        assert(v.take(n) =~= v);
        if n > 0 {
            lemma_total_length_grows(v.drop_last(), n - 1);
            assert(v.drop_last().take(n - 1) =~= v.drop_last());
        }
    } else {
        lemma_total_length_grows(v.drop_last(), n);
        assert(v.drop_last().take(n) =~= v.take(n));
    }
}

/// The characters of texts in all, where a 64-bit count holds them.
fn length_of_all(entries: &Vec<String>) -> (r: Option<u64>)
    ensures
        match r {
            Some(n) => n == total_length(texts(entries@)),
            None => total_length(texts(entries@)) > u64::MAX,
        },
{
    let mut total: u64 = 0;
    let mut i: usize = 0;
    while i < entries.len()
        invariant
            i <= entries@.len(),
            total == total_length(texts(entries@).take(i as int)),
        decreases entries@.len() - i,
    {
        let n: usize = entries[i].as_str().unicode_len();
        proof {
            let head = texts(entries@).take(i + 1);
            assert(head.drop_last() =~= texts(entries@).take(i as int));
            assert(head.last() == entries@[i as int]@);
            lemma_total_length_grows(texts(entries@), i + 1);
        }
        if n as u64 > u64::MAX - total {
            return None;
        }
        total = total + n as u64;
        i = i + 1;
    }
    proof {
        assert(texts(entries@).take(entries@.len() as int) =~= texts(entries@));
    }
    Some(total)
}

/// Counts the lower-case letters of texts, `a` first; nothing where the texts are
/// too long to be counted in 64 bits.
pub fn count_entries(entries: &Vec<String>) -> (r: Option<[u64; 26]>)
    ensures
        match r {
            Some(totals) => forall|j: int|
                0 <= j < 26 ==> #[trigger] totals@[j] == total_occurrences(
                    texts(entries@),
                    letter(j),
                ),
            None => total_length(texts(entries@)) > u64::MAX,
        },
{
    if length_of_all(entries).is_none() {
        return None;
    }
    let ghost all = texts(entries@);
    let mut totals: [u64; 26] = [0;26];
    let mut i: usize = 0;
    while i < entries.len()
        invariant
            i <= entries@.len(),
            all == texts(entries@),
            total_length(all) <= u64::MAX,
            forall|j: int|
                0 <= j < 26 ==> #[trigger] totals@[j] == total_occurrences(
                    all.take(i as int),
                    letter(j),
                ),
            forall|j: int| 0 <= j < 26 ==> #[trigger] totals@[j] <= total_length(all.take(i as int)),
        decreases entries@.len() - i,
    {
        let chars: Vec<char> = crate::text::chars_of(entries[i].as_str());
        let ghost head = all.take(i as int);
        let ghost entry = entries@[i as int]@;
        proof {
            assert(all.take(i + 1).drop_last() =~= head);
            assert(all.take(i + 1).last() == entry);
            lemma_total_length_grows(all, i + 1);
            assert(total_length(all.take(i + 1)) == total_length(head) + entry.len());
        }
        let mut k: usize = 0;
        while k < chars.len()
            invariant
                k <= chars@.len(),
                chars@ == entry,
                total_length(head) + entry.len() <= u64::MAX,
                forall|j: int|
                    0 <= j < 26 ==> #[trigger] totals@[j] == total_occurrences(head, letter(j))
                        + occurrences(entry.take(k as int), letter(j)),
                forall|j: int| 0 <= j < 26 ==> #[trigger] totals@[j] <= total_length(head) + k,
            decreases chars@.len() - k,
        {
            let c: char = chars[k];
            let ghost before = totals@;
            proof {
                assert(entry.take(k + 1).drop_last() =~= entry.take(k as int));
                assert(entry.take(k + 1).last() == c);
            }
            if 'a' <= c && c <= 'z' {
                let at: usize = (c as u32 - 'a' as u32) as usize;
                totals[at] = totals[at] + 1;
                proof {
                    assert forall|j: int| 0 <= j < 26 implies #[trigger] totals@[j]
                        == total_occurrences(head, letter(j)) + occurrences(
                        entry.take(k + 1),
                        letter(j),
                    ) && totals@[j] <= total_length(head) + k + 1 by {
                        lemma_letter(j, c);
                        assert(before[j] <= total_length(head) + k);
                    }
                }
            } else {
                proof {
                    assert forall|j: int| 0 <= j < 26 implies #[trigger] totals@[j]
                        == total_occurrences(head, letter(j)) + occurrences(
                        entry.take(k + 1),
                        letter(j),
                    ) by {
                        lemma_letter(j, c);
                    }
                }
            }
            k = k + 1;
        }
        proof {
            assert(entry.take(entry.len() as int) =~= entry);
            assert forall|j: int| 0 <= j < 26 implies #[trigger] totals@[j] == total_occurrences(
                all.take(i + 1),
                letter(j),
            ) && totals@[j] <= total_length(all.take(i + 1)) by {}
        }
        i = i + 1;
    }
    proof {
        assert(all.take(entries@.len() as int) =~= all);
    }
    Some(totals)
}

/// The texts of an optional list.
pub open spec fn maybe_texts(v: Option<Vec<String>>) -> Option<Seq<Seq<char>>> {
    match v {
        Some(s) => Some(texts(s@)),
        None => None,
    }
}

/// The strings that `serde_json` reads from a JSON text; nothing where the text is
/// not an array of strings.
pub uninterp spec fn json_strings(text: Seq<char>) -> Option<Seq<Seq<char>>>;

/// Whether a text stands for itself between quotes: printable ASCII without quotes
/// and backslashes.
pub open spec fn is_plain_text(t: Seq<char>) -> bool {
    forall|i: int|
        0 <= i < t.len() ==> ' ' <= #[trigger] t[i] && t[i] <= '~' && t[i] != '"' && t[i] != '\\'
}

/// Texts as a JSON array, each between quotes.
pub open spec fn quoted_array(entries: Seq<Seq<char>>) -> Seq<char> {
    "["@ + joined(entries.map_values(|e: Seq<char>| "\""@ + e + "\""@), ","@) + "]"@
}

/// `serde_json::from_str` into a vector of strings. Which texts are such arrays is
/// serde_json's to say: the result is named; spelled out is that an array of plain
/// texts between quotes gives back those texts.
#[verifier::external_body]
fn parse_strings(text: &str) -> (r: Option<Vec<String>>)
    ensures
        maybe_texts(r) == json_strings(text@),
        forall|entries: Seq<Seq<char>>|
            text@ == #[trigger] quoted_array(entries) && (forall|i: int|
                0 <= i < entries.len() ==> is_plain_text(#[trigger] entries[i])) ==> maybe_texts(r)
                == Some(entries),
{
    serde_json::from_str(text).ok()
}

/// Parses a JSON array of strings and counts its lower-case letters. A text that
/// is no such array is refused, and so is one too long to be counted.
pub fn count_letters(payload: &str) -> (r: Result<[u64; 26], String>)
    ensures
        forall|entries: Seq<Seq<char>>|
            payload@ == #[trigger] quoted_array(entries) && (forall|i: int|
                0 <= i < entries.len() ==> is_plain_text(#[trigger] entries[i])) && total_length(
                entries,
            ) <= u64::MAX ==> r is Ok && forall|j: int|
                0 <= j < 26 ==> #[trigger] r->Ok_0@[j] == total_occurrences(entries, letter(j)),
        match r {
            Ok(totals) => {
                &&& json_strings(payload@) is Some
                &&& forall|j: int|
                    0 <= j < 26 ==> #[trigger] totals@[j] == total_occurrences(
                        json_strings(payload@)->0,
                        letter(j),
                    )
            },
            Err(m) => match json_strings(payload@) {
                None => m@ == "payload is not a JSON array of strings"@,
                Some(v) => total_length(v) > u64::MAX && m@ == "payload is too long to count"@,
            },
        },
{
    match parse_strings(payload) {
        None => Err("payload is not a JSON array of strings".to_owned()),
        Some(entries) => match count_entries(&entries) {
            Some(totals) => Ok(totals),
            None => Err("payload is too long to count".to_owned()),
        },
    }
}

// ---- batch ----

/// One event record.
pub struct Record {
    pub key: String,
    pub value: i64,
}

/// The records of one key: their sum and their number.
pub struct Group {
    pub key: String,
    pub sum: i64,
    pub count: u64,
}

/// What a batch amounts to.
pub struct BatchTotals {
    pub records: usize,
    pub groups: Vec<Group>,
    pub total: i64,
}

/// The keys of records.
pub open spec fn record_keys(records: Seq<Record>) -> Seq<Seq<char>> {
    records.map_values(|r: Record| r.key@)
}

/// The keys of groups.
pub open spec fn group_keys(groups: Seq<Group>) -> Seq<Seq<char>> {
    groups.map_values(|g: Group| g.key@)
}

/// The sum of the values of a key.
pub open spec fn sum_for(records: Seq<Record>, key: Seq<char>) -> int
    decreases records.len(),
{
    if records.len() == 0 {
        0
    } else {
        sum_for(records.drop_last(), key) + if records.last().key@ == key {
            records.last().value as int
        } else {
            0
        }
    }
}

/// The number of records of a key.
pub open spec fn count_for(records: Seq<Record>, key: Seq<char>) -> int
    decreases records.len(),
{
    if records.len() == 0 {
        0
    } else {
        count_for(records.drop_last(), key) + if records.last().key@ == key {
            1int
        } else {
            0
        }
    }
}

/// The sum of all values.
pub open spec fn sum_of_all(records: Seq<Record>) -> int
    decreases records.len(),
{
    if records.len() == 0 {
        0
    } else {
        sum_of_all(records.drop_last()) + records.last().value
    }
}

/// Whether a number is a 64-bit one.
pub open spec fn fits(n: int) -> bool {
    i64::MIN <= n <= i64::MAX
}

/// Whether every running sum over the records is a 64-bit number: the running sum
/// of all, and that of each key.
pub open spec fn sums_fit(records: Seq<Record>) -> bool {
    forall|n: int|
        0 <= n < records.len() ==> {
            &&& fits(sum_of_all(#[trigger] records.take(n + 1)))
            &&& fits(sum_for(records.take(n + 1), records[n].key@))
        }
}

/// Whether groups are those of the records: one for each key in the order of first
/// appearance, with its sum and count.
pub open spec fn groups_are(groups: Seq<Group>, records: Seq<Record>) -> bool {
    &&& group_keys(groups) == first_seen(record_keys(records))
    &&& forall|i: int|
        0 <= i < groups.len() ==> {
            &&& (#[trigger] groups[i]).sum == sum_for(records, groups[i].key@)
            &&& groups[i].count == count_for(records, groups[i].key@)
        }
}

proof fn lemma_count_bound(records: Seq<Record>, key: Seq<char>)
    ensures
        0 <= count_for(records, key) <= records.len(),
        !record_keys(records).contains(key) ==> count_for(records, key) == 0 && sum_for(
            records,
            key,
        ) == 0,
    decreases records.len(),
{
    if records.len() > 0 {
        lemma_count_bound(records.drop_last(), key);
        let keys = record_keys(records);
        let front = record_keys(records.drop_last());
        if !keys.contains(key) {
            assert(keys[records.len() - 1] == records.last().key@);
            assert forall|i: int| 0 <= i < front.len() implies front[i] != key by {
                assert(keys[i] == front[i]);
            }
        }
    }
}

/// The position of the group of a key.
fn find_group(groups: &Vec<Group>, key: &str) -> (r: Option<usize>)
    ensures
        match r {
            Some(i) => i < groups@.len() && groups@[i as int].key@ == key@,
            None => !group_keys(groups@).contains(key@),
        },
{
    let mut i: usize = 0;
    while i < groups.len()
        invariant
            i <= groups@.len(),
            forall|k: int| 0 <= k < i ==> (#[trigger] groups@[k]).key@ != key@,
        decreases groups@.len() - i,
    {
        if same_text(groups[i].key.as_str(), key) {
            return Some(i);
        }
        i = i + 1;
    }
    proof {
        let keys = group_keys(groups@);
        assert forall|k: int| 0 <= k < keys.len() implies keys[k] != key@ by {
            assert(keys[k] == groups@[k].key@);
        }
    }
    None
}

/// Adds where the sum is a 64-bit number.
fn add_fitting(a: i64, b: i64) -> (r: Option<i64>)
    ensures
        match r {
            Some(n) => n == a + b,
            None => !fits(a + b),
        },
{
    let wide: i128 = a as i128 + b as i128;
    if i64::MIN as i128 <= wide && wide <= i64::MAX as i128 {
        Some(wide as i64)
    } else {
        None
    }
}

/// Groups records by key into sums and counts; nothing where a running sum does
/// not fit 64 bits.
pub fn process_records(records: &Vec<Record>) -> (r: Option<BatchTotals>)
    ensures
        match r {
            Some(t) => {
                &&& sums_fit(records@)
                &&& t.records == records@.len()
                &&& groups_are(t.groups@, records@)
                &&& t.total == sum_of_all(records@)
            },
            None => !sums_fit(records@),
        },
{
    let mut groups: Vec<Group> = Vec::new();
    let size: usize = records.len();
    let mut total: i64 = 0;
    let mut n: usize = 0;
    proof {
        assert(group_keys(groups@) =~= first_seen(record_keys(records@.take(0))));
    }
    while n < size
        invariant
            n <= size,
            size == records@.len(),
            groups_are(groups@, records@.take(n as int)),
            total == sum_of_all(records@.take(n as int)),
            forall|k: int|
                0 <= k < n ==> {
                    &&& fits(sum_of_all(#[trigger] records@.take(k + 1)))
                    &&& fits(sum_for(records@.take(k + 1), records@[k].key@))
                },
        decreases records@.len() - n,
    {
        let key: &str = records[n].key.as_str();
        let value: i64 = records[n].value;
        let ghost head = records@.take(n as int);
        let ghost more = records@.take(n + 1);
        let ghost before = groups@;
        proof {
            assert(more.drop_last() =~= head);
            assert(more.last() == records@[n as int]);
            assert(record_keys(more).drop_last() =~= record_keys(head));
            assert(record_keys(more).last() == key@);
            lemma_count_bound(head, key@);
            crate::laws::law_first_seen_is_the_set(record_keys(head));
        }
        match find_group(&groups, key) {
            Some(i) => {
                let old_sum: i64 = groups[i].sum;
                let old_count: u64 = groups[i].count;
                proof {
                    assert(group_keys(before)[i as int] == key@);
                    assert(first_seen(record_keys(head)).contains(key@));
                }
                let sum: i64 = match add_fitting(old_sum, value) {
                    Some(sum) => sum,
                    None => {
                        proof {
                            assert(!fits(sum_for(records@.take(n + 1), records@[n as int].key@)));
                        }
                        return None;
                    },
                };
                let group: Group = Group {
                    key: records[n].key.clone(),
                    sum,
                    count: old_count + 1,
                };
                groups.set(i, group);
                proof {
                    assert(group_keys(groups@) =~= group_keys(before));
                    crate::laws::law_first_seen_is_the_set(record_keys(head));
                    assert forall|k: int| 0 <= k < groups@.len() implies {
                        &&& (#[trigger] groups@[k]).sum == sum_for(more, groups@[k].key@)
                        &&& groups@[k].count == count_for(more, groups@[k].key@)
                    } by {
                        if k != i {
                            assert(groups@[k] == before[k]);
                            assert(group_keys(before)[k] != group_keys(before)[i as int]);
                        }
                    }
                }
            },
            None => {
                let group: Group = Group { key: records[n].key.clone(), sum: value, count: 1 };
                groups.push(group);
                proof {
                    assert(!record_keys(head).contains(key@)) by {
                        assert(!first_seen(record_keys(head)).contains(key@));
                    }
                    assert(group_keys(groups@) =~= group_keys(before).push(key@));
                    assert forall|k: int| 0 <= k < groups@.len() implies {
                        &&& (#[trigger] groups@[k]).sum == sum_for(more, groups@[k].key@)
                        &&& groups@[k].count == count_for(more, groups@[k].key@)
                    } by {
                        if k < before.len() {
                            assert(groups@[k] == before[k]);
                            assert(group_keys(before)[k] == before[k].key@);
                            assert(group_keys(before).contains(before[k].key@));
                        }
                    }
                }
            },
        }
        total = match add_fitting(total, value) {
            Some(sum) => sum,
            None => {
                proof {
                    assert(!fits(sum_of_all(records@.take(n + 1))));
                }
                return None;
            },
        };
        n = n + 1;
    }
    proof {
        assert(records@.take(records@.len() as int) =~= records@);
    }
    Some(BatchTotals { records: records.len(), groups, total })
}

// ---- cache ----

/// Buffers in the retained set.
pub const ENTRIES: usize = 200_000;

/// Bytes of a buffer.
pub const ENTRY_BYTES: usize = 512;

/// Buffers replaced by each invocation.
pub const CHURN: usize = 40_000;

/// The retained set and the position of the last replaced buffer.
pub struct CacheState {
    pub live: Vec<Vec<u8>>,
    pub rot: usize,
}

/// Whether a buffer starts with `first` and is zero elsewhere.
pub open spec fn is_buffer(b: Seq<u8>, first: u8) -> bool {
    &&& b.len() == 512
    &&& b[0] == first
    &&& forall|i: int| 1 <= i < 512 ==> #[trigger] b[i] == 0
}

/// A buffer that starts with `first`.
pub fn buffer(first: u8) -> (r: Vec<u8>)
    ensures
        is_buffer(r@, first),
{
    let mut b: Vec<u8> = Vec::new();
    b.push(first);
    let mut i: usize = 1;
    while i < ENTRY_BYTES
        invariant
            1 <= i <= 512,
            b@.len() == i,
            b@[0] == first,
            forall|k: int| 1 <= k < i ==> #[trigger] b@[k] == 0,
        decreases 512 - i,
    {
        b.push(0);
        i = i + 1;
    }
    b
}

/// Whether the retained set starts its buffers with `firsts`.
pub open spec fn holds(live: Seq<Vec<u8>>, firsts: Seq<u8>) -> bool {
    &&& live.len() == firsts.len()
    &&& forall|i: int| 0 <= i < live.len() ==> is_buffer((#[trigger] live[i])@, firsts[i])
}

impl CacheState {
    /// What the buffers of the retained set start with.
    pub open spec fn firsts(self) -> Seq<u8> {
        self.live@.map_values(|b: Vec<u8>| b@[0])
    }

    /// What holds between invocations: the set is full, and every buffer is zero
    /// but for its start.
    pub open spec fn wf(self) -> bool {
        &&& self.live@.len() == 200_000
        &&& self.rot < 200_000
        &&& holds(self.live@, self.firsts())
    }

    /// A full set, each buffer starting with its own position.
    pub fn new() -> (r: CacheState)
        ensures
            r.wf(),
            r.rot == 0,
            forall|i: int| 0 <= i < 200_000 ==> #[trigger] r.firsts()[i] == i % 256,
    {
        let mut live: Vec<Vec<u8>> = Vec::new();
        let mut i: usize = 0;
        while i < ENTRIES
            invariant
                i <= 200_000,
                live@.len() == i,
                forall|k: int|
                    0 <= k < i ==> is_buffer((#[trigger] live@[k])@, (k % 256) as u8),
            decreases 200_000 - i,
        {
            live.push(buffer((i % 256) as u8));
            i = i + 1;
        }
        CacheState { live, rot: 0 }
    }
}

/// What buffers start with after `n` replacements: the position goes round, and
/// the `c`-th replacement starts with `c`.
pub open spec fn churned(firsts: Seq<u8>, rot: int, n: int) -> Seq<u8>
    decreases n,
{
    if n <= 0 {
        firsts
    } else {
        churned(firsts, rot, n - 1).update((rot + n) % 200_000, ((n - 1) % 256) as u8)
    }
}

/// The sum over every tenth start below `n`.
pub open spec fn tenth_sum(firsts: Seq<u8>, n: int) -> int
    decreases n,
{
    if n < 10 {
        0
    } else {
        tenth_sum(firsts, n - 10) + firsts[n - 10]
    }
}

/// Replaces buffers, going round the retained set, and sums every tenth start.
/// The set stays full.
pub fn churn_and_scan(state: &mut CacheState) -> (r: u64)
    requires
        old(state).wf(),
    ensures
        final(state).wf(),
        final(state).rot == (old(state).rot + 40_000) % 200_000,
        final(state).firsts() == churned(old(state).firsts(), old(state).rot as int, 40_000),
        r == tenth_sum(final(state).firsts(), 200_000),
{
    let ghost firsts = state.firsts();
    let ghost rot = state.rot as int;
    let mut c: usize = 0;
    while c < CHURN
        invariant
            c <= 40_000,
            state.live@.len() == 200_000,
            0 <= rot < 200_000,
            firsts.len() == 200_000,
            state.rot == (rot + c) % 200_000,
            churned(firsts, rot, c as int).len() == 200_000,
            holds(state.live@, churned(firsts, rot, c as int)),
        decreases 40_000 - c,
    {
        let ghost before = churned(firsts, rot, c as int);
        let idx: usize = (state.rot + 1) % ENTRIES;
        proof {
            assert(idx == (rot + c + 1) % 200_000);
        }
        state.rot = idx;
        let b: Vec<u8> = buffer((c % 256) as u8);
        state.live.set(idx, b);
        proof {
            let after = churned(firsts, rot, c + 1);
            assert(after == before.update(idx as int, (c % 256) as u8));
        }
        c = c + 1;
    }
    proof {
        let end = churned(firsts, rot, 40_000);
        assert forall|i: int| 0 <= i < 200_000 implies #[trigger] state.firsts()[i] == end[i] by {
            assert(is_buffer(state.live@[i]@, end[i]));
        }
        assert(state.firsts() =~= end);
    }
    let mut sum: u64 = 0;
    let mut i: usize = 0;
    while i < ENTRIES
        invariant
            i <= 200_000,
            i % 10 == 0,
            state.live@.len() == 200_000,
            holds(state.live@, state.firsts()),
            sum == tenth_sum(state.firsts(), i as int),
            sum <= 255 * i,
        decreases 200_000 - i,
    {
        proof {
            assert(is_buffer(state.live@[i as int]@, state.firsts()[i as int]));
        }
        sum = sum + state.live[i][0] as u64;
        i = i + 10;
    }
    sum
}

/// The sum of the sums of groups.
pub open spec fn sum_of_groups(groups: Seq<Group>) -> int
    decreases groups.len(),
{
    if groups.len() == 0 {
        0
    } else {
        sum_of_groups(groups.drop_last()) + groups.last().sum
    }
}

/// The sum of the counts of groups.
pub open spec fn count_of_groups(groups: Seq<Group>) -> int
    decreases groups.len(),
{
    if groups.len() == 0 {
        0
    } else {
        count_of_groups(groups.drop_last()) + groups.last().count
    }
}

/// The number of records over keys.
spec fn count_over_keys(records: Seq<Record>, keys: Seq<Seq<char>>) -> int
    decreases keys.len(),
{
    if keys.len() == 0 {
        0
    } else {
        count_over_keys(records, keys.drop_last()) + count_for(records, keys.last())
    }
}

/// The sum over keys of what their records sum to.
spec fn sum_over_keys(records: Seq<Record>, keys: Seq<Seq<char>>) -> int
    decreases keys.len(),
{
    if keys.len() == 0 {
        0
    } else {
        sum_over_keys(records, keys.drop_last()) + sum_for(records, keys.last())
    }
}

/// One more record changes the sum over distinct keys by its value and their number
/// by one, where its key is among them.
proof fn lemma_sum_over_keys(records: Seq<Record>, keys: Seq<Seq<char>>)
    requires
        records.len() > 0,
        keys.no_duplicates(),
    ensures
        sum_over_keys(records, keys) == sum_over_keys(records.drop_last(), keys)
            + if keys.contains(records.last().key@) {
            records.last().value as int
        } else {
            0
        },
        count_over_keys(records, keys) == count_over_keys(records.drop_last(), keys)
            + if keys.contains(records.last().key@) {
            1int
        } else {
            0
        },
    decreases keys.len(),
{
    if keys.len() > 0 {
        let front = keys.drop_last();
        let key = records.last().key@;
        lemma_sum_over_keys(records, front);
        if keys.last() == key {
            assert(keys.contains(key)) by {
                assert(keys[keys.len() - 1] == key);
            }
            assert(!front.contains(key)) by {
                assert forall|i: int| 0 <= i < front.len() implies front[i] != key by {
                    assert(keys[i] != keys[keys.len() - 1]);
                }
            }
        } else {
            assert(keys.contains(key) <==> front.contains(key)) by {
                if keys.contains(key) {
                    let i = choose|i: int| 0 <= i < keys.len() && keys[i] == key;
                    assert(front[i] == key);
                }
                if front.contains(key) {
                    let i = choose|i: int| 0 <= i < front.len() && front[i] == key;
                    assert(keys[i] == key);
                }
            }
        }
    }
}

proof fn lemma_keys_sum_to_all(records: Seq<Record>)
    ensures
        sum_over_keys(records, first_seen(record_keys(records))) == sum_of_all(records),
        count_over_keys(records, first_seen(record_keys(records))) == records.len(),
    decreases records.len(),
{
    let keys = record_keys(records);
    if records.len() > 0 {
        let front = records.drop_last();
        assert(keys.drop_last() =~= record_keys(front));
        assert(keys.last() == records.last().key@);
        lemma_keys_sum_to_all(front);
        let before = first_seen(record_keys(front));
        crate::laws::law_first_seen_is_the_set(record_keys(front));
        lemma_sum_over_keys(records, before);
        if !before.contains(keys.last()) {
            assert(before.push(keys.last()).drop_last() =~= before);
            lemma_count_bound(front, keys.last());
        }
    }
}

proof fn lemma_groups_sum(groups: Seq<Group>, records: Seq<Record>, n: int)
    requires
        groups_are(groups, records),
        0 <= n <= groups.len(),
    ensures
        sum_of_groups(groups.take(n)) == sum_over_keys(records, group_keys(groups).take(n)),
        count_of_groups(groups.take(n)) == count_over_keys(records, group_keys(groups).take(n)),
    decreases n,
{
    if n > 0 {
        lemma_groups_sum(groups, records, n - 1);
        assert(groups.take(n).drop_last() =~= groups.take(n - 1));
        assert(group_keys(groups).take(n).drop_last() =~= group_keys(groups).take(n - 1));
        assert(groups.take(n).last() == groups[n - 1]);
        assert(group_keys(groups).take(n).last() == groups[n - 1].key@);
    }
}

/// The sums of the groups of a batch add up to its total, and their counts to the
/// number of its records, so that no record is lost or taken twice.
pub proof fn law_groups_add_up(groups: Seq<Group>, records: Seq<Record>)
    requires
        groups_are(groups, records),
    ensures
        sum_of_groups(groups) == sum_of_all(records),
        count_of_groups(groups) == records.len(),
{
    lemma_groups_sum(groups, records, groups.len() as int);
    assert(groups.take(groups.len() as int) =~= groups);
    assert(group_keys(groups).take(groups.len() as int) =~= group_keys(groups));
    lemma_keys_sum_to_all(records);
}

// ---- authz ----

/// The audience that tokens are made for.
pub const EXPECTED_AUD: &'static str = "lambdabench-gateway";

/// The issuer of tokens.
pub const EXPECTED_ISS: &'static str = "https://idp.lambdabench.example/";

/// How a claim is mapped.
#[derive(Debug, Clone, Copy, PartialEq, Eq, Structural)]
pub enum ClaimType {
    Text,
    Bool,
    StringSet,
}

/// The claims that are extracted, in order.
pub const CLAIM_NAMES: [&'static str; 7] = [
    "sub",
    "email",
    "email_verified",
    "cognito:groups",
    "scope",
    "tenant_id",
    "roles",
];

/// How the claims are mapped, in the same order.
pub const CLAIM_TYPES: [ClaimType; 7] = [
    ClaimType::Text,
    ClaimType::Text,
    ClaimType::Bool,
    ClaimType::StringSet,
    ClaimType::Text,
    ClaimType::Text,
    ClaimType::StringSet,
];

/// A mapped claim.
pub enum Mapped {
    Text(String),
    Bool(bool),
    StringSet(Vec<String>),
}

/// A mapped claim in plain values.
pub ghost enum MappedView {
    Text(Seq<char>),
    Bool(bool),
    StringSet(Seq<Seq<char>>),
}

impl Mapped {
    pub open spec fn view(self) -> MappedView {
        match self {
            Mapped::Text(t) => MappedView::Text(t@),
            Mapped::Bool(b) => MappedView::Bool(b),
            Mapped::StringSet(v) => MappedView::StringSet(texts(v@)),
        }
    }
}

/// A claim as text: strings as they are, everything else but null as it is
/// printed.
pub open spec fn as_text(v: JsonView) -> Option<MappedView> {
    match v {
        JsonView::Text(t) => Some(MappedView::Text(t)),
        JsonView::Array(_, t) => Some(MappedView::Text(t)),
        JsonView::Object(t) => Some(MappedView::Text(t)),
        JsonView::Bool(b) => Some(
            MappedView::Text(
                if b {
                    "true"@
                } else {
                    "false"@
                },
            ),
        ),
        JsonView::Number(t) => Some(MappedView::Text(t)),
        JsonView::Null => None,
    }
}

/// The mapped claim of an option, in plain values.
pub open spec fn maybe_mapped(m: Option<Mapped>) -> Option<MappedView> {
    match m {
        Some(x) => Some(x@),
        None => None,
    }
}

/// Maps a claim to text: strings pass through, everything else but null is
/// printed.
pub fn map_to_string(value: &Json) -> (r: Option<Mapped>)
    ensures
        maybe_mapped(r) == as_text(value@),
{
    match value {
        Json::Text(t) => Some(Mapped::Text(t.clone())),
        Json::Array(_, t) => Some(Mapped::Text(t.clone())),
        Json::Object(t) => Some(Mapped::Text(t.clone())),
        Json::Bool(b) => {
            if *b {
                Some(Mapped::Text("true".to_owned()))
            } else {
                Some(Mapped::Text("false".to_owned()))
            }
        },
        Json::Number(t) => Some(Mapped::Text(t.clone())),
        Json::Null => None,
    }
}

/// A claim as a truth value: truth values as they are, and the strings that spell
/// them.
pub open spec fn as_bool(v: JsonView) -> Option<MappedView> {
    match v {
        JsonView::Bool(b) => Some(MappedView::Bool(b)),
        JsonView::Text(t) => if t == "true"@ {
            Some(MappedView::Bool(true))
        } else if t == "false"@ {
            Some(MappedView::Bool(false))
        } else {
            None
        },
        _ => None,
    }
}

/// Maps a claim to a truth value; anything that does not spell one is dropped.
pub fn map_to_bool(value: &Json) -> (r: Option<Mapped>)
    ensures
        maybe_mapped(r) == as_bool(value@),
{
    match value {
        Json::Bool(b) => Some(Mapped::Bool(*b)),
        Json::Text(t) => {
            if same_text(t.as_str(), "true") {
                Some(Mapped::Bool(true))
            } else if same_text(t.as_str(), "false") {
                Some(Mapped::Bool(false))
            } else {
                None
            }
        },
        _ => None,
    }
}

/// The strings among items, in order.
pub open spec fn strings_of(items: Seq<Option<Seq<char>>>) -> Seq<Seq<char>>
    decreases items.len(),
{
    if items.len() == 0 {
        Seq::empty()
    } else {
        match items.last() {
            Some(t) => strings_of(items.drop_last()).push(t),
            None => strings_of(items.drop_last()),
        }
    }
}

/// A claim as a set of strings: the strings of an array, or a single string.
pub open spec fn as_set(v: JsonView) -> Option<MappedView> {
    match v {
        JsonView::Array(items, _) => Some(MappedView::StringSet(strings_of(items))),
        JsonView::Text(t) => Some(MappedView::StringSet(seq![t])),
        _ => None,
    }
}

/// Maps a claim to a set of strings; what is neither an array nor a string is
/// dropped.
pub fn map_to_set(value: &Json) -> (r: Option<Mapped>)
    ensures
        maybe_mapped(r) == as_set(value@),
{
    match value {
        Json::Array(items, _) => {
            let ghost all = crate::report::group_texts(items@);
            let mut out: Vec<String> = Vec::new();
            let mut i: usize = 0;
            proof {
                assert(texts(out@) =~= strings_of(all.take(0)));
            }
            while i < items.len()
                invariant
                    i <= items@.len(),
                    all == crate::report::group_texts(items@),
                    texts(out@) == strings_of(all.take(i as int)),
                decreases items@.len() - i,
            {
                let ghost before = texts(out@);
                proof {
                    assert(all.take(i + 1).drop_last() =~= all.take(i as int));
                    assert(all.take(i + 1).last() == all[i as int]);
                }
                if let Some(t) = &items[i] {
                    out.push(t.clone());
                    proof {
                        assert(texts(out@) =~= before.push(t@));
                    }
                }
                i = i + 1;
            }
            proof {
                assert(all.take(items@.len() as int) =~= all);
            }
            Some(Mapped::StringSet(out))
        },
        Json::Text(t) => {
            let mut out: Vec<String> = Vec::new();
            out.push(t.clone());
            proof {
                assert(texts(out@) =~= seq![t@]);
            }
            Some(Mapped::StringSet(out))
        },
        _ => None,
    }
}

/// A claim mapped as its type asks; null is dropped whatever the type.
pub open spec fn mapped_as(ty: ClaimType, v: JsonView) -> Option<MappedView> {
    if v is Null {
        None
    } else {
        match ty {
            ClaimType::Text => as_text(v),
            ClaimType::Bool => as_bool(v),
            ClaimType::StringSet => as_set(v),
        }
    }
}

/// The claims that are extracted from the first `n` of the configured fields:
/// absent fields and fields that do not map are left out.
pub open spec fn extracted(fields: Seq<Option<JsonView>>, n: int) -> Seq<(Seq<char>, MappedView)>
    decreases n,
{
    if n <= 0 {
        Seq::empty()
    } else {
        let before = extracted(fields, n - 1);
        match fields[n - 1] {
            None => before,
            Some(v) => match mapped_as(CLAIM_TYPES@[n - 1], v) {
                Some(m) => before.push((CLAIM_NAMES@[n - 1]@, m)),
                None => before,
            },
        }
    }
}

/// The fields of options, in plain values.
pub open spec fn field_views(fields: Seq<Option<Json>>) -> Seq<Option<JsonView>> {
    fields.map_values(
        |f: Option<Json>|
            match f {
                Some(v) => Some(v@),
                None => None,
            },
    )
}

/// Extracted claims in plain values.
pub open spec fn claim_views(claims: Seq<(String, Mapped)>) -> Seq<(Seq<char>, MappedView)> {
    claims.map_values(|c: (String, Mapped)| (c.0@, c.1@))
}

/// Extracts the configured claims from their fields, given in the order of the
/// configuration.
pub fn extract_claims(fields: &Vec<Option<Json>>) -> (r: Vec<(String, Mapped)>)
    requires
        fields@.len() == 7,
    ensures
        claim_views(r@) == extracted(field_views(fields@), 7),
{
    let names: [&'static str; 7] = CLAIM_NAMES;
    let types: [ClaimType; 7] = CLAIM_TYPES;
    let mut out: Vec<(String, Mapped)> = Vec::new();
    let mut i: usize = 0;
    proof {
        assert(claim_views(out@) =~= Seq::empty());
    }
    while i < 7
        invariant
            i <= 7,
            fields@.len() == 7,
            names@ == CLAIM_NAMES@,
            types@ == CLAIM_TYPES@,
            claim_views(out@) == extracted(field_views(fields@), i as int),
        decreases 7 - i,
    {
        let ghost before = claim_views(out@);
        if let Some(value) = &fields[i] {
            proof {
                assert(field_views(fields@)[i as int] == Some(value@));
            }
            if !matches!(value, Json::Null) {
                let mapped: Option<Mapped> = match types[i] {
                    ClaimType::Text => map_to_string(value),
                    ClaimType::Bool => map_to_bool(value),
                    ClaimType::StringSet => map_to_set(value),
                };
                if let Some(m) = mapped {
                    let ghost view = m@;
                    out.push((names[i].to_owned(), m));
                    proof {
                        assert(claim_views(out@) =~= before.push((CLAIM_NAMES@[i as int]@, view)));
                    }
                }
            }
        }
        i = i + 1;
    }
    out
}

/// The configured fields among those of a token's claims.
pub open spec fn configured_fields(fields: Map<Seq<char>, JsonView>) -> Seq<Option<JsonView>> {
    CLAIM_NAMES@.map_values(|n: &'static str| field_among(fields, n@))
}

/// Reads the configured fields out of a token's claims.
fn read_configured(claims: &serde_json::Value) -> (r: Vec<Option<Json>>)
    ensures
        r@.len() == 7,
        field_views(r@) == configured_fields(value_fields(*claims)),
{
    let names: [&'static str; 7] = CLAIM_NAMES;
    let mut fields: Vec<Option<Json>> = Vec::new();
    let mut i: usize = 0;
    while i < 7
        invariant
            i <= 7,
            names@ == CLAIM_NAMES@,
            fields@.len() == i,
            forall|k: int|
                0 <= k < i ==> maybe_json(#[trigger] fields@[k]) == field_among(
                    value_fields(*claims),
                    names@[k]@,
                ),
        decreases 7 - i,
    {
        fields.push(value_field(claims, names[i]));
        i = i + 1;
    }
    proof {
        let wanted = configured_fields(value_fields(*claims));
        assert forall|k: int| 0 <= k < 7 implies #[trigger] field_views(fields@)[k]
            == wanted[k] by {
            assert(maybe_json(fields@[k]) == field_among(value_fields(*claims), names@[k]@));
        }
        assert(field_views(fields@) =~= wanted);
    }
    fields
}

/// The token in an invocation's event, given as JSON text.
pub fn token_in(event: &str) -> (r: Result<String, String>)
    ensures
        match r {
            Ok(t) => string_field(event@, "token"@) == Some(t@),
            Err(m) => string_field(event@, "token"@) is None && m@
                == "invoke payload missing string field 'token'"@,
        },
{
    match read_string(event, "token") {
        Some(t) => Ok(t),
        None => Err("invoke payload missing string field 'token'".to_owned()),
    }
}

/// A public RSA key: modulus and exponent, as a JWK spells them.
pub struct PublicKey {
    pub n: String,
    pub e: String,
}

/// The public key of a JWK, given as JSON text.
pub fn key_from_jwk(jwk: &str) -> (r: Result<PublicKey, String>)
    ensures
        match r {
            Ok(k) => string_field(jwk@, "n"@) == Some(k.n@) && string_field(jwk@, "e"@) == Some(
                k.e@,
            ),
            Err(m) => if string_field(jwk@, "n"@) is None {
                m@ == "JWK missing n"@
            } else {
                string_field(jwk@, "e"@) is None && m@ == "JWK missing e"@
            },
        },
{
    let n: String = match read_string(jwk, "n") {
        Some(n) => n,
        None => {
            return Err("JWK missing n".to_owned());
        },
    };
    let e: String = match read_string(jwk, "e") {
        Some(e) => e,
        None => {
            return Err("JWK missing e".to_owned());
        },
    };
    Ok(PublicKey { n, e })
}

/// Whether claims are to be required.
pub open spec fn is_required(required: Seq<&'static str>, claim: Seq<char>) -> bool {
    exists|i: int| 0 <= i < required.len() && (#[trigger] required[i])@ == claim
}

/// Whether a claim names a party: it is the name, or an array that holds it.
pub open spec fn names_party(v: Option<JsonView>, party: Seq<char>) -> bool {
    match v {
        Some(JsonView::Text(t)) => t == party,
        Some(JsonView::Array(items, _)) => items.contains(Some(party)),
        _ => false,
    }
}

/// The fields of the claims that `jsonwebtoken::decode` gives for a token at a
/// moment, in seconds since the epoch: for the public key with modulus `n` and
/// exponent `e`, the algorithm, the audience, the issuer, the required claims, and
/// whether `nbf` is heeded. Nothing where the algorithm is unknown, the key is
/// malformed or the token is refused.
pub uninterp spec fn token_claims(
    token: Seq<char>,
    n: Seq<char>,
    e: Seq<char>,
    algorithm: Seq<char>,
    audience: Seq<char>,
    issuer: Seq<char>,
    required: Seq<&'static str>,
    heeds_nbf: bool,
    moment: u64,
) -> Option<Map<Seq<char>, JsonView>>;

/// What a verification came to: the fields of the claims, or nothing.
pub open spec fn verified_fields(r: Result<serde_json::Value, String>) -> Option<
    Map<Seq<char>, JsonView>,
> {
    match r {
        Ok(claims) => Some(value_fields(claims)),
        Err(_) => None,
    }
}

/// Whether there are fields at all.
pub open spec fn has_fields(fields: Map<Seq<char>, JsonView>) -> bool {
    exists|name: Seq<char>| #[trigger] fields.dom().contains(name)
}

/// `jsonwebtoken::decode` of a token, with a `Validation` that pins the algorithm,
/// the audience and the issuer, requires the given claims, and heeds `exp`, and
/// `nbf` where asked to: the claims. The clock is read once, and the outcome follows
/// from the arguments and that reading; which moment it gives is left open, and so is
/// the wording of a refusal. Where the claims of an accepted token have fields, it is
/// also claimed that an expiry, the issuer and the audience are among them, as far as
/// these are required. Claims may be an array, which has no fields: then its items
/// are taken for the required claims by their position, and no more is claimed.
#[verifier::external_body]
fn verify_token(
    token: &str,
    key: &PublicKey,
    algorithm: &str,
    audience: &str,
    issuer: &str,
    required: &[&'static str],
    heeds_nbf: bool,
) -> (r: Result<serde_json::Value, String>)
    ensures
        exists|moment: u64|
            verified_fields(r) == #[trigger] token_claims(
                token@,
                key.n@,
                key.e@,
                algorithm@,
                audience@,
                issuer@,
                required@,
                heeds_nbf,
                moment,
            ),
        r is Ok && has_fields(value_fields(r->Ok_0)) && is_required(required@, "exp"@)
            ==> field_among(value_fields(r->Ok_0), "exp"@) is Some,
        r is Ok && has_fields(value_fields(r->Ok_0)) && is_required(required@, "iss"@)
            ==> names_party(field_among(value_fields(r->Ok_0), "iss"@), issuer@),
        r is Ok && has_fields(value_fields(r->Ok_0)) && is_required(required@, "aud"@)
            ==> names_party(field_among(value_fields(r->Ok_0), "aud"@), audience@),
{
    let pinned: jsonwebtoken::Algorithm = algorithm.parse().map_err(
        |e: jsonwebtoken::errors::Error| e.to_string(),
    )?;
    let mut validation = jsonwebtoken::Validation::new(pinned);
    validation.validate_nbf = heeds_nbf;
    validation.set_audience(&[audience]);
    validation.set_issuer(&[issuer]);
    validation.set_required_spec_claims(required);
    let decoding = jsonwebtoken::DecodingKey::from_rsa_components(&key.n, &key.e).map_err(
        |e| e.to_string(),
    )?;
    jsonwebtoken::decode::<serde_json::Value>(token, &decoding, &validation).map(
        |data| data.claims,
    ).map_err(|e| e.to_string())
}

/// The only algorithm that a token may be signed with.
pub const TOKEN_ALGORITHM: &'static str = "RS256";

/// The claims that a token must carry.
pub const REQUIRED_CLAIMS: [&'static str; 3] = ["exp", "iss", "aud"];

/// The fields of the claims that a token verifies to at a moment, under a key, with
/// the only algorithm and the expected audience and issuer; a token that is not valid
/// yet is not accepted.
pub open spec fn accepted_claims(token: Seq<char>, key: PublicKey, moment: u64) -> Option<
    Map<Seq<char>, JsonView>,
> {
    token_claims(
        token,
        key.n@,
        key.e@,
        TOKEN_ALGORITHM@,
        EXPECTED_AUD@,
        EXPECTED_ISS@,
        REQUIRED_CLAIMS@,
        true,
        moment,
    )
}

/// What an authorizer answers to the outcome of a verification: the claims that the
/// configured fields map to, given in the order of the configuration, or the refusal
/// as it came.
pub fn claims_of_outcome(outcome: Result<Vec<Option<Json>>, String>) -> (r: Result<
    Vec<(String, Mapped)>,
    String,
>)
    requires
        outcome is Ok ==> outcome->Ok_0@.len() == 7,
    ensures
        match outcome {
            Ok(fields) => r is Ok && claim_views(r->Ok_0@) == extracted(field_views(fields@), 7),
            Err(refusal) => r == Err::<Vec<(String, Mapped)>, String>(refusal),
        },
{
    match outcome {
        Err(refusal) => Err(refusal),
        Ok(fields) => Ok(extract_claims(&fields)),
    }
}

/// Verifies a token and extracts its configured claims. The token is accepted exactly
/// where it verifies under the key at the moment of the call. What is extracted is
/// what the fields of the verified claims hold. Claims that have fields have an
/// expiry, the expected issuer and the expected audience among them.
pub fn authorize(token: &str, key: &PublicKey) -> (r: Result<Vec<(String, Mapped)>, String>)
    ensures
        exists|moment: u64|
            match #[trigger] accepted_claims(token@, *key, moment) {
                Some(fields) => {
                    &&& r is Ok
                    &&& claim_views(r->Ok_0@) == extracted(configured_fields(fields), 7)
                    &&& has_fields(fields) ==> {
                        &&& field_among(fields, "exp"@) is Some
                        &&& names_party(field_among(fields, "iss"@), EXPECTED_ISS@)
                        &&& names_party(field_among(fields, "aud"@), EXPECTED_AUD@)
                    }
                },
                None => r is Err,
            },
{
    let required: [&'static str; 3] = REQUIRED_CLAIMS;
    let verified: Result<serde_json::Value, String> = verify_token(
        token,
        key,
        TOKEN_ALGORITHM,
        EXPECTED_AUD,
        EXPECTED_ISS,
        required.as_slice(),
        true,
    );
    proof {
        assert(required@[0]@ == "exp"@ && required@[1]@ == "iss"@ && required@[2]@ == "aud"@);
        let moment: u64 = choose|moment: u64|
            verified_fields(verified) == #[trigger] token_claims(
                token@,
                key.n@,
                key.e@,
                TOKEN_ALGORITHM@,
                EXPECTED_AUD@,
                EXPECTED_ISS@,
                required@,
                true,
                moment,
            );
        assert(accepted_claims(token@, *key, moment) == verified_fields(verified));
    }
    let outcome: Result<Vec<Option<Json>>, String> = match verified {
        Ok(claims) => Ok(read_configured(&claims)),
        Err(refusal) => Err(refusal),
    };
    claims_of_outcome(outcome)
}

// ---- oneclient, threeclient, smithyfull ----

/// What the order flow signs.
pub fn order_signature(coffee_type: &str) -> (r: String)
    ensures
        r@ == "order:"@ + coffee_type@,
{
    let mut out: String = "order:".to_owned();
    out.append(coffee_type);
    out
}

/// What the order flow writes as a receipt.
pub fn receipt_text(coffee_type: &str) -> (r: String)
    ensures
        r@ == "receipt for "@ + coffee_type@ + " order"@,
{
    let mut out: String = "receipt for ".to_owned();
    out.append(coffee_type);
    out.append(" order");
    out
}

} // verus!
