//! What the workloads are for: what is counted, summed, kept and extracted, and what
//! the payloads hold.
use crate::archive::{
    file_entries, file_mode, name_length, names_differ, stored_length, sum_of, ArchiveFile,
};
use crate::json::{field_among, JsonView};
use crate::laws::law_first_seen_is_the_set;
use crate::matrix::first_seen;
use crate::payload::{
    batch_entry, closed_size, fewest, four_digits, letter_body, letter_entry, opened, Entries,
    WORDS,
};
use crate::report::digits_value;
use crate::scenario::{
    accepted_claims, as_bool, as_set, as_text, churned, configured_fields, count_for, extracted,
    fits, group_keys, groups_are, is_buffer, letter, mapped_as, names_party, occurrences, record_keys,
    strings_of, sum_for, sum_of_all, sums_fit, tenth_sum, token_claims, total_length, total_occurrences,
    ClaimType, Group, MappedView, PublicKey, Record, REQUIRED_CLAIMS,
};
use crate::text::decimal;
use crate::text_rules::law_rendering_denotes_the_number;
use vstd::arithmetic::div_mod::lemma_mod_multiples_vanish;
use vstd::prelude::*;
use vstd::string::*;
use vstd::utf8::*;

verus! {

/// The letters run from `a` to `z`.
pub proof fn law_letters_in_order(j: int)
    requires
        0 <= j < 26,
    ensures
        letter(j) as int == 'a' as int + j,
{
}

/// Each character counts once, for itself alone, wherever it stands.
pub proof fn law_each_character_counts_once(a: Seq<char>, b: Seq<char>, x: char, c: char)
    ensures
        occurrences(Seq::empty(), c) == 0,
        occurrences(seq![x], c) == (if x == c {
            1int
        } else {
            0
        }),
        occurrences(a + b, c) == occurrences(a, c) + occurrences(b, c),
    decreases b.len(),
{
    let one = seq![x];
    assert(one.drop_last() =~= Seq::<char>::empty());
    assert(occurrences(one.drop_last(), c) == 0);
    if b.len() == 0 {
        assert(a + b =~= a);
    } else {
        law_each_character_counts_once(a, b.drop_last(), x, c);
        assert((a + b).drop_last() =~= a + b.drop_last());
        assert((a + b).last() == b.last());
    }
}

/// Texts add up: what is counted of all of them is what is counted of each.
pub proof fn law_texts_add_up(v: Seq<Seq<char>>, t: Seq<char>, c: char)
    ensures
        total_occurrences(Seq::empty(), c) == 0,
        total_occurrences(v.push(t), c) == total_occurrences(v, c) + occurrences(t, c),
        total_length(Seq::empty()) == 0,
        total_length(v.push(t)) == total_length(v) + t.len(),
{
    assert(v.push(t).drop_last() =~= v);
}

/// Each record counts once and with its value, for its own key and in the whole.
pub proof fn law_each_record_counts_once(records: Seq<Record>, r: Record, key: Seq<char>)
    ensures
        sum_for(Seq::empty(), key) == 0,
        count_for(Seq::empty(), key) == 0,
        sum_of_all(Seq::empty()) == 0,
        sum_for(records.push(r), key) == sum_for(records, key) + (if r.key@ == key {
            r.value as int
        } else {
            0
        }),
        count_for(records.push(r), key) == count_for(records, key) + (if r.key@ == key {
            1int
        } else {
            0
        }),
        sum_of_all(records.push(r)) == sum_of_all(records) + r.value,
{
    assert(records.push(r).drop_last() =~= records);
}

/// Every record's key has exactly one group, which has the key's sum and count; the
/// group of the first record comes first.
pub proof fn law_every_key_has_its_group(groups: Seq<Group>, records: Seq<Record>, i: int)
    requires
        groups_are(groups, records),
        0 <= i < records.len(),
    ensures
        exists|g: int|
            {
                &&& 0 <= g < groups.len()
                &&& (#[trigger] groups[g]).key@ == records[i].key@
                &&& groups[g].sum == sum_for(records, records[i].key@)
                &&& groups[g].count == count_for(records, records[i].key@)
            },
        forall|g: int, h: int|
            0 <= g < h < groups.len() ==> (#[trigger] groups[g]).key@ != (#[trigger] groups[h]).key@,
        forall|g: int|
            0 <= g < groups.len() ==> record_keys(records).contains((#[trigger] groups[g]).key@),
{
    let keys = record_keys(records);
    let seen = first_seen(keys);
    law_first_seen_is_the_set(keys);
    assert(keys[i] == records[i].key@);
    assert(keys.contains(records[i].key@));
    assert(seen.contains(records[i].key@));
    let g = choose|g: int| 0 <= g < seen.len() && seen[g] == records[i].key@;
    assert(group_keys(groups)[g] == groups[g].key@);
    assert forall|a: int, b: int| 0 <= a < b < groups.len() implies (#[trigger] groups[a]).key@ != (
    #[trigger] groups[b]).key@ by {
        assert(group_keys(groups)[a] == groups[a].key@);
        assert(group_keys(groups)[b] == groups[b].key@);
    }
    assert forall|a: int| 0 <= a < groups.len() implies keys.contains((#[trigger] groups[a]).key@) by {
        assert(group_keys(groups)[a] == groups[a].key@);
        assert(seen.contains(seen[a]));
    }
}

/// A buffer is 512 bytes, zero but for its start.
pub proof fn law_what_a_buffer_holds(b: Seq<u8>, first: u8, i: int)
    requires
        is_buffer(b, first),
        0 <= i < 512,
    ensures
        b.len() == 512,
        b[i] == (if i == 0 {
            first
        } else {
            0
        }),
{
}

/// After some replacements, no more than there are buffers, the ones behind the last
/// position start with the number of their replacement, going round, and the others
/// are as they were.
pub proof fn law_replacements_go_round(firsts: Seq<u8>, rot: int, n: int, i: int)
    requires
        firsts.len() == 200_000,
        0 <= rot < 200_000,
        0 <= n <= 200_000,
        1 <= i <= 200_000,
    ensures
        churned(firsts, rot, n).len() == 200_000,
        churned(firsts, rot, n)[(rot + i) % 200_000] == (if i <= n {
            ((i - 1) % 256) as u8
        } else {
            firsts[(rot + i) % 200_000]
        }),
    decreases n,
{
    if n > 0 {
        law_replacements_go_round(firsts, rot, n - 1, i);
        if i != n {
            assert((rot + i) % 200_000 != (rot + n) % 200_000);
        }
    }
}

/// Every tenth start is summed, the first among them.
pub proof fn law_every_tenth_is_summed(firsts: Seq<u8>, k: int)
    requires
        0 <= k,
    ensures
        tenth_sum(firsts, 0) == 0,
        tenth_sum(firsts, 10 * k + 10) == tenth_sum(firsts, 10 * k) + firsts[10 * k],
{
}

/// How claims are mapped: to text as they are or as they are printed; to a truth value
/// only where they are one or spell one; to a set only the strings of an array, or a
/// single string. Null maps to nothing.
pub proof fn law_how_claims_are_mapped(
    b: bool,
    t: Seq<char>,
    items: Seq<Option<Seq<char>>>,
    ty: ClaimType,
)
    ensures
        as_text(JsonView::Text(t)) == Some(MappedView::Text(t)),
        as_text(JsonView::Number(t)) == Some(MappedView::Text(t)),
        as_text(JsonView::Object(t)) == Some(MappedView::Text(t)),
        as_text(JsonView::Array(items, t)) == Some(MappedView::Text(t)),
        as_text(JsonView::Bool(true)) == Some(MappedView::Text("true"@)),
        as_text(JsonView::Bool(false)) == Some(MappedView::Text("false"@)),
        as_bool(JsonView::Bool(b)) == Some(MappedView::Bool(b)),
        as_bool(JsonView::Text("true"@)) == Some(MappedView::Bool(true)),
        as_bool(JsonView::Text("false"@)) == Some(MappedView::Bool(false)),
        t != "true"@ && t != "false"@ ==> as_bool(JsonView::Text(t)) is None,
        as_bool(JsonView::Number(t)) is None,
        as_bool(JsonView::Object(t)) is None,
        as_bool(JsonView::Array(items, t)) is None,
        as_set(JsonView::Text(t)) == Some(MappedView::StringSet(seq![t])),
        as_set(JsonView::Array(items, t)) == Some(MappedView::StringSet(strings_of(items))),
        as_set(JsonView::Number(t)) is None,
        as_set(JsonView::Object(t)) is None,
        as_set(JsonView::Bool(b)) is None,
        mapped_as(ty, JsonView::Null) is None,
        mapped_as(ClaimType::Text, JsonView::Text(t)) == Some(MappedView::Text(t)),
        mapped_as(ClaimType::Bool, JsonView::Bool(b)) == Some(MappedView::Bool(b)),
        mapped_as(ClaimType::StringSet, JsonView::Text(t)) == Some(MappedView::StringSet(seq![t])),
{
    reveal_strlit("true");
    reveal_strlit("false");
    assert("true"@.len() != "false"@.len());
}

/// Of the items of an array the strings are kept, in their order, and nothing else.
pub proof fn law_strings_are_kept_in_order(items: Seq<Option<Seq<char>>>, t: Seq<char>)
    ensures
        strings_of(Seq::empty()) == Seq::<Seq<char>>::empty(),
        strings_of(items.push(Some(t))) == strings_of(items).push(t),
        strings_of(items.push(None)) == strings_of(items),
{
    assert(items.push(Some(t)).drop_last() =~= items);
    assert(items.push(None).drop_last() =~= items);
}

/// The seven claims that are extracted, each under its name and mapped as it is
/// configured; one that is absent, null, or does not map is left out.
pub proof fn law_which_claims_are_extracted(fields: Seq<Option<JsonView>>, i: int)
    requires
        fields.len() == 7,
        0 <= i < 7,
    ensures
        extracted(fields, 0).len() == 0,
        ({
            let name = if i == 0 {
                "sub"@
            } else if i == 1 {
                "email"@
            } else if i == 2 {
                "email_verified"@
            } else if i == 3 {
                "cognito:groups"@
            } else if i == 4 {
                "scope"@
            } else if i == 5 {
                "tenant_id"@
            } else {
                "roles"@
            };
            let before = extracted(fields, i);
            match fields[i] {
                None => extracted(fields, i + 1) == before,
                Some(v) => {
                    let mapped = if v is Null {
                        None
                    } else if i == 2 {
                        as_bool(v)
                    } else if i == 3 || i == 6 {
                        as_set(v)
                    } else {
                        as_text(v)
                    };
                    match mapped {
                        None => extracted(fields, i + 1) == before,
                        Some(m) => extracted(fields, i + 1) == before.push((name, m)),
                    }
                },
            }
        }),
{
}

/// The fields that are looked at are those of the seven claims, in their order.
pub proof fn law_which_fields_are_read(fields: Map<Seq<char>, JsonView>)
    ensures
        configured_fields(fields).len() == 7,
        configured_fields(fields)[0] == field_among(fields, "sub"@),
        configured_fields(fields)[1] == field_among(fields, "email"@),
        configured_fields(fields)[2] == field_among(fields, "email_verified"@),
        configured_fields(fields)[3] == field_among(fields, "cognito:groups"@),
        configured_fields(fields)[4] == field_among(fields, "scope"@),
        configured_fields(fields)[5] == field_among(fields, "tenant_id"@),
        configured_fields(fields)[6] == field_among(fields, "roles"@),
        forall|name: Seq<char>|
            fields.dom().contains(name) ==> #[trigger] field_among(fields, name) == Some(
                fields[name],
            ),
        forall|name: Seq<char>|
            !fields.dom().contains(name) ==> #[trigger] field_among(fields, name) is None,
{
}

/// A token is judged by the one algorithm, audience and issuer, with the expiry, the
/// issuer and the audience required and the start of its validity heeded.
pub proof fn law_how_tokens_are_judged(token: Seq<char>, key: PublicKey, moment: u64)
    ensures
        accepted_claims(token, key, moment) == token_claims(
            token,
            key.n@,
            key.e@,
            "RS256"@,
            "lambdabench-gateway"@,
            "https://idp.lambdabench.example/"@,
            REQUIRED_CLAIMS@,
            true,
            moment,
        ),
        REQUIRED_CLAIMS@.len() == 3,
        REQUIRED_CLAIMS@[0]@ == "exp"@,
        REQUIRED_CLAIMS@[1]@ == "iss"@,
        REQUIRED_CLAIMS@[2]@ == "aud"@,
{
}

/// A claim names a party where it is the party's name, or an array that holds it.
pub proof fn law_when_a_party_is_named(
    t: Seq<char>,
    items: Seq<Option<Seq<char>>>,
    b: bool,
    party: Seq<char>,
)
    ensures
        names_party(Some(JsonView::Text(t)), party) <==> t == party,
        names_party(Some(JsonView::Array(items, t)), party) <==> exists|i: int|
            0 <= i < items.len() && #[trigger] items[i] == Some(party),
        !names_party(None, party),
        !names_party(Some(JsonView::Null), party),
        !names_party(Some(JsonView::Bool(b)), party),
        !names_party(Some(JsonView::Number(t)), party),
        !names_party(Some(JsonView::Object(t)), party),
{
}

/// A small number is padded to four digits, and still denotes the same.
pub proof fn law_four_digits(n: nat)
    requires
        n < 10_000,
    ensures
        four_digits(n).len() == 4,
        digits_value(four_digits(n)) == n,
{
    lemma_decimal_length(n);
    law_rendering_denotes_the_number(n);
    let t = decimal(n);
    if n < 10 {
        lemma_leading_zero(t);
        lemma_leading_zero(seq!['0'] + t);
        lemma_leading_zero(seq!['0'] + (seq!['0'] + t));
        assert(four_digits(n) =~= seq!['0'] + (seq!['0'] + (seq!['0'] + t)));
    } else if n < 100 {
        lemma_leading_zero(t);
        lemma_leading_zero(seq!['0'] + t);
        assert(four_digits(n) =~= seq!['0'] + (seq!['0'] + t));
    } else if n < 1000 {
        lemma_leading_zero(t);
        assert(four_digits(n) =~= seq!['0'] + t);
    } else {
        assert(four_digits(n) =~= t);
    }
}

proof fn lemma_decimal_length(n: nat)
    requires
        n < 10_000,
    ensures
        decimal(n).len() == (if n < 10 {
            1int
        } else if n < 100 {
            2
        } else if n < 1000 {
            3
        } else {
            4
        }),
{
    reveal_with_fuel(decimal, 4);
}

proof fn lemma_leading_zero(t: Seq<char>)
    ensures
        digits_value(seq!['0'] + t) == digits_value(t),
    decreases t.len(),
{
    let led = seq!['0'] + t;
    if t.len() == 0 {
        assert(led.drop_last() =~= t);
        assert(led.last() == '0');
        assert(digits_value(led.drop_last()) == 0);
    } else {
        lemma_leading_zero(t.drop_last());
        assert(led.drop_last() =~= seq!['0'] + t.drop_last());
        assert(led.last() == t.last());
    }
}

/// A `batch` record has its key and its value: keys go round, and values run from 1 to
/// 997.
pub proof fn law_what_a_batch_record_holds(i: int, cardinality: int)
    requires
        0 <= i,
        0 < cardinality,
    ensures
        batch_entry(i, cardinality) == "{\"key\":\"k"@ + four_digits((i % cardinality) as nat)
            + "\",\"value\":"@ + decimal((i % 997 + 1) as nat) + "}"@,
        batch_entry(i + cardinality * 997, cardinality) == batch_entry(i, cardinality),
{
    lemma_mod_multiples_vanish(997, i, cardinality);
    lemma_mod_multiples_vanish(cardinality, i, 997);
    assert(i + cardinality * 997 == 997 * cardinality + i);
}

/// The words of a `lettercount` entry.
pub open spec fn word(k: int) -> Seq<char> {
    if k == 0 {
        "alpha"@
    } else if k == 1 {
        "bravo"@
    } else if k == 2 {
        "charlie"@
    } else if k == 3 {
        "delta"@
    } else if k == 4 {
        "echo"@
    } else if k == 5 {
        "foxtrot"@
    } else if k == 6 {
        "golf"@
    } else {
        "hotel"@
    }
}

/// A `lettercount` entry has three words, that turn fastest first, the sentence, and
/// its number.
pub proof fn law_what_a_lettercount_entry_holds(i: int)
    requires
        0 <= i,
    ensures
        letter_entry(i) == "\""@ + word(i % 8) + " "@ + word(i / 8 % 8) + " "@ + word(i / 64 % 8)
            + " the quick brown fox jumps over the lazy dog record"@ + decimal(i as nat) + "\""@,
        letter_body(i) == word(i % 8) + " "@ + word(i / 8 % 8) + " "@ + word(i / 64 % 8)
            + " the quick brown fox jumps over the lazy dog record"@ + decimal(i as nat),
{
    lemma_words(i % 8);
    lemma_words(i / 8 % 8);
    lemma_words(i / 64 % 8);
}

proof fn lemma_words(k: int)
    requires
        0 <= k < 8,
    ensures
        WORDS@[k]@ == word(k),
{
}

/// An array grows by a comma and the next element, the first without the comma.
pub proof fn law_elements_are_set_apart<E: Entries>(entries: &E, n: int)
    requires
        1 <= n,
    ensures
        opened(entries, 0) == seq!['['],
        opened(entries, 1) == seq!['['] + entries.text(0),
        opened(entries, n + 1) == opened(entries, n) + seq![','] + entries.text(n),
{
}

/// Sizes add up one by one.
pub proof fn law_sizes_add_up(sizes: Seq<u64>, n: u64)
    ensures
        sum_of(Seq::empty()) == 0,
        sum_of(sizes.push(n)) == sum_of(sizes) + n,
{
    assert(sizes.push(n).drop_last() =~= sizes);
}

/// Each file of an archive is an entry with its name and body, deflated, that its owner
/// may write and all may read; the mode is that of a regular file.
pub proof fn law_what_archived_files_become(files: Seq<ArchiveFile>, i: int, permissions: u32)
    requires
        0 <= i < files.len(),
    ensures
        file_entries(files).len() == files.len(),
        file_entries(files)[i].0 == files[i].name@,
        file_entries(files)[i].1 == 0o644,
        !file_entries(files)[i].2,
        file_entries(files)[i].3 == files[i].body@,
        permissions <= 0o777 ==> file_mode(permissions) == 0o100000 + permissions,
{
    if permissions <= 0o777 {
        assert(0o100000u32 | (permissions & 0o777u32) == 0o100000u32 + permissions) by (bit_vector)
            requires
                permissions <= 0o777u32,
        ;
    }
}

/// A stored entry takes its body and 76 bytes more, and its name twice; the end of an
/// archive takes 22.
pub proof fn law_room_of_stored_entries(
    entries: Seq<(Seq<char>, u32, bool, Seq<u8>)>,
    e: (Seq<char>, u32, bool, Seq<u8>),
)
    ensures
        stored_length(Seq::empty()) == 22,
        stored_length(entries.push(e)) == stored_length(entries) + 30 + 46 + 2
            * name_length(e.0) + e.3.len(),
{
    assert(entries.push(e).drop_last() =~= entries);
}

/// Sums fit as long as every running sum does: one more record must leave the sum of
/// all, and that of its key, within 64 bits.
pub proof fn law_when_sums_fit(records: Seq<Record>, r: Record)
    ensures
        sums_fit(Seq::empty()),
        sums_fit(records.push(r)) <==> {
            &&& sums_fit(records)
            &&& i64::MIN <= sum_of_all(records.push(r)) <= i64::MAX
            &&& i64::MIN <= sum_for(records.push(r), r.key@) <= i64::MAX
        },
{
    let more = records.push(r);
    let n = records.len() as int;
    assert(more.take(n + 1) =~= more);
    assert forall|k: int| 0 <= k < n implies #[trigger] more.take(k + 1) == records.take(k + 1)
        && more[k] == records[k] by {
        assert(more.take(k + 1) =~= records.take(k + 1));
    }
    if sums_fit(more) {
        assert forall|k: int| 0 <= k < records.len() implies fits(
            sum_of_all(#[trigger] records.take(k + 1)),
        ) && fits(sum_for(records.take(k + 1), records[k].key@)) by {
            assert(more.take(k + 1) == records.take(k + 1));
        }
        assert(fits(sum_of_all(more.take(n + 1))));
    }
    if sums_fit(records) && fits(sum_of_all(more)) && fits(sum_for(more, r.key@)) {
        assert forall|k: int| 0 <= k < more.len() implies fits(
            sum_of_all(#[trigger] more.take(k + 1)),
        ) && fits(sum_for(more.take(k + 1), more[k].key@)) by {
            if k < n {
                assert(more.take(k + 1) == records.take(k + 1));
                assert(fits(sum_of_all(records.take(k + 1))));
            }
        }
    }
}

/// A payload has as many elements as it takes to reach its size with its brackets
/// counted, and none more.
pub proof fn law_payloads_are_just_long_enough<E: Entries>(
    entries: &E,
    min_bytes: int,
    n: int,
    k: int,
)
    requires
        fewest(entries, min_bytes, n),
        0 <= k < n,
    ensures
        encode_utf8(opened(entries, n) + seq![']']).len() >= min_bytes,
        encode_utf8(opened(entries, k) + seq![']']).len() < min_bytes,
{
    assert(opened(entries, n) + seq![']'] =~= opened(entries, n).push(']'));
    assert(opened(entries, k) + seq![']'] =~= opened(entries, k).push(']'));
    assert(closed_size(entries, k) < min_bytes);
}

/// Files have different names where no name comes twice.
pub proof fn law_when_names_differ(files: Seq<ArchiveFile>)
    ensures
        names_differ(files) <==> !exists|i: int, j: int|
            0 <= i < j < files.len() && (#[trigger] files[i]).name@ == (#[trigger] files[j]).name@,
{
}

} // verus!
