//! The seeded payloads of the `lettercount` and `batch` scenarios: JSON arrays
//! that are the same on every deployment.
use crate::scenario::{is_plain_text, quoted_array};
use crate::text::{append_decimal, decimal, is_digit, joined};
use crate::text_lemmas::{lemma_decimal_digits, lemma_decimal_injective};
use vstd::prelude::*;
use vstd::string::*;
use vstd::utf8::{encode_scalar, encode_utf8, is_ascii_chars, is_ascii_chars_encode_utf8};

verus! {

/// A way to render the elements of an array: complete JSON values, escaped where
/// they need it.
pub trait Entries {
    /// The element of an index.
    spec fn text(&self, i: int) -> Seq<char>;

    /// Whether elements can be rendered.
    spec fn usable(&self) -> bool;

    /// Renders the element of an index.
    fn entry(&self, i: usize) -> (r: String)
        requires
            self.usable(),
        ensures
            r@ == self.text(i as int),
    ;
}

/// An array opened and filled with the first `n` elements, not closed yet.
pub open spec fn opened<E: Entries>(entries: &E, n: int) -> Seq<char>
    decreases n,
{
    if n <= 0 {
        seq!['[']
    } else if n == 1 {
        opened(entries, 0) + entries.text(0)
    } else {
        opened(entries, n - 1) + seq![','] + entries.text(n - 1)
    }
}

/// The bytes that the array of the first `n` elements takes once it is closed.
pub open spec fn closed_size<E: Entries>(entries: &E, n: int) -> int {
    encode_utf8(opened(entries, n).push(']')).len() as int
}

/// Whether `n` elements are the fewest that bring the closed array to `min_bytes`.
pub open spec fn fewest<E: Entries>(entries: &E, min_bytes: int, n: int) -> bool {
    &&& 0 <= n
    &&& closed_size(entries, n) >= min_bytes
    &&& forall|k: int| 0 <= k < n ==> (#[trigger] closed_size(entries, k)) < min_bytes
}

/// One character more takes its own bytes more.
proof fn lemma_encode_push(t: Seq<char>, c: char)
    ensures
        encode_utf8(t.push(c)) == encode_utf8(t) + encode_scalar(c as u32),
    decreases t.len(),
{
    let whole = t.push(c);
    if t.len() == 0 {
        assert(whole.drop_first() =~= Seq::<char>::empty());
        assert(encode_utf8(whole.drop_first()) =~= Seq::<u8>::empty());
        assert(encode_utf8(t) =~= Seq::<u8>::empty());
        assert(encode_utf8(whole) =~= encode_scalar(c as u32));
    } else {
        lemma_encode_push(t.drop_first(), c);
        assert(whole.drop_first() =~= t.drop_first().push(c));
        assert(encode_utf8(whole) =~= encode_utf8(t) + encode_scalar(c as u32));
    }
}

/// A text takes at least a byte for each character.
proof fn lemma_encode_no_shorter(t: Seq<char>)
    ensures
        encode_utf8(t).len() >= t.len(),
    decreases t.len(),
{
    if t.len() > 0 {
        lemma_encode_no_shorter(t.drop_first());
    }
}

/// The bracket that closes an array takes one byte.
proof fn lemma_closed_size<E: Entries>(entries: &E, n: int)
    ensures
        closed_size(entries, n) == encode_utf8(opened(entries, n)).len() + 1,
{
    lemma_encode_push(opened(entries, n), ']');
    assert(encode_scalar(']' as u32).len() == 1);
}

/// Builds an array from elements 0, 1, 2 and so on, as many as it takes to bring
/// it, closed, to `min_bytes`.
pub fn build_json_array<E: Entries>(min_bytes: usize, entries: &E) -> (r: String)
    requires
        entries.usable(),
    ensures
        exists|n: int| #[trigger]
            fewest(entries, min_bytes as int, n) && r@ == opened(entries, n).push(']'),
        encode_utf8(r@).len() >= min_bytes,
{
    proof {
        reveal_strlit("[");
        reveal_strlit(",");
        reveal_strlit("]");
    }
    let mut out: String = "[".to_owned();
    let mut i: usize = 0;
    proof {
        assert(out@ =~= opened(entries, 0));
    }
    while min_bytes > 0 && out.as_str().as_bytes().len() < min_bytes - 1
        invariant
            entries.usable(),
            out@ == opened(entries, i as int),
            i <= out@.len(),
            ","@ == seq![','],
            forall|k: int| 0 <= k < i ==> (#[trigger] closed_size(entries, k)) < min_bytes,
        decreases min_bytes - i,
    {
        proof {
            lemma_encode_no_shorter(out@);
            lemma_closed_size(entries, i as int);
        }
        if i > 0 {
            out.append(",");
        }
        let entry: String = entries.entry(i);
        out.append(entry.as_str());
        proof {
            assert(out@ =~= opened(entries, i + 1));
        }
        i = i + 1;
    }
    proof {
        lemma_closed_size(entries, i as int);
        assert(fewest(entries, min_bytes as int, i as int));
    }
    out.append("]");
    proof {
        assert(out@ =~= opened(entries, i as int).push(']'));
    }
    out
}

/// An array of ASCII elements is ASCII itself.
proof fn lemma_opened_ascii<E: Entries>(entries: &E, n: int)
    requires
        forall|i: int| 0 <= i < n ==> is_ascii_chars(#[trigger] entries.text(i)),
    ensures
        is_ascii_chars(opened(entries, n)),
    decreases n,
{
    if n == 1 {
        lemma_opened_ascii(entries, 0);
        assert(is_ascii_chars(entries.text(0)));
    } else if n > 1 {
        lemma_opened_ascii(entries, n - 1);
        assert(is_ascii_chars(entries.text(n - 1)));
    }
}

/// An array built of ASCII elements is ASCII, and as many characters long as bytes.
proof fn lemma_built_ascii<E: Entries>(entries: &E, n: int, built: Seq<char>)
    requires
        built == opened(entries, n).push(']'),
        forall|i: int| 0 <= i < n ==> is_ascii_chars(#[trigger] entries.text(i)),
    ensures
        is_ascii_chars(built),
        built.len() == encode_utf8(built).len(),
{
    lemma_opened_ascii(entries, n);
    is_ascii_chars_encode_utf8(built);
}

/// The words that `lettercount` entries are made of.
pub const WORDS: [&'static str; 8] = [
    "alpha",
    "bravo",
    "charlie",
    "delta",
    "echo",
    "foxtrot",
    "golf",
    "hotel",
];

/// What follows the words of an entry.
pub const SENTENCE: &'static str = " the quick brown fox jumps over the lazy dog record";

/// The entries of the `lettercount` payload: three words picked by the index, a
/// sentence, and the index itself.
pub struct LetterEntries {}

/// The text of a `lettercount` entry.
pub open spec fn letter_entry(i: int) -> Seq<char> {
    "\""@ + WORDS@[i % 8]@ + " "@ + WORDS@[i / 8 % 8]@ + " "@ + WORDS@[i / 64 % 8]@ + SENTENCE@
        + decimal(i as nat) + "\""@
}

proof fn lemma_words_ascii()
    ensures
        forall|k: int| 0 <= k < 8 ==> is_ascii_chars(#[trigger] WORDS@[k]@),
        is_ascii_chars(SENTENCE@),
        is_ascii_chars("\""@),
        is_ascii_chars(" "@),
        "\""@.len() == 1,
{
    reveal_strlit("alpha");
    reveal_strlit("bravo");
    reveal_strlit("charlie");
    reveal_strlit("delta");
    reveal_strlit("echo");
    reveal_strlit("foxtrot");
    reveal_strlit("golf");
    reveal_strlit("hotel");
    reveal_strlit(" the quick brown fox jumps over the lazy dog record");
    reveal_strlit("\"");
    reveal_strlit(" ");
    assert forall|k: int| 0 <= k < 8 implies is_ascii_chars(#[trigger] WORDS@[k]@) by {
        if k == 0 {
            assert(WORDS@[k]@ == "alpha"@);
        } else if k == 1 {
            assert(WORDS@[k]@ == "bravo"@);
        } else if k == 2 {
            assert(WORDS@[k]@ == "charlie"@);
        } else if k == 3 {
            assert(WORDS@[k]@ == "delta"@);
        } else if k == 4 {
            assert(WORDS@[k]@ == "echo"@);
        } else if k == 5 {
            assert(WORDS@[k]@ == "foxtrot"@);
        } else if k == 6 {
            assert(WORDS@[k]@ == "golf"@);
        } else {
            assert(WORDS@[k]@ == "hotel"@);
        }
    }
}

impl Entries for LetterEntries {
    open spec fn text(&self, i: int) -> Seq<char> {
        letter_entry(i)
    }

    open spec fn usable(&self) -> bool {
        true
    }

    fn entry(&self, i: usize) -> (r: String) {
        let words: [&'static str; 8] = WORDS;
        let mut out: String = "\"".to_owned();
        out.append(words[i % 8]);
        out.append(" ");
        out.append(words[i / 8 % 8]);
        out.append(" ");
        out.append(words[i / 64 % 8]);
        out.append(SENTENCE);
        append_decimal(&mut out, i as u128);
        out.append("\"");
        out
    }
}

/// A `lettercount` entry is ASCII, so that every language counts the same
/// characters in it.
pub proof fn law_letter_entry_ascii(i: int)
    requires
        0 <= i,
    ensures
        is_ascii_chars(letter_entry(i)),
{
    lemma_words_ascii();
    lemma_decimal_digits(i as nat);
    assert(is_ascii_chars(WORDS@[i % 8]@));
    assert(is_ascii_chars(WORDS@[i / 8 % 8]@));
    assert(is_ascii_chars(WORDS@[i / 64 % 8]@));
    assert(is_ascii_chars(decimal(i as nat)));
}

/// The `lettercount` payload: an array of lower-case ASCII strings.
pub fn generate_lettercount_payload(min_bytes: usize) -> (r: String)
    ensures
        exists|n: int| #[trigger]
            fewest(&LetterEntries {  }, min_bytes as int, n) && r@ == opened(
                &LetterEntries {  },
                n,
            ).push(']'),
        is_ascii_chars(r@),
        r@.len() >= min_bytes,
{
    let entries: LetterEntries = LetterEntries {  };
    let r: String = build_json_array(min_bytes, &entries);
    proof {
        let n = choose|n: int| #[trigger]
            fewest(&entries, min_bytes as int, n) && r@ == opened(&entries, n).push(']');
        assert forall|i: int| 0 <= i < n implies is_ascii_chars(#[trigger] entries.text(i)) by {
            law_letter_entry_ascii(i);
        }
        lemma_built_ascii(&entries, n, r@);
    }
    r
}

/// A number with at least four digits, zeros leading.
pub open spec fn four_digits(n: nat) -> Seq<char> {
    let zeros = if n < 10 {
        seq!['0', '0', '0']
    } else if n < 100 {
        seq!['0', '0']
    } else if n < 1000 {
        seq!['0']
    } else {
        Seq::empty()
    };
    zeros + decimal(n)
}

/// The entries of the `batch` payload: records whose keys cycle through
/// `cardinality` values.
pub struct BatchEntries {
    pub cardinality: usize,
}

/// The text of a `batch` record.
pub open spec fn batch_entry(i: int, cardinality: int) -> Seq<char> {
    "{\"key\":\"k"@ + four_digits((i % cardinality) as nat) + "\",\"value\":"@ + decimal(
        (i % 997 + 1) as nat,
    ) + "}"@
}

impl Entries for BatchEntries {
    open spec fn text(&self, i: int) -> Seq<char> {
        batch_entry(i, self.cardinality as int)
    }

    open spec fn usable(&self) -> bool {
        self.cardinality > 0
    }

    fn entry(&self, i: usize) -> (r: String) {
        let key: usize = i % self.cardinality;
        let value: usize = i % 997 + 1;
        proof {
            reveal_strlit("000");
            reveal_strlit("00");
            reveal_strlit("0");
        }
        let mut out: String = "{\"key\":\"k".to_owned();
        let ghost head = out@;
        if key < 10 {
            out.append("000");
        } else if key < 100 {
            out.append("00");
        } else if key < 1000 {
            out.append("0");
        }
        append_decimal(&mut out, key as u128);
        proof {
            assert(out@ =~= head + four_digits(key as nat));
        }
        out.append("\",\"value\":");
        append_decimal(&mut out, value as u128);
        out.append("}");
        out
    }
}

/// A `batch` record is ASCII.
pub proof fn law_batch_entry_ascii(i: int, cardinality: int)
    requires
        0 <= i,
        0 < cardinality,
    ensures
        is_ascii_chars(batch_entry(i, cardinality)),
{
    reveal_strlit("{\"key\":\"k");
    reveal_strlit("\",\"value\":");
    reveal_strlit("}");
    let key = (i % cardinality) as nat;
    let value = (i % 997 + 1) as nat;
    lemma_decimal_digits(key);
    lemma_decimal_digits(value);
    assert(is_ascii_chars(decimal(key)));
    assert(is_ascii_chars(decimal(value)));
    assert(is_ascii_chars(four_digits(key)));
}

/// The `batch` payload: an array of records whose keys cycle through
/// `cardinality` values.
pub fn generate_batch_payload(min_bytes: usize, cardinality: usize) -> (r: String)
    requires
        cardinality > 0,
    ensures
        exists|n: int| #[trigger]
            fewest(&BatchEntries { cardinality }, min_bytes as int, n) && r@ == opened(
                &BatchEntries { cardinality },
                n,
            ).push(']'),
        is_ascii_chars(r@),
        r@.len() >= min_bytes,
{
    let entries: BatchEntries = BatchEntries { cardinality };
    let r: String = build_json_array(min_bytes, &entries);
    proof {
        let n = choose|n: int| #[trigger]
            fewest(&entries, min_bytes as int, n) && r@ == opened(&entries, n).push(']');
        assert forall|i: int| 0 <= i < n implies is_ascii_chars(#[trigger] entries.text(i)) by {
            law_batch_entry_ascii(i, cardinality as int);
        }
        lemma_built_ascii(&entries, n, r@);
    }
    r
}

/// At most one number of elements is the fewest that reach a size, so that the
/// size decides the payload.
pub proof fn law_payload_decided_by_size<E: Entries>(entries: &E, min_bytes: int, n: int, m: int)
    requires
        fewest(entries, min_bytes, n),
        fewest(entries, min_bytes, m),
    ensures
        n == m,
{
    if n < m {
        assert(closed_size(entries, n) < min_bytes);
    }
    if m < n {
        assert(closed_size(entries, m) < min_bytes);
    }
}

/// Where nothing, or no more than the two brackets, is asked for, the array is empty.
pub proof fn law_small_payload_is_empty<E: Entries>(entries: &E, min_bytes: int)
    requires
        min_bytes <= 2,
    ensures
        fewest(entries, min_bytes, 0),
{
    lemma_closed_size(entries, 0);
    lemma_encode_no_shorter(opened(entries, 0));
}

/// No two `lettercount` entries are the same.
pub proof fn law_letter_entries_distinct(i: int, j: int)
    requires
        0 <= i,
        0 <= j,
        letter_entry(i) == letter_entry(j),
    ensures
        i == j,
{
    reveal_strlit(" the quick brown fox jumps over the lazy dog record");
    reveal_strlit("\"");
    lemma_decimal_digits(i as nat);
    lemma_decimal_digits(j as nat);
    let a = letter_entry(i);
    let b = letter_entry(j);
    let di = decimal(i as nat);
    let dj = decimal(j as nat);
    let n = a.len() as int;
    assert(a.subrange(n - 1 - di.len(), n - 1) =~= di);
    assert(b.subrange(n - 1 - dj.len(), n - 1) =~= dj);
    assert(a[n - 2 - di.len()] == 'd');
    assert(b[n - 2 - dj.len()] == 'd');
    if di.len() < dj.len() {
        assert(b[n - 2 - di.len()] == dj[dj.len() - di.len() - 1]);
        assert(is_digit(dj[dj.len() - di.len() - 1]));
    } else if dj.len() < di.len() {
        assert(a[n - 2 - dj.len()] == di[di.len() - dj.len() - 1]);
        assert(is_digit(di[di.len() - dj.len() - 1]));
    } else {
        assert(di == dj);
        lemma_decimal_injective(i as nat, j as nat);
    }
}

/// What stands between the quotes of a `lettercount` entry.
pub open spec fn letter_body(i: int) -> Seq<char> {
    WORDS@[i % 8]@ + " "@ + WORDS@[i / 8 % 8]@ + " "@ + WORDS@[i / 64 % 8]@ + SENTENCE@ + decimal(
        i as nat,
    )
}

/// The first `n` bodies of `lettercount` entries.
pub open spec fn letter_bodies(n: nat) -> Seq<Seq<char>> {
    Seq::new(n, |i: int| letter_body(i))
}

proof fn lemma_opened_is_joined(n: nat)
    ensures
        opened(&LetterEntries {  }, n as int) == "["@ + joined(
            letter_bodies(n).map_values(|e: Seq<char>| "\""@ + e + "\""@),
            ","@,
        ),
    decreases n,
{
    reveal_strlit("[");
    reveal_strlit(",");
    assert("["@ =~= seq!['[']);
    assert(","@ =~= seq![',']);
    let entries = LetterEntries {  };
    let quoted = letter_bodies(n).map_values(|e: Seq<char>| "\""@ + e + "\""@);
    if n == 0 {
        assert(opened(&entries, 0) =~= "["@ + joined(quoted, ","@));
    } else {
        let k = (n - 1) as nat;
        lemma_opened_is_joined(k);
        let before = letter_bodies(k).map_values(|e: Seq<char>| "\""@ + e + "\""@);
        assert(quoted.drop_last() =~= before);
        assert(quoted.last() =~= letter_entry(k as int));
        if n == 1 {
            assert(opened(&entries, 1) == opened(&entries, 0) + letter_entry(0));
            assert(opened(&entries, 1) =~= "["@ + joined(quoted, ","@));
        } else {
            assert(opened(&entries, n as int) == opened(&entries, n - 1) + seq![',']
                + letter_entry(k as int));
            assert(opened(&entries, n as int) =~= "["@ + joined(quoted, ","@));
        }
    }
}

proof fn lemma_letter_body_plain(i: int)
    requires
        0 <= i,
    ensures
        is_plain_text(letter_body(i)),
{
    reveal_strlit("alpha");
    reveal_strlit("bravo");
    reveal_strlit("charlie");
    reveal_strlit("delta");
    reveal_strlit("echo");
    reveal_strlit("foxtrot");
    reveal_strlit("golf");
    reveal_strlit("hotel");
    reveal_strlit(" the quick brown fox jumps over the lazy dog record");
    reveal_strlit(" ");
    lemma_decimal_digits(i as nat);
    lemma_word_plain(i % 8);
    lemma_word_plain(i / 8 % 8);
    lemma_word_plain(i / 64 % 8);
    assert(is_plain_text(" "@));
    assert(is_plain_text(SENTENCE@));
    assert(is_plain_text(decimal(i as nat)));
}

proof fn lemma_word_plain(k: int)
    requires
        0 <= k < 8,
    ensures
        is_plain_text(WORDS@[k]@),
{
    reveal_strlit("alpha");
    reveal_strlit("bravo");
    reveal_strlit("charlie");
    reveal_strlit("delta");
    reveal_strlit("echo");
    reveal_strlit("foxtrot");
    reveal_strlit("golf");
    reveal_strlit("hotel");
    if k == 0 {
        assert(WORDS@[k]@ == "alpha"@);
    } else if k == 1 {
        assert(WORDS@[k]@ == "bravo"@);
    } else if k == 2 {
        assert(WORDS@[k]@ == "charlie"@);
    } else if k == 3 {
        assert(WORDS@[k]@ == "delta"@);
    } else if k == 4 {
        assert(WORDS@[k]@ == "echo"@);
    } else if k == 5 {
        assert(WORDS@[k]@ == "foxtrot"@);
    } else if k == 6 {
        assert(WORDS@[k]@ == "golf"@);
    } else {
        assert(WORDS@[k]@ == "hotel"@);
    }
}

/// The `lettercount` payload is an array of plain texts between quotes, the form
/// that the handler's parser gives back as it is: what is seeded is what is
/// counted.
pub proof fn law_lettercount_payload_is_readable(n: nat)
    ensures
        opened(&LetterEntries {  }, n as int).push(']') == quoted_array(letter_bodies(n)),
        forall|i: int| 0 <= i < n ==> is_plain_text(#[trigger] letter_bodies(n)[i]),
{
    reveal_strlit("]");
    lemma_opened_is_joined(n);
    assert("]"@ =~= seq![']']);
    assert(opened(&LetterEntries {  }, n as int).push(']') =~= quoted_array(letter_bodies(n)));
    assert forall|i: int| 0 <= i < n implies is_plain_text(#[trigger] letter_bodies(n)[i]) by {
        lemma_letter_body_plain(i);
    }
}

} // verus!
