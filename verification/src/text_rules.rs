//! What the text functions are for: renderings that are read back, texts that are
//! split and put together again, and the order of texts.
use crate::report::{digits_value, signed_number, whole_number};
use crate::text::{
    decimal, decimal_int, digit, first_of, is_digit, is_white_space, joined, lines_of, pieces,
    precedes, trimmed, trimmed_end, trimmed_start, without_cr,
};
use crate::text_lemmas::{all_lack, lacks, lemma_decimal_digits, lemma_last_piece, lemma_single_piece};
use vstd::prelude::*;

verus! {

/// The digits run from zero to nine.
pub proof fn law_digits_in_order(d: int)
    requires
        0 <= d < 10,
    ensures
        is_digit(digit(d)),
        digit(d) as int == '0' as int + d,
{
}

/// A rendered number denotes the number, and begins with a zero only where it is zero.
pub proof fn law_rendering_denotes_the_number(n: nat)
    ensures
        digits_value(decimal(n)) == n,
        decimal(n).len() > 0,
        decimal(n)[0] == '0' ==> n == 0,
        n < 10 ==> decimal(n).len() == 1,
    decreases n,
{
    let t = decimal(n);
    if n < 10 {
        assert(t.drop_last() =~= Seq::<char>::empty());
        assert(digits_value(t.drop_last()) == 0);
        assert(t.last() == digit(n as int));
    } else {
        law_rendering_denotes_the_number(n / 10);
        assert(t.drop_last() =~= decimal(n / 10));
        assert(t.last() == digit((n % 10) as int));
        assert(t[0] == decimal(n / 10)[0]);
    }
}

/// A number that fits is read back from its rendering, with or without a minus.
pub proof fn law_rendering_is_read_back(n: int)
    requires
        i64::MIN <= n <= i64::MAX,
    ensures
        signed_number(decimal_int(n)) == Some(n),
        n >= 0 ==> whole_number(decimal_int(n)) == Some(n),
        n < 0 ==> whole_number(decimal_int(n)) is None,
{
    let size: nat = if n < 0 {
        (-n) as nat
    } else {
        n as nat
    };
    law_rendering_denotes_the_number(size);
    lemma_decimal_digits(size);
    let t = decimal_int(n);
    if n < 0 {
        assert(t[0] == '-');
        assert(t.drop_first() =~= decimal(size));
        assert(!is_digit(t[0]));
    } else {
        assert(is_digit(t[0]));
        assert(t[0] != '-');
    }
}

/// Splitting loses nothing: the pieces hold no separator, and put together again with
/// it they give the text.
pub proof fn law_joining_undoes_splitting(s: Seq<char>, sep: char)
    ensures
        pieces(s, sep).len() > 0,
        all_lack(pieces(s, sep), sep),
        joined(pieces(s, sep), seq![sep]) == s,
    decreases s.len(),
{
    let all = pieces(s, sep);
    let mark = seq![sep];
    if s.len() == 0 {
        assert(all =~= seq![Seq::<char>::empty()]);
        assert(joined(all, mark) =~= s);
    } else {
        let front = s.drop_last();
        law_joining_undoes_splitting(front, sep);
        let before = pieces(front, sep);
        if s.last() == sep {
            assert(all.drop_last() =~= before);
            assert(joined(all, mark) =~= s);
        } else {
            let last = before.last();
            assert(lacks(last, sep)) by {
                assert(last == before[before.len() - 1]);
            }
            assert(all.drop_last() =~= before.drop_last());
            assert forall|i: int| 0 <= i < all.len() implies lacks(#[trigger] all[i], sep) by {
                if i < all.len() - 1 {
                    assert(all[i] == before[i]);
                }
            }
            if before.len() == 1 {
                assert(joined(all, mark) =~= s);
            } else {
                assert(joined(all, mark) =~= joined(before.drop_last(), mark) + mark + last.push(
                    s.last(),
                ));
                assert(joined(before, mark) == joined(before.drop_last(), mark) + mark + last);
                assert(front.push(s.last()) =~= s);
                assert(joined(all, mark) =~= front.push(s.last()));
            }
        }
    }
}

/// Texts without the separator come back from being put together with it.
pub proof fn law_splitting_undoes_joining(parts: Seq<Seq<char>>, sep: char)
    requires
        parts.len() > 0,
        all_lack(parts, sep),
    ensures
        pieces(joined(parts, seq![sep]), sep) == parts,
    decreases parts.len(),
{
    if parts.len() == 1 {
        assert(lacks(parts[0], sep));
        lemma_single_piece(parts[0], sep);
        assert(parts =~= seq![parts[0]]);
    } else {
        let front = parts.drop_last();
        assert forall|i: int| 0 <= i < front.len() implies lacks(#[trigger] front[i], sep) by {
            assert(front[i] == parts[i]);
        }
        law_splitting_undoes_joining(front, sep);
        let last = parts[parts.len() - 1];
        assert(lacks(last, sep));
        lemma_last_piece(joined(front, seq![sep]), last, sep);
        assert(joined(front, seq![sep]) + seq![sep] + last =~= joined(front, seq![sep]).push(sep)
            + last);
        assert(front.push(last) =~= parts);
    }
}

/// The white space of ASCII.
pub proof fn law_plain_white_space(c: char)
    requires
        (c as u32) < 128,
    ensures
        is_white_space(c) <==> c == ' ' || c == '\t' || c == '\n' || c == '\r' || c as u32 == 11
            || c as u32 == 12,
{
}

proof fn lemma_trimmed_start(s: Seq<char>) -> (k: int)
    ensures
        0 <= k <= s.len(),
        trimmed_start(s) == s.skip(k),
        forall|i: int| 0 <= i < k ==> is_white_space(#[trigger] s[i]),
        k < s.len() ==> !is_white_space(s[k]),
    decreases s.len(),
{
    if s.len() > 0 && is_white_space(s[0]) {
        let rest = s.drop_first();
        let k = lemma_trimmed_start(rest);
        assert(s.skip(k + 1) =~= rest.skip(k));
        assert forall|i: int| 0 <= i < k + 1 implies is_white_space(#[trigger] s[i]) by {
            if i > 0 {
                assert(s[i] == rest[i - 1]);
            }
        }
        k + 1
    } else {
        assert(s.skip(0) =~= s);
        0
    }
}

proof fn lemma_trimmed_end(s: Seq<char>) -> (k: int)
    ensures
        0 <= k <= s.len(),
        trimmed_end(s) == s.take(k),
        forall|i: int| k <= i < s.len() ==> is_white_space(#[trigger] s[i]),
        k > 0 ==> !is_white_space(s[k - 1]),
    decreases s.len(),
{
    if s.len() > 0 && is_white_space(s.last()) {
        let rest = s.drop_last();
        let k = lemma_trimmed_end(rest);
        assert(s.take(k) =~= rest.take(k));
        assert forall|i: int| k <= i < s.len() implies is_white_space(#[trigger] s[i]) by {
            if i < rest.len() {
                assert(s[i] == rest[i]);
            }
        }
        k
    } else {
        assert(s.take(s.len() as int) =~= s);
        s.len() as int
    }
}

/// Trimming takes off white space alone, and leaves none at either end.
pub proof fn law_trimming_takes_white_space_only(s: Seq<char>)
    ensures
        ({
            let t = trimmed(s);
            &&& t.len() > 0 ==> !is_white_space(t[0]) && !is_white_space(t[t.len() - 1])
            &&& exists|a: int, b: int|
                {
                    &&& 0 <= a <= b <= s.len()
                    &&& t == #[trigger] s.subrange(a, b)
                    &&& forall|i: int| 0 <= i < a ==> is_white_space(#[trigger] s[i])
                    &&& forall|i: int| b <= i < s.len() ==> is_white_space(#[trigger] s[i])
                }
        }),
{
    let a = lemma_trimmed_start(s);
    let rest = s.skip(a);
    let k = lemma_trimmed_end(rest);
    let t = trimmed(s);
    assert(t =~= s.subrange(a, a + k));
    assert forall|i: int| a + k <= i < s.len() implies is_white_space(#[trigger] s[i]) by {
        assert(rest[i - a] == s[i]);
    }
    if k > 0 {
        assert(t[0] == s[a]);
        assert(t[k - 1] == rest[k - 1]);
    }
}

/// The first occurrence of a character is one, and none comes before it; without one it
/// is the end.
pub proof fn law_first_occurrence(s: Seq<char>, c: char)
    ensures
        0 <= first_of(s, c) <= s.len(),
        first_of(s, c) < s.len() ==> s[first_of(s, c)] == c,
        forall|i: int| 0 <= i < first_of(s, c) ==> #[trigger] s[i] != c,
    decreases s.len(),
{
    if s.len() > 0 && s[0] != c {
        let rest = s.drop_first();
        law_first_occurrence(rest, c);
        assert forall|i: int| 0 <= i < first_of(s, c) implies #[trigger] s[i] != c by {
            if i > 0 {
                assert(s[i] == rest[i - 1]);
            }
        }
        if first_of(rest, c) < rest.len() {
            assert(s[first_of(s, c)] == rest[first_of(rest, c)]);
        }
    }
}

/// Texts are ordered by the first character in which they differ, and a text comes
/// before what it begins.
pub proof fn law_order_of_texts(a: Seq<char>, b: Seq<char>, k: int)
    requires
        0 <= k <= a.len(),
        k < b.len(),
        forall|i: int| 0 <= i < k ==> #[trigger] a[i] == b[i],
        k < a.len() ==> a[k] < b[k],
    ensures
        precedes(a, b),
        !precedes(b, a),
    decreases k,
{
    if k > 0 {
        assert(a[0] == b[0]);
        let x = a.drop_first();
        let y = b.drop_first();
        assert forall|i: int| 0 <= i < k - 1 implies #[trigger] x[i] == y[i] by {
            assert(a[i + 1] == b[i + 1]);
        }
        law_order_of_texts(x, y, k - 1);
    }
}

/// A line that ends in a newline is a line of its own, with or without a carriage
/// return before the newline, and what follows is read as it would be alone.
pub proof fn law_lines_end_at_newlines(earlier: Seq<char>, line: Seq<char>)
    requires
        lacks(line, '\n'),
        earlier.len() == 0 || earlier.last() == '\n',
    ensures
        lines_of(earlier + line.push('\n')) == lines_of(earlier).push(without_cr(line)),
        line.len() > 0 ==> lines_of(earlier + line) == lines_of(earlier).push(line),
{
    let before = pieces(earlier, '\n');
    law_joining_undoes_splitting(earlier, '\n');
    lemma_trailing_piece(earlier, line, '\n');
    let all = pieces(earlier + line, '\n');
    let whole = earlier + line.push('\n');
    assert(whole.drop_last() =~= earlier + line);
    let more = pieces(whole, '\n');
    assert(more == all.push(Seq::<char>::empty()));
    assert(more.drop_last() =~= all);
    let front = before.drop_last().map_values(|p: Seq<char>| without_cr(p));
    assert(lines_of(earlier) =~= front);
    assert(all.drop_last() =~= before.drop_last());
    assert(all.map_values(|p: Seq<char>| without_cr(p)) =~= front.push(without_cr(line)));
    assert(lines_of(whole) =~= front.push(without_cr(line)));
    if line.len() > 0 {
        assert(lines_of(earlier + line) =~= front.push(line));
    }
}

/// Behind a separator, or at the start, a text without one makes the last piece.
proof fn lemma_trailing_piece(earlier: Seq<char>, line: Seq<char>, sep: char)
    requires
        lacks(line, sep),
        earlier.len() == 0 || earlier.last() == sep,
    ensures
        pieces(earlier, sep).last().len() == 0,
        pieces(earlier + line, sep) == pieces(earlier, sep).drop_last().push(line),
{
    let before = pieces(earlier, sep);
    if earlier.len() == 0 {
        assert(earlier + line =~= line);
        lemma_single_piece(line, sep);
        assert(before.drop_last().push(line) =~= seq![line]);
    } else {
        let head = earlier.drop_last();
        assert(earlier =~= head.push(sep));
        assert(before == pieces(head, sep).push(Seq::<char>::empty()));
        lemma_last_piece(head, line, sep);
        assert(before.drop_last() =~= pieces(head, sep));
    }
}

} // verus!
