//! What holds of the text functions: renderings that cannot be confused, and an
//! order that sorts.
use crate::text::{
    decimal, digit, has_prefix, has_text, is_digit, is_white_space, joined, occurs_at, pieces,
    precedes, trimmed, trimmed_end,
};
use vstd::prelude::*;

verus! {

/// The rendering of a number is made of digits alone and is never empty.
pub proof fn lemma_decimal_digits(n: nat)
    ensures
        decimal(n).len() > 0,
        forall|i: int| 0 <= i < decimal(n).len() ==> is_digit(#[trigger] decimal(n)[i]),
    decreases n,
{
    if n >= 10 {
        lemma_decimal_digits(n / 10);
    }
}

/// Two numbers with the same decimal rendering are the same number.
pub proof fn lemma_decimal_injective(a: nat, b: nat)
    requires
        decimal(a) == decimal(b),
    ensures
        a == b,
    decreases a,
{
    lemma_decimal_digits(a / 10);
    lemma_decimal_digits(b / 10);
    if a < 10 && b < 10 {
        assert(decimal(a)[0] == digit(a as int));
        assert(decimal(b)[0] == digit(b as int));
    } else if a >= 10 && b >= 10 {
        assert(decimal(a).drop_last() =~= decimal(a / 10));
        assert(decimal(b).drop_last() =~= decimal(b / 10));
        lemma_decimal_injective(a / 10, b / 10);
        assert(decimal(a).last() == digit((a % 10) as int));
        assert(decimal(b).last() == digit((b % 10) as int));
    } else if a >= 10 {
        assert(decimal(a).len() == decimal(a / 10).len() + 1);
    } else {
        assert(decimal(b).len() == decimal(b / 10).len() + 1);
    }
}

/// Whether `c` does not occur in `s`.
pub open spec fn lacks(s: Seq<char>, c: char) -> bool {
    forall|i: int| 0 <= i < s.len() ==> #[trigger] s[i] != c
}

/// Whether no part holds `c`.
pub open spec fn all_lack(parts: Seq<Seq<char>>, c: char) -> bool {
    forall|i: int| 0 <= i < parts.len() ==> lacks(#[trigger] parts[i], c)
}

/// Two texts that end the same way after their last `c` split there alike.
pub proof fn lemma_last_separator(x: Seq<char>, y: Seq<char>, p: Seq<char>, q: Seq<char>, c: char)
    requires
        x + seq![c] + p == y + seq![c] + q,
        lacks(p, c),
        lacks(q, c),
    ensures
        x == y,
        p == q,
{
    let s = x + seq![c] + p;
    let t = y + seq![c] + q;
    assert(s.len() == t.len());
    assert(s.skip((x.len() + 1) as int) =~= p);
    assert(t.skip((y.len() + 1) as int) =~= q);
    if x.len() < y.len() {
        assert(t[y.len() as int] == c);
        assert(p[y.len() - x.len() - 1] == s[y.len() as int]);
    }
    if y.len() < x.len() {
        assert(s[x.len() as int] == c);
        assert(q[x.len() - y.len() - 1] == t[x.len() as int]);
    }
    assert(x =~= s.take(x.len() as int));
    assert(y =~= t.take(y.len() as int));
    assert(p =~= s.skip((x.len() + 1) as int));
    assert(q =~= t.skip((y.len() + 1) as int));
}

/// Joining parts that do not hold the separator loses nothing: the parts can be
/// told from the joined text.
pub proof fn lemma_joined_injective(a: Seq<Seq<char>>, b: Seq<Seq<char>>, c: char)
    requires
        a.len() > 0,
        b.len() > 0,
        all_lack(a, c),
        all_lack(b, c),
        joined(a, seq![c]) == joined(b, seq![c]),
    ensures
        a == b,
    decreases a.len(),
{
    if a.len() == 1 && b.len() == 1 {
        assert(a =~= b);
    } else if a.len() == 1 {
        let x = joined(b.drop_last(), seq![c]);
        assert((x + seq![c] + b.last())[x.len() as int] == c);
        assert(a[0][x.len() as int] == c);
    } else if b.len() == 1 {
        let x = joined(a.drop_last(), seq![c]);
        assert((x + seq![c] + a.last())[x.len() as int] == c);
        assert(b[0][x.len() as int] == c);
    } else {
        lemma_last_separator(
            joined(a.drop_last(), seq![c]),
            joined(b.drop_last(), seq![c]),
            a.last(),
            b.last(),
            c,
        );
        assert forall|i: int| 0 <= i < a.drop_last().len() implies lacks(
            #[trigger] a.drop_last()[i],
            c,
        ) by {
            assert(lacks(a[i], c));
        }
        assert forall|i: int| 0 <= i < b.drop_last().len() implies lacks(
            #[trigger] b.drop_last()[i],
            c,
        ) by {
            assert(lacks(b[i], c));
        }
        lemma_joined_injective(a.drop_last(), b.drop_last(), c);
        assert(a =~= a.drop_last().push(a.last()));
        assert(b =~= b.drop_last().push(b.last()));
    }
}

/// A joined text begins with the joining of its first parts and a separator.
pub proof fn lemma_joined_take(parts: Seq<Seq<char>>, sep: Seq<char>, k: int)
    requires
        1 <= k < parts.len(),
    ensures
        has_prefix(joined(parts, sep), joined(parts.take(k), sep) + sep),
    decreases parts.len(),
{
    let head = joined(parts.take(k), sep) + sep;
    let all = joined(parts, sep);
    let shorter = joined(parts.drop_last(), sep);
    if k == parts.len() - 1 {
        assert(parts.take(k) =~= parts.drop_last());
        assert(all.take(head.len() as int) =~= head);
    } else {
        lemma_joined_take(parts.drop_last(), sep, k);
        assert(parts.drop_last().take(k) =~= parts.take(k));
        assert(all.take(head.len() as int) =~= shorter.take(head.len() as int));
    }
}

/// A common prefix does not change the order of two texts.
pub proof fn lemma_precedes_prefix(p: Seq<char>, a: Seq<char>, b: Seq<char>)
    ensures
        precedes(p + a, p + b) == precedes(a, b),
    decreases p.len(),
{
    if p.len() == 0 {
        assert(p + a =~= a);
        assert(p + b =~= b);
    } else {
        lemma_precedes_prefix(p.drop_first(), a, b);
        assert((p + a).drop_first() =~= p.drop_first() + a);
        assert((p + b).drop_first() =~= p.drop_first() + b);
    }
}

/// Nothing comes before itself.
pub proof fn lemma_precedes_irreflexive(a: Seq<char>)
    ensures
        !precedes(a, a),
    decreases a.len(),
{
    if a.len() > 0 {
        lemma_precedes_irreflexive(a.drop_first());
    }
}

/// The order is transitive.
pub proof fn lemma_precedes_transitive(a: Seq<char>, b: Seq<char>, c: Seq<char>)
    requires
        precedes(a, b),
        precedes(b, c),
    ensures
        precedes(a, c),
    decreases a.len(),
{
    if a.len() > 0 && a[0] == b[0] && b[0] == c[0] {
        lemma_precedes_transitive(a.drop_first(), b.drop_first(), c.drop_first());
    }
}

/// Of two different texts one comes before the other.
pub proof fn lemma_precedes_total(a: Seq<char>, b: Seq<char>)
    ensures
        a == b || precedes(a, b) || precedes(b, a),
    decreases a.len(),
{
    if a.len() == 0 && b.len() == 0 {
        assert(a =~= b);
    } else if a.len() > 0 && b.len() > 0 && a[0] == b[0] {
        lemma_precedes_total(a.drop_first(), b.drop_first());
        if a.drop_first() == b.drop_first() {
            assert(a =~= seq![a[0]] + a.drop_first());
            assert(b =~= seq![b[0]] + b.drop_first());
        }
    }
}

/// Padding a text with spaces on either side does not change its trimming.
pub proof fn lemma_trimmed_padded(left: Seq<char>, s: Seq<char>, right: Seq<char>)
    requires
        s.len() > 0,
        !is_white_space(s[0]),
        !is_white_space(s.last()),
        forall|i: int| 0 <= i < left.len() ==> is_white_space(#[trigger] left[i]),
        forall|i: int| 0 <= i < right.len() ==> is_white_space(#[trigger] right[i]),
    ensures
        trimmed(left + s + right) == s,
    decreases left.len() + right.len(),
{
    let all = left + s + right;
    if left.len() > 0 {
        lemma_trimmed_padded(left.drop_first(), s, right);
        assert(all[0] == left[0]);
        assert(all.drop_first() =~= left.drop_first() + s + right);
    } else {
        assert(all =~= s + right);
        assert(all[0] == s[0]);
        lemma_trimmed_end_padded(s, right);
    }
}

proof fn lemma_trimmed_end_padded(s: Seq<char>, right: Seq<char>)
    requires
        s.len() > 0,
        !is_white_space(s.last()),
        forall|i: int| 0 <= i < right.len() ==> is_white_space(#[trigger] right[i]),
    ensures
        trimmed_end(s + right) == s,
    decreases right.len(),
{
    let all = s + right;
    if right.len() > 0 {
        assert(all.last() == right.last());
        assert(all.drop_last() =~= s + right.drop_last());
        lemma_trimmed_end_padded(s, right.drop_last());
    } else {
        assert(all =~= s);
    }
}

/// A joined text lacks what its parts and the separator lack.
pub proof fn lemma_joined_lacks(parts: Seq<Seq<char>>, sep: Seq<char>, c: char)
    requires
        all_lack(parts, c),
        lacks(sep, c),
    ensures
        lacks(joined(parts, sep), c),
    decreases parts.len(),
{
    if parts.len() > 1 {
        let front = parts.drop_last();
        assert forall|i: int| 0 <= i < front.len() implies lacks(#[trigger] front[i], c) by {
            assert(lacks(parts[i], c));
        }
        lemma_joined_lacks(front, sep, c);
        assert(lacks(parts[parts.len() - 1], c));
    } else if parts.len() == 1 {
        assert(lacks(parts[0], c));
    }
}

/// A text behind a separator, without the separator in it, is the last piece.
pub proof fn lemma_last_piece(before: Seq<char>, after: Seq<char>, sep: char)
    requires
        lacks(after, sep),
    ensures
        pieces(before.push(sep) + after, sep) == pieces(before, sep).push(after),
    decreases after.len(),
{
    let all = before.push(sep) + after;
    if after.len() == 0 {
        assert(all =~= before.push(sep));
        assert(all.drop_last() =~= before);
        assert(after =~= Seq::<char>::empty());
    } else {
        let shorter = after.drop_last();
        assert(all.drop_last() =~= before.push(sep) + shorter);
        assert forall|i: int| 0 <= i < shorter.len() implies #[trigger] shorter[i] != sep by {
            assert(after[i] != sep);
        }
        lemma_last_piece(before, shorter, sep);
        assert(all.last() == after.last());
        assert(after[after.len() - 1] != sep);
        let split = pieces(before, sep).push(shorter);
        assert(split.drop_last() =~= pieces(before, sep));
        assert(shorter.push(after.last()) =~= after);
    }
}

/// A text without the separator is a single piece.
pub proof fn lemma_single_piece(s: Seq<char>, sep: char)
    requires
        lacks(s, sep),
    ensures
        pieces(s, sep) == seq![s],
    decreases s.len(),
{
    if s.len() == 0 {
        assert(s =~= Seq::<char>::empty());
        assert(pieces(s, sep) =~= seq![s]);
    } else {
        let front = s.drop_last();
        assert forall|i: int| 0 <= i < front.len() implies #[trigger] front[i] != sep by {
            assert(s[i] != sep);
        }
        lemma_single_piece(front, sep);
        assert(s[s.len() - 1] != sep);
        assert(front.push(s.last()) =~= s);
        assert(pieces(s, sep) =~= seq![s]);
    }
}

/// A text holds what stands between two others.
pub proof fn lemma_holds_middle(a: Seq<char>, b: Seq<char>, c: Seq<char>)
    ensures
        has_text(a + b + c, b),
{
    let all = a + b + c;
    assert(all.subrange(a.len() as int, (a.len() + b.len()) as int) =~= b);
    assert(occurs_at(all, b, a.len() as int));
}

} // verus!
