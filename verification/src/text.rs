//! Text as sequences of characters: decimal rendering, joining, trimming,
//! splitting, searching and ordering.
use crate::text_lemmas::{lemma_precedes_total, lemma_precedes_transitive};
use vstd::prelude::*;
use vstd::string::*;

verus! {

/// The texts held by a sequence of strings.
pub open spec fn texts(v: Seq<String>) -> Seq<Seq<char>> {
    v.map_values(|s: String| s@)
}

/// The character of a decimal digit.
pub open spec fn digit(d: int) -> char {
    seq!['0', '1', '2', '3', '4', '5', '6', '7', '8', '9'][d]
}

/// Whether a character is one of the ten decimal digits.
pub open spec fn is_digit(c: char) -> bool {
    '0' <= c && c <= '9'
}

/// The decimal rendering of a natural number, without leading zeros.
pub open spec fn decimal(n: nat) -> Seq<char>
    decreases n,
{
    if n < 10 {
        seq![digit(n as int)]
    } else {
        decimal(n / 10).push(digit((n % 10) as int))
    }
}

/// The decimal rendering of an integer, with a leading minus where negative.
pub open spec fn decimal_int(n: int) -> Seq<char> {
    if n < 0 {
        seq!['-'] + decimal((-n) as nat)
    } else {
        decimal(n as nat)
    }
}

/// The parts with `sep` between each two neighbours.
pub open spec fn joined(parts: Seq<Seq<char>>, sep: Seq<char>) -> Seq<char>
    decreases parts.len(),
{
    if parts.len() == 0 {
        Seq::empty()
    } else if parts.len() == 1 {
        parts[0]
    } else {
        joined(parts.drop_last(), sep) + sep + parts.last()
    }
}

/// The pieces of `s` between occurrences of `sep`; one empty piece for the
/// empty text.
pub open spec fn pieces(s: Seq<char>, sep: char) -> Seq<Seq<char>>
    decreases s.len(),
{
    if s.len() == 0 {
        seq![Seq::empty()]
    } else {
        let before = pieces(s.drop_last(), sep);
        if s.last() == sep {
            before.push(Seq::empty())
        } else {
            before.drop_last().push(before.last().push(s.last()))
        }
    }
}

/// The code points with the Unicode property `White_Space`.
pub open spec fn is_white_space(c: char) -> bool {
    let n = c as u32;
    (9 <= n && n <= 13) || n == 0x20 || n == 0x85 || n == 0xA0 || n == 0x1680 || (0x2000 <= n && n
        <= 0x200A) || n == 0x2028 || n == 0x2029 || n == 0x202F || n == 0x205F || n == 0x3000
}

/// `s` without its leading white space.
pub open spec fn trimmed_start(s: Seq<char>) -> Seq<char>
    decreases s.len(),
{
    if s.len() > 0 && is_white_space(s[0]) {
        trimmed_start(s.drop_first())
    } else {
        s
    }
}

/// `s` without its trailing white space.
pub open spec fn trimmed_end(s: Seq<char>) -> Seq<char>
    decreases s.len(),
{
    if s.len() > 0 && is_white_space(s.last()) {
        trimmed_end(s.drop_last())
    } else {
        s
    }
}

/// `s` without leading and trailing white space.
pub open spec fn trimmed(s: Seq<char>) -> Seq<char> {
    trimmed_end(trimmed_start(s))
}

/// Whether `s` begins with `prefix`.
pub open spec fn has_prefix(s: Seq<char>, prefix: Seq<char>) -> bool {
    prefix.len() <= s.len() && s.take(prefix.len() as int) == prefix
}

/// Whether `pat` stands in `s` at position `i`.
pub open spec fn occurs_at(s: Seq<char>, pat: Seq<char>, i: int) -> bool {
    0 <= i && i + pat.len() <= s.len() && s.subrange(i, i + pat.len()) == pat
}

/// Whether `pat` stands anywhere in `s`.
pub open spec fn has_text(s: Seq<char>, pat: Seq<char>) -> bool {
    exists|i: int| #[trigger] occurs_at(s, pat, i)
}

/// Lexicographic order by code point.
pub open spec fn precedes(a: Seq<char>, b: Seq<char>) -> bool
    decreases a.len(),
{
    if b.len() == 0 {
        false
    } else if a.len() == 0 {
        true
    } else {
        a[0] < b[0] || (a[0] == b[0] && precedes(a.drop_first(), b.drop_first()))
    }
}

/// Whether a sequence of texts is strictly increasing, so that nothing occurs
/// twice.
pub open spec fn ascending(v: Seq<Seq<char>>) -> bool {
    forall|i: int, j: int| 0 <= i < j < v.len() ==> precedes(#[trigger] v[i], #[trigger] v[j])
}

/// The position of the first `c` in `s`, or the length of `s` where it has none.
pub open spec fn first_of(s: Seq<char>, c: char) -> int
    decreases s.len(),
{
    if s.len() == 0 || s[0] == c {
        0
    } else {
        1 + first_of(s.drop_first(), c)
    }
}

/// `s` without one trailing carriage return.
pub open spec fn without_cr(s: Seq<char>) -> Seq<char> {
    if s.len() > 0 && s.last() == '\r' {
        s.drop_last()
    } else {
        s
    }
}

/// The lines of a text: a line ends at a newline, or at a carriage return and a
/// newline. What follows the last ending is a line where it is not empty.
pub open spec fn lines_of(s: Seq<char>) -> Seq<Seq<char>> {
    let all = pieces(s, '\n');
    let ended = all.drop_last().map_values(|p: Seq<char>| without_cr(p));
    if all.last().len() == 0 {
        ended
    } else {
        ended.push(all.last())
    }
}

/// Whether two sequences hold the same texts, however often and in whatever
/// order.
pub open spec fn same_members(a: Seq<Seq<char>>, b: Seq<Seq<char>>) -> bool {
    forall|t: Seq<char>| #[trigger] a.contains(t) <==> b.contains(t)
}


/// The characters of a text.
pub fn chars_of(s: &str) -> (r: Vec<char>)
    ensures
        r@ == s@,
{
    broadcast use axiom_spec_iter;

    let mut out: Vec<char> = Vec::new();
    for c in it: s.chars()
        invariant
            it.seq() == s@,
            out@ == s@.take(it.index()),
    {
        out.push(c);
        proof {
            assert(s@.take(it.index() + 1) =~= s@.take(it.index()).push(c));
        }
    }
    proof {
        assert(s@.take(s@.len() as int) =~= s@);
    }
    out
}

/// Whether two texts are the same.
pub fn same_text(a: &str, b: &str) -> (r: bool)
    ensures
        r == (a@ == b@),
{
    a.to_owned() == b.to_owned()
}

/// The one-character text of a digit.
fn digit_text(d: u8) -> (r: &'static str)
    requires
        d < 10,
    ensures
        r@ == seq![digit(d as int)],
{
    proof {
        reveal_strlit("0");
        reveal_strlit("1");
        reveal_strlit("2");
        reveal_strlit("3");
        reveal_strlit("4");
        reveal_strlit("5");
        reveal_strlit("6");
        reveal_strlit("7");
        reveal_strlit("8");
        reveal_strlit("9");
    }
    let r: &'static str = match d {
        0 => "0",
        1 => "1",
        2 => "2",
        3 => "3",
        4 => "4",
        5 => "5",
        6 => "6",
        7 => "7",
        8 => "8",
        _ => "9",
    };
    assert(r@ =~= seq![digit(d as int)]);
    r
}

/// Appends the decimal rendering of `n`.
pub fn append_decimal(out: &mut String, n: u128)
    ensures
        final(out)@ == old(out)@ + decimal(n as nat),
    decreases n,
{
    if n >= 10 {
        append_decimal(out, n / 10);
    }
    let d: u128 = n % 10;
    let text: &'static str = digit_text(d as u8);
    out.append(text);
    proof {
        assert(out@ =~= old(out)@ + decimal(n as nat));
    }
}

/// The decimal rendering of `n`.
pub fn decimal_string(n: u128) -> (r: String)
    ensures
        r@ == decimal(n as nat),
{
    let mut out: String = String::new();
    append_decimal(&mut out, n);
    proof {
        assert(out@ =~= decimal(n as nat));
    }
    out
}

/// The decimal rendering of a signed number.
pub fn decimal_int_string(n: i64) -> (r: String)
    ensures
        r@ == decimal_int(n as int),
{
    let mut out: String = String::new();
    if n < 0 {
        proof {
            reveal_strlit("-");
        }
        out.append("-");
        let magnitude: i128 = -(n as i128);
        append_decimal(&mut out, magnitude as u128);
        proof {
            assert("-"@ =~= seq!['-']);
            assert(out@ =~= decimal_int(n as int));
        }
    } else {
        append_decimal(&mut out, n as u128);
        proof {
            assert(out@ =~= decimal_int(n as int));
        }
    }
    out
}

/// The parts with `sep` between each two neighbours.
pub fn join(parts: &Vec<String>, sep: &str) -> (r: String)
    ensures
        r@ == joined(texts(parts@), sep@),
{
    let mut out: String = String::new();
    let mut i: usize = 0;
    while i < parts.len()
        invariant
            i <= parts.len(),
            out@ == joined(texts(parts@).take(i as int), sep@),
        decreases parts.len() - i,
    {
        if i > 0 {
            out.append(sep);
        }
        out.append(parts[i].as_str());
        proof {
            let all = texts(parts@);
            assert(all.take(i + 1).drop_last() =~= all.take(i as int));
            assert(all.take(i + 1).last() == parts@[i as int]@);
            assert(out@ =~= joined(all.take(i + 1), sep@));
        }
        i = i + 1;
    }
    proof {
        assert(texts(parts@).take(parts@.len() as int) =~= texts(parts@));
    }
    out
}

/// A split always yields at least one piece.
pub proof fn lemma_pieces_nonempty(s: Seq<char>, sep: char)
    ensures
        pieces(s, sep).len() > 0,
    decreases s.len(),
{
    if s.len() > 0 {
        lemma_pieces_nonempty(s.drop_last(), sep);
    }
}

/// The pieces of `s` between occurrences of `sep`.
pub fn split(s: &str, sep: char) -> (r: Vec<String>)
    ensures
        texts(r@) == pieces(s@, sep),
{
    let chars: Vec<char> = chars_of(s);
    let mut out: Vec<String> = Vec::new();
    let mut start: usize = 0;
    let mut i: usize = 0;
    proof {
        assert(s@.take(0) =~= Seq::<char>::empty());
        assert(pieces(s@.take(0), sep) =~= seq![Seq::<char>::empty()]);
        assert(texts(out@).push(s@.subrange(0, 0)) =~= seq![Seq::<char>::empty()]);
    }
    while i < chars.len()
        invariant
            start <= i <= chars.len(),
            chars@ == s@,
            texts(out@).push(s@.subrange(start as int, i as int)) == pieces(s@.take(i as int), sep),
        decreases chars.len() - i,
    {
        let ghost before = texts(out@).push(s@.subrange(start as int, i as int));
        proof {
            assert(s@.take(i + 1).drop_last() =~= s@.take(i as int));
            assert(s@.take(i + 1).last() == s@[i as int]);
            assert(before.drop_last() =~= texts(out@));
        }
        if chars[i] == sep {
            let ghost shorter = out@;
            out.push(s.substring_char(start, i).to_owned());
            start = i + 1;
            proof {
                assert(texts(out@) =~= before);
                assert(s@.subrange(start as int, i + 1) =~= Seq::<char>::empty());
            }
        } else {
            proof {
                assert(s@.subrange(start as int, i + 1) =~= s@.subrange(
                    start as int,
                    i as int,
                ).push(s@[i as int]));
            }
        }
        i = i + 1;
    }
    let ghost before = texts(out@).push(s@.subrange(start as int, i as int));
    out.push(s.substring_char(start, chars.len()).to_owned());
    proof {
        assert(texts(out@) =~= before);
        assert(s@.take(s@.len() as int) =~= s@);
    }
    out
}

fn is_white_space_char(c: char) -> (r: bool)
    ensures
        r == is_white_space(c),
{
    let n: u32 = c as u32;
    (9 <= n && n <= 13) || n == 0x20 || n == 0x85 || n == 0xA0 || n == 0x1680 || (0x2000 <= n && n
        <= 0x200A) || n == 0x2028 || n == 0x2029 || n == 0x202F || n == 0x205F || n == 0x3000
}

/// `s` without leading and trailing white space.
pub fn trim(s: &str) -> (r: &str)
    ensures
        r@ == trimmed(s@),
{
    let chars: Vec<char> = chars_of(s);
    let mut lo: usize = 0;
    proof {
        assert(s@.skip(0) =~= s@);
    }
    while lo < chars.len() && is_white_space_char(chars[lo])
        invariant
            lo <= chars.len(),
            chars@ == s@,
            trimmed_start(s@.skip(lo as int)) == trimmed_start(s@),
        decreases chars.len() - lo,
    {
        proof {
            assert(s@.skip(lo as int).drop_first() =~= s@.skip(lo + 1));
        }
        lo = lo + 1;
    }
    let ghost kept = s@.skip(lo as int);
    let mut hi: usize = chars.len();
    proof {
        assert(s@.subrange(lo as int, hi as int) =~= kept);
    }
    while lo < hi && is_white_space_char(chars[hi - 1])
        invariant
            lo <= hi <= chars.len(),
            chars@ == s@,
            trimmed_end(s@.subrange(lo as int, hi as int)) == trimmed_end(kept),
        decreases hi - lo,
    {
        proof {
            assert(s@.subrange(lo as int, hi as int).drop_last() =~= s@.subrange(
                lo as int,
                hi - 1,
            ));
        }
        hi = hi - 1;
    }
    s.substring_char(lo, hi)
}

/// Whether `pat` stands in `s` at position `i`.
fn occurs_here(s: &Vec<char>, pat: &Vec<char>, i: usize) -> (r: bool)
    requires
        i <= s.len(),
    ensures
        r == occurs_at(s@, pat@, i as int),
{
    if pat.len() > s.len() - i {
        return false;
    }
    let mut j: usize = 0;
    while j < pat.len()
        invariant
            i + pat.len() <= s.len(),
            j <= pat.len(),
            forall|k: int| 0 <= k < j ==> s@[i + k] == pat@[k],
        decreases pat.len() - j,
    {
        if s[i + j] != pat[j] {
            proof {
                assert(s@.subrange(i as int, i + pat@.len())[j as int] != pat@[j as int]);
            }
            return false;
        }
        j = j + 1;
    }
    proof {
        assert(s@.subrange(i as int, i + pat@.len()) =~= pat@);
    }
    true
}

/// Whether `pat` stands anywhere in `s`.
pub fn contains_text(s: &str, pat: &str) -> (r: bool)
    ensures
        r == has_text(s@, pat@),
{
    let sc: Vec<char> = chars_of(s);
    let pc: Vec<char> = chars_of(pat);
    let mut i: usize = 0;
    while i <= sc.len()
        invariant
            i <= sc.len() + 1,
            sc@ == s@,
            pc@ == pat@,
            forall|k: int| 0 <= k < i ==> !occurs_at(s@, pat@, k),
        decreases sc.len() + 1 - i,
    {
        if occurs_here(&sc, &pc, i) {
            return true;
        }
        if i == sc.len() {
            return false;
        }
        i = i + 1;
    }
    false
}

/// Whether `s` begins with `prefix`.
pub fn starts_with(s: &str, prefix: &str) -> (r: bool)
    ensures
        r == has_prefix(s@, prefix@),
{
    let sc: Vec<char> = chars_of(s);
    let pc: Vec<char> = chars_of(prefix);
    let r: bool = occurs_here(&sc, &pc, 0);
    proof {
        if prefix@.len() <= s@.len() {
            assert(s@.take(prefix@.len() as int) =~= s@.subrange(0, prefix@.len() as int));
        }
    }
    r
}

/// Whether `a` comes strictly before `b` in lexicographic order.
pub fn comes_before(a: &str, b: &str) -> (r: bool)
    ensures
        r == precedes(a@, b@),
{
    let ac: Vec<char> = chars_of(a);
    let bc: Vec<char> = chars_of(b);
    let mut i: usize = 0;
    proof {
        assert(a@.skip(0) =~= a@);
        assert(b@.skip(0) =~= b@);
    }
    while i < ac.len() && i < bc.len()
        invariant
            i <= ac.len(),
            i <= bc.len(),
            ac@ == a@,
            bc@ == b@,
            precedes(a@.skip(i as int), b@.skip(i as int)) == precedes(a@, b@),
        decreases ac.len() - i,
    {
        if ac[i] < bc[i] {
            return true;
        }
        if ac[i] != bc[i] {
            return false;
        }
        proof {
            assert(a@.skip(i as int).drop_first() =~= a@.skip(i + 1));
            assert(b@.skip(i as int).drop_first() =~= b@.skip(i + 1));
        }
        i = i + 1;
    }
    i < bc.len()
}

/// Inserts a name into an ascending list, unless it is there.
pub fn insert_sorted(names: &mut Vec<String>, name: String)
    requires
        ascending(texts(old(names)@)),
    ensures
        ascending(texts(final(names)@)),
        forall|t: Seq<char>|
            #[trigger] texts(final(names)@).contains(t) <==> texts(old(names)@).contains(t) || t
                == name@,
{
    let ghost before = texts(names@);
    let mut i: usize = 0;
    while i < names.len() && comes_before(names[i].as_str(), name.as_str())
        invariant
            i <= names.len(),
            before == texts(names@),
            forall|k: int| 0 <= k < i ==> precedes(#[trigger] before[k], name@),
        decreases names.len() - i,
    {
        proof {
            assert(before[i as int] == names@[i as int]@);
        }
        i = i + 1;
    }
    if i < names.len() && names[i] == name {
        proof {
            assert(before[i as int] == name@);
            assert(before.contains(name@));
        }
        return;
    }
    let ghost t = name@;
    names.insert(i, name);
    proof {
        let after = texts(names@);
        assert(after =~= before.insert(i as int, t));
        if i < before.len() {
            lemma_precedes_total(before[i as int], t);
        }
        assert forall|a: int, b: int| 0 <= a < b < after.len() implies precedes(
            #[trigger] after[a],
            #[trigger] after[b],
        ) by {
            if a == i {
                assert(after[b] == before[b - 1]);
                if b - 1 > i {
                    assert(precedes(before[i as int], before[b - 1]));
                    lemma_precedes_transitive(t, before[i as int], before[b - 1]);
                }
            } else if b == i {
                assert(after[a] == before[a]);
            } else {
                let a0 = if a < i { a } else { a - 1 };
                let b0 = if b < i { b } else { b - 1 };
                assert(after[a] == before[a0] && after[b] == before[b0]);
            }
        }
        assert forall|x: Seq<char>| #[trigger] after.contains(x) <==> before.contains(x) || x == t by {
            if before.contains(x) {
                let k = choose|k: int| 0 <= k < before.len() && before[k] == x;
                assert(after[if k < i { k } else { k + 1 }] == x);
            }
            assert(after[i as int] == t);
            if after.contains(x) {
                let k = choose|k: int| 0 <= k < after.len() && after[k] == x;
                if k != i {
                    assert(before[if k < i { k } else { k - 1 }] == x);
                }
            }
        }
    }
}

/// The distinct texts of a list, ascending.
pub fn sort_distinct(v: &Vec<String>) -> (r: Vec<String>)
    ensures
        ascending(texts(r@)),
        same_members(texts(r@), texts(v@)),
{
    let mut out: Vec<String> = Vec::new();
    let mut i: usize = 0;
    while i < v.len()
        invariant
            i <= v.len(),
            ascending(texts(out@)),
            same_members(texts(out@), texts(v@).take(i as int)),
        decreases v.len() - i,
    {
        let ghost before = texts(out@);
        insert_sorted(&mut out, v[i].clone());
        proof {
            let head = texts(v@).take(i as int);
            let longer = texts(v@).take(i + 1);
            assert(longer =~= head.push(v@[i as int]@));
            assert forall|t: Seq<char>| #[trigger] texts(out@).contains(t) <==> longer.contains(
                t,
            ) by {
                assert(texts(out@).contains(t) <==> before.contains(t) || t == v@[i as int]@);
                assert(longer[i as int] == v@[i as int]@);
                if head.contains(t) {
                    let k = choose|k: int| 0 <= k < head.len() && head[k] == t;
                    assert(longer[k] == t);
                }
                if longer.contains(t) && t != v@[i as int]@ {
                    let k = choose|k: int| 0 <= k < longer.len() && longer[k] == t;
                    assert(head[k] == t);
                }
            }
        }
        i = i + 1;
    }
    proof {
        assert(texts(v@).take(v@.len() as int) =~= texts(v@));
    }
    out
}

/// The text before and after the first `c`, where there is one.
pub fn split_once<'a>(s: &'a str, c: char) -> (r: Option<(&'a str, &'a str)>)
    ensures
        match r {
            None => first_of(s@, c) == s@.len(),
            Some((a, b)) => {
                &&& first_of(s@, c) < s@.len()
                &&& a@ == s@.take(first_of(s@, c))
                &&& b@ == s@.skip(first_of(s@, c) + 1)
            },
        },
{
    let chars: Vec<char> = chars_of(s);
    let mut i: usize = 0;
    proof {
        assert(s@.skip(0) =~= s@);
    }
    while i < chars.len()
        invariant
            i <= chars.len(),
            chars@ == s@,
            first_of(s@, c) == i + first_of(s@.skip(i as int), c),
        decreases chars.len() - i,
    {
        if chars[i] == c {
            let a: &str = s.substring_char(0, i);
            let b: &str = s.substring_char(i + 1, chars.len());
            proof {
                assert(a@ =~= s@.take(i as int));
                assert(b@ =~= s@.skip(i + 1));
            }
            return Some((a, b));
        }
        proof {
            assert(s@.skip(i as int).drop_first() =~= s@.skip(i + 1));
        }
        i = i + 1;
    }
    None
}

/// The lines of a text.
pub fn lines(s: &str) -> (r: Vec<String>)
    ensures
        texts(r@) == lines_of(s@),
{
    let all: Vec<String> = split(s, '\n');
    proof {
        lemma_pieces_nonempty(s@, '\n');
        assert(texts(all@).len() == all@.len());
    }
    let last: usize = all.len() - 1;
    let mut out: Vec<String> = Vec::new();
    let mut i: usize = 0;
    while i < last
        invariant
            i <= last,
            last == all@.len() - 1,
            out@.len() == i,
            forall|k: int| 0 <= k < i ==> (#[trigger] out@[k])@ == without_cr(all@[k]@),
        decreases last - i,
    {
        let piece: &str = all[i].as_str();
        let n: usize = piece.unicode_len();
        if n > 0 && piece.get_char(n - 1) == '\r' {
            let kept: &str = piece.substring_char(0, n - 1);
            proof {
                assert(kept@ =~= piece@.drop_last());
            }
            out.push(kept.to_owned());
        } else {
            out.push(piece.to_owned());
        }
        i = i + 1;
    }
    proof {
        let views = texts(all@);
        assert(views.last() == all@[last as int]@);
        assert(texts(out@) =~= views.drop_last().map_values(|p: Seq<char>| without_cr(p)));
    }
    let ghost ended = texts(out@);
    if all[last].as_str().unicode_len() > 0 {
        out.push(all[last].clone());
        proof {
            assert(texts(out@) =~= ended.push(all@[last as int]@));
        }
    }
    out
}

} // verus!
