//! Verified text utilities for the wire protocol: splitting a body on a
//! delimiter, joining lines with a delimiter, and decimal rendering of the
//! batch URL count.

use vstd::prelude::*;

verus! {

/// Splits `s` at every occurrence of `sep`.
///
/// The result always has at least one element, `sep` occurs in none of the
/// elements, and joining the elements with `sep` gives back `s`.
pub open spec fn split_char(s: Seq<char>, sep: char) -> Seq<Seq<char>>
    decreases s.len(),
{
    if s.len() == 0 {
        seq![Seq::<char>::empty()]
    } else if s[0] == sep {
        seq![Seq::<char>::empty()] + split_char(s.drop_first(), sep)
    } else {
        let rest = split_char(s.drop_first(), sep);
        seq![seq![s[0]] + rest[0]] + rest.drop_first()
    }
}

/// Joins `parts` with `sep` between consecutive elements.
pub open spec fn join_char(parts: Seq<Seq<char>>, sep: char) -> Seq<char>
    decreases parts.len(),
{
    if parts.len() == 0 {
        Seq::<char>::empty()
    } else if parts.len() == 1 {
        parts[0]
    } else {
        parts[0] + seq![sep] + join_char(parts.drop_first(), sep)
    }
}

/// The views of a vector of strings, one character sequence per string.
pub open spec fn views_of(v: Seq<String>) -> Seq<Seq<char>> {
    v.map_values(|t: String| t@)
}

/// Splitting never yields an empty sequence of parts.
pub proof fn lemma_split_len(s: Seq<char>, sep: char)
    ensures
        split_char(s, sep).len() >= 1,
    decreases s.len(),
{
    if s.len() == 0 {
    } else {
        lemma_split_len(s.drop_first(), sep);
    }
}

/// A sequence free of the separator splits into exactly itself.
pub proof fn lemma_split_no_sep(s: Seq<char>, sep: char)
    requires
        !s.contains(sep),
    ensures
        split_char(s, sep) == seq![s],
    decreases s.len(),
{
    if s.len() == 0 {
        assert(s =~= Seq::<char>::empty());
        assert(split_char(s, sep) =~= seq![s]);
    } else {
        assert(s[0] != sep);
        assert(!s.drop_first().contains(sep)) by {
            if s.drop_first().contains(sep) {
                let i = choose|i: int| 0 <= i < s.drop_first().len() && s.drop_first()[i] == sep;
                assert(s[i + 1] == sep);
            }
        }
        lemma_split_no_sep(s.drop_first(), sep);
        let rest = split_char(s.drop_first(), sep);
        assert(rest == seq![s.drop_first()]);
        assert(seq![s[0]] + rest[0] =~= s);
        assert(rest.drop_first() =~= Seq::<Seq<char>>::empty());
        assert(split_char(s, sep) =~= seq![s]);
    }
}

/// Splitting at the first separator: everything before index `k` is the
/// first part, and the rest of the parts come from splitting what follows
/// the separator.
pub proof fn lemma_split_at_first_sep(s: Seq<char>, sep: char, k: int)
    requires
        0 <= k < s.len(),
        s[k] == sep,
        forall|i: int| 0 <= i < k ==> s[i] != sep,
    ensures
        split_char(s, sep) == seq![s.subrange(0, k)] + split_char(
            s.subrange(k + 1, s.len() as int),
            sep,
        ),
    decreases k,
{
    if k == 0 {
        assert(s.subrange(0, 0) =~= Seq::<char>::empty());
        assert(s.drop_first() =~= s.subrange(1, s.len() as int));
        assert(split_char(s, sep) =~= seq![s.subrange(0, 0)] + split_char(
            s.subrange(1, s.len() as int),
            sep,
        ));
    } else {
        let t = s.drop_first();
        assert(t[k - 1] == sep);
        lemma_split_at_first_sep(t, sep, k - 1);
        let rest = split_char(t, sep);
        let tail = split_char(t.subrange(k, t.len() as int), sep);
        lemma_split_len(t.subrange(k, t.len() as int), sep);
        assert(rest == seq![t.subrange(0, k - 1)] + tail);
        assert(rest[0] == t.subrange(0, k - 1));
        assert(rest.drop_first() =~= tail);
        assert(seq![s[0]] + rest[0] =~= s.subrange(0, k));
        assert(t.subrange(k, t.len() as int) =~= s.subrange(k + 1, s.len() as int));
        assert(split_char(s, sep) =~= seq![s.subrange(0, k)] + split_char(
            s.subrange(k + 1, s.len() as int),
            sep,
        ));
    }
}

/// Appending one more part to a join appends one separator and the part.
pub proof fn lemma_join_push(parts: Seq<Seq<char>>, sep: char, p: Seq<char>)
    requires
        parts.len() >= 1,
    ensures
        join_char(parts.push(p), sep) == join_char(parts, sep) + seq![sep] + p,
    decreases parts.len(),
{
    let q = parts.push(p);
    if parts.len() == 1 {
        assert(q.drop_first() =~= seq![p]);
        assert(join_char(seq![p], sep) == p);
        assert(join_char(q, sep) =~= join_char(parts, sep) + seq![sep] + p);
    } else {
        assert(q.drop_first() =~= parts.drop_first().push(p));
        lemma_join_push(parts.drop_first(), sep, p);
        assert(join_char(q, sep) =~= join_char(parts, sep) + seq![sep] + p);
    }
}

/// Round trip: splitting a join on its separator gives back the parts,
/// provided no part contains the separator.
pub proof fn lemma_split_join_roundtrip(parts: Seq<Seq<char>>, sep: char)
    requires
        parts.len() >= 1,
        forall|i: int| 0 <= i < parts.len() ==> !(#[trigger] parts[i]).contains(sep),
    ensures
        split_char(join_char(parts, sep), sep) == parts,
    decreases parts.len(),
{
    if parts.len() == 1 {
        lemma_split_no_sep(parts[0], sep);
        assert(seq![parts[0]] =~= parts);
    } else {
        let j = join_char(parts, sep);
        let k = parts[0].len() as int;
        let rest = join_char(parts.drop_first(), sep);
        assert(j == parts[0] + seq![sep] + rest);
        assert(j[k] == sep);
        assert(forall|i: int| 0 <= i < k ==> j[i] == parts[0][i]);
        assert(forall|i: int| 0 <= i < k ==> j[i] != sep) by {
            assert(!parts[0].contains(sep));
        }
        assert(j.subrange(0, k) =~= parts[0]);
        assert(j.subrange(k + 1, j.len() as int) =~= rest);
        lemma_split_at_first_sep(j, sep, k);
        assert(forall|i: int| 0 <= i < parts.drop_first().len() ==> !(#[trigger] parts.drop_first()[
            i
        ]).contains(sep)) by {
            assert(forall|i: int|
                0 <= i < parts.drop_first().len() ==> parts.drop_first()[i] == parts[i + 1]);
        }
        lemma_split_join_roundtrip(parts.drop_first(), sep);
        assert(split_char(j, sep) =~= parts);
    }
}

/// The character for the decimal digit `d`.
pub open spec fn digit_char(d: nat) -> char {
    if d == 0 {
        '0'
    } else if d == 1 {
        '1'
    } else if d == 2 {
        '2'
    } else if d == 3 {
        '3'
    } else if d == 4 {
        '4'
    } else if d == 5 {
        '5'
    } else if d == 6 {
        '6'
    } else if d == 7 {
        '7'
    } else if d == 8 {
        '8'
    } else {
        '9'
    }
}

/// The value of a decimal digit character.
pub open spec fn digit_val(c: char) -> nat {
    if c == '0' {
        0
    } else if c == '1' {
        1
    } else if c == '2' {
        2
    } else if c == '3' {
        3
    } else if c == '4' {
        4
    } else if c == '5' {
        5
    } else if c == '6' {
        6
    } else if c == '7' {
        7
    } else if c == '8' {
        8
    } else {
        9
    }
}

/// Whether `c` is a decimal digit character.
pub open spec fn is_digit(c: char) -> bool {
    '0' <= c <= '9'
}

/// The decimal rendering of `n`, most significant digit first, without
/// leading zeros (a single `'0'` for zero).
pub open spec fn dec_digits(n: nat) -> Seq<char>
    decreases n,
{
    if n < 10 {
        seq![digit_char(n)]
    } else {
        dec_digits(n / 10).push(digit_char(n % 10))
    }
}

/// The number denoted by a sequence of decimal digit characters.
pub open spec fn parse_dec(s: Seq<char>) -> nat
    decreases s.len(),
{
    if s.len() == 0 {
        0
    } else {
        10 * parse_dec(s.drop_last()) + digit_val(s.last())
    }
}

/// A decimal rendering consists of digit characters only.
pub proof fn lemma_dec_digits_are_digits(n: nat)
    ensures
        forall|i: int| 0 <= i < dec_digits(n).len() ==> is_digit(#[trigger] dec_digits(n)[i]),
    decreases n,
{
    if n < 10 {
        assert(is_digit(digit_char(n)));
        assert(dec_digits(n) =~= seq![digit_char(n)]);
    } else {
        lemma_dec_digits_are_digits(n / 10);
        assert(is_digit(digit_char(n % 10)));
        assert(dec_digits(n) =~= dec_digits(n / 10).push(digit_char(n % 10)));
    }
}

/// Parsing inverts rendering: the decimal digits of `n` denote `n`.
pub proof fn lemma_parse_dec_digits(n: nat)
    ensures
        parse_dec(dec_digits(n)) == n,
    decreases n,
{
    if n < 10 {
        assert(parse_dec(Seq::<char>::empty()) == 0);
        assert(dec_digits(n).drop_last() =~= Seq::<char>::empty());
        assert(dec_digits(n).last() == digit_char(n));
        assert(digit_val(digit_char(n)) == n);
    } else {
        lemma_parse_dec_digits(n / 10);
        let d = dec_digits(n);
        assert(d.drop_last() =~= dec_digits(n / 10));
        assert(d.last() == digit_char(n % 10));
        assert(digit_val(digit_char(n % 10)) == n % 10);
        vstd::arithmetic::div_mod::lemma_fundamental_div_mod(n as int, 10);
    }
}

/// Compares two strings character by character.
pub fn str_eq(a: &str, b: &str) -> (r: bool)
    ensures
        r == (a@ == b@),
{
    let na = a.unicode_len();
    let nb = b.unicode_len();
    if na != nb {
        return false;
    }
    let mut i: usize = 0;
    while i < na
        invariant
            na == a@.len(),
            na == b@.len(),
            i <= na,
            forall|j: int| 0 <= j < i ==> a@[j] == b@[j],
        decreases na - i,
    {
        if a.get_char(i) != b.get_char(i) {
            return false;
        }
        i = i + 1;
    }
    proof {
        assert(a@ =~= b@);
    }
    true
}

/// Splits `s` at every occurrence of `sep`, as [`split_char`] describes.
pub fn split_str(s: &str, sep: char) -> (r: Vec<String>)
    ensures
        views_of(r@) == split_char(s@, sep),
{
    let n = s.unicode_len();
    let mut r: Vec<String> = Vec::new();
    let mut start: usize = 0;
    let mut i: usize = 0;
    proof {
        assert(views_of(r@) =~= Seq::<Seq<char>>::empty());
        assert(s@.subrange(0, n as int) =~= s@);
        assert(views_of(r@) + split_char(s@, sep) =~= split_char(s@, sep));
    }
    while i < n
        invariant
            n == s@.len(),
            start <= i <= n,
            forall|j: int| start <= j < i ==> s@[j] != sep,
            split_char(s@, sep) == views_of(r@) + split_char(
                s@.subrange(start as int, n as int),
                sep,
            ),
        decreases n - i,
    {
        if s.get_char(i) == sep {
            let seg = String::from_str(s.substring_char(start, i));
            proof {
                let tail = s@.subrange(start as int, n as int);
                lemma_split_at_first_sep(tail, sep, i - start);
                assert(tail.subrange(0, i - start) =~= s@.subrange(start as int, i as int));
                assert(tail.subrange(i - start + 1, tail.len() as int) =~= s@.subrange(
                    i + 1,
                    n as int,
                ));
                assert(views_of(r@.push(seg)) =~= views_of(r@).push(seg@));
                assert(views_of(r@).push(seg@) + split_char(s@.subrange(i + 1, n as int), sep)
                    =~= views_of(r@) + (seq![seg@] + split_char(s@.subrange(i + 1, n as int), sep)));
            }
            r.push(seg);
            start = i + 1;
        }
        i = i + 1;
    }
    let seg = String::from_str(s.substring_char(start, n));
    proof {
        let tail = s@.subrange(start as int, n as int);
        assert(!tail.contains(sep)) by {
            if tail.contains(sep) {
                let j = choose|j: int| 0 <= j < tail.len() && tail[j] == sep;
                assert(s@[start + j] == sep);
            }
        }
        lemma_split_no_sep(tail, sep);
        assert(views_of(r@.push(seg)) =~= views_of(r@).push(seg@));
        assert(views_of(r@).push(seg@) =~= views_of(r@) + seq![seg@]);
    }
    r.push(seg);
    r
}

/// Renders `n` in decimal, as [`dec_digits`] describes.
pub fn usize_to_string(n: usize) -> (r: String)
    ensures
        r@ == dec_digits(n as nat),
    decreases n,
{
    if n < 10 {
        digit_string(n)
    } else {
        let mut r = usize_to_string(n / 10);
        let d = digit_string(n % 10);
        r.append(d.as_str());
        proof {
            assert(dec_digits((n / 10) as nat) + seq![digit_char((n % 10) as nat)] =~= dec_digits(
                n as nat,
            ));
        }
        r
    }
}

/// The one-character string for the decimal digit `d`.
fn digit_string(d: usize) -> (r: String)
    requires
        d < 10,
    ensures
        r@ == seq![digit_char(d as nat)],
{
    let s: &str = if d == 0 {
        "0"
    } else if d == 1 {
        "1"
    } else if d == 2 {
        "2"
    } else if d == 3 {
        "3"
    } else if d == 4 {
        "4"
    } else if d == 5 {
        "5"
    } else if d == 6 {
        "6"
    } else if d == 7 {
        "7"
    } else if d == 8 {
        "8"
    } else {
        "9"
    };
    proof {
        reveal_strlit("0");
        reveal_strlit("1");
        reveal_strlit("2");
        reveal_strlit("3");
        reveal_strlit("4");
        reveal_strlit("5");
        reveal_strlit("6");
        reveal_strlit("7");
        reveal_strlit("8");
        reveal_strlit("9");
        assert(s@ =~= seq![digit_char(d as nat)]);
    }
    String::from_str(s)
}

} // verus!
