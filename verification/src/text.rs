//! Text as a sequence of characters: numerals, separators, white space.
//!
//! The address and rule grammars of this crate are stated over `Seq<char>`. This module
//! holds the pieces they share, each as a spec function with the executable function that
//! computes it.
use vstd::prelude::*;

verus! {

/// `String::push` of the standard library: appends the given character to the end.
pub assume_specification[ String::push ](s: &mut String, c: char)
    ensures
        final(s)@ == old(s)@.push(c),
;

// ---------------------------------------------------------------------------
// Characters
// ---------------------------------------------------------------------------
/// What the character `c` stands for as a digit, in bases up to sixteen.
pub open spec fn digit_of(c: char) -> Option<nat> {
    if '0' <= c <= '9' {
        Some((c as nat - '0' as nat) as nat)
    } else if 'a' <= c <= 'f' {
        Some((c as nat - 'a' as nat + 10) as nat)
    } else if 'A' <= c <= 'F' {
        Some((c as nat - 'A' as nat + 10) as nat)
    } else {
        None
    }
}

/// The character that writes the digit `d < 16`, in lower case.
pub open spec fn digit_char(d: nat) -> char {
    if d < 10 {
        (d + '0' as nat) as char
    } else {
        (d - 10 + 'a' as nat) as char
    }
}

/// The characters with the Unicode property White_Space.
pub open spec fn is_white_space(c: char) -> bool {
    ||| 0x9 <= c as nat <= 0xd
    ||| c as nat == 0x20
    ||| c as nat == 0x85
    ||| c as nat == 0xa0
    ||| c as nat == 0x1680
    ||| 0x2000 <= c as nat <= 0x200a
    ||| c as nat == 0x2028
    ||| c as nat == 0x2029
    ||| c as nat == 0x202f
    ||| c as nat == 0x205f
    ||| c as nat == 0x3000
}

/// `c` with the letters `A` to `Z` made small, and every other character as it is.
pub open spec fn ascii_lower(c: char) -> char {
    if 'A' <= c <= 'Z' {
        (c as nat + 32) as char
    } else {
        c
    }
}

/// Whether the two texts differ at most in the case of ASCII letters.
pub open spec fn same_ignoring_ascii_case(a: Seq<char>, b: Seq<char>) -> bool {
    &&& a.len() == b.len()
    &&& forall|i: int| 0 <= i < a.len() ==> ascii_lower(#[trigger] a[i]) == ascii_lower(b[i])
}

/// The digit that `c` stands for.
pub fn digit(c: char) -> (r: Option<u32>)
    ensures
        match r {
            Some(d) => digit_of(c) == Some(d as nat) && d < 16,
            None => digit_of(c) is None,
        },
{
    if '0' <= c && c <= '9' {
        Some(c as u32 - '0' as u32)
    } else if 'a' <= c && c <= 'f' {
        Some(c as u32 - 'a' as u32 + 10)
    } else if 'A' <= c && c <= 'F' {
        Some(c as u32 - 'A' as u32 + 10)
    } else {
        None
    }
}

/// Whether `c` has the Unicode property White_Space.
pub fn white_space(c: char) -> (r: bool)
    ensures
        r == is_white_space(c),
{
    let u: u32 = c as u32;
    (0x9 <= u && u <= 0xd) || u == 0x20 || u == 0x85 || u == 0xa0 || u == 0x1680 || (0x2000 <= u
        && u <= 0x200a) || u == 0x2028 || u == 0x2029 || u == 0x202f || u == 0x205f || u == 0x3000
}

/// The number of `c`, with the letters `A` to `Z` made small.
fn folded(c: char) -> (r: u32)
    ensures
        r as nat == ascii_lower(c) as nat,
{
    if 'A' <= c && c <= 'Z' {
        c as u32 + 32
    } else {
        c as u32
    }
}

/// Whether the two texts differ at most in the case of ASCII letters.
pub fn eq_ignore_ascii_case(a: &[char], b: &[char]) -> (r: bool)
    ensures
        r == same_ignoring_ascii_case(a@, b@),
{
    if a.len() != b.len() {
        return false;
    }
    let mut i: usize = 0;
    while i < a.len()
        invariant
            i <= a.len(),
            a.len() == b.len(),
            forall|j: int| 0 <= j < i ==> ascii_lower(#[trigger] a@[j]) == ascii_lower(b@[j]),
        decreases a.len() - i,
    {
        if folded(a[i]) != folded(b[i]) {
            assert(ascii_lower(a@[i as int]) != ascii_lower(b@[i as int]));
            return false;
        }
        i += 1;
    }
    true
}

// ---------------------------------------------------------------------------
// Numerals
// ---------------------------------------------------------------------------
/// Whether `s` is one or more digits of base `radix`.
pub open spec fn is_numeral(s: Seq<char>, radix: nat) -> bool {
    &&& s.len() > 0
    &&& all_digits(s, radix)
}

/// Whether every character of `s` is a digit of base `radix`.
pub open spec fn all_digits(s: Seq<char>, radix: nat) -> bool {
    forall|i: int| 0 <= i < s.len() ==> (#[trigger] digit_of(s[i]) matches Some(d) && d < radix)
}

/// The number that the digits `s` write in base `radix`.
pub open spec fn value_of(s: Seq<char>, radix: nat) -> nat
    decreases s.len(),
{
    if s.len() == 0 {
        0
    } else {
        value_of(s.drop_last(), radix) * radix + digit_of(s.last()).unwrap_or(0)
    }
}

/// The number `s` writes in base `radix`, where it is a numeral and at most `max`.
pub open spec fn number_of(s: Seq<char>, radix: nat, max: nat) -> Option<nat> {
    if is_numeral(s, radix) && value_of(s, radix) <= max {
        Some(value_of(s, radix))
    } else {
        None
    }
}

/// The shortest numeral for `n` in base `radix`, in lower case.
pub open spec fn numeral(n: nat, radix: nat) -> Seq<char>
    decreases n,
    when 2 <= radix
{
    if n < radix {
        seq![digit_char(n)]
    } else {
        proof {
            lemma_quotient_smaller(n, radix);
        }
        numeral(n / radix, radix).push(digit_char(n % radix))
    }
}

/// Decimal digits of `n`.
pub open spec fn decimal(n: nat) -> Seq<char> {
    numeral(n, 10)
}

/// Hexadecimal digits of `n`, in lower case.
pub open spec fn hexadecimal(n: nat) -> Seq<char> {
    numeral(n, 16)
}

pub proof fn lemma_quotient_smaller(n: nat, radix: nat)
    requires
        2 <= radix <= n,
    ensures
        n / radix < n,
{
    assert(n / radix < n) by (nonlinear_arith)
        requires
            2 <= radix <= n,
    ;
}

/// The value never falls when digits are added.
proof fn lemma_value_monotone(s: Seq<char>, k: int, radix: nat)
    requires
        0 <= k <= s.len(),
        1 <= radix,
    ensures
        value_of(s.take(k), radix) <= value_of(s, radix),
    decreases s.len(),
{
    if k < s.len() {
        lemma_value_monotone(s.drop_last(), k, radix);
        assert(s.drop_last().take(k) =~= s.take(k));
        let v = value_of(s.drop_last(), radix);
        assert(v <= v * radix) by (nonlinear_arith)
            requires
                1 <= radix,
                0 <= v,
        ;
    } else {
        assert(s.take(k) =~= s);
    }
}

/// Reads the numeral `s`, in a base from 2 to 16, where its value is at most `max`.
pub fn number(s: &[char], radix: u32, max: u32) -> (r: Option<u32>)
    requires
        2 <= radix <= 16,
    ensures
        match r {
            Some(n) => number_of(s@, radix as nat, max as nat) == Some(n as nat),
            None => number_of(s@, radix as nat, max as nat) is None,
        },
{
    if s.len() == 0 {
        return None;
    }
    let mut value: u64 = 0;
    let mut i: usize = 0;
    assert(s@.take(0) =~= Seq::empty());
    while i < s.len()
        invariant
            i <= s.len(),
            2 <= radix <= 16,
            all_digits(s@.take(i as int), radix as nat),
            value == value_of(s@.take(i as int), radix as nat),
            value <= max,
        decreases s.len() - i,
    {
        let d: u32 = match digit(s[i]) {
            Some(d) => d,
            None => {
                assert(digit_of(s@[i as int]) is None);
                return None;
            },
        };
        if d >= radix {
            assert(digit_of(s@[i as int]) == Some(d as nat));
            return None;
        }
        let ghost next = s@.take(i + 1);
        assert(next.drop_last() =~= s@.take(i as int));
        assert(next.last() == s@[i as int]);
        assert(value * radix <= 0xffff_ffff * 16) by (nonlinear_arith)
            requires
                value <= 0xffff_ffff,
                radix <= 16,
        ;
        value = value * (radix as u64) + d as u64;
        assert(all_digits(next, radix as nat)) by {
            assert forall|j: int| 0 <= j < next.len() implies (#[trigger] digit_of(
                next[j],
            ) matches Some(e) && e < radix as nat) by {
                if j < i {
                    assert(next[j] == s@.take(i as int)[j]);
                }
            }
        }
        if value > max as u64 {
            proof {
                lemma_value_monotone(s@, i + 1, radix as nat);
            }
            return None;
        }
        i += 1;
    }
    assert(s@.take(i as int) =~= s@);
    Some(value as u32)
}

/// Appends the shortest numeral for `n`, in a base from 2 to 16.
pub fn push_number(out: &mut String, n: u32, radix: u32)
    requires
        2 <= radix <= 16,
    ensures
        final(out)@ == old(out)@ + numeral(n as nat, radix as nat),
    decreases n,
{
    if n >= radix {
        proof {
            lemma_quotient_smaller(n as nat, radix as nat);
        }
        push_number(out, n / radix, radix);
    }
    assert(n % radix < radix) by (nonlinear_arith)
        requires
            2 <= radix,
    ;
    assert(n < radix ==> n % radix == n) by (nonlinear_arith)
        requires
            2 <= radix,
    ;
    let d: u8 = (n % radix) as u8;
    assert((n as nat) % (radix as nat) == d);
    if d < 10 {
        out.push((d + 48) as char);
    } else {
        out.push((d - 10 + 97) as char);
    }
}

/// A numeral reads back as the number it was written for, and starts with a zero only as
/// the numeral of zero.
pub proof fn lemma_numeral(n: nat, radix: nat)
    requires
        2 <= radix <= 16,
    ensures
        is_numeral(numeral(n, radix), radix),
        value_of(numeral(n, radix), radix) == n,
        numeral(n, radix)[0] == '0' ==> n == 0 && numeral(n, radix).len() == 1,
    decreases n,
{
    let s = numeral(n, radix);
    if n < radix {
        assert(s.drop_last() =~= Seq::empty());
        assert(value_of(s.drop_last(), radix) == 0);
        assert(0 * radix == 0);
    } else {
        lemma_quotient_smaller(n, radix);
        lemma_numeral(n / radix, radix);
        let t = numeral(n / radix, radix);
        assert(s.drop_last() =~= t);
        assert(n % radix < radix && (n / radix) * radix + n % radix == n && n / radix > 0)
            by (nonlinear_arith)
            requires
                2 <= radix <= n,
        ;
        assert(digit_of(s.last()) == Some(n % radix));
        assert(s[0] == t[0]);
        assert forall|i: int| 0 <= i < s.len() implies (#[trigger] digit_of(s[i]) matches Some(d)
            && d < radix) by {
            if i < t.len() {
                assert(s[i] == t[i]);
            }
        }
    }
}

/// Numbers below 1000 have at most three decimal digits.
pub proof fn lemma_decimal_len(n: nat)
    requires
        n < 1000,
    ensures
        decimal(n).len() <= 3,
{
    reveal_with_fuel(numeral, 4);
}

/// Numbers below 65536 have at most four hexadecimal digits.
pub proof fn lemma_hexadecimal_len(n: nat)
    requires
        n < 0x1_0000,
    ensures
        hexadecimal(n).len() <= 4,
{
    reveal_with_fuel(numeral, 5);
}

// ---------------------------------------------------------------------------
// Separators
// ---------------------------------------------------------------------------
/// Whether `c` occurs nowhere in `s`.
pub open spec fn lacks(s: Seq<char>, c: char) -> bool {
    forall|i: int| 0 <= i < s.len() ==> #[trigger] s[i] != c
}

/// Where `c` first occurs in `s`; the length of `s` where it does not.
pub open spec fn position(s: Seq<char>, c: char) -> int
    decreases s.len(),
{
    if s.len() == 0 || s[0] == c {
        0
    } else {
        1 + position(s.drop_first(), c)
    }
}

/// Where `c` last occurs in `s`; -1 where it does not.
pub open spec fn last_position(s: Seq<char>, c: char) -> int
    decreases s.len(),
{
    if s.len() == 0 || s.last() == c {
        s.len() - 1
    } else {
        last_position(s.drop_last(), c)
    }
}

/// The pieces of `s` between the occurrences of `sep`.
pub open spec fn split(s: Seq<char>, sep: char) -> Seq<Seq<char>>
    decreases s.len(),
{
    let p: int = position(s, sep);
    if 0 <= p < s.len() {
        seq![s.take(p)] + split(s.skip(p + 1), sep)
    } else {
        seq![s]
    }
}

/// The pieces `parts` with `sep` between each and the next.
pub open spec fn join(parts: Seq<Seq<char>>, sep: char) -> Seq<char>
    decreases parts.len(),
{
    if parts.len() == 0 {
        Seq::empty()
    } else if parts.len() == 1 {
        parts[0]
    } else {
        parts[0].push(sep) + join(parts.drop_first(), sep)
    }
}

/// The first occurrence lies where nothing before it and it itself matches.
pub proof fn lemma_position(s: Seq<char>, c: char)
    ensures
        0 <= position(s, c) <= s.len(),
        lacks(s.take(position(s, c)), c),
        position(s, c) < s.len() ==> s[position(s, c)] == c,
    decreases s.len(),
{
    if s.len() > 0 && s[0] != c {
        let t = s.drop_first();
        lemma_position(t, c);
        let p: int = position(t, c);
        assert forall|i: int| 0 <= i < p + 1 implies #[trigger] s.take(p + 1)[i] != c by {
            if i > 0 {
                assert(s.take(p + 1)[i] == t.take(p)[i - 1]);
            }
        }
    }
}

/// Only the first occurrence has those two properties.
pub proof fn lemma_position_is(s: Seq<char>, c: char, p: int)
    requires
        0 <= p <= s.len(),
        lacks(s.take(p), c),
        p < s.len() ==> s[p] == c,
    ensures
        position(s, c) == p,
{
    lemma_position(s, c);
    let q: int = position(s, c);
    if q < p {
        assert(s.take(p)[q] == c);
    } else if p < q {
        assert(s.take(q)[p] == c);
    }
}

/// The last occurrence, the same way.
pub proof fn lemma_last_position(s: Seq<char>, c: char)
    ensures
        -1 <= last_position(s, c) < s.len(),
        lacks(s.skip(last_position(s, c) + 1), c),
        last_position(s, c) >= 0 ==> s[last_position(s, c)] == c,
    decreases s.len(),
{
    if s.len() > 0 && s.last() != c {
        let t = s.drop_last();
        lemma_last_position(t, c);
        let p: int = last_position(t, c);
        assert forall|i: int| 0 <= i < s.len() - p - 1 implies #[trigger] s.skip(p + 1)[i] != c by {
            if p + 1 + i < t.len() {
                assert(s.skip(p + 1)[i] == t.skip(p + 1)[i]);
            }
        }
    }
}

/// Only the last occurrence has those two properties.
pub proof fn lemma_last_position_is(s: Seq<char>, c: char, p: int)
    requires
        -1 <= p < s.len(),
        lacks(s.skip(p + 1), c),
        p >= 0 ==> s[p] == c,
    ensures
        last_position(s, c) == p,
{
    lemma_last_position(s, c);
    let q: int = last_position(s, c);
    if q > p {
        assert(s.skip(p + 1)[q - p - 1] == c);
    } else if p > q {
        assert(s.skip(q + 1)[p - q - 1] == c);
    }
}

/// Splitting undoes joining, where no piece holds the separator.
pub proof fn lemma_split_join(parts: Seq<Seq<char>>, sep: char)
    requires
        parts.len() > 0,
        forall|i: int| 0 <= i < parts.len() ==> lacks(#[trigger] parts[i], sep),
    ensures
        split(join(parts, sep), sep) == parts,
    decreases parts.len(),
{
    let s = join(parts, sep);
    if parts.len() == 1 {
        assert(lacks(parts[0], sep));
        assert(s.take(s.len() as int) =~= s);
        lemma_position_is(s, sep, s.len() as int);
        assert(split(s, sep) =~= parts);
    } else {
        let rest = parts.drop_first();
        assert forall|i: int| 0 <= i < rest.len() implies lacks(#[trigger] rest[i], sep) by {
            assert(rest[i] == parts[i + 1]);
        }
        lemma_split_join(rest, sep);
        let p: int = parts[0].len() as int;
        assert(lacks(parts[0], sep));
        assert(s.take(p) =~= parts[0]);
        lemma_position_is(s, sep, p);
        assert(s.skip(p + 1) =~= join(rest, sep));
        assert(split(s, sep) =~= parts);
    }
}

/// Joining one piece more puts a separator and the piece behind the rest.
pub proof fn lemma_join_push(parts: Seq<Seq<char>>, part: Seq<char>, sep: char)
    requires
        parts.len() > 0,
    ensures
        join(parts.push(part), sep) == join(parts, sep).push(sep) + part,
    decreases parts.len(),
{
    let more = parts.push(part);
    if parts.len() == 1 {
        assert(more.drop_first() =~= seq![part]);
        assert(join(more.drop_first(), sep) == part);
    } else {
        assert(more.drop_first() =~= parts.drop_first().push(part));
        lemma_join_push(parts.drop_first(), part, sep);
        assert(join(more, sep) =~= join(parts, sep).push(sep) + part);
    }
}

/// Where `c` first occurs in `s`; the length of `s` where it does not.
pub fn find(s: &[char], c: char) -> (r: usize)
    ensures
        r == position(s@, c),
        r <= s.len(),
{
    let mut i: usize = 0;
    while i < s.len() && s[i] != c
        invariant
            i <= s.len(),
            lacks(s@.take(i as int), c),
        decreases s.len() - i,
    {
        i += 1;
    }
    proof {
        lemma_position_is(s@, c, i as int);
    }
    i
}

/// Where `c` last occurs in `s`, if it does.
pub fn rfind(s: &[char], c: char) -> (r: Option<usize>)
    ensures
        match r {
            Some(i) => i == last_position(s@, c) && i < s.len(),
            None => last_position(s@, c) == -1,
        },
{
    let mut i: usize = s.len();
    while i > 0
        invariant
            i <= s.len(),
            lacks(s@.skip(i as int), c),
        decreases i,
    {
        if s[i - 1] == c {
            proof {
                lemma_last_position_is(s@, c, i - 1);
            }
            return Some(i - 1);
        }
        proof {
            let wider = s@.skip(i - 1);
            assert forall|j: int| 0 <= j < wider.len() implies #[trigger] wider[j] != c by {
                if j > 0 {
                    assert(wider[j] == s@.skip(i as int)[j - 1]);
                }
            }
        }
        i -= 1;
    }
    proof {
        lemma_last_position_is(s@, c, -1);
    }
    None
}

/// The characters of each piece.
pub open spec fn views(parts: Seq<&[char]>) -> Seq<Seq<char>> {
    parts.map_values(|part: &[char]| part@)
}

/// The pieces of `s` between the occurrences of `sep`.
pub fn pieces<'a>(s: &'a [char], sep: char) -> (r: Vec<&'a [char]>)
    ensures
        views(r@) == split(s@, sep),
        r.len() >= 1,
{
    let mut parts: Vec<&'a [char]> = Vec::new();
    let mut start: usize = 0;
    let mut i: usize = 0;
    assert(s@.skip(0) =~= s@);
    while i < s.len()
        invariant
            start <= i <= s.len(),
            lacks(s@.subrange(start as int, i as int), sep),
            views(parts@) + split(s@.skip(start as int), sep) == split(s@, sep),
        decreases s.len() - i,
    {
        if s[i] == sep {
            let part: &'a [char] = vstd::slice::slice_subrange(s, start, i);
            proof {
                let tail = s@.skip(start as int);
                let p: int = i - start;
                assert(tail.take(p) =~= part@);
                lemma_position_is(tail, sep, p);
                assert(tail.skip(p + 1) =~= s@.skip(i + 1));
                assert(views(parts@.push(part)) =~= views(parts@).push(part@));
                assert(views(parts@).push(part@) + split(s@.skip(i + 1), sep) =~= views(parts@) + (
                seq![part@] + split(s@.skip(i + 1), sep)));
            }
            parts.push(part);
            start = i + 1;
        }
        i += 1;
    }
    let part: &'a [char] = vstd::slice::slice_subrange(s, start, s.len());
    proof {
        let tail = s@.skip(start as int);
        assert(tail =~= part@);
        assert(tail.take(tail.len() as int) =~= tail);
        lemma_position_is(tail, sep, tail.len() as int);
        assert(views(parts@.push(part)) =~= views(parts@) + seq![part@]);
    }
    parts.push(part);
    parts
}

// ---------------------------------------------------------------------------
// White space at the ends
// ---------------------------------------------------------------------------
/// `s` from its first character that is not white space.
pub open spec fn trim_start(s: Seq<char>) -> Seq<char>
    decreases s.len(),
{
    if s.len() > 0 && is_white_space(s[0]) {
        trim_start(s.drop_first())
    } else {
        s
    }
}

/// `s` up to its last character that is not white space.
pub open spec fn trim_end(s: Seq<char>) -> Seq<char>
    decreases s.len(),
{
    if s.len() > 0 && is_white_space(s.last()) {
        trim_end(s.drop_last())
    } else {
        s
    }
}

/// `s` without white space at either end.
pub open spec fn trim(s: Seq<char>) -> Seq<char> {
    trim_end(trim_start(s))
}

/// `s` without white space at either end.
pub fn trimmed<'a>(s: &'a [char]) -> (r: &'a [char])
    ensures
        r@ == trim(s@),
{
    let mut i: usize = 0;
    assert(s@.skip(0) =~= s@);
    while i < s.len() && white_space(s[i])
        invariant
            i <= s.len(),
            trim_start(s@.skip(i as int)) == trim_start(s@),
        decreases s.len() - i,
    {
        assert(s@.skip(i as int).drop_first() =~= s@.skip(i + 1));
        i += 1;
    }
    let mut j: usize = s.len();
    assert(s@.subrange(i as int, j as int) =~= s@.skip(i as int));
    while j > i && white_space(s[j - 1])
        invariant
            i <= j <= s.len(),
            trim_end(s@.subrange(i as int, j as int)) == trim(s@),
        decreases j,
    {
        assert(s@.subrange(i as int, j as int).drop_last() =~= s@.subrange(i as int, j - 1));
        j -= 1;
    }
    vstd::slice::slice_subrange(s, i, j)
}

/// Text that has no white space at either end is left as it is.
pub proof fn lemma_trim_keeps(s: Seq<char>)
    requires
        s.len() > 0 ==> !is_white_space(s[0]) && !is_white_space(s.last()),
    ensures
        trim(s) == s,
{
}

/// The characters of `s`.
pub fn characters(s: &str) -> (r: Vec<char>)
    ensures
        r@ == s@,
{
    let mut v: Vec<char> = Vec::new();
    for c in it: s.chars()
        invariant
            it.seq() == s@,
            v@ == s@.take(it.index() as int),
    {
        v.push(c);
    }
    v
}

/// Appends the characters `s`.
pub fn push_characters(out: &mut String, s: &[char])
    ensures
        final(out)@ == old(out)@ + s@,
{
    let mut i: usize = 0;
    while i < s.len()
        invariant
            i <= s.len(),
            out@ == old(out)@ + s@.take(i as int),
        decreases s.len() - i,
    {
        out.push(s[i]);
        i += 1;
    }
}

} // verus!
