//! Laws of text: what numerals are worth, how pieces are joined, what white space is.
use vstd::prelude::*;

verus! {

/// Whether `s` holds no character but `c`.
pub open spec fn only(s: Seq<char>, c: char) -> bool {
    forall|i: int| 0 <= i < s.len() ==> #[trigger] s[i] == c
}

/// Whether `s` is white space throughout.
pub open spec fn blank(s: Seq<char>) -> bool {
    forall|i: int| 0 <= i < s.len() ==> crate::text::is_white_space(#[trigger] s[i])
}

// ---------------------------------------------------------------------------
// Numerals
// ---------------------------------------------------------------------------
/// A digit more makes a decimal number ten times as large, and adds what the digit counts.
pub proof fn law_decimal_digit_counts(s: Seq<char>, c: char)
    requires
        '0' <= c <= '9',
    ensures
        crate::text::value_of(s.push(c), 10) == 10 * crate::text::value_of(s, 10) + (c as int
            - '0' as int),
        crate::text::value_of(Seq::empty(), 10) == 0,
{
    assert(s.push(c).drop_last() =~= s);
}

/// A digit more makes a hexadecimal number sixteen times as large, and adds what the digit
/// counts: the letters count from ten, whatever their case.
pub proof fn law_hexadecimal_digit_counts(s: Seq<char>, c: char)
    ensures
        crate::text::value_of(Seq::empty(), 16) == 0,
        '0' <= c <= '9' ==> crate::text::value_of(s.push(c), 16) == 16 * crate::text::value_of(
            s,
            16,
        ) + (c as int - '0' as int),
        'a' <= c <= 'f' ==> crate::text::value_of(s.push(c), 16) == 16 * crate::text::value_of(
            s,
            16,
        ) + 10 + (c as int - 'a' as int),
        'A' <= c <= 'F' ==> crate::text::value_of(s.push(c), 16) == 16 * crate::text::value_of(
            s,
            16,
        ) + 10 + (c as int - 'A' as int),
{
    assert(s.push(c).drop_last() =~= s);
}

/// The decimal digits of a number below ten are one digit; those of a larger number are the
/// digits of its tenth part, and one more.
pub proof fn law_decimal_is_written_digit_by_digit(n: nat, d: nat)
    requires
        d < 10,
    ensures
        crate::text::decimal(d).len() == 1,
        crate::text::decimal(d)[0] as int == '0' as int + d,
        n > 0 ==> crate::text::decimal(10 * n + d) == crate::text::decimal(n)
            + crate::text::decimal(d),
{
    if n > 0 {
        let m: nat = 10 * n + d;
        assert(m / 10 == n && m % 10 == d);
        assert(crate::text::decimal(m) =~= crate::text::decimal(n) + crate::text::decimal(d));
    }
}

/// The hexadecimal digits of a number below sixteen are one digit, a small letter from ten on;
/// those of a larger number are the digits of its sixteenth part, and one more.
pub proof fn law_hexadecimal_is_written_digit_by_digit(n: nat, d: nat)
    requires
        d < 16,
    ensures
        crate::text::hexadecimal(d).len() == 1,
        d < 10 ==> crate::text::hexadecimal(d)[0] as int == '0' as int + d,
        d >= 10 ==> crate::text::hexadecimal(d)[0] as int == 'a' as int + d - 10,
        n > 0 ==> crate::text::hexadecimal(16 * n + d) == crate::text::hexadecimal(n)
            + crate::text::hexadecimal(d),
{
    if n > 0 {
        let m: nat = 16 * n + d;
        assert(m / 16 == n && m % 16 == d);
        assert(crate::text::hexadecimal(m) =~= crate::text::hexadecimal(n)
            + crate::text::hexadecimal(d));
    }
}

/// Zeros in front of a numeral do not count.
pub proof fn lemma_zeros_do_not_count(zeros: Seq<char>, s: Seq<char>)
    requires
        only(zeros, '0'),
    ensures
        crate::text::value_of(zeros + s, 10) == crate::text::value_of(s, 10),
        crate::text::is_numeral(s, 10) ==> crate::text::is_numeral(zeros + s, 10),
    decreases zeros.len() + s.len(),
{
    let t = zeros + s;
    if s.len() > 0 {
        assert(t.drop_last() =~= zeros + s.drop_last());
        lemma_zeros_do_not_count(zeros, s.drop_last());
        if crate::text::is_numeral(s, 10) {
            assert forall|i: int| 0 <= i < t.len() implies (#[trigger] crate::text::digit_of(
                t[i],
            ) matches Some(d) && d < 10) by {
                if i < zeros.len() {
                    assert(t[i] == zeros[i]);
                } else {
                    assert(t[i] == s[i - zeros.len()]);
                }
            }
        }
    } else if zeros.len() > 0 {
        assert(zeros.last() == zeros[zeros.len() - 1]);
        assert(t.drop_last() =~= zeros.drop_last() + s);
        lemma_zeros_do_not_count(zeros.drop_last(), s);
    } else {
        assert(t =~= s);
    }
}

/// A decimal numeral without a zero in front is the one for its value.
pub proof fn lemma_numeral_is_decimal(s: Seq<char>)
    requires
        crate::text::is_numeral(s, 10),
        s[0] == '0' ==> s.len() == 1,
    ensures
        s == crate::text::decimal(crate::text::value_of(s, 10)),
    decreases s.len(),
{
    let d: nat = crate::text::digit_of(s.last())->0;
    assert(crate::text::digit_of(s[s.len() - 1]) is Some);
    let t = s.drop_last();
    if s.len() == 1 {
        assert(crate::text::value_of(t, 10) == 0);
        assert(s =~= crate::text::decimal(d));
    } else {
        assert forall|i: int| 0 <= i < t.len() implies (#[trigger] crate::text::digit_of(
            t[i],
        ) matches Some(e) && e < 10) by {
            assert(t[i] == s[i]);
        }
        lemma_numeral_is_decimal(t);
        let v: nat = crate::text::value_of(t, 10);
        if v == 0 {
            assert(crate::text::decimal(0)[0] == '0');
        }
        law_decimal_is_written_digit_by_digit(v, d);
        assert(crate::text::decimal(d)[0] == s.last());
        assert(s =~= t + crate::text::decimal(d));
    }
}

/// A decimal numeral is the one for its value, behind some zeros.
pub proof fn lemma_numeral_has_zeros(s: Seq<char>) -> (zeros: Seq<char>)
    requires
        crate::text::is_numeral(s, 10),
    ensures
        only(zeros, '0'),
        s == zeros + crate::text::decimal(crate::text::value_of(s, 10)),
    decreases s.len(),
{
    if s[0] == '0' && s.len() > 1 {
        let t = s.drop_first();
        assert forall|i: int| 0 <= i < t.len() implies (#[trigger] crate::text::digit_of(
            t[i],
        ) matches Some(e) && e < 10) by {
            assert(t[i] == s[i + 1]);
        }
        let rest = lemma_numeral_has_zeros(t);
        let zero = seq!['0'];
        assert(s =~= zero + t);
        lemma_zeros_do_not_count(zero, t);
        let zeros = zero + rest;
        assert(s =~= zeros + crate::text::decimal(crate::text::value_of(s, 10)));
        zeros
    } else {
        lemma_numeral_is_decimal(s);
        let zeros = Seq::<char>::empty();
        assert(s =~= zeros + crate::text::decimal(crate::text::value_of(s, 10)));
        zeros
    }
}

/// A text writes the decimal number `n`, up to `max`, exactly where it is the digits of `n`
/// behind any number of zeros.
pub proof fn law_decimal_spellings(text: Seq<char>, max: nat, n: nat)
    ensures
        crate::text::number_of(text, 10, max) == Some(n) <==> n <= max && exists|zeros: Seq<char>|
            #[trigger] only(zeros, '0') && text == zeros + crate::text::decimal(n),
{
    if crate::text::number_of(text, 10, max) == Some(n) {
        let zeros = lemma_numeral_has_zeros(text);
        assert(only(zeros, '0') && text == zeros + crate::text::decimal(n));
    }
    if n <= max && exists|zeros: Seq<char>| #[trigger]
        only(zeros, '0') && text == zeros + crate::text::decimal(n) {
        let zeros = choose|zeros: Seq<char>| #[trigger]
            only(zeros, '0') && text == zeros + crate::text::decimal(n);
        crate::text::lemma_numeral(n, 10);
        lemma_zeros_do_not_count(zeros, crate::text::decimal(n));
    }
}

/// A text of hexadecimal digits, up to four of them and in either case, writes a group; and
/// no other text does.
pub proof fn law_group_spellings(text: Seq<char>)
    ensures
        crate::address_text::group_of(text) is Some <==> 1 <= text.len() <= 4 && forall|i: int|
            0 <= i < text.len() ==> ('0' <= #[trigger] text[i] <= '9' || 'a' <= text[i] <= 'f'
                || 'A' <= text[i] <= 'F'),
        crate::address_text::group_of(text) matches Some(n) ==> n as nat == crate::text::value_of(
            text,
            16,
        ),
{
    if 1 <= text.len() <= 4 && forall|i: int|
        0 <= i < text.len() ==> ('0' <= #[trigger] text[i] <= '9' || 'a' <= text[i] <= 'f' || 'A'
            <= text[i] <= 'F') {
        assert forall|i: int| 0 <= i < text.len() implies (#[trigger] crate::text::digit_of(
            text[i],
        ) matches Some(d) && d < 16) by {
            assert('0' <= text[i] <= '9' || 'a' <= text[i] <= 'f' || 'A' <= text[i] <= 'F');
        }
        lemma_value_bound(text);
    }
    if crate::address_text::group_of(text) is Some {
        assert forall|i: int| 0 <= i < text.len() implies ('0' <= #[trigger] text[i] <= '9' || 'a'
            <= text[i] <= 'f' || 'A' <= text[i] <= 'F') by {
            assert(crate::text::digit_of(text[i]) is Some);
        }
    }
}

/// Four hexadecimal digits write a number below 65536.
proof fn lemma_value_bound(s: Seq<char>)
    requires
        s.len() <= 4,
        crate::text::all_digits(s, 16),
    ensures
        crate::text::value_of(s, 16) < 0x1_0000,
{
    reveal_with_fuel(crate::text::value_of, 5);
    assert forall|i: int| 0 <= i < s.len() implies crate::text::digit_of(s[i]).unwrap_or(0)
        < 16 by {
        assert(crate::text::digit_of(s[i]) is Some);
    }
    if s.len() > 0 {
        assert(s.last() == s[s.len() - 1]);
    }
    if s.len() > 1 {
        assert(s.drop_last().last() == s[s.len() - 2]);
    }
    if s.len() > 2 {
        assert(s.drop_last().drop_last().last() == s[s.len() - 3]);
    }
    if s.len() > 3 {
        assert(s.drop_last().drop_last().drop_last().last() == s[s.len() - 4]);
    }
}

// ---------------------------------------------------------------------------
// Pieces
// ---------------------------------------------------------------------------
/// One piece joined is that piece; and what is joined in two parts has one separator between
/// them.
pub proof fn law_join_of_parts(front: Seq<Seq<char>>, back: Seq<Seq<char>>, sep: char)
    ensures
        crate::text::join(Seq::empty(), sep) == Seq::<char>::empty(),
        front.len() == 1 ==> crate::text::join(front, sep) == front[0],
        front.len() > 0 && back.len() > 0 ==> crate::text::join(front + back, sep)
            == crate::text::join(front, sep) + seq![sep] + crate::text::join(back, sep),
    decreases front.len(),
{
    if front.len() == 1 && back.len() > 0 {
        assert((front + back).drop_first() =~= back);
        assert(crate::text::join(front + back, sep) =~= front[0] + seq![sep]
            + crate::text::join(back, sep));
    } else if front.len() > 1 && back.len() > 0 {
        law_join_of_parts(front.drop_first(), back, sep);
        assert((front + back).drop_first() =~= front.drop_first() + back);
        assert(crate::text::join(front + back, sep) =~= crate::text::join(front, sep) + seq![sep]
            + crate::text::join(back, sep));
    }
}

/// Splitting a text gives pieces without the separator, which joined give the text; and no
/// other pieces do.
pub proof fn law_split_is_what_join_undoes(s: Seq<char>, sep: char, parts: Seq<Seq<char>>)
    ensures
        crate::text::split(s, sep) == parts <==> {
            &&& parts.len() > 0
            &&& forall|i: int| 0 <= i < parts.len() ==> !(#[trigger] parts[i]).contains(sep)
            &&& crate::text::join(parts, sep) == s
        },
{
    lemma_join_split(s, sep);
    let pieces = crate::text::split(s, sep);
    assert forall|i: int| 0 <= i < pieces.len() implies !(#[trigger] pieces[i]).contains(sep) by {
        assert(crate::text::lacks(pieces[i], sep));
    }
    if parts.len() > 0 && (forall|i: int|
        0 <= i < parts.len() ==> !(#[trigger] parts[i]).contains(sep)) && crate::text::join(
        parts,
        sep,
    ) == s {
        assert forall|i: int| 0 <= i < parts.len() implies crate::text::lacks(
            #[trigger] parts[i],
            sep,
        ) by {
            assert forall|j: int| 0 <= j < parts[i].len() implies #[trigger] parts[i][j]
                != sep by {
                assert(!parts[i].contains(sep));
            }
        }
        crate::text::lemma_split_join(parts, sep);
    }
}

/// Joining undoes splitting.
pub proof fn lemma_join_split(s: Seq<char>, sep: char)
    ensures
        crate::text::split(s, sep).len() > 0,
        crate::text::join(crate::text::split(s, sep), sep) == s,
        forall|i: int|
            0 <= i < crate::text::split(s, sep).len() ==> crate::text::lacks(
                #[trigger] crate::text::split(s, sep)[i],
                sep,
            ),
    decreases s.len(),
{
    crate::text::lemma_position(s, sep);
    let p: int = crate::text::position(s, sep);
    let parts = crate::text::split(s, sep);
    if p < s.len() {
        let rest = s.skip(p + 1);
        lemma_join_split(rest, sep);
        assert(parts.drop_first() =~= crate::text::split(rest, sep));
        assert(crate::text::join(parts, sep) =~= s);
        assert forall|i: int| 0 <= i < parts.len() implies crate::text::lacks(
            #[trigger] parts[i],
            sep,
        ) by {
            if i > 0 {
                assert(parts[i] == crate::text::split(rest, sep)[i - 1]);
            }
        }
    } else {
        assert(s.take(p) =~= s);
    }
}

// ---------------------------------------------------------------------------
// White space
// ---------------------------------------------------------------------------
/// The characters with the Unicode property White_Space are these twenty-five.
pub proof fn law_white_space(c: char)
    ensures
        crate::text::is_white_space(c) <==> seq![
            '\u{9}',
            '\u{a}',
            '\u{b}',
            '\u{c}',
            '\u{d}',
            '\u{20}',
            '\u{85}',
            '\u{a0}',
            '\u{1680}',
            '\u{2000}',
            '\u{2001}',
            '\u{2002}',
            '\u{2003}',
            '\u{2004}',
            '\u{2005}',
            '\u{2006}',
            '\u{2007}',
            '\u{2008}',
            '\u{2009}',
            '\u{200a}',
            '\u{2028}',
            '\u{2029}',
            '\u{202f}',
            '\u{205f}',
            '\u{3000}',
        ].contains(c),
{
    let all = seq![
        '\u{9}',
        '\u{a}',
        '\u{b}',
        '\u{c}',
        '\u{d}',
        '\u{20}',
        '\u{85}',
        '\u{a0}',
        '\u{1680}',
        '\u{2000}',
        '\u{2001}',
        '\u{2002}',
        '\u{2003}',
        '\u{2004}',
        '\u{2005}',
        '\u{2006}',
        '\u{2007}',
        '\u{2008}',
        '\u{2009}',
        '\u{200a}',
        '\u{2028}',
        '\u{2029}',
        '\u{202f}',
        '\u{205f}',
        '\u{3000}',
    ];
    assert(forall|i: int| 0 <= i < 25 ==> crate::text::is_white_space(#[trigger] all[i]));
    if crate::text::is_white_space(c) {
        assert(c == all[0] || c == all[1] || c == all[2] || c == all[3] || c == all[4] || c
            == all[5] || c == all[6] || c == all[7] || c == all[8] || c == all[9] || c == all[10]
            || c == all[11] || c == all[12] || c == all[13] || c == all[14] || c == all[15] || c
            == all[16] || c == all[17] || c == all[18] || c == all[19] || c == all[20] || c
            == all[21] || c == all[22] || c == all[23] || c == all[24]);
    }
}

/// The white space that `trim_start` takes off.
proof fn lemma_trim_start(s: Seq<char>) -> (k: int)
    ensures
        0 <= k <= s.len(),
        blank(s.take(k)),
        crate::text::trim_start(s) == s.skip(k),
        k < s.len() ==> !crate::text::is_white_space(s[k]),
    decreases s.len(),
{
    if s.len() > 0 && crate::text::is_white_space(s[0]) {
        let t = s.drop_first();
        let k = lemma_trim_start(t);
        assert(s.skip(k + 1) =~= t.skip(k));
        assert forall|i: int| 0 <= i < k + 1 implies crate::text::is_white_space(
            #[trigger] s.take(k + 1)[i],
        ) by {
            if i > 0 {
                assert(s.take(k + 1)[i] == t.take(k)[i - 1]);
            }
        }
        k + 1
    } else {
        assert(s.skip(0) =~= s);
        0
    }
}

/// The white space that `trim_end` takes off.
proof fn lemma_trim_end(s: Seq<char>) -> (k: int)
    ensures
        0 <= k <= s.len(),
        blank(s.skip(k)),
        crate::text::trim_end(s) == s.take(k),
        k > 0 ==> !crate::text::is_white_space(s[k - 1]),
    decreases s.len(),
{
    if s.len() > 0 && crate::text::is_white_space(s.last()) {
        let t = s.drop_last();
        let k = lemma_trim_end(t);
        assert(s.take(k) =~= t.take(k));
        assert forall|i: int| 0 <= i < s.len() - k implies crate::text::is_white_space(
            #[trigger] s.skip(k)[i],
        ) by {
            if i < t.len() - k {
                assert(s.skip(k)[i] == t.skip(k)[i]);
            }
        }
        k
    } else {
        assert(s.take(s.len() as int) =~= s);
        s.len() as int
    }
}

/// What trimming takes off: white space at the ends.
pub proof fn lemma_trim_parts(s: Seq<char>) -> (r: (Seq<char>, Seq<char>))
    ensures
        blank(r.0),
        blank(r.1),
        s == r.0 + crate::text::trim(s) + r.1,
        crate::text::trim(s).len() > 0 ==> {
            &&& !crate::text::is_white_space(crate::text::trim(s)[0])
            &&& !crate::text::is_white_space(crate::text::trim(s).last())
        },
{
    let k = lemma_trim_start(s);
    let t = s.skip(k);
    let l = lemma_trim_end(t);
    assert(s =~= s.take(k) + t.take(l) + t.skip(l));
    (s.take(k), t.skip(l))
}

/// Trimming gives the part of a text that has no white space at its ends and nothing but white
/// space around it; and no other part is such.
pub proof fn law_trim(s: Seq<char>, t: Seq<char>)
    ensures
        crate::text::trim(s) == t <==> {
            &&& t.len() > 0 ==> !crate::text::is_white_space(t[0])
                && !crate::text::is_white_space(t[t.len() - 1])
            &&& exists|before: Seq<char>, after: Seq<char>|
                #![trigger blank(before), blank(after)]
                blank(before) && blank(after) && s == before + t + after
        },
{
    let parts = lemma_trim_parts(s);
    if crate::text::trim(s) == t {
        assert(blank(parts.0) && blank(parts.1) && s == parts.0 + t + parts.1);
    }
    if (t.len() > 0 ==> !crate::text::is_white_space(t[0]) && !crate::text::is_white_space(
        t[t.len() - 1],
    )) && exists|before: Seq<char>, after: Seq<char>|
        #![trigger blank(before), blank(after)]
        blank(before) && blank(after) && s == before + t + after {
        let (before, after) = choose|before: Seq<char>, after: Seq<char>|
            #![trigger blank(before), blank(after)]
            blank(before) && blank(after) && s == before + t + after;
        lemma_trim_is(before, t, after);
    }
}

/// White space around a text is trimmed off.
pub proof fn lemma_trim_is(before: Seq<char>, t: Seq<char>, after: Seq<char>)
    requires
        blank(before),
        blank(after),
        t.len() > 0 ==> !crate::text::is_white_space(t[0]) && !crate::text::is_white_space(
            t[t.len() - 1],
        ),
    ensures
        crate::text::trim(before + t + after) == t,
{
    let s = before + t + after;
    let (b, a) = lemma_trim_parts(s);
    let u = crate::text::trim(s);
    if t.len() == 0 {
        if u.len() > 0 {
            assert(s[b.len() as int] == u[0]);
            if b.len() < before.len() {
                assert(s[b.len() as int] == before[b.len() as int]);
            } else {
                assert(s[b.len() as int] == after[b.len() - before.len()]);
            }
        }
        assert(u =~= t);
    } else {
        // Both texts start at the first character that is not white space ...
        assert(s[before.len() as int] == t[0]);
        if b.len() > before.len() {
            assert(s[before.len() as int] == b[before.len() as int]);
        }
        assert(b.len() <= before.len());
        let end: int = (before.len() + t.len()) as int;
        assert(s[end - 1] == t[t.len() - 1]);
        if u.len() == 0 {
            assert(s[before.len() as int] == a[before.len() - b.len()]);
        }
        assert(u.len() > 0);
        assert(s[b.len() as int] == u[0]);
        if b.len() < before.len() {
            assert(s[b.len() as int] == before[b.len() as int]);
        }
        assert(b.len() == before.len());
        // ... and end behind the last.
        let last: int = (b.len() + u.len()) as int;
        assert(s[last - 1] == u.last());
        if last < end {
            assert(s[end - 1] == a[end - 1 - last]);
        } else if last > end {
            assert(s[last - 1] == after[last - 1 - end]);
        }
        assert(u =~= s.subrange(b.len() as int, last));
        assert(t =~= s.subrange(before.len() as int, end));
    }
}

} // verus!
