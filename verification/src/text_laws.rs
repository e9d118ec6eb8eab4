//! What numbers look like in text, and what is left of a text that is trimmed,
//! searched or changed in case.

use crate::text;
use vstd::prelude::*;
use vstd::string::*;

verus! {

// ---------------------------------------------------------------------------
// Numbers
// ---------------------------------------------------------------------------
/// What a digit stands for; a letter stands for ten and more.
pub open spec fn worth(c: char) -> Option<nat> {
    match c {
        '0' => Some(0),
        '1' => Some(1),
        '2' => Some(2),
        '3' => Some(3),
        '4' => Some(4),
        '5' => Some(5),
        '6' => Some(6),
        '7' => Some(7),
        '8' => Some(8),
        '9' => Some(9),
        'a' | 'A' => Some(10),
        'b' | 'B' => Some(11),
        'c' | 'C' => Some(12),
        'd' | 'D' => Some(13),
        'e' | 'E' => Some(14),
        'f' | 'F' => Some(15),
        _ => None,
    }
}

/// Whether every character is a digit below `base`.
pub open spec fn numeral(s: Seq<char>, base: nat) -> bool {
    s.len() > 0 && forall|i: int|
        0 <= i < s.len() ==> (worth(#[trigger] s[i]) matches Some(d) && d < base)
}

/// The number that digits stand for.
pub open spec fn reads(s: Seq<char>, base: nat) -> nat
    decreases s.len(),
{
    if s.len() == 0 {
        0
    } else {
        base * reads(s.drop_last(), base) + worth(s.last())->0
    }
}

proof fn lemma_digit(d: nat)
    requires
        d < 10,
    ensures
        worth(text::digit(d)) == Some(d),
        text::digit(d) == '0' <==> d == 0,
        '0' <= text::digit(d) && text::digit(d) <= '9',
{
}

/// A number in decimal is made of digits that stand for it, and begins with a
/// zero only where it is zero.
pub proof fn law_decimal_reads_back(n: nat)
    ensures
        numeral(text::dec(n), 10),
        reads(text::dec(n), 10) == n,
        text::dec(n)[0] == '0' <==> n == 0,
        forall|i: int|
            0 <= i < text::dec(n).len() ==> '0' <= #[trigger] text::dec(n)[i] && text::dec(n)[i]
                <= '9',
    decreases n,
{
    let s = text::dec(n);
    lemma_digit(n % 10);
    if n < 10 {
        assert(s.drop_last() =~= Seq::<char>::empty());
        reveal_with_fuel(reads, 2);
    } else {
        law_decimal_reads_back(n / 10);
        let t = text::dec(n / 10);
        assert(s.drop_last() =~= t);
        assert(forall|i: int| 0 <= i < t.len() ==> s[i] == t[i]);
    }
}

proof fn lemma_hex_digit(d: nat, capital: bool)
    requires
        d < 16,
    ensures
        worth(text::hex_digit(d, capital)) == Some(d),
        text::hex_digit(d, capital) == '0' <==> d == 0,
        capital ==> !('a' <= text::hex_digit(d, capital)),
        !capital ==> !('A' <= text::hex_digit(d, capital) && text::hex_digit(d, capital) <= 'Z'),
{
}

/// A number in hexadecimal is made of digits that stand for it, with letters all
/// large or all small, and begins with a zero only where it is zero.
pub proof fn law_hexadecimal_reads_back(n: nat, capital: bool)
    ensures
        numeral(text::hex(n, capital), 16),
        reads(text::hex(n, capital), 16) == n,
        text::hex(n, capital)[0] == '0' <==> n == 0,
        forall|i: int|
            #![trigger text::hex(n, capital)[i]]
            0 <= i < text::hex(n, capital).len() ==> if capital {
                !('a' <= text::hex(n, capital)[i])
            } else {
                !('A' <= text::hex(n, capital)[i] && text::hex(n, capital)[i] <= 'Z')
            },
    decreases n,
{
    let s = text::hex(n, capital);
    lemma_hex_digit(n % 16, capital);
    if n < 16 {
        assert(s.drop_last() =~= Seq::<char>::empty());
        reveal_with_fuel(reads, 2);
    } else {
        law_hexadecimal_reads_back(n / 16, capital);
        let t = text::hex(n / 16, capital);
        assert(s.drop_last() =~= t);
        assert(forall|i: int| 0 <= i < t.len() ==> s[i] == t[i]);
    }
}

proof fn lemma_zeros(k: nat, s: Seq<char>)
    requires
        numeral(s, 16),
    ensures
        numeral(Seq::new(k, |i: int| '0') + s, 16),
        reads(Seq::new(k, |i: int| '0') + s, 16) == reads(s, 16),
    decreases s.len(),
{
    let zeros = Seq::new(k, |i: int| '0');
    let all = zeros + s;
    assert(all.drop_last() =~= zeros + s.drop_last());
    if s.len() == 1 {
        lemma_only_zeros(k);
        assert(s.drop_last() =~= Seq::<char>::empty());
        assert(all.drop_last() =~= zeros);
        reveal_with_fuel(reads, 2);
    } else {
        assert(numeral(s.drop_last(), 16)) by {
            assert(forall|i: int| 0 <= i < s.drop_last().len() ==> s.drop_last()[i] == s[i]);
        }
        lemma_zeros(k, s.drop_last());
    }
}

proof fn lemma_only_zeros(k: nat)
    ensures
        reads(Seq::new(k, |i: int| '0'), 16) == 0,
    decreases k,
{
    if k > 0 {
        let j = (k - 1) as nat;
        lemma_only_zeros(j);
        assert(Seq::new(k, |i: int| '0').drop_last() =~= Seq::new(j, |i: int| '0'));
    }
}

/// With eight digits or more, the digits stand for the number all the same;
/// there are just eight where that is enough.
pub proof fn law_eight_digits_read_back(n: nat, capital: bool)
    ensures
        numeral(text::hex8(n, capital), 16),
        reads(text::hex8(n, capital), 16) == n,
        text::hex8(n, capital).len() >= 8,
        text::hex8(n, capital).len() > 8 ==> text::hex8(n, capital)[0] != '0',
{
    law_hexadecimal_reads_back(n, capital);
    let h = text::hex(n, capital);
    if h.len() < 8 {
        lemma_zeros((8 - h.len()) as nat, h);
    } else if n == 0 {
        assert(h.len() == 1);
    }
}

proof fn lemma_same_value(s: Seq<char>)
    requires
        s.len() > 0,
    ensures
        text::all_digits(s) <==> numeral(s, 10),
        numeral(s, 10) ==> text::digits_value(s) == reads(s, 10),
    decreases s.len(),
{
    assert forall|c: char| text::is_digit(c) == (#[trigger] worth(c) matches Some(d) && d < 10) by {
    }
    assert forall|c: char| #[trigger] text::is_digit(c) implies worth(c) == Some(
        (c as int - 48) as nat,
    ) by {
    }
    if text::all_digits(s) {
        assert forall|i: int| 0 <= i < s.len() implies (worth(#[trigger] s[i]) matches Some(d) && d
            < 10) by {
            assert(text::is_digit(s[i]));
        }
    }
    if numeral(s, 10) {
        assert forall|i: int| 0 <= i < s.len() implies text::is_digit(#[trigger] s[i]) by {
            assert(worth(s[i]) matches Some(d) && d < 10);
        }
        assert(text::is_digit(s[s.len() - 1]));
        if s.len() > 1 {
            let t = s.drop_last();
            assert(forall|i: int| 0 <= i < t.len() ==> t[i] == s[i]);
            assert(numeral(t, 10));
            lemma_same_value(t);
        } else {
            assert(s.drop_last() =~= Seq::<char>::empty());
            reveal_with_fuel(reads, 2);
            reveal_with_fuel(text::digits_value, 2);
        }
    }
}

/// A text is an unsigned number exactly where it is made of digits, with or
/// without a plus sign in front, that stand for no more than the largest; the
/// number is the one that they stand for.
pub proof fn law_unsigned_numbers(s: Seq<char>, max: nat)
    ensures
        numeral(s, 10) && reads(s, 10) <= max ==> text::unsigned_of(s, max) == Some(reads(s, 10)),
        s.len() > 0 && s[0] == '+' && numeral(s.skip(1), 10) && reads(s.skip(1), 10) <= max
            ==> text::unsigned_of(s, max) == Some(reads(s.skip(1), 10)),
        text::unsigned_of(s, max) is Some ==> {
            ||| numeral(s, 10) && reads(s, 10) <= max
            ||| s.len() > 0 && s[0] == '+' && numeral(s.skip(1), 10) && reads(s.skip(1), 10) <= max
        },
{
    if s.len() > 0 {
        lemma_same_value(s);
        if s.len() > 1 {
            lemma_same_value(s.skip(1));
        }
        if numeral(s, 10) {
            assert(worth(s[0]) is Some);
        }
    }
}

/// A text is a signed number exactly where it is made of a sign or none and of
/// digits, and stands for a number of 64 bits.
pub proof fn law_signed_numbers(s: Seq<char>)
    ensures
        numeral(s, 10) && reads(s, 10) <= i64::MAX ==> text::signed_of(s) == Some(
            reads(s, 10) as int,
        ),
        s.len() > 0 && s[0] == '+' && numeral(s.skip(1), 10) && reads(s.skip(1), 10) <= i64::MAX
            ==> text::signed_of(s) == Some(reads(s.skip(1), 10) as int),
        s.len() > 0 && s[0] == '-' && numeral(s.skip(1), 10) && -reads(s.skip(1), 10) >= i64::MIN
            ==> text::signed_of(s) == Some(-reads(s.skip(1), 10)),
        text::signed_of(s) is Some ==> {
            ||| numeral(s, 10) && reads(s, 10) <= i64::MAX
            ||| s.len() > 0 && s[0] == '+' && numeral(s.skip(1), 10) && reads(s.skip(1), 10)
                <= i64::MAX
            ||| s.len() > 0 && s[0] == '-' && numeral(s.skip(1), 10) && -reads(s.skip(1), 10)
                >= i64::MIN
        },
{
    law_unsigned_numbers(s, i64::MAX as nat);
    if s.len() > 0 {
        if numeral(s, 10) {
            assert(worth(s[0]) is Some);
        }
        if s.len() > 1 {
            lemma_same_value(s.skip(1));
        }
    }
}

/// What is written as a signed number is read as the same, where it has no more
/// than 64 bits.
pub proof fn law_signed_numbers_come_back(n: int)
    requires
        i64::MIN <= n <= i64::MAX,
    ensures
        text::signed_of(text::signed_dec(n)) == Some(n),
{
    let s = text::signed_dec(n);
    law_signed_numbers(s);
    if n < 0 {
        law_decimal_reads_back((-n) as nat);
        assert(s.skip(1) =~= text::dec((-n) as nat));
    } else {
        law_decimal_reads_back(n as nat);
    }
}

// ---------------------------------------------------------------------------
// Case, blanks and search
// ---------------------------------------------------------------------------
/// Each small letter has its large one, and the other way round; every other
/// character stays.
pub proof fn law_letters(i: int, c: char)
    ensures
        0 <= i < 26 ==> text::upper("abcdefghijklmnopqrstuvwxyz"@[i])
            == "ABCDEFGHIJKLMNOPQRSTUVWXYZ"@[i] && text::lower("ABCDEFGHIJKLMNOPQRSTUVWXYZ"@[i])
            == "abcdefghijklmnopqrstuvwxyz"@[i],
        !"abcdefghijklmnopqrstuvwxyz"@.contains(c) ==> text::upper(c) == c,
        !"ABCDEFGHIJKLMNOPQRSTUVWXYZ"@.contains(c) ==> text::lower(c) == c,
{
    reveal_strlit("abcdefghijklmnopqrstuvwxyz");
    reveal_strlit("ABCDEFGHIJKLMNOPQRSTUVWXYZ");
    let small = "abcdefghijklmnopqrstuvwxyz"@;
    let large = "ABCDEFGHIJKLMNOPQRSTUVWXYZ"@;
    if 'a' <= c && c <= 'z' {
        assert(small[c as int - 97] == c);
    }
    if 'A' <= c && c <= 'Z' {
        assert(large[c as int - 65] == c);
    }
}

proof fn lemma_trim_start(s: Seq<char>) -> (a: int)
    ensures
        0 <= a <= s.len(),
        text::trim_start(s) == s.skip(a),
        forall|i: int| 0 <= i < a ==> text::white(#[trigger] s[i]),
        a < s.len() ==> !text::white(s[a]),
    decreases s.len(),
{
    if s.len() > 0 && text::white(s[0]) {
        let t = s.skip(1);
        let b = lemma_trim_start(t);
        assert(t.skip(b) =~= s.skip(b + 1));
        assert forall|i: int| 0 <= i < b + 1 implies text::white(#[trigger] s[i]) by {
            if i > 0 {
                assert(t[i - 1] == s[i]);
            }
        }
        b + 1
    } else {
        assert(s.skip(0) =~= s);
        0
    }
}

proof fn lemma_trim_end(s: Seq<char>) -> (b: int)
    ensures
        0 <= b <= s.len(),
        text::trim_end(s) == s.take(b),
        forall|i: int| b <= i < s.len() ==> text::white(#[trigger] s[i]),
        b > 0 ==> !text::white(s[b - 1]),
    decreases s.len(),
{
    if s.len() > 0 && text::white(s.last()) {
        let t = s.drop_last();
        let b = lemma_trim_end(t);
        assert(t.take(b) =~= s.take(b));
        assert forall|i: int| b <= i < s.len() implies text::white(#[trigger] s[i]) by {
            if i < t.len() {
                assert(t[i] == s[i]);
            }
        }
        b
    } else {
        assert(s.take(s.len() as int) =~= s);
        s.len() as int
    }
}

/// Trimming takes off white space at both ends, and all of it, and nothing else.
pub proof fn law_trimming_takes_off_the_blanks(s: Seq<char>) -> (r: (int, int))
    ensures
        0 <= r.0 <= r.1 <= s.len(),
        text::trimmed(s) == s.subrange(r.0, r.1),
        forall|i: int| 0 <= i < r.0 || r.1 <= i < s.len() ==> text::white(#[trigger] s[i]),
        r.0 < r.1 ==> !text::white(s[r.0]) && !text::white(s[r.1 - 1]),
{
    let a = lemma_trim_start(s);
    let t = s.skip(a);
    let b = lemma_trim_end(t);
    assert(t.take(b) =~= s.subrange(a, a + b));
    assert forall|i: int| 0 <= i < a || a + b <= i < s.len() implies text::white(
        #[trigger] s[i],
    ) by {
        if i >= a {
            assert(t[i - a] == s[i]);
        }
    }
    if b > 0 {
        assert(t[b - 1] == s[a + b - 1]);
    }
    (a, a + b)
}

/// The first place that holds one of the characters holds one, and none before it
/// does.
pub proof fn law_first_of_the_set(s: Seq<char>, set: Seq<char>, i: int)
    requires
        0 <= i,
    ensures
        match text::find_any_from(s, set, i) {
            Some(k) => i <= k < s.len() && set.contains(s[k]) && forall|j: int|
                i <= j < k ==> !set.contains(#[trigger] s[j]),
            None => forall|j: int| i <= j < s.len() ==> !set.contains(#[trigger] s[j]),
        },
    decreases s.len() - i,
{
    if i < s.len() && !set.contains(s[i]) {
        law_first_of_the_set(s, set, i + 1);
    }
}

} // verus!
