//! Strings as sequences of characters: decimal numbers, search, trimming.

use vstd::prelude::*;
use vstd::string::*;

verus! {

/// `String::push` appends one character.
pub assume_specification[ std::string::String::push ](s: &mut std::string::String, c: char)
    ensures
        final(s)@ == old(s)@.push(c),
;

/// The character for a decimal digit.
pub open spec fn digit(d: nat) -> char {
    (48 + d) as char
}

/// `n` in decimal, without leading zeros.
pub open spec fn dec(n: nat) -> Seq<char>
    decreases n,
{
    if n < 10 {
        seq![digit(n)]
    } else {
        dec(n / 10).push(digit(n % 10))
    }
}

pub fn digit_char(d: u64) -> (c: char)
    requires
        d < 10,
    ensures
        c == digit(d as nat),
{
    ((48 + d) as u8) as char
}

/// Appends `n` in decimal.
pub fn push_dec(out: &mut String, n: u64)
    ensures
        final(out)@ == old(out)@ + dec(n as nat),
    decreases n,
{
    let ghost before = out@;
    if n >= 10 {
        push_dec(out, n / 10);
    }
    let ghost mid = out@;
    out.push(digit_char(n % 10));
    proof {
        if n >= 10 {
            assert(mid == before + dec((n / 10) as nat));
            assert((before + dec((n / 10) as nat)).push(digit((n % 10) as nat)) =~= before + dec(
                n as nat,
            ));
        } else {
            assert(before.push(digit(n as nat)) =~= before + dec(n as nat));
        }
    }
}

/// `n` in decimal, with a minus sign where it is negative.
pub open spec fn signed_dec(n: int) -> Seq<char> {
    if n < 0 {
        seq!['-'] + dec((-n) as nat)
    } else {
        dec(n as nat)
    }
}

/// Appends `n` in decimal.
pub fn push_signed(out: &mut String, n: i64)
    ensures
        final(out)@ == old(out)@ + signed_dec(n as int),
{
    let ghost before = out@;
    if n < 0 {
        out.push('-');
        let m: u64 = if n == i64::MIN {
            0x8000_0000_0000_0000
        } else {
            (-n) as u64
        };
        push_dec(out, m);
        proof {
            assert(before.push('-') + dec(m as nat) =~= before + signed_dec(n as int));
        }
    } else {
        push_dec(out, n as u64);
    }
}

/// The character for a hexadecimal digit.
pub open spec fn hex_digit(d: nat, capital: bool) -> char {
    if d < 10 {
        (48 + d) as char
    } else if capital {
        (55 + d) as char
    } else {
        (87 + d) as char
    }
}

/// `n` in hexadecimal, without leading zeros.
pub open spec fn hex(n: nat, capital: bool) -> Seq<char>
    decreases n,
{
    if n < 16 {
        seq![hex_digit(n, capital)]
    } else {
        hex(n / 16, capital).push(hex_digit(n % 16, capital))
    }
}

/// `n` in hexadecimal, with leading zeros up to eight digits.
pub open spec fn hex8(n: nat, capital: bool) -> Seq<char> {
    let h = hex(n, capital);
    if h.len() < 8 {
        Seq::new((8 - h.len()) as nat, |i: int| '0') + h
    } else {
        h
    }
}

pub fn hex_char(d: u64, capital: bool) -> (c: char)
    requires
        d < 16,
    ensures
        c == hex_digit(d as nat, capital),
{
    if d < 10 {
        ((48 + d) as u8) as char
    } else if capital {
        ((55 + d) as u8) as char
    } else {
        ((87 + d) as u8) as char
    }
}

/// Appends `n` in hexadecimal.
pub fn push_hex(out: &mut String, n: u64, capital: bool)
    ensures
        final(out)@ == old(out)@ + hex(n as nat, capital),
    decreases n,
{
    let ghost before = out@;
    if n >= 16 {
        push_hex(out, n / 16, capital);
    }
    out.push(hex_char(n % 16, capital));
    proof {
        if n >= 16 {
            assert((before + hex((n / 16) as nat, capital)).push(
                hex_digit((n % 16) as nat, capital),
            ) =~= before + hex(n as nat, capital));
        } else {
            assert(before.push(hex_digit(n as nat, capital)) =~= before + hex(n as nat, capital));
        }
    }
}

/// How many hexadecimal digits a number has.
fn hex_len(n: u64) -> (r: usize)
    ensures
        r == hex(n as nat, true).len(),
        r == hex(n as nat, false).len(),
        1 <= r <= 16,
        n < 0x10 ==> r == 1,
        n < 0x100 ==> r <= 2,
        n < 0x1000 ==> r <= 3,
        n < 0x1_0000 ==> r <= 4,
        n < 0x10_0000 ==> r <= 5,
        n < 0x100_0000 ==> r <= 6,
        n < 0x1000_0000 ==> r <= 7,
        n < 0x1_0000_0000 ==> r <= 8,
        n < 0x10_0000_0000 ==> r <= 9,
        n < 0x100_0000_0000 ==> r <= 10,
        n < 0x1000_0000_0000 ==> r <= 11,
        n < 0x1_0000_0000_0000 ==> r <= 12,
        n < 0x10_0000_0000_0000 ==> r <= 13,
        n < 0x100_0000_0000_0000 ==> r <= 14,
        n < 0x1000_0000_0000_0000 ==> r <= 15,
    decreases n,
{
    if n < 16 {
        1
    } else {
        hex_len(n / 16) + 1
    }
}

/// Appends `n` in hexadecimal, with leading zeros up to eight digits.
pub fn push_hex8(out: &mut String, n: u64, capital: bool)
    ensures
        final(out)@ == old(out)@ + hex8(n as nat, capital),
{
    let ghost before = out@;
    let len: usize = hex_len(n);
    let mut i: usize = len;
    while i < 8
        invariant
            len <= i,
            len < 8 ==> i <= 8,
            len >= 8 ==> i == len,
            out@ =~= before + Seq::new((i - len) as nat, |k: int| '0'),
        decreases 8 - i,
    {
        out.push('0');
        i = i + 1;
    }
    let ghost mid = out@;
    push_hex(out, n, capital);
    proof {
        let h = hex(n as nat, capital);
        assert(mid + h =~= before + hex8(n as nat, capital));
    }
}

/// The characters of a string, in order.
pub fn chars_of(s: &str) -> (v: Vec<char>)
    ensures
        v@ == s@,
{
    let mut v: Vec<char> = Vec::new();
    for c in it: s.chars()
        invariant
            v@ =~= s@.take(it.index() as int),
            it.seq() == s@,
    {
        v.push(c);
    }
    v
}

/// The number of a character.
pub fn code_point(c: char) -> (r: u32)
    ensures
        r == c as int,
{
    c as u32
}

/// The string made of the characters `v[from..to]`.
pub fn string_of(v: &Vec<char>, from: usize, to: usize) -> (r: String)
    requires
        from <= to <= v@.len(),
    ensures
        r@ == v@.subrange(from as int, to as int),
{
    let mut r: String = String::new();
    let mut i: usize = from;
    while i < to
        invariant
            from <= i <= to <= v@.len(),
            r@ =~= v@.subrange(from as int, i as int),
        decreases to - i,
    {
        r.push(v[i]);
        i = i + 1;
    }
    r
}

/// Whether two strings are equal.
pub fn same(a: &str, b: &str) -> (r: bool)
    ensures
        r == (a@ == b@),
{
    let u = chars_of(a);
    let v = chars_of(b);
    if u.len() != v.len() {
        return false;
    }
    let mut i: usize = 0;
    while i < u.len()
        invariant
            i <= u@.len() == v@.len(),
            u@ == a@,
            v@ == b@,
            forall|k: int| 0 <= k < i ==> u@[k] == v@[k],
        decreases u@.len() - i,
    {
        if u[i] != v[i] {
            return false;
        }
        i = i + 1;
    }
    proof {
        assert(a@ =~= b@);
    }
    true
}

// ---------------------------------------------------------------------------
// Search
// ---------------------------------------------------------------------------
/// Whether `pat` stands in `s` at `i`.
pub open spec fn occurs_at(s: Seq<char>, pat: Seq<char>, i: int) -> bool {
    0 <= i && i + pat.len() <= s.len() && s.subrange(i, i + pat.len()) == pat
}

/// The first place at or behind `i` where `pat` stands in `s`.
pub open spec fn find_from(s: Seq<char>, pat: Seq<char>, i: int) -> Option<int>
    decreases s.len() - i + 1,
{
    if i + pat.len() > s.len() {
        None
    } else if occurs_at(s, pat, i) {
        Some(i)
    } else {
        find_from(s, pat, i + 1)
    }
}

/// The last place at or before `i` where `pat` stands in `s`.
pub open spec fn rfind_from(s: Seq<char>, pat: Seq<char>, i: int) -> Option<int>
    decreases i + 1,
{
    if i < 0 {
        None
    } else if occurs_at(s, pat, i) {
        Some(i)
    } else {
        rfind_from(s, pat, i - 1)
    }
}

/// Where `pat` first stands in `s`.
pub open spec fn first_place(s: Seq<char>, pat: Seq<char>) -> Option<int> {
    find_from(s, pat, 0)
}

/// Where `pat` last stands in `s`.
pub open spec fn last_place(s: Seq<char>, pat: Seq<char>) -> Option<int> {
    rfind_from(s, pat, s.len() - pat.len())
}

/// A first place is one, and nothing stands before it.
pub proof fn law_first_place_is_first(s: Seq<char>, pat: Seq<char>, i: int)
    requires
        0 <= i,
    ensures
        match find_from(s, pat, i) {
            Some(k) => i <= k && occurs_at(s, pat, k) && forall|j: int|
                i <= j < k ==> !#[trigger] occurs_at(s, pat, j),
            None => forall|j: int| i <= j ==> !#[trigger] occurs_at(s, pat, j),
        },
    decreases s.len() - i + 1,
{
    if i + pat.len() <= s.len() && !occurs_at(s, pat, i) {
        law_first_place_is_first(s, pat, i + 1);
    }
}

/// A last place is one, and nothing stands behind it.
pub proof fn law_last_place_is_last(s: Seq<char>, pat: Seq<char>, i: int)
    ensures
        match rfind_from(s, pat, i) {
            Some(k) => 0 <= k <= i && occurs_at(s, pat, k) && forall|j: int|
                k < j <= i ==> !#[trigger] occurs_at(s, pat, j),
            None => forall|j: int| j <= i ==> !#[trigger] occurs_at(s, pat, j),
        },
    decreases i + 1,
{
    if i >= 0 && !occurs_at(s, pat, i) {
        law_last_place_is_last(s, pat, i - 1);
    }
}

pub fn matches_at(s: &Vec<char>, pat: &Vec<char>, i: usize) -> (r: bool)
    ensures
        r == occurs_at(s@, pat@, i as int),
{
    let total: usize = s.len();
    if pat.len() > total || i > total - pat.len() {
        return false;
    }
    let mut k: usize = 0;
    while k < pat.len()
        invariant
            k <= pat@.len(),
            i + pat@.len() <= total == s@.len(),
            forall|j: int| 0 <= j < k ==> s@[i + j] == pat@[j],
        decreases pat@.len() - k,
    {
        if s[i + k] != pat[k] {
            proof {
                assert(s@.subrange(i as int, i + pat@.len())[k as int] == s@[i + k]);
            }
            return false;
        }
        k = k + 1;
    }
    proof {
        assert(s@.subrange(i as int, i + pat@.len()) =~= pat@);
    }
    true
}

/// Where `pat` first stands in `s`.
pub fn find(s: &Vec<char>, pat: &str) -> (r: Option<usize>)
    ensures
        match r {
            Some(k) => first_place(s@, pat@) == Some(k as int) && k + pat@.len() <= s@.len(),
            None => first_place(s@, pat@) is None,
        },
{
    let p = chars_of(pat);
    if p.len() > s.len() {
        return None;
    }
    let last: usize = s.len() - p.len();
    let mut i: usize = 0;
    loop
        invariant
            p@ == pat@,
            p@.len() <= s@.len(),
            last == s@.len() - p@.len(),
            i <= last,
            first_place(s@, pat@) == find_from(s@, pat@, i as int),
        decreases s@.len() - i,
    {
        if matches_at(s, &p, i) {
            return Some(i);
        }
        if i == last {
            proof {
                reveal_with_fuel(find_from, 2);
            }
            return None;
        }
        i = i + 1;
    }
}

/// Where `pat` last stands in `s`.
pub fn rfind(s: &Vec<char>, pat: &str) -> (r: Option<usize>)
    ensures
        match r {
            Some(k) => last_place(s@, pat@) == Some(k as int) && k + pat@.len() <= s@.len(),
            None => last_place(s@, pat@) is None,
        },
{
    let p = chars_of(pat);
    if p.len() > s.len() {
        return None;
    }
    let mut i: usize = s.len() - p.len();
    loop
        invariant
            p@ == pat@,
            i + p@.len() <= s@.len(),
            last_place(s@, pat@) == rfind_from(s@, pat@, i as int),
        decreases i,
    {
        if matches_at(s, &p, i) {
            return Some(i);
        }
        if i == 0 {
            proof {
                reveal_with_fuel(rfind_from, 2);
            }
            return None;
        }
        i = i - 1;
    }
}

/// The first place at or behind `i` that holds a character of `set`.
pub open spec fn find_any_from(s: Seq<char>, set: Seq<char>, i: int) -> Option<int>
    decreases s.len() - i,
{
    if i >= s.len() {
        None
    } else if set.contains(s[i]) {
        Some(i)
    } else {
        find_any_from(s, set, i + 1)
    }
}

/// Whether the character is one of the set.
pub fn one_of(c: char, set: &Vec<char>) -> (r: bool)
    ensures
        r == set@.contains(c),
{
    let mut i: usize = 0;
    while i < set.len()
        invariant
            i <= set@.len(),
            forall|k: int| 0 <= k < i ==> set@[k] != c,
        decreases set@.len() - i,
    {
        if set[i] == c {
            return true;
        }
        i = i + 1;
    }
    false
}

/// The first place at or behind `from` that holds a character of `set`.
pub fn find_any(s: &Vec<char>, set: &str, from: usize) -> (r: Option<usize>)
    requires
        from <= s@.len(),
    ensures
        match r {
            Some(k) => find_any_from(s@, set@, from as int) == Some(k as int) && from <= k
                < s@.len(),
            None => find_any_from(s@, set@, from as int) is None,
        },
{
    let p = chars_of(set);
    let mut i: usize = from;
    while i < s.len()
        invariant
            from <= i <= s@.len(),
            p@ == set@,
            find_any_from(s@, set@, from as int) == find_any_from(s@, set@, i as int),
        decreases s@.len() - i,
    {
        if one_of(s[i], &p) {
            return Some(i);
        }
        i = i + 1;
    }
    None
}

// ---------------------------------------------------------------------------
// Case and blanks
// ---------------------------------------------------------------------------
/// The ASCII upper-case letter for a lower-case one; others stay.
pub open spec fn upper(c: char) -> char {
    if 'a' <= c && c <= 'z' {
        (c as int - 32) as char
    } else {
        c
    }
}

/// The ASCII lower-case letter for an upper-case one; others stay.
pub open spec fn lower(c: char) -> char {
    if 'A' <= c && c <= 'Z' {
        (c as int + 32) as char
    } else {
        c
    }
}

pub open spec fn lower_all(s: Seq<char>) -> Seq<char> {
    Seq::new(s.len(), |i: int| lower(s[i]))
}

pub fn to_upper(c: char) -> (r: char)
    ensures
        r == upper(c),
{
    let n: u32 = c as u32;
    if 97 <= n && n <= 122 {
        ((n - 32) as u8) as char
    } else {
        c
    }
}

pub fn to_lower(c: char) -> (r: char)
    ensures
        r == lower(c),
{
    let n: u32 = c as u32;
    if 65 <= n && n <= 90 {
        ((n + 32) as u8) as char
    } else {
        c
    }
}

/// The ASCII lower-case form of a string.
pub fn lower_case(s: &str) -> (r: String)
    ensures
        r@ == lower_all(s@),
{
    let v = chars_of(s);
    let mut r: String = String::new();
    let mut i: usize = 0;
    while i < v.len()
        invariant
            i <= v@.len(),
            v@ == s@,
            r@ =~= lower_all(s@.take(i as int)),
        decreases v@.len() - i,
    {
        r.push(to_lower(v[i]));
        i = i + 1;
    }
    proof {
        assert(s@.take(i as int) =~= s@);
    }
    r
}

/// Whether the character has the Unicode property White_Space.
pub open spec fn white(c: char) -> bool {
    let n = c as int;
    ||| 9 <= n <= 13
    ||| n == 32
    ||| n == 0x85
    ||| n == 0xa0
    ||| n == 0x1680
    ||| 0x2000 <= n <= 0x200a
    ||| n == 0x2028
    ||| n == 0x2029
    ||| n == 0x202f
    ||| n == 0x205f
    ||| n == 0x3000
}

pub fn is_white(c: char) -> (r: bool)
    ensures
        r == white(c),
{
    let n: u32 = c as u32;
    (9 <= n && n <= 13) || n == 32 || n == 0x85 || n == 0xa0 || n == 0x1680 || (0x2000 <= n && n
        <= 0x200a) || n == 0x2028 || n == 0x2029 || n == 0x202f || n == 0x205f || n == 0x3000
}

/// Without leading white space.
pub open spec fn trim_start(s: Seq<char>) -> Seq<char>
    decreases s.len(),
{
    if s.len() > 0 && white(s[0]) {
        trim_start(s.skip(1))
    } else {
        s
    }
}

/// Without trailing white space.
pub open spec fn trim_end(s: Seq<char>) -> Seq<char>
    decreases s.len(),
{
    if s.len() > 0 && white(s.last()) {
        trim_end(s.drop_last())
    } else {
        s
    }
}

/// Without leading and trailing white space.
pub open spec fn trimmed(s: Seq<char>) -> Seq<char> {
    trim_end(trim_start(s))
}

/// Where the text that is left after trimming begins and ends.
pub fn trim_bounds(v: &Vec<char>, from: usize, to: usize) -> (r: (usize, usize))
    requires
        from <= to <= v@.len(),
    ensures
        from <= r.0 <= r.1 <= to,
        v@.subrange(r.0 as int, r.1 as int) == trimmed(v@.subrange(from as int, to as int)),
{
    let mut a: usize = from;
    while a < to && is_white(v[a])
        invariant
            from <= a <= to <= v@.len(),
            trim_start(v@.subrange(from as int, to as int)) == trim_start(
                v@.subrange(a as int, to as int),
            ),
        decreases to - a,
    {
        proof {
            assert(v@.subrange(a as int, to as int).skip(1) =~= v@.subrange(a + 1, to as int));
        }
        a = a + 1;
    }
    let mut b: usize = to;
    while b > a && is_white(v[b - 1])
        invariant
            a <= b <= to <= v@.len(),
            trim_end(v@.subrange(a as int, to as int)) == trim_end(
                v@.subrange(a as int, b as int),
            ),
        decreases b,
    {
        proof {
            assert(v@.subrange(a as int, b as int).drop_last() =~= v@.subrange(
                a as int,
                b - 1,
            ));
        }
        b = b - 1;
    }
    (a, b)
}

// ---------------------------------------------------------------------------
// Numbers in text
// ---------------------------------------------------------------------------
/// Whether the character is an ASCII digit.
pub open spec fn is_digit(c: char) -> bool {
    48 <= c as int <= 57
}

pub open spec fn all_digits(s: Seq<char>) -> bool {
    forall|i: int| 0 <= i < s.len() ==> is_digit(#[trigger] s[i])
}

/// The number that a run of digits denotes.
pub open spec fn digits_value(s: Seq<char>) -> nat
    decreases s.len(),
{
    if s.len() == 0 {
        0
    } else {
        10 * digits_value(s.drop_last()) + (s.last() as int - 48) as nat
    }
}

/// The number denoted by at least one digit, if it is at most `max`.
pub open spec fn digits_at_most(s: Seq<char>, max: nat) -> Option<nat> {
    if s.len() > 0 && all_digits(s) && digits_value(s) <= max {
        Some(digits_value(s))
    } else {
        None
    }
}

/// The text without one leading plus sign.
pub open spec fn after_plus(s: Seq<char>) -> Seq<char> {
    if s.len() > 0 && s[0] == '+' {
        s.skip(1)
    } else {
        s
    }
}

/// What parsing an unsigned number gives: an optional plus sign and digits.
pub open spec fn unsigned_of(s: Seq<char>, max: nat) -> Option<nat> {
    digits_at_most(after_plus(s), max)
}

/// What parsing a 64-bit signed number gives: an optional sign and digits.
pub open spec fn signed_of(s: Seq<char>) -> Option<int> {
    if s.len() > 0 && s[0] == '-' {
        match digits_at_most(s.skip(1), 0x8000_0000_0000_0000) {
            Some(n) => Some(-(n as int)),
            None => None,
        }
    } else {
        match unsigned_of(s, 0x7fff_ffff_ffff_ffff) {
            Some(n) => Some(n as int),
            None => None,
        }
    }
}

/// More digits denote no smaller a number.
proof fn lemma_digits_grow(s: Seq<char>, k: int)
    requires
        0 <= k <= s.len(),
        all_digits(s),
    ensures
        digits_value(s.take(k)) <= digits_value(s),
    decreases s.len() - k,
{
    if k < s.len() {
        lemma_digits_grow(s, k + 1);
        assert(s.take(k + 1).drop_last() =~= s.take(k));
        assert(s.take(k + 1).last() == s[k]);
        assert(is_digit(s[k]));
    } else {
        assert(s.take(k) =~= s);
    }
}

/// The number denoted by the digits `v[from..to]`, if it is at most `max`.
pub fn parse_digits(v: &Vec<char>, from: usize, to: usize, max: u64) -> (r: Option<u64>)
    requires
        from <= to <= v@.len(),
    ensures
        match r {
            Some(n) => digits_at_most(v@.subrange(from as int, to as int), max as nat) == Some(
                n as nat,
            ),
            None => digits_at_most(v@.subrange(from as int, to as int), max as nat) is None,
        },
{
    let ghost s = v@.subrange(from as int, to as int);
    if from == to {
        return None;
    }
    let mut n: u64 = 0;
    let mut i: usize = from;
    while i < to
        invariant
            from <= i <= to <= v@.len(),
            s == v@.subrange(from as int, to as int),
            forall|k: int| 0 <= k < i - from ==> is_digit(#[trigger] s[k]),
            n == digits_value(s.take(i - from)),
            n <= max,
        decreases to - i,
    {
        let c: u32 = code_point(v[i]);
        let ghost k = i - from;
        assert(s[k] == v@[i as int]);
        if c < 48 || c > 57 {
            return None;
        }
        let d: u64 = (c - 48) as u64;
        proof {
            assert(s.take(k + 1).drop_last() =~= s.take(k));
            assert(s.take(k + 1).last() == s[k]);
            assert(digits_value(s.take(k + 1)) == 10 * n + d);
        }
        if n > max / 10 || d > max - 10 * n {
            proof {
                if all_digits(s) {
                    lemma_digits_grow(s, k + 1);
                }
            }
            return None;
        }
        n = 10 * n + d;
        i = i + 1;
    }
    proof {
        assert(s.take(s.len() as int) =~= s);
    }
    Some(n)
}

/// Parses an unsigned number no larger than `max` out of `v[from..to]`.
pub fn parse_unsigned(v: &Vec<char>, from: usize, to: usize, max: u64) -> (r: Option<u64>)
    requires
        from <= to <= v@.len(),
    ensures
        match r {
            Some(n) => unsigned_of(v@.subrange(from as int, to as int), max as nat) == Some(
                n as nat,
            ),
            None => unsigned_of(v@.subrange(from as int, to as int), max as nat) is None,
        },
{
    let ghost s = v@.subrange(from as int, to as int);
    if from < to && v[from] == '+' {
        proof {
            assert(s.skip(1) =~= v@.subrange(from + 1, to as int));
        }
        parse_digits(v, from + 1, to, max)
    } else {
        parse_digits(v, from, to, max)
    }
}

/// Parses a 64-bit signed number.
pub fn parse_signed(v: &Vec<char>) -> (r: Option<i64>)
    ensures
        match r {
            Some(n) => signed_of(v@) == Some(n as int),
            None => signed_of(v@) is None,
        },
{
    proof {
        assert(v@.subrange(0, v@.len() as int) =~= v@);
    }
    if v.len() > 0 && v[0] == '-' {
        proof {
            assert(v@.skip(1) =~= v@.subrange(1, v@.len() as int));
        }
        match parse_digits(v, 1, v.len(), 0x8000_0000_0000_0000) {
            None => None,
            Some(n) => {
                if n == 0x8000_0000_0000_0000 {
                    Some(i64::MIN)
                } else {
                    Some(-(n as i64))
                }
            },
        }
    } else {
        match parse_unsigned(v, 0, v.len(), 0x7fff_ffff_ffff_ffff) {
            None => None,
            Some(n) => Some(n as i64),
        }
    }
}

} // verus!
