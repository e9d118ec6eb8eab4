//! What the arguments of the command line look like, and that they are read as
//! they are meant.

use crate::cli::args;
use crate::cli::args::{Component, NumberError};
use crate::crs::CrsView;
use crate::float_bits;
use crate::text;
use crate::text_laws;
use vstd::prelude::*;
use vstd::string::*;

verus! {

// ---------------------------------------------------------------------------
// Boxes
// ---------------------------------------------------------------------------
/// The items with a comma between each two.
pub open spec fn with_commas(items: Seq<Seq<char>>) -> Seq<char>
    decreases items.len(),
{
    if items.len() <= 1 {
        items[0]
    } else {
        items[0] + (seq![','] + with_commas(items.skip(1)))
    }
}

proof fn lemma_next_comma(s: Seq<char>, from: int, c: int)
    requires
        0 <= from <= c <= s.len(),
        c == s.len() || s[c] == ',',
        forall|i: int| from <= i < c ==> #[trigger] s[i] != ',',
    ensures
        args::comma_from(s, from) == c,
    decreases c - from,
{
    if from < c {
        assert(s[from] != ',');
        lemma_next_comma(s, from + 1, c);
    }
}

proof fn lemma_parts(s: Seq<char>, from: int, items: Seq<Seq<char>>, acc: Seq<Seq<char>>)
    requires
        0 <= from <= s.len(),
        items.len() > 0,
        s.skip(from) == with_commas(items),
        forall|i: int| 0 <= i < items.len() ==> !(#[trigger] items[i]).contains(','),
    ensures
        args::parts_from(s, from, acc) == acc + Seq::new(
            items.len(),
            |i: int| text::trimmed(items[i]),
        ),
    decreases items.len(),
{
    let all = Seq::new(items.len(), |i: int| text::trimmed(items[i]));
    let first = items[0];
    let c = from + first.len();
    let tail = s.skip(from);
    assert(!first.contains(','));
    assert(tail == first || tail == first + (seq![','] + with_commas(items.skip(1))));
    assert(tail.len() >= first.len());
    assert forall|i: int| from <= i < c implies #[trigger] s[i] != ',' by {
        assert(s[i] == tail[i - from]);
        assert(tail[i - from] == first[i - from]);
        assert(first.contains(first[i - from]));
    }
    if items.len() == 1 {
        assert(tail.len() == first.len());
        lemma_next_comma(s, from, c);
        assert(s.subrange(from, c) =~= first);
        assert(acc.push(text::trimmed(first)) =~= acc + all);
    } else {
        let rest = items.skip(1);
        assert(tail.len() == first.len() + 1 + with_commas(rest).len());
        assert(s[c] == tail[first.len() as int]);
        lemma_next_comma(s, from, c);
        assert(s.subrange(from, c) =~= first);
        assert(s.skip(c + 1) =~= with_commas(rest)) by {
            assert(s.skip(c + 1) =~= tail.skip(first.len() as int + 1));
        }
        assert forall|i: int| 0 <= i < rest.len() implies !(#[trigger] rest[i]).contains(',') by {
            assert(rest[i] == items[i + 1]);
        }
        let more = acc.push(text::trimmed(first));
        lemma_parts(s, c + 1, rest, more);
        assert(more + Seq::new(rest.len(), |i: int| text::trimmed(rest[i])) =~= acc + all);
    }
}

/// A text that was put together with commas comes apart into the items, each
/// without blanks at its ends.
pub proof fn law_commas_separate(items: Seq<Seq<char>>)
    requires
        items.len() > 0,
        forall|i: int| 0 <= i < items.len() ==> !(#[trigger] items[i]).contains(','),
    ensures
        args::parts_of(with_commas(items)) == Seq::new(
            items.len(),
            |i: int| text::trimmed(items[i]),
        ),
{
    let s = with_commas(items);
    assert(s.skip(0) =~= s);
    lemma_parts(s, 0, items, Seq::empty());
    assert(Seq::<Seq<char>>::empty() + Seq::new(items.len(), |i: int| text::trimmed(items[i]))
        =~= Seq::new(items.len(), |i: int| text::trimmed(items[i])));
}

/// Whether `x` is not before `a` and not behind `b`.
pub open spec fn between(a: u64, x: u64, b: u64) -> bool {
    float_bits::at_most(a, x) && float_bits::at_most(x, b)
}

proof fn lemma_parsed(parts: Seq<Seq<char>>, parsed: Seq<Component>, i: int)
    requires
        0 <= i <= parsed.len(),
    ensures
        args::component_error(parts, parsed, i) is None <==> forall|k: int|
            i <= k < parsed.len() ==> (#[trigger] parsed[k]) is Number,
    decreases parsed.len() - i,
{
    if i < parsed.len() {
        lemma_parsed(parts, parsed, i + 1);
        assert(parsed[i] is Number || parsed[i] is Failed);
    }
}

/// Four numbers make a box, in the order in which they stand, exactly where some
/// point lies between the first and the third and between the second and the
/// fourth; where one is no number there is no box.
pub proof fn law_four_numbers_make_a_box(parts: Seq<Seq<char>>, parsed: Seq<Component>)
    requires
        parts.len() == 4,
        parsed.len() == 4,
    ensures
        (exists|k: int| 0 <= k < 4 && (#[trigger] parsed[k]) is Failed) ==> args::box_of(
            parts,
            parsed,
        ) is Err,
        (forall|k: int|
            0 <= k < 4 ==> (#[trigger] parsed[k]) is Number && !float_bits::nan(parsed[k]->bits))
            ==> {
            let a = parsed[0]->bits;
            let b = parsed[1]->bits;
            let c = parsed[2]->bits;
            let d = parsed[3]->bits;
            &&& args::box_of(parts, parsed) is Ok <==> exists|x: u64, y: u64|
                between(a, x, c) && between(b, y, d)
            &&& args::box_of(parts, parsed) matches Ok(r) ==> r == seq![a, b, c, d]
        },
{
    lemma_parsed(parts, parsed, 0);
    if forall|k: int|
        0 <= k < 4 ==> (#[trigger] parsed[k]) is Number && !float_bits::nan(parsed[k]->bits) {
        assert(parsed[0] is Number && parsed[1] is Number && parsed[2] is Number
            && parsed[3] is Number);
        let a = parsed[0]->bits;
        let b = parsed[1]->bits;
        let c = parsed[2]->bits;
        let d = parsed[3]->bits;
        if args::box_of(parts, parsed) is Ok {
            assert(between(a, a, c) && between(b, b, d));
        }
    }
}

// ---------------------------------------------------------------------------
// Reference systems
// ---------------------------------------------------------------------------
proof fn lemma_prefix_reads(s: Seq<char>, i: int)
    requires
        text_laws::numeral(s, 10),
        0 <= i <= s.len(),
    ensures
        text_laws::reads(s.take(i), 10) <= text_laws::reads(s, 10),
    decreases s.len() - i,
{
    if i < s.len() {
        lemma_prefix_reads(s, i + 1);
        assert(s.take(i + 1).drop_last() =~= s.take(i));
    } else {
        assert(s.take(i) =~= s);
    }
}

proof fn lemma_number_from(s: Seq<char>, i: int)
    requires
        text_laws::numeral(s, 10),
        text_laws::reads(s, 10) <= u32::MAX,
        0 <= i <= s.len(),
    ensures
        args::number_from(s, i, text_laws::reads(s.take(i), 10)) == Ok::<nat, NumberError>(
            text_laws::reads(s, 10),
        ),
    decreases s.len() - i,
{
    if i < s.len() {
        lemma_number_from(s, i + 1);
        lemma_prefix_reads(s, i + 1);
        assert(s.take(i + 1).drop_last() =~= s.take(i));
        assert(s.take(i + 1).last() == s[i]);
        assert(text_laws::worth(s[i]) matches Some(d) && d < 10);
        assert(text::is_digit(s[i]));
        assert(text_laws::worth(s[i]) == Some((s[i] as int - 48) as nat));
    } else {
        assert(s.take(i) =~= s);
    }
}

proof fn lemma_trimmed_core(before: Seq<char>, core: Seq<char>, after: Seq<char>)
    requires
        forall|i: int| 0 <= i < before.len() ==> text::white(#[trigger] before[i]),
        forall|i: int| 0 <= i < after.len() ==> text::white(#[trigger] after[i]),
        core.len() > 0,
        !text::white(core[0]),
        !text::white(core.last()),
    ensures
        text::trimmed(before + core + after) == core,
{
    let s = before + core + after;
    let a = before.len() as int;
    let b = a + core.len();
    let (x, y) = text_laws::law_trimming_takes_off_the_blanks(s);
    assert(s[a] == core[0]);
    assert(s[b - 1] == core.last());
    assert(x <= a);
    assert(b <= y);
    if x < a {
        assert(s[x] == before[x]);
    }
    if y > b {
        assert(s[y - 1] == after[y - 1 - b]);
    }
    assert(s.subrange(a, b) =~= core);
}

/// A code is read in each of the forms that it may be given in, with blanks round
/// it or without.
pub proof fn law_codes_are_read(before: Seq<char>, n: u32, after: Seq<char>)
    requires
        forall|i: int| 0 <= i < before.len() ==> text::white(#[trigger] before[i]),
        forall|i: int| 0 <= i < after.len() ==> text::white(#[trigger] after[i]),
    ensures
        args::crs_argument(before + text::dec(n as nat) + after) == Ok::<CrsView, Seq<char>>(
            CrsView::Epsg(n),
        ),
        args::crs_argument(before + ("EPSG:"@ + text::dec(n as nat)) + after) == Ok::<
            CrsView,
            Seq<char>,
        >(CrsView::Epsg(n)),
        args::crs_argument(before + ("epsg:"@ + text::dec(n as nat)) + after) == Ok::<
            CrsView,
            Seq<char>,
        >(CrsView::Epsg(n)),
{
    let digits = text::dec(n as nat);
    let large = "EPSG:"@ + digits;
    let small = "epsg:"@ + digits;
    reveal_strlit("EPSG:");
    reveal_strlit("epsg:");
    text_laws::law_decimal_reads_back(n as nat);
    let last = digits.len() - 1;
    assert('0' <= digits[0] && digits[0] <= '9');
    assert('0' <= digits[last] && digits[last] <= '9');
    lemma_trimmed_core(before, digits, after);
    lemma_trimmed_core(before, large, after);
    lemma_trimmed_core(before, small, after);
    assert(large.subrange(0, 5) =~= "EPSG:"@);
    assert(small.subrange(0, 5) =~= "epsg:"@);
    assert(large.skip(5) =~= digits);
    assert(small.skip(5) =~= digits);
    if text::occurs_at(digits, "EPSG:"@, 0) {
        assert(digits.subrange(0, 5)[0] == 'E');
    }
    if text::occurs_at(digits, "epsg:"@, 0) {
        assert(digits.subrange(0, 5)[0] == 'e');
    }
    lemma_number_from(digits, 0);
    assert(digits.take(0) =~= Seq::<char>::empty());
}

proof fn lemma_read_number(s: Seq<char>, i: int, n: nat)
    requires
        0 <= i <= s.len(),
    ensures
        args::number_from(s, i, n) is Ok ==> forall|k: int|
            i <= k < s.len() ==> (text_laws::worth(#[trigger] s[k]) matches Some(d) && d < 10),
    decreases s.len() - i,
{
    if i < s.len() && text::is_digit(s[i]) {
        let more = 10 * n + (s[i] as int - 48) as nat;
        lemma_read_number(s, i + 1, more);
        assert(text_laws::worth(s[i]) matches Some(d) && d < 10);
    }
}

/// Nothing but digits is read as a code: with the prefix, the plus sign and the
/// blanks taken off, one that is read is a numeral.
pub proof fn law_only_numerals_are_read(s: Seq<char>)
    ensures
        args::crs_argument(s) is Ok ==> {
            let core = args::without_prefix(text::trimmed(s));
            text_laws::numeral(core, 10) || (core.len() > 0 && core[0] == '+' && text_laws::numeral(
                core.skip(1),
                10,
            ))
        },
{
    let core = args::without_prefix(text::trimmed(s));
    if core.len() > 0 {
        if core[0] == '+' {
            lemma_read_number(core, 1, 0);
            assert(forall|i: int| 0 <= i < core.skip(1).len() ==> core.skip(1)[i] == core[i + 1]);
        } else {
            lemma_read_number(core, 0, 0);
        }
    }
}

} // verus!
