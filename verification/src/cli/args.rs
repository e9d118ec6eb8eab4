//! The arguments of the command line.

use crate::convert::filter::Bbox2;
use crate::crs::{Crs, CrsView};
use crate::float_bits;
use crate::float_bits::is_less;
use crate::paths;
use crate::paths::extension;
use crate::text;
use crate::text::{chars_of, code_point, matches_at, push_dec, same, string_of, trim_bounds};
use vstd::prelude::*;
use vstd::string::*;

verus! {

// ---------------------------------------------------------------------------
// Boxes
// ---------------------------------------------------------------------------
/// The next comma at or behind `i`, or the end.
pub open spec fn comma_from(s: Seq<char>, i: int) -> int
    decreases s.len() - i,
{
    if i >= s.len() || s[i] == ',' {
        i
    } else {
        comma_from(s, i + 1)
    }
}

/// The parts from `from` on that commas separate, each without leading and
/// trailing white space, behind those in `acc`.
pub open spec fn parts_from(s: Seq<char>, from: int, acc: Seq<Seq<char>>) -> Seq<Seq<char>>
    decreases s.len() - from,
    when 0 <= from <= s.len()
{
    let c = comma_from(s, from);
    proof {
        lemma_comma(s, from);
    }
    let more = acc.push(text::trimmed(s.subrange(from, c)));
    if c >= s.len() {
        more
    } else {
        parts_from(s, c + 1, more)
    }
}

/// The next comma lies at or behind the place and in the text.
pub proof fn lemma_comma(s: Seq<char>, i: int)
    requires
        0 <= i <= s.len(),
    ensures
        i <= comma_from(s, i) <= s.len(),
    decreases s.len() - i,
{
    if i < s.len() && s[i] != ',' {
        lemma_comma(s, i + 1);
    }
}

/// The parts of a text that commas separate.
pub open spec fn parts_of(s: Seq<char>) -> Seq<Seq<char>> {
    parts_from(s, 0, Seq::empty())
}

/// The views of a run of strings.
pub open spec fn texts_view(s: Seq<String>) -> Seq<Seq<char>> {
    Seq::new(s.len(), |i: int| s[i]@)
}

/// Splits the text of a box into its four parts.
pub fn split_bbox(s: &str) -> (r: Result<Vec<String>, String>)
    ensures
        match r {
            Ok(v) => v@.len() == 4 && texts_view(v@) == parts_of(s@),
            Err(m) => parts_of(s@).len() != 4 && m@
                == "--bbox expects 4 comma-separated numbers (xmin,ymin,xmax,ymax), got: "@ + s@,
        },
{
    let v = chars_of(s);
    let mut out: Vec<String> = Vec::new();
    let mut from: usize = 0;
    proof {
        assert(texts_view(out@) =~= Seq::empty());
    }
    loop
        invariant_except_break
            from <= v@.len(),
            v@ == s@,
            parts_of(s@) == parts_from(s@, from as int, texts_view(out@)),
        ensures
            parts_of(s@) == texts_view(out@),
        decreases v@.len() - from,
    {
        let mut c: usize = from;
        while c < v.len() && v[c] != ','
            invariant
                from <= c <= v@.len(),
                v@ == s@,
                comma_from(s@, from as int) == comma_from(s@, c as int),
            decreases v@.len() - c,
        {
            c = c + 1;
        }
        let (a, b): (usize, usize) = trim_bounds(&v, from, c);
        let part: String = string_of(&v, a, b);
        let ghost before = texts_view(out@);
        let ghost view = part@;
        out.push(part);
        proof {
            assert(texts_view(out@) =~= before.push(view));
        }
        if c >= v.len() {
            break;
        }
        from = c + 1;
    }
    if out.len() != 4 {
        return Err(
            "--bbox expects 4 comma-separated numbers (xmin,ymin,xmax,ymax), got: ".to_owned().concat(
                s,
            ),
        );
    }
    Ok(out)
}

/// What reading one part of a box as a number gave: the bits of the number and
/// how it is printed, or why it is none.
#[derive(Debug)]
pub enum Component {
    Number { bits: u64, shown: String },
    Failed(String),
}

/// The message for the first part from `i` on that is no number.
pub open spec fn component_error(parts: Seq<Seq<char>>, parsed: Seq<Component>, i: int) -> Option<
    Seq<char>,
>
    decreases parsed.len() - i,
{
    if i >= parsed.len() {
        None
    } else {
        match parsed[i] {
            Component::Failed(e) => Some(
                "--bbox component "@ + text::dec(i as nat) + " ('"@ + parts[i] + "'): "@ + e@,
            ),
            Component::Number { .. } => component_error(parts, parsed, i + 1),
        }
    }
}

/// The bits of a part that is a number.
pub open spec fn bits_of(c: Component) -> u64 {
    match c {
        Component::Number { bits, .. } => bits,
        Component::Failed(_) => 0,
    }
}

/// How a part that is a number is printed.
pub open spec fn shown_of(c: Component) -> Seq<char> {
    match c {
        Component::Number { shown, .. } => shown@,
        Component::Failed(_) => Seq::empty(),
    }
}

/// The box that four parts make, or a message: a part that is no number, or a
/// box whose minimum is above its maximum.
pub open spec fn box_of(parts: Seq<Seq<char>>, parsed: Seq<Component>) -> Result<
    Seq<u64>,
    Seq<char>,
> {
    match component_error(parts, parsed, 0) {
        Some(m) => Err(m),
        None => {
            let a = bits_of(parsed[0]);
            let b = bits_of(parsed[1]);
            let c = bits_of(parsed[2]);
            let d = bits_of(parsed[3]);
            if float_bits::less(c, a) || float_bits::less(d, b) {
                Err(
                    "--bbox is degenerate (xmin>xmax or ymin>ymax): ["@ + shown_of(parsed[0])
                        + ", "@ + shown_of(parsed[1]) + ", "@ + shown_of(parsed[2]) + ", "@
                        + shown_of(parsed[3]) + "]"@,
                )
            } else {
                Ok(seq![a, b, c, d])
            }
        },
    }
}

fn number_at(parsed: &Vec<Component>, i: usize) -> (r: u64)
    requires
        i < parsed@.len(),
    ensures
        r == bits_of(parsed@[i as int]),
{
    match &parsed[i] {
        Component::Number { bits, .. } => *bits,
        Component::Failed(_) => 0,
    }
}

fn push_shown(m: &mut String, parsed: &Vec<Component>, i: usize)
    requires
        i < parsed@.len(),
    ensures
        final(m)@ == old(m)@ + shown_of(parsed@[i as int]),
{
    match &parsed[i] {
        Component::Number { shown, .. } => {
            m.append(shown.as_str());
        },
        Component::Failed(_) => {
            proof {
                assert(m@ + Seq::<char>::empty() =~= m@);
            }
        },
    }
}

/// Makes a box of its four parts, each read as a number.
pub fn parse_bbox(parts: &Vec<String>, parsed: &Vec<Component>) -> (r: Result<Bbox2, String>)
    requires
        parts@.len() == 4,
        parsed@.len() == 4,
    ensures
        match r {
            Ok(b) => box_of(texts_view(parts@), parsed@) == Ok::<Seq<u64>, Seq<char>>(b@),
            Err(m) => box_of(texts_view(parts@), parsed@) == Err::<Seq<u64>, Seq<char>>(m@),
        },
{
    let mut i: usize = 0;
    while i < 4
        invariant
            i <= 4,
            parts@.len() == 4,
            parsed@.len() == 4,
            component_error(texts_view(parts@), parsed@, 0) == component_error(
                texts_view(parts@),
                parsed@,
                i as int,
            ),
        decreases 4 - i,
    {
        match &parsed[i] {
            Component::Failed(e) => {
                let mut m: String = "--bbox component ".to_owned();
                push_dec(&mut m, i as u64);
                m.append(" ('");
                m.append(parts[i].as_str());
                m.append("'): ");
                m.append(e.as_str());
                return Err(m);
            },
            Component::Number { .. } => {},
        }
        i = i + 1;
    }
    let a: u64 = number_at(parsed, 0);
    let b: u64 = number_at(parsed, 1);
    let c: u64 = number_at(parsed, 2);
    let d: u64 = number_at(parsed, 3);
    if is_less(c, a) || is_less(d, b) {
        let mut m: String = "--bbox is degenerate (xmin>xmax or ymin>ymax): [".to_owned();
        push_shown(&mut m, parsed, 0);
        m.append(", ");
        push_shown(&mut m, parsed, 1);
        m.append(", ");
        push_shown(&mut m, parsed, 2);
        m.append(", ");
        push_shown(&mut m, parsed, 3);
        m.append("]");
        return Err(m);
    }
    let out: Bbox2 = [a, b, c, d];
    proof {
        assert(out@ =~= seq![a, b, c, d]);
    }
    Ok(out)
}

// ---------------------------------------------------------------------------
// Reference systems
// ---------------------------------------------------------------------------
/// Why a text is no 32-bit number.
#[derive(Debug, Clone, Copy, PartialEq, Eq, Structural)]
pub enum NumberError {
    Empty,
    InvalidDigit,
    TooLarge,
}

/// How an error is named.
pub open spec fn number_error_text(e: NumberError) -> Seq<char> {
    match e {
        NumberError::Empty => "cannot parse integer from empty string"@,
        NumberError::InvalidDigit => "invalid digit found in string"@,
        NumberError::TooLarge => "number too large to fit in target type"@,
    }
}

/// The number that the digits from `i` on make behind `n`; the first character
/// that cannot stand there decides the error.
pub open spec fn number_from(s: Seq<char>, i: int, n: nat) -> Result<nat, NumberError>
    decreases s.len() - i,
{
    if i >= s.len() {
        Ok(n)
    } else if !text::is_digit(s[i]) {
        Err(NumberError::InvalidDigit)
    } else {
        let more = 10 * n + (s[i] as int - 48) as nat;
        if more > u32::MAX {
            Err(NumberError::TooLarge)
        } else {
            number_from(s, i + 1, more)
        }
    }
}

/// The 32-bit number that a text denotes: an optional plus sign and digits.
pub open spec fn number_of(s: Seq<char>) -> Result<nat, NumberError> {
    if s.len() == 0 {
        Err(NumberError::Empty)
    } else if s[0] == '+' {
        if s.len() == 1 {
            Err(NumberError::InvalidDigit)
        } else {
            number_from(s, 1, 0)
        }
    } else {
        number_from(s, 0, 0)
    }
}

/// The text without a leading `EPSG:` or `epsg:`.
pub open spec fn without_prefix(s: Seq<char>) -> Seq<char> {
    if text::occurs_at(s, "EPSG:"@, 0) || text::occurs_at(s, "epsg:"@, 0) {
        s.skip(5)
    } else {
        s
    }
}

/// The reference system that an argument names, or a message.
pub open spec fn crs_argument(s: Seq<char>) -> Result<CrsView, Seq<char>> {
    match number_of(without_prefix(text::trimmed(s))) {
        Ok(n) => Ok(CrsView::Epsg(n as u32)),
        Err(e) => Err(
            "--to-crs expects EPSG:NNNN or NNNN, got '"@ + s + "': "@ + number_error_text(e),
        ),
    }
}

fn read_number(v: &Vec<char>, from: usize, to: usize) -> (r: Result<u32, NumberError>)
    requires
        from <= to <= v@.len(),
    ensures
        match r {
            Ok(n) => number_of(v@.subrange(from as int, to as int)) == Ok::<nat, NumberError>(
                n as nat,
            ),
            Err(e) => number_of(v@.subrange(from as int, to as int)) == Err::<nat, NumberError>(e),
        },
{
    let ghost s = v@.subrange(from as int, to as int);
    if from == to {
        return Err(NumberError::Empty);
    }
    let mut i: usize = from;
    if v[from] == '+' {
        if to - from == 1 {
            return Err(NumberError::InvalidDigit);
        }
        i = from + 1;
    }
    let mut n: u64 = 0;
    while i < to
        invariant
            from <= i <= to <= v@.len(),
            s == v@.subrange(from as int, to as int),
            n <= u32::MAX,
            number_of(s) == number_from(s, i - from, n as nat),
        decreases to - i,
    {
        let c: u32 = code_point(v[i]);
        assert(s[i - from] == v@[i as int]);
        if c < 48 || c > 57 {
            return Err(NumberError::InvalidDigit);
        }
        n = 10 * n + (c - 48) as u64;
        if n > u32::MAX as u64 {
            return Err(NumberError::TooLarge);
        }
        i = i + 1;
    }
    Ok(n as u32)
}

fn error_name(e: NumberError) -> (r: &'static str)
    ensures
        r@ == number_error_text(e),
{
    match e {
        NumberError::Empty => "cannot parse integer from empty string",
        NumberError::InvalidDigit => "invalid digit found in string",
        NumberError::TooLarge => "number too large to fit in target type",
    }
}

/// Reads the reference system that an argument names.
pub fn parse_crs(s: &str) -> (r: Result<Crs, String>)
    ensures
        match r {
            Ok(c) => crs_argument(s@) == Ok::<CrsView, Seq<char>>(c@),
            Err(m) => crs_argument(s@) == Err::<CrsView, Seq<char>>(m@),
        },
{
    let v = chars_of(s);
    let (a, b): (usize, usize) = trim_bounds(&v, 0, v.len());
    proof {
        assert(v@.subrange(0, v@.len() as int) =~= s@);
        reveal_strlit("EPSG:");
        reveal_strlit("epsg:");
    }
    let inner = chars_of(string_of(&v, a, b).as_str());
    let upper = chars_of("EPSG:");
    let lower = chars_of("epsg:");
    let from: usize = if matches_at(&inner, &upper, 0) || matches_at(&inner, &lower, 0) {
        5
    } else {
        0
    };
    proof {
        assert(inner@.subrange(from as int, inner@.len() as int) =~= without_prefix(
            text::trimmed(s@),
        ));
    }
    match read_number(&inner, from, inner.len()) {
        Ok(n) => Ok(Crs::Epsg(n)),
        Err(e) => {
            let mut m: String = "--to-crs expects EPSG:NNNN or NNNN, got '".to_owned();
            m.append(s);
            m.append("': ");
            m.append(error_name(e));
            Err(m)
        },
    }
}

// ---------------------------------------------------------------------------
// Rewriting
// ---------------------------------------------------------------------------
/// What to rewrite with sorted features.
#[derive(Debug, Clone, Copy)]
pub struct OptimizeArgs<'a> {
    pub input: &'a str,
    pub output: &'a str,
    pub batch_size: usize,
}

/// Why the arguments are refused, if they are: both files must have the
/// extension `parquet`.
pub open spec fn optimize_error(input: Seq<char>, output: Seq<char>) -> Option<Seq<char>> {
    if paths::extension_of(input) != Some("parquet"@) {
        Some("optimize input must be a .parquet file: "@ + input)
    } else if paths::extension_of(output) != Some("parquet"@) {
        Some("optimize output must be a .parquet file: "@ + output)
    } else {
        None
    }
}

fn is_parquet(path: &str) -> (r: bool)
    ensures
        r == (paths::extension_of(path@) == Some("parquet"@)),
{
    match extension(path) {
        None => false,
        Some(e) => same(e.as_str(), "parquet"),
    }
}

impl<'a> OptimizeArgs<'a> {
    /// Checks the extensions of both files.
    pub fn check(&self) -> (r: Result<(), String>)
        ensures
            match r {
                Ok(_) => optimize_error(self.input@, self.output@) is None,
                Err(m) => optimize_error(self.input@, self.output@) == Some(m@),
            },
    {
        if !is_parquet(self.input) {
            return Err("optimize input must be a .parquet file: ".to_owned().concat(self.input));
        }
        if !is_parquet(self.output) {
            return Err(
                "optimize output must be a .parquet file: ".to_owned().concat(self.output),
            );
        }
        Ok(())
    }
}

} // verus!
