use crate::age_distribution::MAX_AGE;
use vstd::prelude::*;
use vstd::string::StringSliceAdditionalSpecFns;

verus! {

/// The pieces of `s` between occurrences of `sep`, as `str::split` gives
/// them (an empty input is one empty piece).
pub open spec fn split(s: Seq<u8>, sep: u8) -> Seq<Seq<u8>>
    decreases s.len(),
{
    if s.len() == 0 {
        seq![Seq::<u8>::empty()]
    } else {
        let head = split(s.drop_last(), sep);
        if s.last() == sep {
            head.push(Seq::<u8>::empty())
        } else {
            head.update(head.len() - 1, head.last().push(s.last()))
        }
    }
}

proof fn lemma_split_nonempty(s: Seq<u8>, sep: u8)
    ensures
        split(s, sep).len() >= 1,
    decreases s.len(),
{
    if s.len() > 0 {
        lemma_split_nonempty(s.drop_last(), sep);
    }
}

/// `line` without one trailing carriage return.
pub open spec fn trim_cr(line: Seq<u8>) -> Seq<u8> {
    if line.len() > 0 && line.last() == 13u8 {
        line.drop_last()
    } else {
        line
    }
}

pub open spec fn is_digit(b: u8) -> bool {
    48 <= b <= 57
}

/// The number written by the decimal digits `d`.
pub open spec fn digits_value(d: Seq<u8>) -> int
    decreases d.len(),
{
    if d.len() == 0 {
        0
    } else {
        digits_value(d.drop_last()) * 10 + (d.last() - 48)
    }
}

/// `d` is a non-empty run of decimal digits whose value fits a `u32`.
pub open spec fn is_u32_text(d: Seq<u8>) -> bool {
    &&& d.len() > 0
    &&& forall|i: int| 0 <= i < d.len() ==> is_digit(#[trigger] d[i])
    &&& digits_value(d) <= u32::MAX
}

/// Number of lines of the file: a header, one per five-year age group
/// from 0-4 to 95-99, and one for 100 and over.
pub const RECORD_LINES: usize = 22;

/// Field `k` of line `line` of the file `s`.
pub open spec fn field(s: Seq<u8>, line: int, k: int) -> Seq<u8> {
    split(trim_cr(split(s, 10u8)[line]), 44u8)[k]
}

/// Line `line` has at least three fields, the second and third (male and
/// female counts) being `u32` numbers.
pub open spec fn record_ok(s: Seq<u8>, line: int) -> bool {
    &&& split(trim_cr(split(s, 10u8)[line]), 44u8).len() >= 3
    &&& is_u32_text(field(s, line, 1))
    &&& is_u32_text(field(s, line, 2))
}

pub open spec fn file_ok(s: Seq<u8>) -> bool {
    &&& split(s, 10u8).len() >= RECORD_LINES
    &&& forall|line: int| 1 <= line < RECORD_LINES ==> #[trigger] record_ok(s, line)
}

/// People counted on line `line`.
pub open spec fn line_total(s: Seq<u8>, line: int) -> int {
    digits_value(field(s, line, 1)) + digits_value(field(s, line, 2))
}

/// Weight of age `a`: a five-year group's count spread evenly over its
/// ages (rounding down), and the whole last count for age 100.
pub open spec fn age_weight(s: Seq<u8>, a: int) -> int {
    if a < MAX_AGE {
        line_total(s, a / 5 + 1) / 5
    } else {
        line_total(s, RECORD_LINES - 1)
    }
}

/// Splits `s` at every `sep`.
pub fn split_bytes(s: &[u8], sep: u8) -> (r: Vec<Vec<u8>>)
    ensures
        r@.len() == split(s@, sep).len(),
        forall|k: int| 0 <= k < r@.len() ==> (#[trigger] r@[k])@ == split(s@, sep)[k],
{
    let mut done: Vec<Vec<u8>> = Vec::new();
    let mut cur: Vec<u8> = Vec::new();
    let mut i: usize = 0;
    while i < s.len()
        invariant
            0 <= i <= s@.len(),
            done@.len() + 1 == split(s@.subrange(0, i as int), sep).len(),
            forall|k: int|
                0 <= k < done@.len() ==> (#[trigger] done@[k])@ == split(s@.subrange(0, i as int), sep)[k],
            cur@ == split(s@.subrange(0, i as int), sep).last(),
        decreases s@.len() - i,
    {
        let ghost pre = s@.subrange(0, i as int);
        assert(s@.subrange(0, i + 1).drop_last() =~= pre);
        assert(s@.subrange(0, i + 1).last() == s@[i as int]);
        proof {
            lemma_split_nonempty(pre, sep);
        }
        if s[i] == sep {
            done.push(cur);
            cur = Vec::new();
        } else {
            cur.push(s[i]);
        }
        i = i + 1;
    }
    assert(s@.subrange(0, s@.len() as int) =~= s@);
    done.push(cur);
    done
}

/// `line` without one trailing carriage return.
fn trim_line(line: &Vec<u8>) -> (r: Vec<u8>)
    ensures
        r@ == trim_cr(line@),
{
    let mut n = line.len();
    if n > 0 && line[n - 1] == 13u8 {
        n = n - 1;
    }
    let mut r: Vec<u8> = Vec::new();
    let mut i: usize = 0;
    while i < n
        invariant
            n <= line@.len(),
            n == trim_cr(line@).len(),
            0 <= i <= n,
            r@ == line@.subrange(0, i as int),
        decreases n - i,
    {
        r.push(line[i]);
        assert(line@.subrange(0, i + 1) =~= line@.subrange(0, i as int).push(line@[i as int]));
        i = i + 1;
    }
    assert(r@ =~= trim_cr(line@));
    r
}

/// Past this, a value no longer fits a `u32`.
const TOO_BIG: u64 = 0x1_0000_0000;

/// The `u32` that `d` writes in decimal, if it is one.
pub fn parse_u32(d: &Vec<u8>) -> (r: Option<u32>)
    ensures
        r is Some <==> is_u32_text(d@),
        r matches Some(v) ==> v == digits_value(d@),
{
    if d.len() == 0 {
        return None;
    }
    let mut acc: u64 = 0;
    let mut i: usize = 0;
    while i < d.len()
        invariant
            0 <= i <= d@.len(),
            forall|j: int| 0 <= j < i ==> is_digit(#[trigger] d@[j]),
            acc == if digits_value(d@.subrange(0, i as int)) < TOO_BIG {
                digits_value(d@.subrange(0, i as int))
            } else {
                TOO_BIG as int
            },
            digits_value(d@.subrange(0, i as int)) >= 0,
        decreases d@.len() - i,
    {
        let b = d[i];
        if b < 48u8 || b > 57u8 {
            return None;
        }
        assert(d@.subrange(0, i + 1).drop_last() =~= d@.subrange(0, i as int));
        let next: u64 = acc * 10 + (b - 48u8) as u64;
        acc = if next < TOO_BIG {
            next
        } else {
            TOO_BIG
        };
        i = i + 1;
    }
    assert(d@.subrange(0, d@.len() as int) =~= d@);
    if acc >= TOO_BIG {
        None
    } else {
        Some(acc as u32)
    }
}

/// Weights of ages 0 to 100 read from a demographic table.
pub struct AgePDF {
    pub age_chances: Vec<u64>,
}

impl AgePDF {
    /// Reads the table: a header line, then one line per age group (0-4,
    /// ..., 95-99, 100+) of the form `group,male,female`. `None` if a line
    /// is missing or a count is not a `u32`.
    pub fn load(ages_csv: &str) -> (r: Option<AgePDF>)
        ensures
            r is Some <==> file_ok(ages_csv.spec_bytes()),
            r matches Some(p) ==> p.age_chances@.len() == MAX_AGE + 1 && forall|a: int|
                0 <= a <= MAX_AGE ==> #[trigger] p.age_chances@[a] == age_weight(
                    ages_csv.spec_bytes(),
                    a,
                ),
    {
        let ghost s = ages_csv.spec_bytes();
        let lines = split_bytes(ages_csv.as_bytes(), 10u8);
        if lines.len() < RECORD_LINES {
            return None;
        }
        let mut totals: Vec<u64> = Vec::new();
        let mut line: usize = 1;
        while line < RECORD_LINES
            invariant
                s == ages_csv.spec_bytes(),
                lines@.len() == split(s, 10u8).len(),
                lines@.len() >= RECORD_LINES,
                forall|k: int| 0 <= k < lines@.len() ==> (#[trigger] lines@[k])@ == split(s, 10u8)[k],
                1 <= line <= RECORD_LINES,
                totals@.len() == line - 1,
                forall|l: int| 1 <= l < line ==> #[trigger] record_ok(s, l),
                forall|l: int| 1 <= l < line ==> #[trigger] totals@[l - 1] == line_total(s, l),
            decreases RECORD_LINES - line,
        {
            let trimmed = trim_line(&lines[line]);
            let fields = split_bytes(trimmed.as_slice(), 44u8);
            if fields.len() < 3 {
                assert(!record_ok(s, line as int));
                assert(!file_ok(s));
                return None;
            }
            assert(fields@[1]@ == field(s, line as int, 1));
            assert(fields@[2]@ == field(s, line as int, 2));
            let male = parse_u32(&fields[1]);
            let female = parse_u32(&fields[2]);
            match (male, female) {
                (Some(m), Some(f)) => {
                    totals.push(m as u64 + f as u64);
                    assert(record_ok(s, line as int));
                    assert(totals@[line - 1] == line_total(s, line as int));
                },
                _ => {
                    assert(!record_ok(s, line as int));
                    assert(!file_ok(s));
                    return None;
                },
            }
            line = line + 1;
        }
        let mut age_chances: Vec<u64> = Vec::new();
        let mut a: usize = 0;
        while a < MAX_AGE as usize
            invariant
                totals@.len() == RECORD_LINES - 1,
                forall|l: int| 1 <= l < RECORD_LINES ==> #[trigger] totals@[l - 1] == line_total(s, l),
                0 <= a <= MAX_AGE,
                age_chances@.len() == a,
                forall|b: int| 0 <= b < a ==> #[trigger] age_chances@[b] == age_weight(s, b),
            decreases MAX_AGE - a,
        {
            let ghost l = (a / 5) as int + 1;
            assert(1 <= l < RECORD_LINES);
            assert(totals@[l - 1] == line_total(s, l));
            assert(age_weight(s, a as int) == line_total(s, l) / 5);
            age_chances.push(totals[a / 5] / 5);
            a = a + 1;
        }
        let ghost last = RECORD_LINES - 1;
        assert(totals@[last - 1] == line_total(s, last));
        age_chances.push(totals[RECORD_LINES - 2]);
        Some(AgePDF { age_chances })
    }
}

} // verus!
