//! Matching a URL's path against a pattern of segments.

use vstd::prelude::*;
use vstd::string::StrSliceExecFns;

verus! {

/// One segment of a pattern.
#[derive(Debug, Clone)]
pub enum Segment {
    /// Exactly this text.
    Static(String),
    /// Any text.
    Param,
    /// Text that reads as an `i32`.
    IntParam,
}

/// A pattern of path segments.
#[derive(Debug)]
pub struct Match {
    pub segments: Vec<Segment>,
}

pub open spec fn is_digit(c: char) -> bool {
    '0' <= c && c <= '9'
}

/// The number that a string of decimal digits spells.
pub open spec fn dec_value(s: Seq<char>) -> nat
    decreases s.len(),
{
    if s.len() == 0 {
        0
    } else {
        dec_value(s.drop_last()) * 10 + (s.last() as nat - '0' as nat) as nat
    }
}

/// The text parses as an `i32`: an optional sign, then at least one decimal digit, with the
/// value in range.
pub open spec fn is_i32_text(s: Seq<char>) -> bool {
    let signed = s.len() > 0 && (s[0] == '+' || s[0] == '-');
    let digits = if signed {
        s.drop_first()
    } else {
        s
    };
    &&& digits.len() > 0
    &&& all_digits(digits)
    &&& dec_value(digits) <= if signed && s[0] == '-' {
        2147483648nat
    } else {
        2147483647nat
    }
}

pub open spec fn all_digits(d: Seq<char>) -> bool {
    forall|i: int| 0 <= i < d.len() ==> is_digit(#[trigger] d[i])
}

pub open spec fn segment_matches(seg: Segment, actual: Seq<char>) -> bool {
    match seg {
        Segment::Static(s) => s@ == actual,
        Segment::Param => true,
        Segment::IntParam => is_i32_text(actual),
    }
}

/// Whether `s` parses as an `i32`.
pub fn parses_as_i32(s: &str) -> (r: bool)
    ensures
        r == is_i32_text(s@),
{
    let n = s.unicode_len();
    if n == 0 {
        return false;
    }
    let first = s.get_char(0);
    let signed = first == '+' || first == '-';
    let start: usize = if signed { 1 } else { 0 };
    let bound: u64 = if signed && first == '-' { 2147483648 } else { 2147483647 };
    let ghost digits = if signed { s@.drop_first() } else { s@ };
    proof {
        assert(digits =~= s@.subrange(start as int, n as int));
    }
    if n == start {
        return false;
    }
    let mut acc: u64 = 0;
    let mut too_big = false;
    let mut i: usize = start;
    while i < n
        invariant
            start <= i <= n,
            n == s@.len(),
            n > 0,
            first == s@[0],
            signed == (first == '+' || first == '-'),
            start == (if signed { 1usize } else { 0usize }),
            digits == (if signed { s@.drop_first() } else { s@ }),
            bound == (if signed && first == '-' { 2147483648u64 } else { 2147483647u64 }),
            digits == s@.subrange(start as int, n as int),
            forall|j: int| start <= j < i ==> is_digit(#[trigger] s@[j]),
            !too_big ==> acc as nat == dec_value(digits.take(i - start)) && acc <= bound,
            too_big ==> dec_value(digits.take(i - start)) > bound,
            bound <= 2147483648,
        decreases n - i,
    {
        let c = s.get_char(i);
        if !('0' <= c && c <= '9') {
            proof {
                assert(digits[i - start] == s@[i as int]);
                assert(!is_digit(digits[i - start]));
                assert(!all_digits(digits));
            }
            return false;
        }
        proof {
            assert(digits.take(i - start + 1).drop_last() =~= digits.take(i - start));
        }
        if !too_big {
            acc = acc * 10 + (c as u64 - '0' as u64);
            if acc > bound {
                too_big = true;
            }
        }
        i += 1;
    }
    proof {
        assert(digits.take(n - start) =~= digits);
        assert forall|j: int| 0 <= j < digits.len() implies is_digit(#[trigger] digits[j]) by {
            assert(digits[j] == s@[j + start]);
        }
    }
    !too_big
}

impl Match {
    /// A pattern with no segments.
    pub fn new() -> (r: Match)
        ensures
            r.segments@.len() == 0,
    {
        Match { segments: Vec::new() }
    }

    /// The pattern followed by one more segment.
    pub fn at(self, seg: Segment) -> (r: Match)
        ensures
            r.segments@ == self.segments@.push(seg),
    {
        let mut m = self;
        m.segments.push(seg);
        m
    }

    /// Whether a URL with these path segments matches: as many segments as the pattern, each
    /// matching its own. A URL that cannot have a path (`None`) matches nothing.
    pub fn does_match(&self, path_segments: Option<&Vec<String>>) -> (r: bool)
        ensures
            r == match path_segments {
                Some(a) => a@.len() == self.segments@.len() && forall|i: int|
                    0 <= i < a@.len() ==> segment_matches(
                        #[trigger] self.segments@[i],
                        a@[i]@,
                    ),
                None => false,
            },
    {
        let actual = match path_segments {
            Some(a) => a,
            None => return false,
        };
        if actual.len() != self.segments.len() {
            return false;
        }
        let mut i: usize = 0;
        while i < actual.len()
            invariant
                0 <= i <= actual@.len(),
                path_segments == Some(actual),
                actual@.len() == self.segments@.len(),
                forall|j: int| 0 <= j < i ==> segment_matches(#[trigger] self.segments@[j], actual@[j]@),
            decreases actual@.len() - i,
        {
            let ok = match &self.segments[i] {
                Segment::Static(expected) => *expected == actual[i],
                Segment::Param => true,
                Segment::IntParam => parses_as_i32(actual[i].as_str()),
            };
            proof {
                assert(ok == segment_matches(self.segments@[i as int], actual@[i as int]@));
            }
            if !ok {
                proof {
                    assert(!segment_matches(self.segments@[i as int], actual@[i as int]@));
                    assert(!(forall|j: int|
                        0 <= j < actual@.len() ==> segment_matches(
                            #[trigger] self.segments@[j],
                            actual@[j]@,
                        )));
                }
                return false;
            }
            i += 1;
        }
        true
    }
}

/// A segment that matches exactly `path`.
pub fn path(text: &str) -> (r: Segment)
    ensures
        r matches Segment::Static(s) && s@ == text@,
{
    Segment::Static(text.to_owned())
}

/// A segment that matches anything.
pub fn anything() -> (r: Segment)
    ensures
        r is Param,
{
    Segment::Param
}

/// A segment that matches an `i32`.
pub fn any_integer() -> (r: Segment)
    ensures
        r is IntParam,
{
    Segment::IntParam
}

} // verus!
