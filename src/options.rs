use vstd::prelude::*;

verus! {

/// How many of the largest files are shown when no number is asked for.
pub const TOP_NUMS: usize = 5;

/// Why the settings of a run could not be read.
#[derive(Debug)]
pub enum AppError {
    /// The number of files to show is not a non-negative integer; holds the text given.
    InvalidNumberOfFiles(String),
}

/// The settings of a run.
#[derive(Debug)]
pub struct Options {
    /// How many of the largest files to show.
    pub nums: usize,
}

/// `c` is an ASCII decimal digit.
pub open spec fn is_digit(c: char) -> bool {
    '0' <= c && c <= '9'
}

/// The value of the decimal digit `c`.
pub open spec fn digit_value(c: char) -> nat {
    (c as u32 - '0' as u32) as nat
}

/// The number that the decimal digits `s` write.
pub open spec fn digits_value(s: Seq<char>) -> nat
    decreases s.len(),
{
    if s.len() == 0 {
        0
    } else {
        digits_value(s.drop_last()) * 10 + digit_value(s.last())
    }
}

/// `s` without the one `+` sign it may start with.
pub open spec fn unsigned_part(s: Seq<char>) -> Seq<char> {
    if s.len() > 0 && s[0] == '+' {
        s.drop_first()
    } else {
        s
    }
}

/// The count that `s` writes: an optional `+`, then one digit or more, for a
/// value that fits in `usize`; `None` for any other text.
pub open spec fn count_of(s: Seq<char>) -> Option<nat> {
    let d = unsigned_part(s);
    if d.len() > 0 && (forall|i: int| 0 <= i < d.len() ==> is_digit(#[trigger] d[i]))
        && digits_value(d) <= usize::MAX {
        Some(digits_value(d))
    } else {
        None
    }
}

proof fn lemma_digits_grow(s: Seq<char>, k: int)
    requires
        0 <= k <= s.len(),
    ensures
        digits_value(s.subrange(0, k)) <= digits_value(s),
    decreases s.len(),
{
    if k < s.len() {
        assert(s.drop_last().subrange(0, k) =~= s.subrange(0, k));
        lemma_digits_grow(s.drop_last(), k);
    } else {
        assert(s.subrange(0, k) =~= s);
    }
}

/// Reads a count of files: `count_of`.
pub fn parse_count(text: &str) -> (r: Option<usize>)
    ensures
        r is Some <==> count_of(text@) is Some,
        r matches Some(v) ==> count_of(text@) == Some(v as nat),
{
    let ghost s = text@;
    let len = text.unicode_len();
    let mut i: usize = 0;
    if len > 0 && text.get_char(0) == '+' {
        i = 1;
    }
    let start = i;
    let ghost d = unsigned_part(s);
    assert(d =~= s.subrange(start as int, s.len() as int));
    if i == len {
        return None;
    }
    let mut v: usize = 0;
    while i < len
        invariant
            start <= i <= len,
            len == s.len(),
            s == text@,
            d == s.subrange(start as int, len as int),
            d == unsigned_part(s),
            forall|j: int| 0 <= j < i - start ==> is_digit(#[trigger] d[j]),
            v == digits_value(d.subrange(0, i - start)),
        decreases len - i,
    {
        let c = text.get_char(i);
        let ghost k = i - start;
        assert(d[k] == c);
        if !('0' <= c && c <= '9') {
            assert(!is_digit(d[k]));
            return None;
        }
        let dv = (c as u32 - '0' as u32) as usize;
        assert(d.subrange(0, k + 1).drop_last() =~= d.subrange(0, k));
        if v > (usize::MAX - dv) / 10 {
            proof {
                assert(v * 10 + dv > usize::MAX) by (nonlinear_arith)
                    requires
                        v > (usize::MAX - dv) / 10,
                        dv <= 9,
                ;
                assert(d.subrange(0, k + 1).last() == c);
                assert(digits_value(d.subrange(0, k + 1)) == v * 10 + dv);
                lemma_digits_grow(d, k + 1);
            }
            return None;
        }
        assert(v * 10 + dv <= usize::MAX) by (nonlinear_arith)
            requires
                v <= (usize::MAX - dv) / 10,
                dv <= 9,
        ;
        v = v * 10 + dv;
        i = i + 1;
    }
    assert(d.subrange(0, len - start) =~= d);
    Some(v)
}

impl Options {
    /// The settings from the number of files asked for, if any: `TOP_NUMS`
    /// when none is given, the count it writes when it is valid, and
    /// `InvalidNumberOfFiles` with the text otherwise.
    pub fn from_arg(nums: Option<&str>) -> (r: Result<Options, AppError>)
        ensures
            nums is None ==> (r matches Ok(o) && o.nums == TOP_NUMS),
            nums matches Some(t) ==> match count_of(t@) {
                Some(n) => (r matches Ok(o) && o.nums == n),
                None => (r matches Err(AppError::InvalidNumberOfFiles(e)) && e@ == t@),
            },
    {
        match nums {
            None => Ok(Options { nums: TOP_NUMS }),
            Some(t) => match parse_count(t) {
                Some(n) => Ok(Options { nums: n }),
                None => Err(AppError::InvalidNumberOfFiles(t.to_owned())),
            },
        }
    }
}

} // verus!
