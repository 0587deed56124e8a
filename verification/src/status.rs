//! The parser for the kernel's per-process status text: finding the resident
//! memory line and reading its kilobyte value.

use vstd::prelude::*;

verus! {

/// Why a memory reading could not be produced.
#[derive(Clone, Copy, PartialEq, Eq, Structural, Debug)]
pub enum ReadError {
    /// The target's status information cannot be reached at all: the process
    /// does not exist or is inaccessible.
    TargetUnavailable,
    /// The status text lacks the resident-memory field, or the field's value
    /// is not a valid non-negative integer.
    MalformedStatusData,
}

/// ASCII whitespace as the tokenizer sees it: space and the control
/// characters tab through carriage return.
pub open spec fn is_space(b: u8) -> bool {
    b == 32 || (9 <= b && b <= 13)
}

pub open spec fn is_digit(b: u8) -> bool {
    48 <= b && b <= 57
}

/// The field label looked for: the bytes of `VmRSS:`.
pub open spec fn rss_label() -> Seq<u8> {
    seq![86u8, 109u8, 82u8, 83u8, 83u8, 58u8]
}

/// Index of the first newline at or after `i`, or the length if there is
/// none.
pub open spec fn line_end(s: Seq<u8>, i: int) -> int
    decreases s.len() - i,
{
    if i < 0 || i >= s.len() {
        s.len() as int
    } else if s[i] == 10 {
        i
    } else {
        line_end(s, i + 1)
    }
}

/// Index of the first whitespace byte at or after `i`, or the length if
/// there is none.
pub open spec fn token_end(s: Seq<u8>, i: int) -> int
    decreases s.len() - i,
{
    if i < 0 || i >= s.len() {
        s.len() as int
    } else if is_space(s[i]) {
        i
    } else {
        token_end(s, i + 1)
    }
}

/// Index of the first non-whitespace byte at or after `i`, or the length if
/// there is none.
pub open spec fn skip_spaces(s: Seq<u8>, i: int) -> int
    decreases s.len() - i,
{
    if i < 0 || i >= s.len() {
        s.len() as int
    } else if !is_space(s[i]) {
        i
    } else {
        skip_spaces(s, i + 1)
    }
}

pub proof fn lemma_line_end_bounds(s: Seq<u8>, i: int)
    requires
        0 <= i <= s.len(),
    ensures
        i <= line_end(s, i) <= s.len(),
    decreases s.len() - i,
{
    if i < s.len() && s[i] != 10 {
        lemma_line_end_bounds(s, i + 1);
    }
}

/// An index at which everything from `i` on is newline-free and that sits on
/// a newline or at the end is exactly `line_end`.
pub proof fn lemma_line_end_agrees(s: Seq<u8>, i: int, e: int)
    requires
        0 <= i <= e <= s.len(),
        forall|j: int| i <= j < e ==> s[j] != 10,
        e == s.len() || s[e] == 10,
    ensures
        line_end(s, i) == e,
    decreases e - i,
{
    if i < e {
        lemma_line_end_agrees(s, i + 1, e);
    }
}

pub proof fn lemma_token_end_agrees(s: Seq<u8>, i: int, e: int)
    requires
        0 <= i <= e <= s.len(),
        forall|j: int| i <= j < e ==> !is_space(s[j]),
        e == s.len() || is_space(s[e]),
    ensures
        token_end(s, i) == e,
    decreases e - i,
{
    if i < e {
        lemma_token_end_agrees(s, i + 1, e);
    }
}

pub proof fn lemma_skip_spaces_agrees(s: Seq<u8>, i: int, e: int)
    requires
        0 <= i <= e <= s.len(),
        forall|j: int| i <= j < e ==> is_space(s[j]),
        e == s.len() || !is_space(s[e]),
    ensures
        skip_spaces(s, i) == e,
    decreases e - i,
{
    if i < e {
        lemma_skip_spaces_agrees(s, i + 1, e);
    }
}

/// Where the whitespace-separated second token of a line begins.
pub open spec fn second_token_start(line: Seq<u8>) -> int {
    skip_spaces(line, token_end(line, 0))
}

/// A line counts only if it starts with the label and has a second token.
pub open spec fn line_has_value(line: Seq<u8>) -> bool {
    line.len() >= 6 && line.subrange(0, 6) == rss_label() && second_token_start(line) < line.len()
}

/// The second whitespace-separated token of a line.
pub open spec fn second_token(line: Seq<u8>) -> Seq<u8> {
    line.subrange(second_token_start(line), token_end(line, second_token_start(line)))
}

/// The value token of the first line from position `i` on that starts with
/// the label and carries a second token; lines without one are passed over,
/// as is a label line whose value is missing.
pub open spec fn rss_token_from(s: Seq<u8>, i: int) -> Option<Seq<u8>>
    decreases s.len() - i,
{
    if i < 0 || i > s.len() {
        Option::None
    } else {
        let e = line_end(s, i);
        let line = s.subrange(i, e);
        if line_has_value(line) {
            Option::Some(second_token(line))
        } else if e >= s.len() {
            Option::None
        } else {
            proof {
                lemma_line_end_bounds(s, i);
            }
            rss_token_from(s, e + 1)
        }
    }
}

/// The token's digits once an optional leading plus sign is removed.
pub open spec fn unsigned_part(t: Seq<u8>) -> Seq<u8> {
    if t.len() > 0 && t[0] == 43 {
        t.drop_first()
    } else {
        t
    }
}

pub open spec fn all_digits(t: Seq<u8>) -> bool {
    forall|i: int| 0 <= i < t.len() ==> is_digit(t[i])
}

/// The number the digits denote, most significant first.
pub open spec fn dec_value(t: Seq<u8>) -> int
    decreases t.len(),
{
    if t.len() == 0 {
        0
    } else {
        10 * dec_value(t.drop_last()) + (t.last() - 48)
    }
}

/// Whether a token is a valid non-negative integer that fits in 64 bits:
/// an optional plus sign, then at least one digit, with a small enough value.
pub open spec fn token_parses(t: Seq<u8>) -> bool {
    let d = unsigned_part(t);
    d.len() > 0 && all_digits(d) && dec_value(d) <= u64::MAX
}

/// The resident memory a status text reports: the parsed value of the first
/// label line's second token, or nothing when no line carries a parsable
/// value.
pub open spec fn status_memory_kb(s: Seq<u8>) -> Option<u64> {
    match rss_token_from(s, 0) {
        Option::None => Option::None,
        Option::Some(t) => if token_parses(t) {
            Option::Some(dec_value(unsigned_part(t)) as u64)
        } else {
            Option::None
        },
    }
}

pub proof fn lemma_dec_value_nonneg(t: Seq<u8>)
    requires
        all_digits(t),
    ensures
        dec_value(t) >= 0,
    decreases t.len(),
{
    if t.len() > 0 {
        assert(forall|j: int| 0 <= j < t.drop_last().len() ==> t.drop_last()[j] == t[j]);
        lemma_dec_value_nonneg(t.drop_last());
    }
}

/// A prefix of a digit string never denotes more than the whole string.
pub proof fn lemma_dec_prefix_le(t: Seq<u8>, m: int)
    requires
        all_digits(t),
        0 <= m <= t.len(),
    ensures
        dec_value(t.take(m)) <= dec_value(t),
    decreases t.len() - m,
{
    if m == t.len() {
        assert(t.take(m) =~= t);
    } else {
        assert(forall|j: int| 0 <= j < m ==> t.take(m)[j] == t[j]);
        lemma_dec_value_nonneg(t.take(m));
        assert(t.take(m + 1).drop_last() =~= t.take(m));
        assert(t.take(m + 1).last() == t[m]);
        lemma_dec_prefix_le(t, m + 1);
    }
}

fn is_space_byte(b: u8) -> (r: bool)
    ensures
        r == is_space(b),
{
    b == 32 || (9 <= b && b <= 13)
}

/// Whether the line `[ls, le)` of `content` begins with the label.
fn label_prefix(content: &[u8], ls: usize, le: usize) -> (r: bool)
    requires
        ls <= le <= content@.len(),
    ensures
        r == {
            let line = content@.subrange(ls as int, le as int);
            line.len() >= 6 && line.subrange(0, 6) == rss_label()
        },
{
    let ghost line = content@.subrange(ls as int, le as int);
    if le - ls < 6 {
        return false;
    }
    let r = content[ls] == 86 && content[ls + 1] == 109 && content[ls + 2] == 82 && content[ls + 3]
        == 83 && content[ls + 4] == 83 && content[ls + 5] == 58;
    proof {
        assert(forall|j: int| 0 <= j < 6 ==> line.subrange(0, 6)[j] == content@[ls + j]);
        if r {
            assert(line.subrange(0, 6) =~= rss_label());
        } else {
            assert(line.subrange(0, 6)[0] == content@[ls as int]);
            assert(line.subrange(0, 6)[1] == content@[ls + 1]);
            assert(line.subrange(0, 6)[2] == content@[ls + 2]);
            assert(line.subrange(0, 6)[3] == content@[ls + 3]);
            assert(line.subrange(0, 6)[4] == content@[ls + 4]);
            assert(line.subrange(0, 6)[5] == content@[ls + 5]);
            assert(line.subrange(0, 6) != rss_label());
        }
    }
    r
}

/// Reads the bytes `[start, end)` of `content` as a decimal token: an
/// optional leading plus sign, then digits whose value must fit in 64 bits.
fn parse_u64_bytes(content: &[u8], start: usize, end: usize) -> (r: Option<u64>)
    requires
        start <= end <= content@.len(),
    ensures
        ({
            let t = content@.subrange(start as int, end as int);
            match r {
                Option::Some(v) => token_parses(t) && v == dec_value(unsigned_part(t)),
                Option::None => !token_parses(t),
            }
        }),
{
    let ghost t = content@.subrange(start as int, end as int);
    let mut p = start;
    if p < end && content[p] == 43 {
        p += 1;
    }
    let ghost d = unsigned_part(t);
    proof {
        assert(d =~= content@.subrange(p as int, end as int));
    }
    if p == end {
        return Option::None;
    }
    let mut acc: u64 = 0;
    let mut k = p;
    while k < end
        invariant
            start <= p <= k <= end,
            end <= content@.len(),
            t == content@.subrange(start as int, end as int),
            d == unsigned_part(t),
            d == content@.subrange(p as int, end as int),
            forall|j: int| 0 <= j < k - p ==> is_digit(d[j]),
            acc == dec_value(d.take(k - p)),
        decreases end - k,
    {
        let b = content[k];
        proof {
            assert(d[k - p] == content@[k as int]);
        }
        if !(48 <= b && b <= 57) {
            proof {
                assert(!is_digit(d[k - p]));
            }
            return Option::None;
        }
        let digit = b - 48;
        proof {
            assert(d.take(k - p + 1).drop_last() =~= d.take(k - p));
            assert(d.take(k - p + 1).last() == d[k - p]);
        }
        if acc > (u64::MAX - (digit as u64)) / 10 {
            proof {
                assert(dec_value(d.take(k - p + 1)) > u64::MAX);
                if all_digits(d) {
                    lemma_dec_prefix_le(d, k - p + 1);
                }
            }
            return Option::None;
        }
        acc = acc * 10 + digit as u64;
        k += 1;
    }
    proof {
        assert(d.take(k - p) =~= d);
        assert(d.len() > 0);
        assert(all_digits(d));
    }
    Option::Some(acc)
}

/// Finds the resident-memory value in a status text, exactly as
/// `status_memory_kb` describes it; any shortfall is reported as
/// `MalformedStatusData`.
pub fn parse_status_memory_kb(content: &[u8]) -> (r: Result<u64, ReadError>)
    ensures
        match r {
            Result::Ok(kb) => status_memory_kb(content@) == Option::Some(kb),
            Result::Err(e) => status_memory_kb(content@) is None && e
                == ReadError::MalformedStatusData,
        },
{
    let n = content.len();
    let mut ls: usize = 0;
    loop
        invariant
            ls <= n,
            n == content@.len(),
            rss_token_from(content@, 0) == rss_token_from(content@, ls as int),
        decreases n - ls,
    {
        let mut le: usize = ls;
        while le < n && content[le] != 10
            invariant
                ls <= le <= n,
                n == content@.len(),
                forall|j: int| ls <= j < le ==> content@[j] != 10,
            decreases n - le,
        {
            le += 1;
        }
        proof {
            lemma_line_end_agrees(content@, ls as int, le as int);
        }
        let ghost line = content@.subrange(ls as int, le as int);
        let has_label = label_prefix(content, ls, le);
        if has_label {
            let mut t1 = ls;
            while t1 < le && !is_space_byte(content[t1])
                invariant
                    ls <= t1 <= le <= n,
                    n == content@.len(),
                    forall|j: int| ls <= j < t1 ==> !is_space(content@[j]),
                decreases le - t1,
            {
                t1 += 1;
            }
            let mut t2 = t1;
            while t2 < le && is_space_byte(content[t2])
                invariant
                    t1 <= t2 <= le <= n,
                    n == content@.len(),
                    forall|j: int| t1 <= j < t2 ==> is_space(content@[j]),
                decreases le - t2,
            {
                t2 += 1;
            }
            proof {
                assert(forall|j: int| 0 <= j < line.len() ==> line[j] == content@[ls + j]);
                assert forall|j: int| 0 <= j < t1 - ls implies !is_space(line[j]) by {
                    assert(line[j] == content@[ls + j]);
                }
                lemma_token_end_agrees(line, 0, t1 - ls as int);
                assert forall|j: int| t1 - ls <= j < t2 - ls implies is_space(line[j]) by {
                    assert(line[j] == content@[ls + j]);
                }
                lemma_skip_spaces_agrees(line, t1 - ls as int, t2 - ls as int);
                assert(second_token_start(line) == t2 - ls);
            }
            if t2 < le {
                let mut t3 = t2;
                while t3 < le && !is_space_byte(content[t3])
                    invariant
                        t2 <= t3 <= le <= n,
                        n == content@.len(),
                        forall|j: int| t2 <= j < t3 ==> !is_space(content@[j]),
                    decreases le - t3,
                {
                    t3 += 1;
                }
                proof {
                    assert(forall|j: int| 0 <= j < line.len() ==> line[j] == content@[ls + j]);
                    assert forall|j: int| t2 - ls <= j < t3 - ls implies !is_space(line[j]) by {
                        assert(line[j] == content@[ls + j]);
                    }
                    lemma_token_end_agrees(line, t2 - ls as int, t3 - ls as int);
                    assert(line_has_value(line));
                    assert(second_token(line) =~= content@.subrange(t2 as int, t3 as int));
                    assert(rss_token_from(content@, ls as int) == Option::Some(
                        second_token(line),
                    ));
                }
                let parsed = parse_u64_bytes(content, t2, t3);
                match parsed {
                    Option::Some(v) => {
                        return Result::Ok(v);
                    },
                    Option::None => {
                        return Result::Err(ReadError::MalformedStatusData);
                    },
                }
            }
            proof {
                assert(second_token_start(line) == line.len());
                assert(!line_has_value(line));
            }
        } else {
            proof {
                assert(!line_has_value(line));
            }
        }
        if le >= n {
            proof {
                assert(rss_token_from(content@, ls as int) is None);
            }
            return Result::Err(ReadError::MalformedStatusData);
        }
        proof {
            assert(rss_token_from(content@, ls as int) == rss_token_from(content@, le + 1));
        }
        ls = le + 1;
    }
}

} // verus!
