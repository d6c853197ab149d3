//! Roman page numbers, read greedily from the largest numeral down.

use vstd::prelude::*;
use vstd::string::StrSliceExecFns;
use crate::page_number::TesseractPageDetector;
use crate::text::{trim_of, trimmed};

verus! {

/// The numerals in the order they are matched, two-letter forms before the
/// letter they end in.
pub open spec fn numeral(i: int) -> Seq<char> {
    if i == 0 {
        seq!['m']
    } else if i == 1 {
        seq!['c', 'm']
    } else if i == 2 {
        seq!['d']
    } else if i == 3 {
        seq!['c', 'd']
    } else if i == 4 {
        seq!['c']
    } else if i == 5 {
        seq!['x', 'c']
    } else if i == 6 {
        seq!['l']
    } else if i == 7 {
        seq!['x', 'l']
    } else if i == 8 {
        seq!['x']
    } else if i == 9 {
        seq!['i', 'x']
    } else if i == 10 {
        seq!['v']
    } else if i == 11 {
        seq!['i', 'v']
    } else {
        seq!['i']
    }
}

pub open spec fn numeral_value(i: int) -> int {
    if i == 0 {
        1000
    } else if i == 1 {
        900
    } else if i == 2 {
        500
    } else if i == 3 {
        400
    } else if i == 4 {
        100
    } else if i == 5 {
        90
    } else if i == 6 {
        50
    } else if i == 7 {
        40
    } else if i == 8 {
        10
    } else if i == 9 {
        9
    } else if i == 10 {
        5
    } else if i == 11 {
        4
    } else {
        1
    }
}

pub const NUMERAL_COUNT: usize = 13;

pub open spec fn starts_with(t: Seq<char>, p: Seq<char>) -> bool {
    p.len() <= t.len() && t.take(p.len() as int) == p
}

/// Greedy reading of `t` from numeral `i` on, with `acc` read so far: the
/// text left over and the total.
pub open spec fn greedy(t: Seq<char>, i: int, acc: int) -> (Seq<char>, int)
    decreases NUMERAL_COUNT - i, t.len(),
{
    if i < 0 || i >= NUMERAL_COUNT {
        (t, acc)
    } else if starts_with(t, numeral(i)) {
        greedy(t.skip(numeral(i).len() as int), i, acc + numeral_value(i))
    } else {
        greedy(t, i + 1, acc)
    }
}

/// The value of lower-case Roman text: the greedy total when the whole text
/// is consumed, the total is positive and it fits an `i32`.
pub open spec fn roman_value(t: Seq<char>) -> Option<i32> {
    let (rest, total) = greedy(t, 0, 0);
    if rest.len() == 0 && 0 < total <= i32::MAX {
        Some(total as i32)
    } else {
        None
    }
}

/// First letter, optional second letter and value of numeral `i`.
fn numeral_at(i: usize) -> (r: (char, Option<char>, u32))
    requires
        i < NUMERAL_COUNT,
    ensures
        numeral(i as int) == match r.1 {
            Some(c) => seq![r.0, c],
            None => seq![r.0],
        },
        r.2 == numeral_value(i as int),
{
    match i {
        0 => ('m', None, 1000),
        1 => ('c', Some('m'), 900),
        2 => ('d', None, 500),
        3 => ('c', Some('d'), 400),
        4 => ('c', None, 100),
        5 => ('x', Some('c'), 90),
        6 => ('l', None, 50),
        7 => ('x', Some('l'), 40),
        8 => ('x', None, 10),
        9 => ('i', Some('x'), 9),
        10 => ('v', None, 5),
        11 => ('i', Some('v'), 4),
        _ => ('i', None, 1),
    }
}

fn chars_of(s: &str) -> (r: Vec<char>)
    ensures
        r@ == s@,
{
    let n = s.unicode_len();
    let mut out: Vec<char> = Vec::new();
    let mut i: usize = 0;
    while i < n
        invariant
            n == s@.len(),
            i <= n,
            out@ == s@.take(i as int),
        decreases n - i,
    {
        out.push(s.get_char(i));
        assert(s@.take(i as int + 1) =~= s@.take(i as int).push(s@[i as int]));
        i = i + 1;
    }
    assert(s@.take(n as int) =~= s@);
    out
}

/// Reads lower-case Roman text with no surrounding blanks. Non-canonical
/// forms such as "iiii" are accepted.
pub fn parse_roman_lower(text: &str) -> (r: Option<i32>)
    ensures
        r == roman_value(text@),
{
    let t = chars_of(text);
    let n = t.len();
    let mut pos: usize = 0;
    let mut total: u128 = 0;
    let mut i: usize = 0;
    assert(t@.skip(0) =~= t@);
    while i < NUMERAL_COUNT
        invariant
            t@ == text@,
            n == t@.len(),
            pos <= n,
            i <= NUMERAL_COUNT,
            total <= 1000 * pos,
            greedy(t@, 0, 0) == greedy(t@.skip(pos as int), i as int, total as int),
        decreases NUMERAL_COUNT - i,
    {
        let (c1, c2, v) = numeral_at(i);
        loop
            invariant
                t@ == text@,
                n == t@.len(),
                pos <= n,
                i < NUMERAL_COUNT,
                total <= 1000 * pos,
                numeral(i as int) == match c2 {
                    Some(c) => seq![c1, c],
                    None => seq![c1],
                },
                v == numeral_value(i as int),
                greedy(t@, 0, 0) == greedy(t@.skip(pos as int), i as int, total as int),
            ensures
                pos <= n,
                total <= 1000 * pos,
                greedy(t@, 0, 0) == greedy(t@.skip(pos as int), i + 1, total as int),
            decreases n - pos,
        {
            let ghost rest = t@.skip(pos as int);
            let len: usize = match c2 {
                Some(_) => 2,
                None => 1,
            };
            let hit = len <= n - pos && t[pos] == c1 && match c2 {
                Some(c) => t[pos + 1] == c,
                None => true,
            };
            if hit {
                assert(rest.take(len as int) =~= numeral(i as int));
                assert(rest.skip(len as int) =~= t@.skip(pos + len));
                total = total + v as u128;
                pos = pos + len;
            } else {
                assert(!starts_with(rest, numeral(i as int))) by {
                    if starts_with(rest, numeral(i as int)) {
                        assert(rest.take(len as int)[0] == t@[pos as int]);
                        if len == 2 {
                            assert(rest.take(len as int)[1] == t@[pos + 1]);
                        }
                    }
                }
                break;
            }
        }
        i = i + 1;
    }
    if pos == n && total > 0 && total <= i32::MAX as u128 {
        Some(total as i32)
    } else {
        None
    }
}


pub open spec fn is_numeral_letter(c: char) -> bool {
    c == 'm' || c == 'd' || c == 'c' || c == 'l' || c == 'x' || c == 'v' || c == 'i'
}

proof fn lemma_greedy_stuck(t: Seq<char>, i: int, acc: int)
    requires
        0 <= i <= NUMERAL_COUNT,
        t.len() == 0 || !is_numeral_letter(t[0]),
    ensures
        greedy(t, i, acc) == (t, acc),
    decreases NUMERAL_COUNT - i,
{
    if i < NUMERAL_COUNT {
        if starts_with(t, numeral(i)) {
            assert(t.take(numeral(i).len() as int)[0] == t[0]);
        }
        lemma_greedy_stuck(t, i + 1, acc);
    }
}

/// Text that is empty, or that starts with anything but a Roman letter,
/// reads as no number.
pub proof fn lemma_roman_rejects(t: Seq<char>)
    requires
        t.len() == 0 || !is_numeral_letter(t[0]),
    ensures
        roman_value(t) is None,
{
    lemma_greedy_stuck(t, 0, 0);
}

/// Canonical lower-case Roman text of `n`, from numeral `i` on: each
/// numeral as often as it fits, largest first.
pub open spec fn to_roman_from(n: nat, i: int) -> Seq<char>
    decreases NUMERAL_COUNT - i, n,
{
    if i < 0 || i >= NUMERAL_COUNT {
        seq![]
    } else if n >= numeral_value(i) {
        numeral(i) + to_roman_from((n - numeral_value(i)) as nat, i)
    } else {
        to_roman_from(n, i + 1)
    }
}

pub open spec fn to_roman(n: nat) -> Seq<char> {
    to_roman_from(n, 0)
}

proof fn lemma_numeral_facts(i: int)
    requires
        0 <= i < NUMERAL_COUNT,
    ensures
        numeral(i).len() >= 1,
        numeral_value(i) >= 1,
        numeral(i).len() == 2 <==> i % 2 == 1,
        numeral(i).len() <= 2,
{
}

/// The text of `n > 0` from numeral `j` on starts with some numeral `k >= j`
/// followed by the text of what remains from `k` on.
proof fn lemma_roman_head(n: nat, j: int)
    requires
        0 <= j < NUMERAL_COUNT,
        n > 0,
    ensures
        exists|k: int|
            j <= k < NUMERAL_COUNT && numeral_value(k) <= n && #[trigger] to_roman_from(n, j) == numeral(k)
                + to_roman_from((n - numeral_value(k)) as nat, k),
    decreases NUMERAL_COUNT - j,
{
    if n >= numeral_value(j) {
        assert(to_roman_from(n, j) == numeral(j) + to_roman_from((n - numeral_value(j)) as nat, j));
    } else {
        assert(j < 12);
        lemma_roman_head(n, j + 1);
        let k = choose|k: int|
            j + 1 <= k < NUMERAL_COUNT && numeral_value(k) <= n && #[trigger] to_roman_from(n, j + 1) == numeral(k)
                + to_roman_from((n - numeral_value(k)) as nat, k);
        assert(to_roman_from(n, j) == numeral(k) + to_roman_from((n - numeral_value(k)) as nat, k));
    }
}

/// The first letter of the text from numeral `j` on is the first letter of
/// some numeral `k >= j`.
proof fn lemma_roman_first(n: nat, j: int)
    requires
        0 <= j <= NUMERAL_COUNT,
        to_roman_from(n, j).len() > 0,
    ensures
        exists|k: int| j <= k < NUMERAL_COUNT && #[trigger] numeral(k)[0] == to_roman_from(n, j)[0],
{
    if n == 0 {
        lemma_roman_zero(j);
    } else {
        assert(j < NUMERAL_COUNT);
        lemma_roman_head(n, j);
        let k = choose|k: int|
            j <= k < NUMERAL_COUNT && numeral_value(k) <= n && #[trigger] to_roman_from(n, j) == numeral(k)
                + to_roman_from((n - numeral_value(k)) as nat, k);
        lemma_numeral_facts(k);
        assert(numeral(k)[0] == to_roman_from(n, j)[0]);
    }
}

proof fn lemma_roman_zero(j: int)
    ensures
        to_roman_from(0, j).len() == 0,
    decreases NUMERAL_COUNT - j,
{
    if 0 <= j < NUMERAL_COUNT {
        lemma_numeral_facts(j);
        lemma_roman_zero(j + 1);
    }
}

/// Below the value of numeral `i`, the text from `i + 1` on does not start
/// with numeral `i`.
proof fn lemma_no_false_prefix(n: nat, i: int)
    requires
        0 <= i < NUMERAL_COUNT,
        n < numeral_value(i),
    ensures
        !starts_with(to_roman_from(n, i + 1), numeral(i)),
{
    let s = to_roman_from(n, i + 1);
    lemma_numeral_facts(i);
    if n == 0 {
        lemma_roman_zero(i + 1);
    } else {
        assert(i < 12);
        lemma_roman_head(n, i + 1);
        let k = choose|k: int|
            i + 1 <= k < NUMERAL_COUNT && numeral_value(k) <= n && #[trigger] to_roman_from(n, i + 1) == numeral(k)
                + to_roman_from((n - numeral_value(k)) as nat, k);
        lemma_numeral_facts(k);
        let rest = to_roman_from((n - numeral_value(k)) as nat, k);
        assert(s[0] == numeral(k)[0]);
        if starts_with(s, numeral(i)) {
            assert(s.take(numeral(i).len() as int)[0] == numeral(i)[0]);
            assert(numeral(i)[0] == numeral(k)[0]);
            if numeral(i).len() == 2 {
                assert(s.take(2)[1] == numeral(i)[1]);
                if numeral(k).len() == 2 {
                    assert(s[1] == numeral(k)[1]);
                } else {
                    assert(s[1] == rest[0]);
                    lemma_roman_first((n - numeral_value(k)) as nat, k);
                    let k2 = choose|k2: int| k <= k2 < NUMERAL_COUNT && #[trigger] numeral(k2)[0] == rest[0];
                    lemma_numeral_facts(k2);
                }
            }
        }
    }
}

proof fn lemma_greedy_reads(n: nat, i: int, acc: int)
    requires
        0 <= i <= NUMERAL_COUNT,
        i == NUMERAL_COUNT ==> n == 0,
    ensures
        greedy(to_roman_from(n, i), i, acc) == (Seq::<char>::empty(), acc + n),
    decreases NUMERAL_COUNT - i, n,
{
    if i == NUMERAL_COUNT {
        assert(to_roman_from(n, i) =~= Seq::<char>::empty());
    } else {
        lemma_numeral_facts(i);
        let s = to_roman_from(n, i);
        if n >= numeral_value(i) {
            let rest = to_roman_from((n - numeral_value(i)) as nat, i);
            assert(s.take(numeral(i).len() as int) =~= numeral(i));
            assert(s.skip(numeral(i).len() as int) =~= rest);
            lemma_greedy_reads((n - numeral_value(i)) as nat, i, acc + numeral_value(i));
        } else {
            lemma_no_false_prefix(n, i);
            if i == 12 {
                assert(n == 0);
            }
            lemma_greedy_reads(n, i + 1, acc);
        }
    }
}

/// Reading the canonical Roman text of any `n` in `[1, 3999]` gives back
/// `n`.
pub proof fn lemma_roman_round_trip(n: nat)
    requires
        1 <= n <= 3999,
    ensures
        roman_value(to_roman(n)) == Some(n as i32),
{
    lemma_greedy_reads(n, 0, 0);
}

pub uninterp spec fn lower_of(s: Seq<char>) -> Seq<char>;


/// Relies on `str::to_lowercase`: the lower-case form depends on the
/// characters alone.
#[verifier::external_body]
fn lowercase(s: &str) -> (r: String)
    ensures
        r@ == lower_of(s@),
{
    s.to_lowercase()
}

impl TesseractPageDetector {
    /// Reads a Roman numeral in any case, with surrounding blanks ignored.
    pub fn parse_roman_numeral(text: &str) -> (r: Option<i32>)
        ensures
            r == roman_value(trim_of(lower_of(text@))),
    {
        let lower = lowercase(text);
        parse_roman_lower(trimmed(lower.as_str()))
    }
}

} // verus!
