//! Character-sequence utilities shared by the resolver, the answer collector
//! and the substitution engine: trimming, case folding, digit parsing and
//! conversions between `String` and `Vec<char>`.

use vstd::prelude::*;
use vstd::string::*;

verus! {

/// Whitespace as `char::is_whitespace` has it — the Unicode `White_Space`
/// set — stripped from both ends of operator input.
pub open spec fn is_space(c: char) -> bool {
    let x = c as u32;
    ||| x == 0x20
    ||| (0x9 <= x && x <= 0xd)
    ||| x == 0x85
    ||| x == 0xa0
    ||| x == 0x1680
    ||| (0x2000 <= x && x <= 0x200a)
    ||| x == 0x2028
    ||| x == 0x2029
    ||| x == 0x202f
    ||| x == 0x205f
    ||| x == 0x3000
}

pub open spec fn trim_left(s: Seq<char>) -> Seq<char>
    decreases s.len(),
{
    if s.len() > 0 && is_space(s[0]) {
        trim_left(s.drop_first())
    } else {
        s
    }
}

pub open spec fn trim_right(s: Seq<char>) -> Seq<char>
    decreases s.len(),
{
    if s.len() > 0 && is_space(s.last()) {
        trim_right(s.drop_last())
    } else {
        s
    }
}

/// The trimmed form of a line of input: whitespace removed at both ends.
pub open spec fn trim(s: Seq<char>) -> Seq<char> {
    trim_right(trim_left(s))
}

fn is_space_char(c: char) -> (b: bool)
    ensures
        b == is_space(c),
{
    let x = c as u32;
    x == 0x20 || (0x9 <= x && x <= 0xd) || x == 0x85 || x == 0xa0 || x == 0x1680 || (0x2000 <= x
        && x <= 0x200a) || x == 0x2028 || x == 0x2029 || x == 0x202f || x == 0x205f || x == 0x3000
}

proof fn lemma_trim_left_skip(s: Seq<char>, i: int)
    requires
        0 <= i <= s.len(),
        forall|k: int| 0 <= k < i ==> is_space(s[k]),
    ensures
        trim_left(s) == trim_left(s.skip(i)),
    decreases i,
{
    if i > 0 {
        assert(s.len() > 0 && is_space(s[0]));
        assert(s.drop_first() =~= s.skip(1));
        lemma_trim_left_skip(s.skip(1), i - 1);
        assert(s.skip(1).skip(i - 1) =~= s.skip(i));
    } else {
        assert(s.skip(0) =~= s);
    }
}

proof fn lemma_trim_right_take(s: Seq<char>, i: int)
    requires
        0 <= i <= s.len(),
        forall|k: int| i <= k < s.len() ==> is_space(s[k]),
    ensures
        trim_right(s) == trim_right(s.take(i)),
    decreases s.len() - i,
{
    if i < s.len() {
        assert(s.len() > 0 && is_space(s.last()));
        assert(s.drop_last() =~= s.take(s.len() - 1));
        lemma_trim_right_take(s.take(s.len() - 1), i);
        assert(s.take(s.len() - 1).take(i) =~= s.take(i));
    } else {
        assert(s.take(s.len() as int) =~= s);
    }
}

/// Trims whitespace from both ends of a character vector.
pub fn trim_chars(s: &Vec<char>) -> (r: Vec<char>)
    ensures
        r@ == trim(s@),
{
    let n = s.len();
    let mut start: usize = 0;
    while start < n && is_space_char(s[start])
        invariant
            0 <= start <= n,
            n == s@.len(),
            forall|k: int| 0 <= k < start ==> is_space(s@[k]),
        decreases n - start,
    {
        start += 1;
    }
    proof {
        lemma_trim_left_skip(s@, start as int);
    }
    // Everything before `start` is whitespace, so trim_left(s@) == s@.skip(start),
    // and that suffix either is empty or starts with a non-space character.
    let mut end: usize = n;
    while end > start && is_space_char(s[end - 1])
        invariant
            start <= end <= n,
            n == s@.len(),
            forall|k: int| end <= k < n ==> is_space(s@[k]),
        decreases end,
    {
        end -= 1;
    }
    proof {
        let mid = s@.skip(start as int);
        assert(trim_left(s@) == mid);
        if start < n && end == start {
            // the whole suffix is whitespace
            assert(forall|k: int| 0 <= k < mid.len() ==> is_space(mid[k]));
            lemma_trim_right_take(mid, 0);
            assert(mid.take(0) =~= Seq::<char>::empty());
        } else {
            assert(forall|k: int| end - start <= k < mid.len() ==> is_space(mid[k]));
            lemma_trim_right_take(mid, end - start);
        }
        assert(mid.take(end - start) =~= s@.subrange(start as int, end as int));
        if end > start {
            assert(!is_space(mid.take(end - start).last()));
        }
        assert(trim_right(mid.take(end - start)) == mid.take(end - start));
        assert(trim(s@) == s@.subrange(start as int, end as int));
    }
    let mut r: Vec<char> = Vec::new();
    let mut i: usize = start;
    while i < end
        invariant
            start <= i <= end <= n,
            n == s@.len(),
            r@ =~= s@.subrange(start as int, i as int),
        decreases end - i,
    {
        r.push(s[i]);
        i += 1;
    }
    proof {
        assert(r@ =~= s@.subrange(start as int, end as int));
    }
    r
}

/// The characters of a string slice, in order.
pub fn str_to_chars(s: &str) -> (r: Vec<char>)
    ensures
        r@ == s@,
{
    let n = s.unicode_len();
    let mut r: Vec<char> = Vec::new();
    let mut i: usize = 0;
    while i < n
        invariant
            0 <= i <= n,
            n == s@.len(),
            r@ =~= s@.take(i as int),
        decreases n - i,
    {
        let c = s.get_char(i);
        r.push(c);
        i += 1;
    }
    proof {
        assert(s@.take(n as int) =~= s@);
    }
    r
}

/// Relies on `String: FromIterator<char>`: collecting an iterator of
/// characters yields the string holding exactly those characters in order.
#[verifier::external_body]
pub fn chars_to_string(v: &Vec<char>) -> (r: String)
    ensures
        r@ == v@,
{
    v.iter().collect()
}

/// True when the slice's characters are exactly `w`'s elements.
pub fn str_eq_chars(s: &str, w: &Vec<char>) -> (r: bool)
    ensures
        r == (s@ =~= w@),
{
    let n = s.unicode_len();
    if n != w.len() {
        return false;
    }
    let mut i: usize = 0;
    while i < n
        invariant
            0 <= i <= n,
            n == s@.len() == w@.len(),
            forall|k: int| 0 <= k < i ==> s@[k] == w@[k],
        decreases n - i,
    {
        if s.get_char(i) != w[i] {
            return false;
        }
        i += 1;
    }
    true
}

/// True when the two vectors hold the same characters.
pub fn chars_eq(a: &Vec<char>, b: &Vec<char>) -> (r: bool)
    ensures
        r == (a@ =~= b@),
{
    if a.len() != b.len() {
        return false;
    }
    let mut i: usize = 0;
    while i < a.len()
        invariant
            0 <= i <= a@.len() == b@.len(),
            forall|k: int| 0 <= k < i ==> a@[k] == b@[k],
        decreases a@.len() - i,
    {
        if a[i] != b[i] {
            return false;
        }
        i += 1;
    }
    true
}

/// ASCII lower-casing of one character; everything else is untouched.
pub open spec fn lower_char(c: char) -> char {
    if 65 <= c as u32 <= 90 {
        ((c as u32 + 32) as u8) as char
    } else {
        c
    }
}

/// ASCII lower-casing of a whole sequence.
pub open spec fn lower(s: Seq<char>) -> Seq<char> {
    s.map_values(|c: char| lower_char(c))
}

fn to_lower_char(c: char) -> (r: char)
    ensures
        r == lower_char(c),
{
    let x = c as u32;
    if 65 <= x && x <= 90 {
        ((x + 32) as u8) as char
    } else {
        c
    }
}

/// ASCII lower-casing of a character vector.
pub fn lower_chars(s: &Vec<char>) -> (r: Vec<char>)
    ensures
        r@ == lower(s@),
{
    let mut r: Vec<char> = Vec::new();
    let mut i: usize = 0;
    while i < s.len()
        invariant
            0 <= i <= s@.len(),
            r@.len() == i,
            forall|k: int| 0 <= k < i ==> r@[k] == lower_char(s@[k]),
        decreases s@.len() - i,
    {
        r.push(to_lower_char(s[i]));
        i += 1;
    }
    proof {
        assert(r@ =~= lower(s@));
    }
    r
}

pub open spec fn is_digit(c: char) -> bool {
    48 <= c as u32 <= 57
}

pub open spec fn all_digits(s: Seq<char>) -> bool {
    forall|k: int| 0 <= k < s.len() ==> is_digit(s[k])
}

/// The numeric value of a digit string, most significant digit first.
pub open spec fn digits_val(s: Seq<char>) -> int
    decreases s.len(),
{
    if s.len() == 0 {
        0
    } else {
        digits_val(s.drop_last()) * 10 + (s.last() as u32 - 48)
    }
}

/// Whether `s` is a base-10 signed 64-bit integer literal: an optional sign,
/// then one or more digits, with the value inside the `i64` range.
pub open spec fn is_i64_literal(s: Seq<char>) -> bool {
    let body = if s.len() > 0 && (s[0] == '+' || s[0] == '-') {
        s.drop_first()
    } else {
        s
    };
    &&& body.len() > 0
    &&& all_digits(body)
    &&& if s.len() > 0 && s[0] == '-' {
        digits_val(body) <= 9223372036854775808
    } else {
        digits_val(body) <= 9223372036854775807
    }
}

proof fn lemma_digits_val_nonneg(s: Seq<char>)
    requires
        all_digits(s),
    ensures
        digits_val(s) >= 0,
    decreases s.len(),
{
    if s.len() > 0 {
        assert(all_digits(s.drop_last()));
        lemma_digits_val_nonneg(s.drop_last());
    }
}

proof fn lemma_digits_val_monotone(s: Seq<char>, i: int)
    requires
        all_digits(s),
        0 <= i <= s.len(),
    ensures
        digits_val(s.take(i)) <= digits_val(s),
    decreases s.len() - i,
{
    if i < s.len() {
        lemma_digits_val_monotone(s, i + 1);
        let t = s.take(i + 1);
        assert(t.drop_last() =~= s.take(i));
        assert(all_digits(t.drop_last()));
        lemma_digits_val_nonneg(s.take(i));
        assert(digits_val(t) == digits_val(s.take(i)) * 10 + (s[i] as u32 - 48));
        assert(digits_val(s.take(i)) <= digits_val(t));
    } else {
        assert(s.take(i) =~= s);
    }
}

/// Decides whether the characters form a signed 64-bit integer literal.
pub fn is_i64_chars(s: &Vec<char>) -> (r: bool)
    ensures
        r == is_i64_literal(s@),
{
    let n = s.len();
    let negative = n > 0 && s[0] == '-';
    let start: usize = if n > 0 && (s[0] == '+' || s[0] == '-') {
        1
    } else {
        0
    };
    let ghost body = s@.skip(start as int);
    let ghost bound: int = if negative {
        9223372036854775808
    } else {
        9223372036854775807
    };
    proof {
        assert((if s@.len() > 0 && (s@[0] == '+' || s@[0] == '-') {
            s@.drop_first()
        } else {
            s@
        }) =~= body);
        assert(is_i64_literal(s@) == (body.len() > 0 && all_digits(body) && digits_val(body)
            <= bound));
    }
    if start >= n {
        return false;
    }
    let mut acc: u64 = 0;
    let mut i: usize = start;
    while i < n
        invariant
            start <= i <= n,
            n == s@.len(),
            body == s@.skip(start as int),
            is_i64_literal(s@) == (body.len() > 0 && all_digits(body) && digits_val(body)
                <= bound),
            bound <= u64::MAX,
            forall|k: int| start <= k < i ==> is_digit(s@[k]),
            acc as int == digits_val(body.take(i - start)),
        decreases n - i,
    {
        let x = s[i] as u32;
        if !(48 <= x && x <= 57) {
            proof {
                assert(!is_digit(body[i - start]));
            }
            return false;
        }
        let d: u64 = (x - 48) as u64;
        proof {
            assert(body.take(i + 1 - start).drop_last() =~= body.take(i - start));
            assert(body[i - start] == s@[i as int]);
        }
        let overflowed: bool;
        match acc.checked_mul(10) {
            Some(shifted) => {
                match shifted.checked_add(d) {
                    Some(v) => {
                        acc = v;
                        overflowed = false;
                    },
                    None => {
                        overflowed = true;
                    },
                }
            },
            None => {
                overflowed = true;
            },
        }
        if overflowed {
            proof {
                lemma_overflow_rejects(body, i - start, bound);
            }
            return false;
        }
        i += 1;
    }
    proof {
        assert(body.take(n - start) =~= body);
    }
    if negative {
        acc <= 9223372036854775808
    } else {
        acc <= 9223372036854775807
    }
}

/// If the digit prefix through position `i` already exceeds `u64::MAX`,
/// the value of the whole digit string exceeds any bound below `u64::MAX`.
proof fn lemma_overflow_rejects(body: Seq<char>, i: int, bound: int)
    requires
        0 <= i < body.len(),
        forall|k: int| 0 <= k <= i ==> is_digit(body[k]),
        digits_val(body.take(i)) * 10 + (body[i] as u32 - 48) > u64::MAX,
        bound <= u64::MAX,
    ensures
        !(all_digits(body) && digits_val(body) <= bound),
{
    if all_digits(body) && digits_val(body) <= bound {
        assert(body.take(i + 1).drop_last() =~= body.take(i));
        assert(digits_val(body.take(i + 1)) == digits_val(body.take(i)) * 10 + (body[i] as u32
            - 48));
        lemma_digits_val_monotone(body, i + 1);
        assert(digits_val(body) >= digits_val(body.take(i + 1)));
    }
}

} // verus!
