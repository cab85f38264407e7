//! Text helpers: string equality, decimal numbers in and out, and the
//! byte-length arithmetic that amount strings such as `"1500usei"` need.
use vstd::prelude::*;

verus! {

// ---------------------------------------------------------------------------
// Trusted std call
// ---------------------------------------------------------------------------

/// `String::push`: appends one character at the end.
#[verifier::external_body]
pub(crate) fn push_char(s: &mut String, c: char)
    ensures
        final(s)@ == old(s)@.push(c),
{
    s.push(c)
}

// ---------------------------------------------------------------------------
// Copies, comparisons and characters
// ---------------------------------------------------------------------------

/// An owned copy of a string slice, holding the same characters.
pub fn owned(s: &str) -> (r: String)
    ensures
        r@ == s@,
{
    s.to_owned()
}

/// Whether two string slices hold the same characters.
pub(crate) fn str_eq(a: &str, b: &str) -> (r: bool)
    ensures
        r == (a@ == b@),
{
    let n = a.unicode_len();
    if n != b.unicode_len() {
        return false;
    }
    let mut i: usize = 0;
    while i < n
        invariant
            n == a@.len(),
            n == b@.len(),
            i <= n,
            a@.take(i as int) == b@.take(i as int),
        decreases n - i,
    {
        let c = a.get_char(i);
        if c != b.get_char(i) {
            proof {
                assert(a@[i as int] != b@[i as int]);
            }
            return false;
        }
        proof {
            assert(a@.take(i + 1) =~= a@.take(i as int).push(c));
            assert(b@.take(i + 1) =~= b@.take(i as int).push(c));
        }
        i = i + 1;
    }
    proof {
        assert(a@.take(n as int) =~= a@);
        assert(b@.take(n as int) =~= b@);
    }
    true
}

/// Whether the text of `s` is the literal `lit`.
pub fn is_lit(s: &String, lit: &str) -> (r: bool)
    ensures
        r == (s@ == lit@),
{
    str_eq(s.as_str(), lit)
}

/// The characters of a string slice, as a vector.
pub fn chars_of(s: &str) -> (r: Vec<char>)
    ensures
        r@ == s@,
{
    let n = s.unicode_len();
    let mut out: Vec<char> = Vec::new();
    let mut i: usize = 0;
    while i < n
        invariant
            n == s@.len(),
            i <= n,
            out@ == s@.take(i as int),
        decreases n - i,
    {
        let c = s.get_char(i);
        out.push(c);
        proof {
            assert(s@.take(i as int).push(c) =~= s@.take(i + 1));
        }
        i = i + 1;
    }
    proof {
        assert(s@.take(n as int) =~= s@);
    }
    out
}

/// A string made of the given characters.
pub fn string_of(cs: &Vec<char>) -> (r: String)
    ensures
        r@ == cs@,
{
    let mut s = String::new();
    let mut i: usize = 0;
    while i < cs.len()
        invariant
            i <= cs.len(),
            s@ == cs@.take(i as int),
        decreases cs.len() - i,
    {
        push_char(&mut s, cs[i]);
        proof {
            assert(cs@.take(i as int).push(cs@[i as int]) =~= cs@.take(i + 1));
        }
        i = i + 1;
    }
    proof {
        assert(cs@.take(cs.len() as int) =~= cs@);
    }
    s
}

/// `a` followed by `b`.
pub fn concat(a: &String, b: &str) -> (r: String)
    ensures
        r@ == a@ + b@,
{
    let mut s = a.clone();
    s.append(b);
    s
}

// ---------------------------------------------------------------------------
// UTF-8 byte lengths
// ---------------------------------------------------------------------------

/// Number of bytes that UTF-8 uses for one character.
pub open spec fn char_utf8_len(c: char) -> nat {
    if (c as u32) < 0x80 {
        1
    } else if (c as u32) < 0x800 {
        2
    } else if (c as u32) < 0x10000 {
        3
    } else {
        4
    }
}

/// Number of bytes of the UTF-8 encoding of a character sequence.
pub open spec fn utf8_len(s: Seq<char>) -> nat
    decreases s.len(),
{
    if s.len() == 0 {
        0
    } else {
        utf8_len(s.drop_last()) + char_utf8_len(s.last())
    }
}

/// Whether `b` bytes into `s` is the start of a character (or its end).
pub open spec fn is_char_boundary(s: Seq<char>, b: int) -> bool {
    exists|k: int| 0 <= k <= s.len() && #[trigger] utf8_len(s.take(k)) == b
}

/// The characters before byte offset `b` of `s` (`str::get(0..b)`), where
/// that offset is a character boundary.
pub open spec fn byte_prefix(s: Seq<char>, b: int) -> Option<Seq<char>> {
    if is_char_boundary(s, b) {
        Some(s.take(choose|k: int| 0 <= k <= s.len() && #[trigger] utf8_len(s.take(k)) == b))
    } else {
        None
    }
}

/// The characters from byte offset `b` of `s` to its end (`str::get(b..)`).
pub open spec fn byte_suffix(s: Seq<char>, b: int) -> Option<Seq<char>> {
    if is_char_boundary(s, b) {
        Some(s.skip(choose|k: int| 0 <= k <= s.len() && #[trigger] utf8_len(s.take(k)) == b))
    } else {
        None
    }
}

/// Prefixes grow in byte length.
pub proof fn lemma_utf8_len_take_mono(s: Seq<char>, i: int, j: int)
    requires
        0 <= i <= j <= s.len(),
    ensures
        utf8_len(s.take(i)) <= utf8_len(s.take(j)),
        i < j ==> utf8_len(s.take(i)) < utf8_len(s.take(j)),
    decreases j - i,
{
    if i < j {
        lemma_utf8_len_take_mono(s, i, j - 1);
        assert(s.take(j).drop_last() =~= s.take(j - 1));
    }
}

/// A byte offset names at most one character position.
pub proof fn lemma_boundary_unique(s: Seq<char>, k1: int, k2: int)
    requires
        0 <= k1 <= s.len(),
        0 <= k2 <= s.len(),
        utf8_len(s.take(k1)) == utf8_len(s.take(k2)),
    ensures
        k1 == k2,
{
    if k1 < k2 {
        lemma_utf8_len_take_mono(s, k1, k2);
    } else if k2 < k1 {
        lemma_utf8_len_take_mono(s, k2, k1);
    }
}

fn char_len_exec(c: char) -> (r: usize)
    ensures
        r == char_utf8_len(c),
{
    let u = c as u32;
    if u < 0x80 {
        1
    } else if u < 0x800 {
        2
    } else if u < 0x10000 {
        3
    } else {
        4
    }
}

/// The character position at byte offset `b`, if `b` is a boundary.
pub fn boundary_position(cs: &Vec<char>, b: usize) -> (r: Option<usize>)
    ensures
        match r {
            Some(k) => k <= cs@.len() && utf8_len(cs@.take(k as int)) == b,
            None => !is_char_boundary(cs@, b as int),
        },
{
    let mut acc: usize = 0;
    let mut i: usize = 0;
    while i <= cs.len()
        invariant
            i <= cs.len() + 1,
            i <= cs.len() ==> acc == utf8_len(cs@.take(i as int)),
            acc <= b,
            forall|k: int| 0 <= k < i ==> utf8_len(#[trigger] cs@.take(k)) != b,
        decreases cs.len() + 1 - i,
    {
        if acc == b {
            return Some(i);
        }
        if i == cs.len() {
            proof {
                assert forall|k: int| 0 <= k <= cs@.len() implies utf8_len(#[trigger] cs@.take(k)) != b by {
                    if k < i {
                    } else {
                        assert(k == i);
                    }
                }
            }
            return None;
        }
        let l = char_len_exec(cs[i]);
        proof {
            assert(cs@.take(i + 1).drop_last() =~= cs@.take(i as int));
        }
        if b - acc < l {
            proof {
                assert forall|k: int| 0 <= k <= cs@.len() implies utf8_len(#[trigger] cs@.take(k)) != b by {
                    if k > i {
                        lemma_utf8_len_take_mono(cs@, i + 1, k);
                    }
                }
            }
            return None;
        }
        acc = acc + l;
        i = i + 1;
    }
    None
}

// ---------------------------------------------------------------------------
// Decimal numbers
// ---------------------------------------------------------------------------

pub open spec fn is_digit(c: char) -> bool {
    '0' <= c && c <= '9'
}

pub open spec fn digit_value(c: char) -> int {
    (c as int) - ('0' as int)
}

pub open spec fn all_digits(s: Seq<char>) -> bool {
    forall|i: int| 0 <= i < s.len() ==> is_digit(#[trigger] s[i])
}

/// The number that a run of decimal digits denotes.
pub open spec fn digits_value(s: Seq<char>) -> nat
    decreases s.len(),
{
    if s.len() == 0 {
        0
    } else {
        digits_value(s.drop_last()) * 10 + digit_value(s.last()) as nat
    }
}

/// `str::parse` for an unsigned integer type whose largest value is `max`:
/// an optional `+`, then at least one decimal digit, and nothing else.
pub open spec fn parse_unsigned(s: Seq<char>, max: nat) -> Option<nat> {
    let body = if s.len() > 0 && s[0] == '+' {
        s.drop_first()
    } else {
        s
    };
    if body.len() == 0 || !all_digits(body) || digits_value(body) > max {
        None
    } else {
        Some(digits_value(body))
    }
}

/// `str::parse::<i64>`: an optional `+` or `-`, then at least one decimal
/// digit, and nothing else, within the range of `i64`.
pub open spec fn parse_i64(s: Seq<char>) -> Option<int> {
    if s.len() > 0 && s[0] == '-' {
        let body = s.drop_first();
        if body.len() == 0 || !all_digits(body) || digits_value(body) > 0x8000_0000_0000_0000 {
            None
        } else {
            Some(-(digits_value(body) as int))
        }
    } else {
        match parse_unsigned(s, 0x7fff_ffff_ffff_ffff) {
            Some(v) => Some(v as int),
            None => None,
        }
    }
}

pub open spec fn parse_usize(s: Seq<char>) -> Option<nat> {
    parse_unsigned(s, usize::MAX as nat)
}

pub open spec fn parse_u64(s: Seq<char>) -> Option<nat> {
    parse_unsigned(s, u64::MAX as nat)
}

proof fn lemma_digits_value_mono(s: Seq<char>, k: int)
    requires
        0 <= k <= s.len(),
        all_digits(s),
    ensures
        digits_value(s.take(k)) <= digits_value(s),
    decreases s.len() - k,
{
    if k < s.len() {
        assert(s.take(k + 1).drop_last() =~= s.take(k));
        assert(is_digit(s[k]));
        lemma_digits_value_mono(s, k + 1);
    } else {
        assert(s.take(k) =~= s);
    }
}

/// Value of the digit run `cs[from..]`, if every character there is a digit,
/// the run is not empty, and the value does not exceed `max`.
fn digits_from(cs: &Vec<char>, from: usize, max: u64) -> (r: Option<u64>)
    requires
        from <= cs.len(),
    ensures
        ({
            let body = cs@.skip(from as int);
            match r {
                Some(v) => body.len() > 0 && all_digits(body) && v == digits_value(body) && v <= max,
                None => body.len() == 0 || !all_digits(body) || digits_value(body) > max,
            }
        }),
{
    let ghost body = cs@.skip(from as int);
    if from == cs.len() {
        return None;
    }
    let mut acc: u64 = 0;
    let mut i: usize = from;
    while i < cs.len()
        invariant
            from <= i <= cs.len(),
            body == cs@.skip(from as int),
            all_digits(body.take(i - from)),
            acc == digits_value(body.take(i - from)),
            acc <= max,
        decreases cs.len() - i,
    {
        let c = cs[i];
        let ghost k: int = i - from;
        proof {
            assert(body[k] == c);
            assert(body.take(k + 1).drop_last() =~= body.take(k));
            assert(body.take(k + 1).last() == c);
        }
        if !('0' <= c && c <= '9') {
            proof {
                assert(!is_digit(body[k]));
            }
            return None;
        }
        let d = (c as u64) - ('0' as u64);
        let next = match acc.checked_mul(10) {
            Some(m) => m.checked_add(d),
            None => None,
        };
        match next {
            Some(v) if v <= max => {
                proof {
                    assert forall|j: int| 0 <= j < k + 1 implies is_digit(#[trigger] body.take(k + 1)[j]) by {
                        if j < k {
                            assert(body.take(k + 1)[j] == body.take(k)[j]);
                        }
                    }
                }
                acc = v;
            },
            _ => {
                proof {
                    assert(digits_value(body.take(k + 1)) > max);
                    if all_digits(body) {
                        lemma_digits_value_mono(body, k + 1);
                    }
                }
                return None;
            },
        }
        i = i + 1;
    }
    proof {
        assert(body.take(cs.len() - from) =~= body);
    }
    Some(acc)
}

/// Parse an unsigned decimal (`str::parse` for an unsigned type of largest
/// value `max`).
pub fn parse_unsigned_exec(s: &str, max: u64) -> (r: Option<u64>)
    ensures
        match parse_unsigned(s@, max as nat) {
            Some(v) => r == Some(v as u64),
            None => r.is_none(),
        },
{
    let cs = chars_of(s);
    let from: usize = if cs.len() > 0 && cs[0] == '+' {
        1
    } else {
        0
    };
    proof {
        if from == 1 {
            assert(cs@.skip(1) =~= cs@.drop_first());
        } else {
            assert(cs@.skip(0) =~= cs@);
        }
    }
    digits_from(&cs, from, max)
}

/// `str::parse::<usize>`.
pub fn parse_usize_exec(s: &str) -> (r: Option<usize>)
    ensures
        match parse_usize(s@) {
            Some(v) => r == Some(v as usize),
            None => r.is_none(),
        },
{
    match parse_unsigned_exec(s, usize::MAX as u64) {
        Some(v) => Some(v as usize),
        None => None,
    }
}

/// `str::parse::<u64>`.
pub fn parse_u64_exec(s: &str) -> (r: Option<u64>)
    ensures
        match parse_u64(s@) {
            Some(v) => r == Some(v as u64),
            None => r.is_none(),
        },
{
    parse_unsigned_exec(s, u64::MAX)
}

/// `str::parse::<i64>`.
pub fn parse_i64_exec(s: &str) -> (r: Option<i64>)
    ensures
        match parse_i64(s@) {
            Some(v) => r == Some(v as i64),
            None => r.is_none(),
        },
{
    let cs = chars_of(s);
    if cs.len() > 0 && cs[0] == '-' {
        proof {
            assert(cs@.skip(1) =~= cs@.drop_first());
        }
        match digits_from(&cs, 1, 0x8000_0000_0000_0000u64) {
            Some(m) => {
                if m == 0x8000_0000_0000_0000u64 {
                    Some(i64::MIN)
                } else {
                    let v = m as i64;
                    Some(-v)
                }
            },
            None => None,
        }
    } else {
        match parse_unsigned_exec(s, 0x7fff_ffff_ffff_ffffu64) {
            Some(v) => Some(v as i64),
            None => None,
        }
    }
}

pub open spec fn digit_char(d: nat) -> char {
    if d == 0 {
        '0'
    } else if d == 1 {
        '1'
    } else if d == 2 {
        '2'
    } else if d == 3 {
        '3'
    } else if d == 4 {
        '4'
    } else if d == 5 {
        '5'
    } else if d == 6 {
        '6'
    } else if d == 7 {
        '7'
    } else if d == 8 {
        '8'
    } else {
        '9'
    }
}

/// The decimal form of a natural number, as `Display` prints integers.
pub open spec fn decimal(n: nat) -> Seq<char>
    decreases n,
{
    if n < 10 {
        seq![digit_char(n)]
    } else {
        decimal(n / 10).push(digit_char(n % 10))
    }
}

/// The decimal form of an integer: a `-` before the digits of a negative one.
pub open spec fn signed_decimal(n: int) -> Seq<char> {
    if n < 0 {
        seq!['-'] + decimal((-n) as nat)
    } else {
        decimal(n as nat)
    }
}

fn digit_char_exec(d: u64) -> (c: char)
    requires
        d < 10,
    ensures
        c == digit_char(d as nat),
{
    if d == 0 {
        '0'
    } else if d == 1 {
        '1'
    } else if d == 2 {
        '2'
    } else if d == 3 {
        '3'
    } else if d == 4 {
        '4'
    } else if d == 5 {
        '5'
    } else if d == 6 {
        '6'
    } else if d == 7 {
        '7'
    } else if d == 8 {
        '8'
    } else {
        '9'
    }
}

/// Append the decimal form of `n`.
pub fn push_decimal(s: &mut String, n: u64)
    ensures
        final(s)@ == old(s)@ + decimal(n as nat),
    decreases n,
{
    if n >= 10 {
        push_decimal(s, n / 10);
    }
    push_char(s, digit_char_exec(n % 10));
    proof {
        if n < 10 {
            assert(old(s)@ + decimal(n as nat) =~= old(s)@.push(digit_char(n as nat)));
        } else {
            assert(old(s)@ + decimal(n as nat) =~= (old(s)@ + decimal((n / 10) as nat)).push(
                digit_char((n % 10) as nat),
            ));
        }
    }
}

/// `u64::to_string`.
pub fn u64_to_string(n: u64) -> (r: String)
    ensures
        r@ == decimal(n as nat),
{
    let mut s = String::new();
    push_decimal(&mut s, n);
    proof {
        assert(s@ =~= decimal(n as nat));
    }
    s
}

/// `i64::to_string`.
pub fn i64_to_string(n: i64) -> (r: String)
    ensures
        r@ == signed_decimal(n as int),
{
    let mut s = String::new();
    if n < 0 {
        push_char(&mut s, '-');
        let m: u64 = if n == i64::MIN {
            0x8000_0000_0000_0000u64
        } else {
            (-n) as u64
        };
        push_decimal(&mut s, m);
    } else {
        push_decimal(&mut s, n as u64);
    }
    proof {
        assert(s@ =~= signed_decimal(n as int));
    }
    s
}

// ---------------------------------------------------------------------------
// Amounts written as `<digits>usei`
// ---------------------------------------------------------------------------

/// The text before the last four bytes of `s` (`s.get(0..s.len()-4)`), if
/// `s` is at least four bytes long and that offset is a character boundary.
pub open spec fn without_unit(s: Seq<char>) -> Option<Seq<char>> {
    if utf8_len(s) < 4 {
        None
    } else {
        byte_prefix(s, utf8_len(s) - 4)
    }
}

/// The number before the unit of an amount string, read as a `usize`.
pub open spec fn unit_usize(s: Seq<char>) -> Option<nat> {
    match without_unit(s) {
        Some(p) => parse_usize(p),
        None => None,
    }
}

/// The number before the unit of an amount string, read as a `u64`.
pub open spec fn unit_u64(s: Seq<char>) -> Option<nat> {
    match without_unit(s) {
        Some(p) => parse_u64(p),
        None => None,
    }
}

/// The number before the unit of an amount string, read as an `i64`.
pub open spec fn unit_i64(s: Seq<char>) -> Option<int> {
    match without_unit(s) {
        Some(p) => parse_i64(p),
        None => None,
    }
}

/// Byte length splits at any character position.
pub proof fn lemma_utf8_len_split(s: Seq<char>, k: int)
    requires
        0 <= k <= s.len(),
    ensures
        utf8_len(s) == utf8_len(s.take(k)) + utf8_len(s.skip(k)),
    decreases s.len(),
{
    if k == s.len() {
        assert(s.take(k) =~= s);
        assert(s.skip(k).len() == 0);
    } else {
        lemma_utf8_len_split(s.drop_last(), k);
        assert(s.drop_last().take(k) =~= s.take(k));
        assert(s.skip(k).drop_last() =~= s.drop_last().skip(k));
        assert(s.skip(k).last() == s.last());
    }
}

proof fn lemma_utf8_len_single(c: char)
    ensures
        utf8_len(seq![c]) == char_utf8_len(c),
{
    let s = seq![c];
    assert(s.drop_last() =~= Seq::<char>::empty());
    assert(s.last() == c);
    assert(utf8_len(s.drop_last()) == 0);
}

/// `s.get(0..s.len() - 4)`, where the subtraction does not underflow.
pub fn strip_unit(s: &String) -> (r: Option<String>)
    ensures
        match without_unit(s@) {
            Some(p) => r is Some && r->0@ == p,
            None => r is None,
        },
{
    let cs = chars_of(s.as_str());
    let ghost t = cs@;
    let mut j: usize = cs.len();
    let mut tail: usize = 0;
    proof {
        assert(t.skip(t.len() as int).len() == 0);
    }
    while j > 0 && tail < 4
        invariant
            j <= cs.len(),
            t == cs@,
            tail == utf8_len(t.skip(j as int)),
            tail <= 7,
            forall|k: int| j < k <= t.len() ==> utf8_len(#[trigger] t.skip(k)) < 4,
        decreases j,
    {
        let l = char_len_exec(cs[j - 1]);
        proof {
            let u = t.skip(j - 1);
            lemma_utf8_len_split(u, 1);
            assert(u.take(1) =~= seq![t[j - 1]]);
            lemma_utf8_len_single(t[j - 1]);
            assert(u.skip(1) =~= t.skip(j as int));
        }
        tail = tail + l;
        j = j - 1;
    }
    proof {
        lemma_utf8_len_split(t, j as int);
        assert forall|k: int| 0 <= k <= t.len() && k != j implies utf8_len(#[trigger] t.take(k))
            != utf8_len(t.take(j as int)) by {
            if k < j {
                lemma_utf8_len_take_mono(t, k, j as int);
            } else {
                lemma_utf8_len_take_mono(t, j as int, k);
            }
        }
    }
    if tail != 4 {
        proof {
            if utf8_len(t) >= 4 {
                assert forall|k: int| 0 <= k <= t.len() implies utf8_len(#[trigger] t.take(k))
                    != utf8_len(t) - 4 by {
                    lemma_utf8_len_split(t, k);
                    if k < j {
                        lemma_utf8_len_take_mono(t, k, j as int);
                    } else if k > j {
                        assert(utf8_len(t.skip(k)) < 4);
                    }
                }
            }
        }
        return None;
    }
    let mut out: Vec<char> = Vec::new();
    let mut i: usize = 0;
    while i < j
        invariant
            j <= cs.len(),
            i <= j,
            out@ == cs@.take(i as int),
        decreases j - i,
    {
        out.push(cs[i]);
        proof {
            assert(cs@.take(i as int).push(cs@[i as int]) =~= cs@.take(i + 1));
        }
        i = i + 1;
    }
    proof {
        assert(utf8_len(t.take(j as int)) == utf8_len(t) - 4);
        let kk = choose|m: int| 0 <= m <= t.len() && #[trigger] utf8_len(t.take(m)) == utf8_len(t) - 4;
        lemma_boundary_unique(t, kk, j as int);
    }
    Some(string_of(&out))
}

/// The amount before the unit, as a `usize`, where it parses.
pub fn unit_usize_exec(s: &String) -> (r: Option<usize>)
    ensures
        match unit_usize(s@) {
            Some(v) => r == Some(v as usize),
            None => r is None,
        },
{
    match strip_unit(s) {
        Some(p) => parse_usize_exec(p.as_str()),
        None => None,
    }
}

/// The amount before the unit, as a `u64`, where it parses.
pub fn unit_u64_exec(s: &String) -> (r: Option<u64>)
    ensures
        match unit_u64(s@) {
            Some(v) => r == Some(v as u64),
            None => r is None,
        },
{
    match strip_unit(s) {
        Some(p) => parse_u64_exec(p.as_str()),
        None => None,
    }
}

/// The amount before the unit, as an `i64`, where it parses.
pub fn unit_i64_exec(s: &String) -> (r: Option<i64>)
    ensures
        match unit_i64(s@) {
            Some(v) => r == Some(v as i64),
            None => r is None,
        },
{
    match strip_unit(s) {
        Some(p) => parse_i64_exec(p.as_str()),
        None => None,
    }
}

/// `format!("{}usei", n)`.
pub fn with_unit(n: u64) -> (r: String)
    ensures
        r@ == decimal(n as nat) + "usei"@,
{
    let s = u64_to_string(n);
    concat(&s, "usei")
}

/// `format!("{}usei", n)` for a signed amount.
pub fn with_unit_signed(n: i64) -> (r: String)
    ensures
        r@ == signed_decimal(n as int) + "usei"@,
{
    let s = i64_to_string(n);
    concat(&s, "usei")
}

} // verus!
