use vstd::prelude::*;

verus! {

/// The whitespace characters that split top-level tokens: space, full-width
/// space, newline, tab and carriage return.
pub open spec fn is_ws(c: char) -> bool {
    c == ' ' || c == '\u{3000}' || c == '\n' || c == '\t' || c == '\r'
}

/// Whitespace test.
pub fn is_ws_char(c: char) -> (r: bool)
    ensures
        r == is_ws(c),
{
    c == ' ' || c == '\u{3000}' || c == '\n' || c == '\t' || c == '\r'
}

/// Relies on String::push: appends exactly the given character.
#[verifier::external_body]
pub(crate) fn push_char(s: &mut String, c: char)
    ensures
        final(s)@ == old(s)@.push(c),
{
    s.push(c);
}

/// A decimal digit.
pub open spec fn is_digit(c: char) -> bool {
    c == '0' || c == '1' || c == '2' || c == '3' || c == '4' || c == '5' || c == '6' || c == '7'
        || c == '8' || c == '9'
}

/// Digit test.
pub fn is_digit_char(c: char) -> (r: bool)
    ensures
        r == is_digit(c),
{
    c == '0' || c == '1' || c == '2' || c == '3' || c == '4' || c == '5' || c == '6' || c == '7'
        || c == '8' || c == '9'
}

/// The numeric value of a digit character; 0 for any other character.
pub open spec fn digit_val(c: char) -> int {
    if c == '1' {
        1
    } else if c == '2' {
        2
    } else if c == '3' {
        3
    } else if c == '4' {
        4
    } else if c == '5' {
        5
    } else if c == '6' {
        6
    } else if c == '7' {
        7
    } else if c == '8' {
        8
    } else if c == '9' {
        9
    } else {
        0
    }
}

/// The numeric value of a digit character.
pub fn digit_val_of(c: char) -> (r: u64)
    ensures
        r as int == digit_val(c),
        r < 10,
{
    if c == '1' {
        1
    } else if c == '2' {
        2
    } else if c == '3' {
        3
    } else if c == '4' {
        4
    } else if c == '5' {
        5
    } else if c == '6' {
        6
    } else if c == '7' {
        7
    } else if c == '8' {
        8
    } else if c == '9' {
        9
    } else {
        0
    }
}

/// The character for a decimal digit value; '0' for anything out of range.
pub open spec fn digit_char(d: int) -> char {
    if d == 1 {
        '1'
    } else if d == 2 {
        '2'
    } else if d == 3 {
        '3'
    } else if d == 4 {
        '4'
    } else if d == 5 {
        '5'
    } else if d == 6 {
        '6'
    } else if d == 7 {
        '7'
    } else if d == 8 {
        '8'
    } else if d == 9 {
        '9'
    } else {
        '0'
    }
}

/// The character for a decimal digit value.
pub fn digit_char_of(d: u64) -> (r: char)
    requires
        d < 10,
    ensures
        r == digit_char(d as int),
{
    if d == 1 {
        '1'
    } else if d == 2 {
        '2'
    } else if d == 3 {
        '3'
    } else if d == 4 {
        '4'
    } else if d == 5 {
        '5'
    } else if d == 6 {
        '6'
    } else if d == 7 {
        '7'
    } else if d == 8 {
        '8'
    } else if d == 9 {
        '9'
    } else {
        '0'
    }
}

/// The value of a digit string read left to right.
pub open spec fn digits_val(s: Seq<char>) -> int
    decreases s.len(),
{
    if s.len() == 0 {
        0
    } else {
        digits_val(s.drop_last()) * 10 + digit_val(s.last())
    }
}

/// Every character is a decimal digit.
pub open spec fn all_digits(s: Seq<char>) -> bool {
    forall|i: int| 0 <= i < s.len() ==> is_digit(s[i])
}

/// The exact integer denoted by a numeric literal: an optional sign followed
/// by at least one digit. Anything else denotes no integer.
pub open spec fn parse_int_spec(s: Seq<char>) -> Option<int> {
    if s.len() > 0 && (s[0] == '-' || s[0] == '+') {
        let rest = s.subrange(1, s.len() as int);
        if rest.len() > 0 && all_digits(rest) {
            Some(if s[0] == '-' { -digits_val(rest) } else { digits_val(rest) })
        } else {
            None
        }
    } else {
        if s.len() > 0 && all_digits(s) {
            Some(digits_val(s))
        } else {
            None
        }
    }
}

/// The numeric literal's value where it exists and fits in an i64.
pub open spec fn parse_i64_spec(s: Seq<char>) -> Option<i64> {
    match parse_int_spec(s) {
        Some(v) => if i64::MIN <= v <= i64::MAX {
            Some(v as i64)
        } else {
            None
        },
        None => None,
    }
}

/// A digit string's value is never negative.
pub proof fn lemma_digits_val_nonneg(s: Seq<char>)
    ensures
        digits_val(s) >= 0,
    decreases s.len(),
{
    if s.len() > 0 {
        lemma_digits_val_nonneg(s.drop_last());
    }
}

/// Reading more digits never shrinks the value.
pub proof fn lemma_digits_val_prefix(s: Seq<char>, k: int)
    requires
        0 <= k <= s.len(),
    ensures
        digits_val(s.subrange(0, k)) <= digits_val(s),
    decreases s.len(),
{
    lemma_digits_val_nonneg(s);
    if k < s.len() {
        lemma_digits_val_prefix(s.drop_last(), k);
        assert(s.drop_last().subrange(0, k) =~= s.subrange(0, k));
        lemma_digits_val_nonneg(s.drop_last());
    } else {
        assert(s.subrange(0, k) =~= s);
    }
}

/// Reads a numeric literal; yields nothing on any other text or when the
/// value does not fit.
pub fn parse_i64(s: &str) -> (r: Option<i64>)
    ensures
        r == parse_i64_spec(s@),
{
    let n = s.unicode_len();
    let ghost sv = s@;
    let mut neg = false;
    let mut start: usize = 0;
    if n > 0 {
        let c0 = s.get_char(0);
        if c0 == '-' {
            neg = true;
            start = 1;
        } else if c0 == '+' {
            start = 1;
        }
    }
    if start >= n {
        return None;
    }
    let ghost rest = sv.subrange(start as int, n as int);
    let mut acc: u128 = 0;
    let mut i: usize = start;
    while i < n
        invariant
            start <= i <= n,
            n == sv.len(),
            sv == s@,
            start == 0 || start == 1,
            start == 1 ==> sv[0] == '-' || sv[0] == '+',
            start == 0 ==> !(sv[0] == '-' || sv[0] == '+'),
            neg <==> (start == 1 && sv[0] == '-'),
            start < n,
            rest == sv.subrange(start as int, n as int),
            forall|j: int| start <= j < i ==> is_digit(sv[j]),
            acc as int == digits_val(sv.subrange(start as int, i as int)),
            acc <= 0x8000_0000_0000_0000u128,
        decreases n - i,
    {
        let c = s.get_char(i);
        if !is_digit_char(c) {
            proof {
                assert(!all_digits(rest)) by {
                    assert(rest[i - start as int] == sv[i as int]);
                }
            }
            return None;
        }
        let d = digit_val_of(c);
        acc = acc * 10 + (d as u128);
        proof {
            let pre = sv.subrange(start as int, i as int);
            let cur = sv.subrange(start as int, i + 1int);
            assert(cur.drop_last() =~= pre);
            assert(cur.last() == sv[i as int]);
        }
        i += 1;
        if acc > 0x8000_0000_0000_0000u128 {
            proof {
                let pre = sv.subrange(start as int, i as int);
                lemma_digits_val_prefix(rest, i - start as int);
                assert(rest.subrange(0, i - start as int) =~= pre);
                lemma_digits_val_nonneg(rest);
                if start == 0 {
                    assert(rest =~= sv);
                }
            }
            return None;
        }
    }
    proof {
        assert(forall|k: int| 0 <= k < rest.len() ==> is_digit(#[trigger] rest[k])) by {
            assert(forall|k: int| 0 <= k < rest.len() ==> #[trigger] rest[k] == sv[start + k]);
        }
        assert(rest =~= sv.subrange(start as int, n as int));
        if start == 0 {
            assert(rest =~= sv);
        }
        assert(acc as int == digits_val(rest));
    }
    if neg {
        let v: i64 = (-(acc as i128)) as i64;
        Some(v)
    } else {
        if acc > 0x7fff_ffff_ffff_ffffu128 {
            return None;
        }
        Some(acc as i64)
    }
}

/// The decimal digits of a non-negative value, most significant first.
pub open spec fn dec_str(n: int) -> Seq<char>
    decreases n,
{
    if n < 10 {
        seq![digit_char(n)]
    } else {
        dec_str(n / 10).push(digit_char(n % 10))
    }
}

/// The canonical decimal rendering of an integer.
pub open spec fn render_int_spec(n: int) -> Seq<char> {
    if n < 0 {
        seq!['-'] + dec_str(-n)
    } else {
        dec_str(n)
    }
}

/// Appends the decimal digits of a magnitude.
fn push_mag(m: u64, out: &mut String)
    ensures
        final(out)@ == old(out)@ + dec_str(m as int),
    decreases m,
{
    if m >= 10 {
        push_mag(m / 10, out);
    }
    push_char(out, digit_char_of(m % 10));
    proof {
        if m >= 10 {
            assert(old(out)@ + dec_str(m as int) =~= (old(out)@ + dec_str(m as int / 10)).push(
                digit_char(m as int % 10),
            ));
        } else {
            assert(old(out)@ + dec_str(m as int) =~= old(out)@.push(digit_char(m as int)));
        }
    }
}

/// Renders an integer in canonical decimal form.
pub fn render_i64(n: i64) -> (r: String)
    ensures
        r@ == render_int_spec(n as int),
{
    let mut out = String::new();
    let mag: u64;
    if n < 0 {
        push_char(&mut out, '-');
        mag = (-(n as i128)) as u64;
    } else {
        mag = n as u64;
    }
    push_mag(mag, &mut out);
    proof {
        if n < 0 {
            assert(out@ =~= seq!['-'] + dec_str(mag as int));
        } else {
            assert(out@ =~= dec_str(n as int));
        }
    }
    out
}

/// Renders an unsigned value in decimal.
pub fn render_u64(n: u64) -> (r: String)
    ensures
        r@ == dec_str(n as int),
{
    let mut out = String::new();
    push_mag(n, &mut out);
    proof {
        assert(out@ =~= dec_str(n as int));
    }
    out
}

/// What remains after dropping leading whitespace.
pub open spec fn ltrim_spec(s: Seq<char>) -> Seq<char>
    decreases s.len(),
{
    if s.len() > 0 && is_ws(s[0]) {
        ltrim_spec(s.drop_first())
    } else {
        s
    }
}

/// What remains after dropping trailing whitespace.
pub open spec fn rtrim_spec(s: Seq<char>) -> Seq<char>
    decreases s.len(),
{
    if s.len() > 0 && is_ws(s.last()) {
        rtrim_spec(s.drop_last())
    } else {
        s
    }
}

/// What remains after dropping whitespace at both ends.
pub open spec fn trim_spec(s: Seq<char>) -> Seq<char> {
    rtrim_spec(ltrim_spec(s))
}

proof fn lemma_ltrim_at(s: Seq<char>, lo: int)
    requires
        0 <= lo <= s.len(),
        forall|j: int| 0 <= j < lo ==> is_ws(s[j]),
        lo == s.len() || !is_ws(s[lo]),
    ensures
        ltrim_spec(s) =~= s.subrange(lo, s.len() as int),
    decreases lo,
{
    if lo > 0 {
        lemma_ltrim_at(s.drop_first(), lo - 1);
        assert(s.drop_first().subrange(lo - 1, s.len() - 1) =~= s.subrange(lo, s.len() as int));
    } else {
        assert(s.subrange(0, s.len() as int) =~= s);
    }
}

proof fn lemma_rtrim_at(s: Seq<char>, hi: int)
    requires
        0 <= hi <= s.len(),
        forall|j: int| hi <= j < s.len() ==> is_ws(s[j]),
        hi == 0 || !is_ws(s[hi - 1]),
    ensures
        rtrim_spec(s) =~= s.subrange(0, hi),
    decreases s.len() - hi,
{
    if hi < s.len() {
        lemma_rtrim_at(s.drop_last(), hi);
        assert(s.drop_last().subrange(0, hi) =~= s.subrange(0, hi));
    } else {
        assert(s.subrange(0, hi) =~= s);
    }
}

/// Trimming never lengthens the text.
pub proof fn lemma_ltrim_len(s: Seq<char>)
    ensures
        ltrim_spec(s).len() <= s.len(),
    decreases s.len(),
{
    if s.len() > 0 && is_ws(s[0]) {
        lemma_ltrim_len(s.drop_first());
    }
}

/// Trimming never lengthens the text.
pub proof fn lemma_rtrim_len(s: Seq<char>)
    ensures
        rtrim_spec(s).len() <= s.len(),
    decreases s.len(),
{
    if s.len() > 0 && is_ws(s.last()) {
        lemma_rtrim_len(s.drop_last());
    }
}

/// Trimming never lengthens the text.
pub proof fn lemma_trim_len(s: Seq<char>)
    ensures
        trim_spec(s).len() <= s.len(),
{
    lemma_ltrim_len(s);
    lemma_rtrim_len(ltrim_spec(s));
}

/// Drops whitespace at both ends of the text.
pub fn trim(s: &str) -> (r: String)
    ensures
        r@ == trim_spec(s@),
{
    let n = s.unicode_len();
    let mut lo: usize = 0;
    while lo < n && is_ws_char(s.get_char(lo))
        invariant
            0 <= lo <= n,
            n == s@.len(),
            forall|j: int| 0 <= j < lo ==> is_ws(s@[j]),
        decreases n - lo,
    {
        lo += 1;
    }
    let mut hi: usize = n;
    while hi > lo && is_ws_char(s.get_char(hi - 1))
        invariant
            lo <= hi <= n,
            n == s@.len(),
            forall|j: int| 0 <= j < lo ==> is_ws(s@[j]),
            lo == n || !is_ws(s@[lo as int]),
            forall|j: int| hi <= j < n ==> is_ws(s@[j]),
        decreases hi,
    {
        hi -= 1;
    }
    let piece = s.substring_char(lo, hi);
    proof {
        lemma_ltrim_at(s@, lo as int);
        let t = s@.subrange(lo as int, n as int);
        lemma_rtrim_at(t, hi - lo as int);
        assert(t.subrange(0, hi - lo as int) =~= s@.subrange(lo as int, hi as int));
    }
    String::from_str(piece)
}

} // verus!
