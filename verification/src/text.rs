//! Character-level helpers shared by every format of the crate: ASCII
//! classification and case folding, conversions between `String` and
//! characters, and decimal integers in the text form that `std` reads and
//! writes them.

use vstd::prelude::*;
use vstd::std_specs::iter::IteratorSpec;

verus! {

/// ASCII whitespace as `u8::is_ascii_whitespace` and `char::is_ascii_whitespace`
/// define it: space, tab, line feed, form feed and carriage return.
pub open spec fn is_ascii_ws(c: char) -> bool {
    c == ' ' || c == '\t' || c == '\n' || c == '\x0C' || c == '\r'
}

pub fn ascii_ws(c: char) -> (r: bool)
    ensures
        r == is_ascii_ws(c),
{
    c == ' ' || c == '\t' || c == '\n' || c == '\x0C' || c == '\r'
}

/// Number of bytes of the UTF-8 encoding of `c`.
pub open spec fn utf8_width(c: char) -> int {
    if (c as u32) < 0x80 {
        1
    } else if (c as u32) < 0x800 {
        2
    } else if (c as u32) < 0x10000 {
        3
    } else {
        4
    }
}

pub fn width_utf8(c: char) -> (r: usize)
    ensures
        r == utf8_width(c),
{
    let v = c as u32;
    if v < 0x80 {
        1
    } else if v < 0x800 {
        2
    } else if v < 0x10000 {
        3
    } else {
        4
    }
}

/// `c` with an ASCII upper-case letter mapped to its lower-case letter, as
/// `char::to_ascii_lowercase` does.
pub open spec fn lower_ascii(c: char) -> char {
    if 'A' <= c && c <= 'Z' {
        ((c as u32) + 32) as char
    } else {
        c
    }
}

pub fn to_lower_ascii(c: char) -> (r: char)
    ensures
        r == lower_ascii(c),
{
    if 'A' <= c && c <= 'Z' {
        let b: u8 = c as u8;
        assert(b as u32 == c as u32);
        ((b + 32) as char)
    } else {
        c
    }
}

/// The two sequences are equal when ASCII letters are compared without case,
/// as `str::eq_ignore_ascii_case` decides.
pub open spec fn eq_ic(a: Seq<char>, b: Seq<char>) -> bool {
    a.len() == b.len() && forall|i: int| 0 <= i < a.len() ==> lower_ascii(#[trigger] a[i]) == lower_ascii(b[i])
}

pub fn chars_eq_ic(a: &Vec<char>, b: &Vec<char>) -> (r: bool)
    ensures
        r == eq_ic(a@, b@),
{
    if a.len() != b.len() {
        return false;
    }
    let mut i: usize = 0;
    while i < a.len()
        invariant
            a.len() == b.len(),
            i <= a.len(),
            forall|j: int| 0 <= j < i ==> lower_ascii(#[trigger] a@[j]) == lower_ascii(b@[j]),
        decreases a.len() - i,
    {
        if to_lower_ascii(a[i]) != to_lower_ascii(b[i]) {
            return false;
        }
        i = i + 1;
    }
    true
}

/// `str::eq_ignore_ascii_case`.
pub fn eq_ignore_ascii_case(a: &str, b: &str) -> (r: bool)
    ensures
        r == eq_ic(a@, b@),
{
    let ca = chars_of(a);
    let cb = chars_of(b);
    chars_eq_ic(&ca, &cb)
}

/// Equality of two string slices.
pub fn str_eq(a: &str, b: &str) -> (r: bool)
    ensures
        r == (a@ == b@),
{
    let sa = String::from_str(a);
    let sb = String::from_str(b);
    sa == sb
}

/// The characters of a string slice, in order.
pub fn chars_of(s: &str) -> (v: Vec<char>)
    ensures
        v@ == s@,
{
    broadcast use vstd::string::group_string_axioms;

    let mut v: Vec<char> = Vec::new();
    for c in it: s.chars()
        invariant
            v@ == it.seq().take(it.index() as int),
            it.seq() == s@,
    {
        v.push(c);
    }
    v
}

/// Builds a `String` from a sequence of characters (`String::from_iter`).
#[verifier::external_body]
pub fn string_from_chars(v: &[char]) -> (s: String)
    ensures
        s@ == v@,
{
    String::from_iter(v.iter())
}

/// Appends one character (`String::push`).
#[verifier::external_body]
pub fn push_char(s: &mut String, c: char)
    ensures
        final(s)@ == old(s)@.push(c),
{
    s.push(c)
}

/// The lower-case mapping of `str::to_lowercase`, which follows the Unicode
/// case tables.
pub uninterp spec fn unicode_lowercase(s: Seq<char>) -> Seq<char>;

/// Whether every character of `s` is ASCII.
pub open spec fn all_ascii(s: Seq<char>) -> bool {
    forall|i: int| 0 <= i < s.len() ==> (s[i] as u32) < 128
}

/// `str::to_lowercase`: the result is the Unicode lower-case mapping of the
/// argument, a function of the argument alone; on ASCII text it lowers each
/// ASCII letter and keeps every other character, as the documentation of
/// `str::to_lowercase` and `char::to_lowercase` states. The tables for other
/// characters are not restated here.
#[verifier::external_body]
pub fn to_lowercase(s: &str) -> (r: String)
    ensures
        r@ == unicode_lowercase(s@),
        all_ascii(s@) ==> r@ == s@.map_values(|c: char| lower_ascii(c)),
{
    s.to_lowercase()
}

/// The decimal digit character of `d` (`0 <= d < 10`).
pub open spec fn digit_char(d: int) -> char {
    ((d + 48) as u32) as char
}

/// Decimal text of a natural number, without sign or leading zeros: the form
/// in which `std` writes an unsigned integer with `Display`.
pub open spec fn dec(n: nat) -> Seq<char>
    decreases n,
{
    if n < 10 {
        seq![digit_char(n as int)]
    } else {
        dec(n / 10).push(digit_char((n % 10) as int))
    }
}

/// Decimal text of an integer as `std` writes it with `Display`: a `-` in
/// front of a negative number.
pub open spec fn dec_int(n: int) -> Seq<char> {
    if n < 0 {
        seq!['-'] + dec((-n) as nat)
    } else {
        dec(n as nat)
    }
}

fn digit(d: u64) -> (c: char)
    requires
        d < 10,
    ensures
        c == digit_char(d as int),
{
    let b: u8 = (d as u8) + 48;
    b as char
}

/// The decimal text of `n` (`u64::to_string`).
pub fn u64_to_string(n: u64) -> (s: String)
    ensures
        s@ == dec(n as nat),
    decreases n,
{
    if n < 10 {
        let mut s = String::new();
        push_char(&mut s, digit(n));
        s
    } else {
        let mut s = u64_to_string(n / 10);
        push_char(&mut s, digit(n % 10));
        s
    }
}

/// The decimal text of `n` (`i64::to_string`).
pub fn i64_to_string(n: i64) -> (s: String)
    ensures
        s@ == dec_int(n as int),
{
    if n < 0 {
        let m: u64 = if n == i64::MIN {
            9223372036854775808u64
        } else {
            (-n) as u64
        };
        let mut s = String::new();
        push_char(&mut s, '-');
        let t = u64_to_string(m);
        s.append(t.as_str());
        s
    } else {
        u64_to_string(n as u64)
    }
}

pub open spec fn is_digit(c: char) -> bool {
    '0' <= c && c <= '9'
}

pub open spec fn all_digits(s: Seq<char>) -> bool {
    forall|i: int| 0 <= i < s.len() ==> is_digit(#[trigger] s[i])
}

/// The number that a run of decimal digits denotes.
pub open spec fn digits_value(s: Seq<char>) -> nat
    decreases s.len(),
{
    if s.len() == 0 {
        0
    } else {
        digits_value(s.drop_last()) * 10 + ((s.last() as u32) - 48) as nat
    }
}

/// A non-empty run of decimal digits and its value.
pub open spec fn unsigned_literal(d: Seq<char>) -> Option<int> {
    if d.len() > 0 && all_digits(d) {
        Some(digits_value(d) as int)
    } else {
        None
    }
}

/// The integer that `str::parse` reads for an integer type, before the range
/// check: an optional `+`, or for signed types an optional `-`, then one or
/// more decimal digits, nothing else.
pub open spec fn int_literal(s: Seq<char>, signed: bool) -> Option<int> {
    if s.len() > 0 && s[0] == '+' {
        unsigned_literal(s.drop_first())
    } else if s.len() > 0 && s[0] == '-' && signed {
        match unsigned_literal(s.drop_first()) {
            Some(v) => Some(-v),
            None => None,
        }
    } else {
        unsigned_literal(s)
    }
}

/// `str::parse` for an integer type whose values are `lo..=hi`.
pub open spec fn parse_int(s: Seq<char>, signed: bool, lo: int, hi: int) -> Option<int> {
    match int_literal(s, signed) {
        Some(v) => if lo <= v && v <= hi {
            Some(v)
        } else {
            None
        },
        None => None,
    }
}

proof fn lemma_digits_step(d: Seq<char>, i: int)
    requires
        0 <= i < d.len(),
    ensures
        digits_value(d.take(i + 1)) == digits_value(d.take(i)) * 10 + ((d[i] as u32) - 48) as nat,
{
    assert(d.take(i + 1).drop_last() =~= d.take(i));
}

/// Reads a run of digits, reporting `None` for an empty run or a character
/// that is not a digit; `Some(None)` when the value exceeds `u64::MAX`.
fn read_digits(d: &[char]) -> (r: Option<Option<u64>>)
    ensures
        match r {
            None => unsigned_literal(d@) is None,
            Some(None) => unsigned_literal(d@) matches Some(v) && v > u64::MAX,
            Some(Some(v)) => unsigned_literal(d@) == Some(v as int),
        },
{
    if d.len() == 0 {
        return None;
    }
    let mut acc: u64 = 0;
    let mut over = false;
    let mut i: usize = 0;
    while i < d.len()
        invariant
            i <= d@.len(),
            all_digits(d@.take(i as int)),
            !over ==> acc as nat == digits_value(d@.take(i as int)),
            over ==> digits_value(d@.take(i as int)) > u64::MAX,
        decreases d.len() - i,
    {
        let c = d[i];
        if !('0' <= c && c <= '9') {
            assert(!is_digit(d@[i as int]));
            return None;
        }
        proof {
            lemma_digits_step(d@, i as int);
        }
        let dv: u64 = (c as u32 - 48) as u64;
        if !over {
            if acc > (u64::MAX - dv) / 10 {
                over = true;
            } else {
                acc = acc * 10 + dv;
            }
        }
        assert(all_digits(d@.take(i + 1))) by {
            assert forall|j: int| 0 <= j < i + 1 implies is_digit(#[trigger] d@.take(i + 1)[j]) by {
                if j < i {
                    assert(d@.take(i + 1)[j] == d@.take(i as int)[j]);
                }
            }
        }
        i = i + 1;
    }
    assert(d@.take(d@.len() as int) =~= d@);
    if over {
        Some(None)
    } else {
        Some(Some(acc))
    }
}

/// Reads an integer literal as `str::parse` does for an integer type with the
/// values `lo..=hi`.
pub fn parse_int_in(s: &str, signed: bool, lo: i128, hi: i128) -> (r: Option<i128>)
    requires
        i64::MIN <= lo <= hi <= u64::MAX,
    ensures
        r matches Some(v) ==> parse_int(s@, signed, lo as int, hi as int) == Some(v as int),
        r is None ==> parse_int(s@, signed, lo as int, hi as int) is None,
{
    let c = chars_of(s);
    let n = c.len();
    let (neg, start): (bool, usize) = if n > 0 && c[0] == '+' {
        (false, 1)
    } else if n > 0 && c[0] == '-' && signed {
        (true, 1)
    } else {
        (false, 0)
    };
    let body = c.as_slice().split_at(start).1;
    assert(body@ == s@.skip(start as int));
    if start == 1 {
        assert(body@ =~= s@.drop_first());
    } else {
        assert(body@ =~= s@);
    }
    match read_digits(body) {
        None => None,
        Some(None) => None,
        Some(Some(v)) => {
            let x: i128 = if neg {
                -(v as i128)
            } else {
                v as i128
            };
            if lo <= x && x <= hi {
                Some(x)
            } else {
                None
            }
        },
    }
}

/// `s.parse::<i32>()`.
pub fn parse_i32(s: &str) -> (r: Option<i32>)
    ensures
        r matches Some(v) ==> parse_int(s@, true, i32::MIN as int, i32::MAX as int) == Some(v as int),
        r is None ==> parse_int(s@, true, i32::MIN as int, i32::MAX as int) is None,
{
    match parse_int_in(s, true, i32::MIN as i128, i32::MAX as i128) {
        Some(v) => Some(v as i32),
        None => None,
    }
}

/// `s.parse::<i8>()`.
pub fn parse_i8(s: &str) -> (r: Option<i8>)
    ensures
        r matches Some(v) ==> parse_int(s@, true, i8::MIN as int, i8::MAX as int) == Some(v as int),
        r is None ==> parse_int(s@, true, i8::MIN as int, i8::MAX as int) is None,
{
    match parse_int_in(s, true, i8::MIN as i128, i8::MAX as i128) {
        Some(v) => Some(v as i8),
        None => None,
    }
}

/// `s.parse::<u64>()`.
pub fn parse_u64(s: &str) -> (r: Option<u64>)
    ensures
        r matches Some(v) ==> parse_int(s@, false, 0, u64::MAX as int) == Some(v as int),
        r is None ==> parse_int(s@, false, 0, u64::MAX as int) is None,
{
    match parse_int_in(s, false, 0, u64::MAX as i128) {
        Some(v) => Some(v as u64),
        None => None,
    }
}

/// `s.parse::<u32>()`.
pub fn parse_u32(s: &str) -> (r: Option<u32>)
    ensures
        r matches Some(v) ==> parse_int(s@, false, 0, u32::MAX as int) == Some(v as int),
        r is None ==> parse_int(s@, false, 0, u32::MAX as int) is None,
{
    match parse_int_in(s, false, 0, u32::MAX as i128) {
        Some(v) => Some(v as u32),
        None => None,
    }
}

/// `s.parse::<u16>()`.
pub fn parse_u16(s: &str) -> (r: Option<u16>)
    ensures
        r matches Some(v) ==> parse_int(s@, false, 0, u16::MAX as int) == Some(v as int),
        r is None ==> parse_int(s@, false, 0, u16::MAX as int) is None,
{
    match parse_int_in(s, false, 0, u16::MAX as i128) {
        Some(v) => Some(v as u16),
        None => None,
    }
}

/// `s.parse::<u8>()`.
pub fn parse_u8(s: &str) -> (r: Option<u8>)
    ensures
        r matches Some(v) ==> parse_int(s@, false, 0, u8::MAX as int) == Some(v as int),
        r is None ==> parse_int(s@, false, 0, u8::MAX as int) is None,
{
    match parse_int_in(s, false, 0, u8::MAX as i128) {
        Some(v) => Some(v as u8),
        None => None,
    }
}

/// Whether `c` occurs in `s` (`str::contains` with a character).
pub fn contains_char(s: &str, c: char) -> (r: bool)
    ensures
        r == s@.contains(c),
{
    let v = chars_of(s);
    let mut i: usize = 0;
    while i < v.len()
        invariant
            i <= v@.len(),
            v@ == s@,
            forall|j: int| 0 <= j < i ==> v@[j] != c,
        decreases v.len() - i,
    {
        if v[i] == c {
            return true;
        }
        i = i + 1;
    }
    false
}

/// The text that `Debug` writes for a string: the string in double quotes,
/// with the escapes of `char::escape_debug`.
pub uninterp spec fn str_debug(s: Seq<char>) -> Seq<char>;

/// `format!("{:?}", s)` for a string slice; the result is a function of
/// the argument alone. The escaping rules themselves are not restated here.
#[verifier::external_body]
pub fn debug_str(s: &str) -> (r: String)
    ensures
        r@ == str_debug(s@),
{
    format!("{:?}", s)
}

/// Text of ASCII characters none of which is an upper-case letter is its
/// own lower-case form.
pub proof fn lemma_lower_ascii_id(s: Seq<char>)
    requires
        forall|i: int| 0 <= i < s.len() ==> (s[i] as u32) < 128 && !('A' <= #[trigger] s[i] && s[i] <= 'Z'),
    ensures
        all_ascii(s),
        s.map_values(|c: char| lower_ascii(c)) == s,
{
    assert(s.map_values(|c: char| lower_ascii(c)) =~= s);
}

proof fn lemma_digit_char(d: int)
    requires
        0 <= d < 10,
    ensures
        is_digit(digit_char(d)),
        ((digit_char(d) as u32) - 48) as nat == d,
{
}

/// The decimal text of a natural number is a non-empty run of digits whose
/// value is the number.
pub proof fn lemma_dec_digits(n: nat)
    ensures
        dec(n).len() > 0,
        all_digits(dec(n)),
        digits_value(dec(n)) == n,
    decreases n,
{
    if n < 10 {
        lemma_digit_char(n as int);
        let s = seq![digit_char(n as int)];
        assert(s.drop_last() =~= Seq::<char>::empty());
        assert(digits_value(s) == digits_value(s.drop_last()) * 10 + ((s.last() as u32) - 48) as nat);
    } else {
        lemma_dec_digits(n / 10);
        lemma_digit_char((n % 10) as int);
        let s = dec(n);
        assert(s.drop_last() =~= dec(n / 10));
        assert(s.last() == digit_char((n % 10) as int));
        assert(n == (n / 10) * 10 + n % 10) by (nonlinear_arith);
        assert(digits_value(s) == digits_value(dec(n / 10)) * 10 + ((s.last() as u32) - 48) as nat);
        assert forall|i: int| 0 <= i < s.len() implies is_digit(#[trigger] s[i]) by {
            if i < s.len() - 1 {
                assert(s[i] == dec(n / 10)[i]);
            }
        }
    }
}

/// An integer written in decimal reads back as itself wherever it fits the
/// type it is read as.
pub proof fn lemma_dec_int_reads_back(x: int, lo: int, hi: int)
    requires
        lo <= x <= hi,
    ensures
        parse_int(dec_int(x), true, lo, hi) == Some(x),
{
    if x < 0 {
        let d = dec((-x) as nat);
        lemma_dec_digits((-x) as nat);
        let s = seq!['-'] + d;
        assert(s.drop_first() =~= d);
        assert(s[0] == '-');
    } else {
        let d = dec(x as nat);
        lemma_dec_digits(x as nat);
        assert(is_digit(d[0]));
    }
}


/// An unsigned number written in decimal reads back as itself.
pub proof fn lemma_dec_reads_back(x: nat, hi: int)
    requires
        x <= hi,
    ensures
        parse_int(dec(x), false, 0, hi) == Some(x as int),
{
    lemma_dec_digits(x);
    assert(is_digit(dec(x)[0]));
}

} // verus!
