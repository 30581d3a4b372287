//! Character-level helpers: rendering integers as digits, reading digits back,
//! and comparing or searching text.
use vstd::prelude::*;
use vstd::string::StrSliceExecFns;
use vstd::string::StringExecFns;

verus! {

/// The character for digit `d` (0 to 15), upper case past nine.
pub open spec fn hex_digit(d: int) -> char {
    if d == 0 { '0' } else if d == 1 { '1' } else if d == 2 { '2' } else if d == 3 { '3' }
    else if d == 4 { '4' } else if d == 5 { '5' } else if d == 6 { '6' } else if d == 7 { '7' }
    else if d == 8 { '8' } else if d == 9 { '9' } else if d == 10 { 'A' } else if d == 11 { 'B' }
    else if d == 12 { 'C' } else if d == 13 { 'D' } else if d == 14 { 'E' } else { 'F' }
}

/// The value of a decimal digit character, if it is one.
pub open spec fn digit_value(c: char) -> Option<nat> {
    if c == '0' { Some(0) } else if c == '1' { Some(1) } else if c == '2' { Some(2) }
    else if c == '3' { Some(3) } else if c == '4' { Some(4) } else if c == '5' { Some(5) }
    else if c == '6' { Some(6) } else if c == '7' { Some(7) } else if c == '8' { Some(8) }
    else if c == '9' { Some(9) } else { None }
}

pub open spec fn is_upper_hex(c: char) -> bool {
    exists|d: int| 0 <= d < 16 && hex_digit(d) == c
}

/// The last `n` hexadecimal digits of `v`, most significant first.
pub open spec fn hex_fixed(v: nat, n: nat) -> Seq<char>
    decreases n,
{
    if n == 0 {
        Seq::empty()
    } else {
        hex_fixed(v / 16, (n - 1) as nat).push(hex_digit((v % 16) as int))
    }
}

/// `v` in decimal, without leading zeros.
pub open spec fn dec(v: nat) -> Seq<char>
    decreases v,
{
    if v < 10 {
        seq![hex_digit(v as int)]
    } else {
        dec(v / 10).push(hex_digit((v % 10) as int))
    }
}

/// `n` zeros.
pub open spec fn zeros(n: nat) -> Seq<char> {
    Seq::new(n, |i: int| '0')
}

/// `v` in decimal, padded on the left with zeros to at least `w` characters.
pub open spec fn dec_padded(v: nat, w: nat) -> Seq<char> {
    if dec(v).len() >= w {
        dec(v)
    } else {
        zeros((w - dec(v).len()) as nat) + dec(v)
    }
}

/// The number that a run of decimal digits denotes, most significant first.
pub open spec fn digits_value(s: Seq<char>) -> nat
    decreases s.len(),
{
    if s.len() == 0 {
        0
    } else {
        digits_value(s.drop_last()) * 10 + digit_value(s.last()).unwrap_or(0)
    }
}

pub open spec fn all_digits(s: Seq<char>) -> bool {
    forall|i: int| 0 <= i < s.len() ==> (#[trigger] digit_value(s[i])) is Some
}

/// `s` without one leading `+`.
pub open spec fn unsigned_body(s: Seq<char>) -> Seq<char> {
    if s.len() > 0 && s[0] == '+' { s.drop_first() } else { s }
}

/// What reading `s` as an unsigned 64-bit integer gives: an optional `+`, then
/// one or more decimal digits, with a value that fits.
pub open spec fn parse_u64(s: Seq<char>) -> Option<u64> {
    let body = unsigned_body(s);
    if body.len() > 0 && all_digits(body) && digits_value(body) <= u64::MAX {
        Some(digits_value(body) as u64)
    } else {
        None
    }
}

/// `pat` occurs in `s` at position `i`.
pub open spec fn occurs_at(s: Seq<char>, pat: Seq<char>, i: int) -> bool {
    0 <= i && i + pat.len() <= s.len() && s.subrange(i, i + pat.len()) == pat
}

/// The first position of `pat` in `s` at or after `from`, if any.
pub open spec fn first_at_from(s: Seq<char>, pat: Seq<char>, from: int, i: int) -> bool {
    from <= i && occurs_at(s, pat, i) && forall|j: int| from <= j < i ==> !occurs_at(s, pat, j)
}

pub open spec fn absent_from(s: Seq<char>, pat: Seq<char>, from: int) -> bool {
    forall|j: int| from <= j ==> !occurs_at(s, pat, j)
}

pub fn hex_char(d: u64) -> (c: char)
    requires
        d < 16,
    ensures
        c == hex_digit(d as int),
{
    if d == 0 { '0' } else if d == 1 { '1' } else if d == 2 { '2' } else if d == 3 { '3' }
    else if d == 4 { '4' } else if d == 5 { '5' } else if d == 6 { '6' } else if d == 7 { '7' }
    else if d == 8 { '8' } else if d == 9 { '9' } else if d == 10 { 'A' } else if d == 11 { 'B' }
    else if d == 12 { 'C' } else if d == 13 { 'D' } else if d == 14 { 'E' } else { 'F' }
}

/// Relies on `FromIterator<&char> for String`: the string holds the characters in order.
#[verifier::external_body]
pub(crate) fn string_of(v: &Vec<char>) -> (r: String)
    ensures
        r@ == v@,
{
    v.iter().collect()
}

/// Appends the last `n` hexadecimal digits of `v`.
pub fn push_hex(v: u64, n: usize, out: &mut Vec<char>)
    ensures
        final(out)@ == old(out)@ + hex_fixed(v as nat, n as nat),
    decreases n,
{
    if n > 0 {
        push_hex(v / 16, n - 1, out);
        let c = hex_char(v % 16);
        out.push(c);
        assert(out@ =~= old(out)@ + hex_fixed(v as nat, n as nat));
    }
}

/// Appends `v` in decimal.
pub fn push_dec(v: u64, out: &mut Vec<char>)
    ensures
        final(out)@ == old(out)@ + dec(v as nat),
    decreases v,
{
    if v < 10 {
        let c = hex_char(v);
        out.push(c);
        assert(out@ =~= old(out)@ + dec(v as nat));
    } else {
        push_dec(v / 10, out);
        let c = hex_char(v % 10);
        out.push(c);
        assert(out@ =~= old(out)@ + dec(v as nat));
    }
}


/// Appends `v` in decimal, padded with zeros to at least `w` characters.
pub fn push_dec_padded(v: u64, w: usize, out: &mut Vec<char>)
    ensures
        final(out)@ == old(out)@ + dec_padded(v as nat, w as nat),
{
    let mut digits: Vec<char> = Vec::new();
    push_dec(v, &mut digits);
    assert(digits@ =~= dec(v as nat));
    let len = digits.len();
    if len < w {
        let mut k: usize = 0;
        while k < w - len
            invariant
                k <= w - len,
                len < w,
                out@ == old(out)@ + zeros(k as nat),
            decreases w - len - k,
        {
            out.push('0');
            k = k + 1;
            assert(out@ =~= old(out)@ + zeros(k as nat));
        }
    }
    let mut j: usize = 0;
    let ghost before = out@;
    while j < len
        invariant
            j <= len,
            len == digits@.len(),
            out@ == before + digits@.subrange(0, j as int),
        decreases len - j,
    {
        out.push(digits[j]);
        j = j + 1;
        assert(out@ =~= before + digits@.subrange(0, j as int));
    }
    assert(out@ =~= old(out)@ + dec_padded(v as nat, w as nat));
}

/// The characters of `s`.
pub fn chars_of(s: &str) -> (r: Vec<char>)
    ensures
        r@ == s@,
{
    let n = s.unicode_len();
    let mut r: Vec<char> = Vec::new();
    let mut i: usize = 0;
    while i < n
        invariant
            i <= n,
            n == s@.len(),
            r@ == s@.subrange(0, i as int),
        decreases n - i,
    {
        r.push(s.get_char(i));
        i = i + 1;
        assert(r@ =~= s@.subrange(0, i as int));
    }
    assert(r@ =~= s@);
    r
}

proof fn lemma_digit_round_trip(d: int)
    requires
        0 <= d < 10,
    ensures
        digit_value(hex_digit(d)) == Some(d as nat),
{
}

/// Reading back a decimal rendering gives the number.
pub proof fn lemma_dec_value(v: nat)
    ensures
        digits_value(dec(v)) == v,
    decreases v,
{
    if v < 10 {
        lemma_digit_round_trip(v as int);
        assert(dec(v).drop_last() =~= Seq::<char>::empty());
        assert(dec(v).last() == hex_digit(v as int));
        assert(digits_value(Seq::<char>::empty()) == 0);
    } else {
        lemma_dec_value(v / 10);
        lemma_digit_round_trip((v % 10) as int);
        assert(dec(v).drop_last() =~= dec(v / 10));
        assert(dec(v).last() == hex_digit((v % 10) as int));
        assert((v / 10) * 10 + v % 10 == v);
    }
}

proof fn lemma_zeros_value(k: nat, s: Seq<char>)
    ensures
        digits_value(zeros(k) + s) == digits_value(s),
    decreases s.len(), k,
{
    if s.len() == 0 {
        assert(zeros(k) + s =~= zeros(k));
        if k > 0 {
            assert(zeros(k).drop_last() =~= zeros((k - 1) as nat));
            lemma_zeros_value((k - 1) as nat, s);
            assert(zeros((k - 1) as nat) + s =~= zeros((k - 1) as nat));
        }
    } else {
        assert((zeros(k) + s).drop_last() =~= zeros(k) + s.drop_last());
        lemma_zeros_value(k, s.drop_last());
    }
}

/// Reading back a padded decimal rendering gives the number, so the
/// rendering is one-to-one.
pub proof fn lemma_dec_padded_value(v: nat, w: nat)
    ensures
        digits_value(dec_padded(v, w)) == v,
{
    lemma_dec_value(v);
    if dec(v).len() < w {
        lemma_zeros_value((w - dec(v).len()) as nat, dec(v));
    }
}

/// Whether the two texts are the same, character for character.
pub fn same_text(a: &str, b: &str) -> (r: bool)
    ensures
        r == (a@ == b@),
{
    let n = a.unicode_len();
    if n != b.unicode_len() {
        return false;
    }
    let mut i: usize = 0;
    while i < n
        invariant
            i <= n,
            n == a@.len(),
            n == b@.len(),
            a@.subrange(0, i as int) == b@.subrange(0, i as int),
        decreases n - i,
    {
        if a.get_char(i) != b.get_char(i) {
            assert(a@[i as int] != b@[i as int]);
            return false;
        }
        assert(a@.subrange(0, i + 1) =~= a@.subrange(0, i as int).push(a@[i as int]));
        assert(b@.subrange(0, i + 1) =~= b@.subrange(0, i as int).push(b@[i as int]));
        i = i + 1;
    }
    assert(a@ =~= a@.subrange(0, n as int));
    assert(b@ =~= b@.subrange(0, n as int));
    true
}

/// The text `a` followed by `b`.
pub fn join(a: &str, b: &str) -> (r: String)
    ensures
        r@ == a@ + b@,
{
    let mut r = String::from_str(a);
    r.append(b);
    r
}

} // verus!
