//! Character-sequence utilities shared by the parsers and formatters.
//!
//! Text is modelled by its sequence of Unicode scalar values (`Seq<char>`),
//! which is the view vstd gives to `str` and `String`.

use vstd::prelude::*;
use vstd::utf8::{encode_scalar, encode_utf8};

verus! {

// ---------------------------------------------------------------------
// Conversions between strings and character vectors
// ---------------------------------------------------------------------

/// The characters of a string slice, in order.
pub fn chars_of(s: &str) -> (v: Vec<char>)
    ensures
        v@ == s@,
{
    let mut v: Vec<char> = Vec::new();
    for c in it: s.chars()
        invariant
            it.seq() == s@,
            v@ == it.seq().take(it.index() as int),
    {
        v.push(c);
    }
    v
}

} // verus!

verus! {

/// A string holding exactly the given characters.
#[verifier::external_body]
pub(crate) fn string_from_chars(v: &Vec<char>) -> (s: String)
    ensures
        s@ == v@,
{
    v.iter().collect()
}

/// The characters `v[lo..hi]` as a new vector.
pub fn subrange_vec(v: &Vec<char>, lo: usize, hi: usize) -> (r: Vec<char>)
    requires
        lo <= hi <= v.len(),
    ensures
        r@ == v@.subrange(lo as int, hi as int),
{
    let mut r: Vec<char> = Vec::new();
    let mut i = lo;
    while i < hi
        invariant
            lo <= i <= hi <= v.len(),
            r@ == v@.subrange(lo as int, i as int),
        decreases hi - i,
    {
        r.push(v[i]);
        i = i + 1;
    }
    r
}

/// Appends all of `extra` to `out`.
pub fn append_chars(out: &mut Vec<char>, extra: &Vec<char>)
    ensures
        final(out)@ == old(out)@ + extra@,
{
    let mut i: usize = 0;
    while i < extra.len()
        invariant
            i <= extra.len(),
            out@ == old(out)@ + extra@.take(i as int),
        decreases extra.len() - i,
    {
        out.push(extra[i]);
        i = i + 1;
        proof {
            assert(extra@.take(i as int) == extra@.take(i - 1).push(extra@[i - 1]));
        }
    }
    proof {
        assert(extra@.take(i as int) == extra@);
    }
}

/// Whether two character vectors hold the same characters.
pub fn chars_eq(a: &Vec<char>, b: &Vec<char>) -> (r: bool)
    ensures
        r == (a@ == b@),
{
    if a.len() != b.len() {
        return false;
    }
    let mut i: usize = 0;
    while i < a.len()
        invariant
            a.len() == b.len(),
            i <= a.len(),
            forall|j: int| 0 <= j < i ==> a@[j] == b@[j],
        decreases a.len() - i,
    {
        if a[i] != b[i] {
            return false;
        }
        i = i + 1;
    }
    proof {
        assert(a@ =~= b@);
    }
    true
}

// ---------------------------------------------------------------------
// Whitespace and trimming
// ---------------------------------------------------------------------

/// The Unicode `White_Space` property, which `char::is_whitespace` tests.
pub open spec fn is_whitespace_spec(c: char) -> bool {
    let u = c as u32;
    ||| 9 <= u <= 13
    ||| u == 32
    ||| u == 0x85
    ||| u == 0xA0
    ||| u == 0x1680
    ||| 0x2000 <= u <= 0x200A
    ||| u == 0x2028
    ||| u == 0x2029
    ||| u == 0x202F
    ||| u == 0x205F
    ||| u == 0x3000
}

/// Whether `c` is whitespace in the sense of `char::is_whitespace`.
pub fn is_whitespace_char(c: char) -> (r: bool)
    ensures
        r == is_whitespace_spec(c),
{
    let u = c as u32;
    (9 <= u && u <= 13) || u == 32 || u == 0x85 || u == 0xA0 || u == 0x1680 || (0x2000 <= u && u
        <= 0x200A) || u == 0x2028 || u == 0x2029 || u == 0x202F || u == 0x205F || u == 0x3000
}

/// `s` without its leading whitespace.
pub open spec fn trim_start_spec(s: Seq<char>) -> Seq<char>
    decreases s.len(),
{
    if s.len() > 0 && is_whitespace_spec(s[0]) {
        trim_start_spec(s.drop_first())
    } else {
        s
    }
}

/// `s` without its trailing whitespace.
pub open spec fn trim_end_spec(s: Seq<char>) -> Seq<char>
    decreases s.len(),
{
    if s.len() > 0 && is_whitespace_spec(s.last()) {
        trim_end_spec(s.drop_last())
    } else {
        s
    }
}

/// `s` without leading and trailing whitespace, as `str::trim` gives it.
pub open spec fn trim_spec(s: Seq<char>) -> Seq<char> {
    trim_end_spec(trim_start_spec(s))
}

/// Trimming the start drops exactly the leading run of whitespace.
pub proof fn lemma_trim_start_skip(s: Seq<char>, k: int)
    requires
        0 <= k <= s.len(),
        forall|j: int| 0 <= j < k ==> is_whitespace_spec(#[trigger] s[j]),
        k == s.len() || !is_whitespace_spec(s[k]),
    ensures
        trim_start_spec(s) == s.skip(k),
    decreases k,
{
    if k == 0 {
        assert(s.skip(0) =~= s);
    } else {
        assert(is_whitespace_spec(s[0]));
        let t = s.drop_first();
        assert forall|j: int| 0 <= j < k - 1 implies is_whitespace_spec(#[trigger] t[j]) by {
            assert(t[j] == s[j + 1]);
        }
        if k - 1 < t.len() {
            assert(t[k - 1] == s[k]);
        }
        lemma_trim_start_skip(t, k - 1);
        assert(t.skip(k - 1) =~= s.skip(k));
    }
}

/// Trimming the end drops exactly the trailing run of whitespace.
pub proof fn lemma_trim_end_take(s: Seq<char>, k: int)
    requires
        0 <= k <= s.len(),
        forall|j: int| k <= j < s.len() ==> is_whitespace_spec(#[trigger] s[j]),
        k == 0 || !is_whitespace_spec(s[k - 1]),
    ensures
        trim_end_spec(s) == s.take(k),
    decreases s.len() - k,
{
    if k == s.len() {
        assert(s.take(k) =~= s);
    } else {
        assert(is_whitespace_spec(s[s.len() - 1]));
        let t = s.drop_last();
        assert forall|j: int| k <= j < t.len() implies is_whitespace_spec(#[trigger] t[j]) by {
            assert(t[j] == s[j]);
        }
        if k > 0 {
            assert(t[k - 1] == s[k - 1]);
        }
        lemma_trim_end_take(t, k);
        assert(t.take(k) =~= s.take(k));
    }
}

/// The bounds `(lo, hi)` of `v` with leading and trailing whitespace removed.
pub fn trim_bounds(v: &Vec<char>) -> (r: (usize, usize))
    ensures
        r.0 <= r.1 <= v.len(),
        v@.subrange(r.0 as int, r.1 as int) == trim_spec(v@),
        trim_start_spec(v@) == v@.skip(r.0 as int),
{
    let mut lo: usize = 0;
    while lo < v.len() && is_whitespace_char(v[lo])
        invariant
            lo <= v.len(),
            forall|j: int| 0 <= j < lo ==> is_whitespace_spec(#[trigger] v@[j]),
        decreases v.len() - lo,
    {
        lo = lo + 1;
    }
    let mut hi: usize = v.len();
    while hi > lo && is_whitespace_char(v[hi - 1])
        invariant
            lo <= hi <= v.len(),
            forall|j: int| hi <= j < v.len() ==> is_whitespace_spec(#[trigger] v@[j]),
        decreases hi,
    {
        hi = hi - 1;
    }
    proof {
        lemma_trim_start_skip(v@, lo as int);
        let t = v@.skip(lo as int);
        assert forall|j: int| hi - lo <= j < t.len() implies is_whitespace_spec(#[trigger] t[j]) by {
            assert(t[j] == v@[j + lo]);
        }
        if hi > lo {
            assert(t[hi - lo - 1] == v@[hi - 1]);
        }
        lemma_trim_end_take(t, hi - lo);
        assert(t.take(hi - lo) =~= v@.subrange(lo as int, hi as int));
    }
    (lo, hi)
}

/// `v` without leading and trailing whitespace.
pub fn trim_chars(v: &Vec<char>) -> (r: Vec<char>)
    ensures
        r@ == trim_spec(v@),
{
    let (lo, hi) = trim_bounds(v);
    subrange_vec(v, lo, hi)
}

} // verus!

verus! {

// ---------------------------------------------------------------------
// Decimal numbers
// ---------------------------------------------------------------------

/// The ASCII character of the decimal digit `d`.
pub open spec fn digit_char(d: nat) -> char {
    (48 + d) as char
}

/// The shortest decimal representation of `n`, as `format!("{}", n)` writes it.
pub open spec fn decimal_spec(n: nat) -> Seq<char>
    decreases n,
{
    if n < 10 {
        seq![digit_char(n)]
    } else {
        decimal_spec(n / 10).push(digit_char(n % 10))
    }
}

/// `s` padded on the left with `'0'` up to `width` characters, as `{:0width}` does.
pub open spec fn zero_pad(s: Seq<char>, width: nat) -> Seq<char> {
    if s.len() >= width {
        s
    } else {
        Seq::new((width - s.len()) as nat, |_i: int| '0') + s
    }
}

fn digit_to_char(d: u64) -> (c: char)
    requires
        d < 10,
    ensures
        c == digit_char(d as nat),
        c as u32 == 48 + d,
{
    let b: u8 = 48u8 + d as u8;
    b as char
}

/// The decimal digits of `n`.
pub fn decimal_digits(n: u64) -> (r: Vec<char>)
    ensures
        r@ == decimal_spec(n as nat),
    decreases n,
{
    if n < 10 {
        let mut r: Vec<char> = Vec::new();
        r.push(digit_to_char(n));
        r
    } else {
        let mut r = decimal_digits(n / 10);
        r.push(digit_to_char(n % 10));
        r
    }
}

/// Appends `n` in decimal, zero-padded to at least `width` characters.
pub fn push_decimal(out: &mut Vec<char>, n: u64, width: usize)
    ensures
        final(out)@ == old(out)@ + zero_pad(decimal_spec(n as nat), width as nat),
{
    let digits = decimal_digits(n);
    let mut pad: Vec<char> = Vec::new();
    if digits.len() < width {
        let count = width - digits.len();
        let mut i: usize = 0;
        while i < count
            invariant
                i <= count,
                pad@ == Seq::new(i as nat, |_j: int| '0'),
            decreases count - i,
        {
            pad.push('0');
            i = i + 1;
            proof {
                assert(pad@ =~= Seq::new(i as nat, |_j: int| '0'));
            }
        }
    }
    append_chars(out, &pad);
    append_chars(out, &digits);
    proof {
        if digits.len() >= width {
            assert(pad@ =~= Seq::<char>::empty());
        }
        assert(old(out)@ + pad@ + digits@ =~= old(out)@ + (pad@ + digits@));
    }
}

/// Whether `c` is one of the ASCII digits `'0'..='9'`.
pub open spec fn is_ascii_digit_spec(c: char) -> bool {
    '0' <= c && c <= '9'
}

/// The value of the decimal digits `s`, most significant first.
pub open spec fn digits_value(s: Seq<char>) -> nat
    decreases s.len(),
{
    if s.len() == 0 {
        0
    } else {
        digits_value(s.drop_last()) * 10 + ((s.last() as u32) - 48) as nat
    }
}

/// Whether every character of `s` is an ASCII digit.
pub open spec fn all_ascii_digits(s: Seq<char>) -> bool {
    forall|i: int| 0 <= i < s.len() ==> is_ascii_digit_spec(#[trigger] s[i])
}

/// The digits that `u64::from_str` reads: `s` without one leading `'+'`.
pub open spec fn unsigned_digits(s: Seq<char>) -> Seq<char> {
    if s.len() > 0 && s[0] == '+' {
        s.drop_first()
    } else {
        s
    }
}

/// What `s.parse::<u64>()` gives: an optional `'+'`, then one or more
/// ASCII digits whose value fits in a `u64`.
pub open spec fn parse_u64_spec(s: Seq<char>) -> Option<u64> {
    let d = unsigned_digits(s);
    if d.len() > 0 && all_ascii_digits(d) && digits_value(d) <= u64::MAX {
        Some(digits_value(d) as u64)
    } else {
        None
    }
}

/// A longer prefix of digits is worth at least as much as a shorter one.
pub proof fn lemma_digits_value_prefix(s: Seq<char>, i: int)
    requires
        0 <= i <= s.len(),
        all_ascii_digits(s),
    ensures
        digits_value(s.take(i)) <= digits_value(s),
    decreases s.len() - i,
{
    if i < s.len() {
        lemma_digits_value_prefix(s, i + 1);
        let t = s.take(i + 1);
        assert(t.drop_last() =~= s.take(i));
    } else {
        assert(s.take(i) =~= s);
    }
}

/// Parses a decimal `u64` the way `str::parse::<u64>` does.
pub fn parse_u64(v: &Vec<char>) -> (r: Option<u64>)
    ensures
        r == parse_u64_spec(v@),
{
    let start: usize = if v.len() > 0 && v[0] == '+' {
        1
    } else {
        0
    };
    let ghost d = unsigned_digits(v@);
    proof {
        assert(d =~= v@.skip(start as int));
    }
    if start >= v.len() {
        return None;
    }
    let mut acc: u64 = 0;
    let mut i: usize = start;
    while i < v.len()
        invariant
            start <= i <= v.len(),
            start < v.len(),
            d == unsigned_digits(v@),
            d == v@.skip(start as int),
            all_ascii_digits(d.take(i - start)),
            acc as nat == digits_value(d.take(i - start)),
        decreases v.len() - i,
    {
        let c = v[i];
        if !('0' <= c && c <= '9') {
            proof {
                assert(d[i - start] == c);
                assert(!all_ascii_digits(d));
            }
            return None;
        }
        let dv: u64 = (c as u32 - 48) as u64;
        proof {
            let t = d.take(i - start + 1);
            assert(t.drop_last() =~= d.take(i - start));
            assert(t.last() == c);
            assert(all_ascii_digits(t));
        }
        if acc > (u64::MAX - dv) / 10 {
            proof {
                let t = d.take(i - start + 1);
                assert(digits_value(t) == acc * 10 + dv);
                assert(acc * 10 + dv > u64::MAX) by (nonlinear_arith)
                    requires
                        acc > (u64::MAX - dv) / 10,
                        dv <= 9,
                ;
                if all_ascii_digits(d) {
                    lemma_digits_value_prefix(d, i - start + 1);
                }
            }
            return None;
        }
        proof {
            assert(acc * 10 + dv <= u64::MAX) by (nonlinear_arith)
                requires
                    acc <= (u64::MAX - dv) / 10,
                    dv <= 9,
            ;
        }
        acc = acc * 10 + dv;
        i = i + 1;
    }
    proof {
        assert(d.take(i - start) =~= d);
    }
    Some(acc)
}

// ---------------------------------------------------------------------
// Searching and splitting
// ---------------------------------------------------------------------

/// Whether `p` occurs in `s` starting at index `i`.
pub open spec fn occurs_at(s: Seq<char>, p: Seq<char>, i: int) -> bool {
    0 <= i && i + p.len() <= s.len() && s.subrange(i, i + p.len()) == p
}

/// Whether `i` is the leftmost occurrence of `p` in `s`.
pub open spec fn is_first_occurrence(s: Seq<char>, p: Seq<char>, i: int) -> bool {
    occurs_at(s, p, i) && forall|j: int| 0 <= j < i ==> !occurs_at(s, p, j)
}

/// What `str::split_once` gives for a non-empty pattern: the text before and
/// after the leftmost occurrence of `p`, or `None` if `p` does not occur.
pub open spec fn split_once_spec(s: Seq<char>, p: Seq<char>) -> Option<(Seq<char>, Seq<char>)> {
    if exists|i: int| is_first_occurrence(s, p, i) {
        let i = choose|i: int| is_first_occurrence(s, p, i);
        Some((s.take(i), s.skip(i + p.len())))
    } else {
        None
    }
}

/// Whether `p` occurs in `v` at `i`.
pub fn occurs_at_exec(v: &Vec<char>, p: &Vec<char>, i: usize) -> (r: bool)
    ensures
        r == occurs_at(v@, p@, i as int),
{
    if i > v.len() || p.len() > v.len() - i {
        return false;
    }
    let mut k: usize = 0;
    while k < p.len()
        invariant
            i + p.len() <= v.len(),
            k <= p.len(),
            forall|j: int| 0 <= j < k ==> v@[i + j] == p@[j],
        decreases p.len() - k,
    {
        if v[i + k] != p[k] {
            proof {
                assert(v@.subrange(i as int, i + p.len())[k as int] == v@[i + k]);
            }
            return false;
        }
        k = k + 1;
    }
    proof {
        assert(v@.subrange(i as int, i + p.len()) =~= p@);
    }
    true
}

/// The leftmost occurrence of the non-empty pattern `p` in `v`.
pub fn find_first(v: &Vec<char>, p: &Vec<char>) -> (r: Option<usize>)
    requires
        p.len() > 0,
    ensures
        match r {
            Some(i) => is_first_occurrence(v@, p@, i as int),
            None => forall|j: int| !occurs_at(v@, p@, j),
        },
{
    let mut i: usize = 0;
    while i < v.len()
        invariant
            i <= v.len(),
            forall|j: int| 0 <= j < i ==> !occurs_at(v@, p@, j),
        decreases v.len() - i,
    {
        if occurs_at_exec(v, p, i) {
            return Some(i);
        }
        i = i + 1;
    }
    proof {
        assert forall|j: int| !occurs_at(v@, p@, j) by {
            if occurs_at(v@, p@, j) && j >= v.len() {
                assert(p@.len() == 0);
                assert(j + p@.len() <= v.len());
            }
        }
    }
    None
}

/// Splits `v` around the leftmost occurrence of `p`, as `str::split_once` does.
pub fn split_once(v: &Vec<char>, p: &Vec<char>) -> (r: Option<(Vec<char>, Vec<char>)>)
    requires
        p.len() > 0,
    ensures
        match r {
            Some((a, b)) => split_once_spec(v@, p@) == Some((a@, b@)),
            None => split_once_spec(v@, p@) is None,
        },
{
    match find_first(v, p) {
        Some(i) => {
            proof {
                assert(occurs_at(v@, p@, i as int));
                assert(i + p@.len() <= v@.len());
                assert(i + p.len() <= v.len());
            }
            let a = subrange_vec(v, 0, i);
            let b = subrange_vec(v, i + p.len(), v.len());
            proof {
                let k = choose|k: int| is_first_occurrence(v@, p@, k);
                if k < i {
                } else if i < k {
                }
                assert(k == i);
                assert(a@ =~= v@.take(i as int));
                assert(b@ =~= v@.skip(i + p.len()));
            }
            Some((a, b))
        },
        None => None,
    }
}

// ---------------------------------------------------------------------
// ASCII case
// ---------------------------------------------------------------------

/// `c` with ASCII upper-case letters mapped to lower case.
pub open spec fn ascii_lower(c: char) -> char {
    if 'A' <= c && c <= 'Z' {
        ((c as u32) + 32) as char
    } else {
        c
    }
}

/// What `str::eq_ignore_ascii_case` decides.
pub open spec fn eq_ignore_ascii_case_spec(a: Seq<char>, b: Seq<char>) -> bool {
    a.len() == b.len() && forall|i: int| 0 <= i < a.len() ==> ascii_lower(a[i]) == ascii_lower(b[i])
}

fn ascii_lower_exec(c: char) -> (r: char)
    ensures
        r == ascii_lower(c),
{
    if 'A' <= c && c <= 'Z' {
        let b: u8 = (c as u32 + 32) as u8;
        b as char
    } else {
        c
    }
}

/// Whether `a` and `b` are equal up to ASCII case.
pub fn eq_ignore_ascii_case(a: &Vec<char>, b: &Vec<char>) -> (r: bool)
    ensures
        r == eq_ignore_ascii_case_spec(a@, b@),
{
    if a.len() != b.len() {
        return false;
    }
    let mut i: usize = 0;
    while i < a.len()
        invariant
            a.len() == b.len(),
            i <= a.len(),
            forall|j: int| 0 <= j < i ==> ascii_lower(a@[j]) == ascii_lower(b@[j]),
        decreases a.len() - i,
    {
        if ascii_lower_exec(a[i]) != ascii_lower_exec(b[i]) {
            return false;
        }
        i = i + 1;
    }
    true
}

} // verus!

verus! {

/// Decimal text consists of ASCII digits and is never empty.
pub proof fn lemma_decimal_digits(n: nat)
    ensures
        decimal_spec(n).len() >= 1,
        all_ascii_digits(decimal_spec(n)),
        digits_value(decimal_spec(n)) == n,
    decreases n,
{
    if n >= 10 {
        lemma_decimal_digits(n / 10);
        let s = decimal_spec(n);
        assert(s.drop_last() =~= decimal_spec(n / 10));
        assert((digit_char(n % 10) as u32) == 48 + n % 10);
        assert(s.last() == digit_char(n % 10));
        assert(digits_value(s) == digits_value(decimal_spec(n / 10)) * 10 + n % 10);
        assert forall|i: int| 0 <= i < s.len() implies is_ascii_digit_spec(#[trigger] s[i]) by {
            if i < s.len() - 1 {
                assert(s[i] == decimal_spec(n / 10)[i]);
            }
        }
    } else {
        let s = decimal_spec(n);
        assert((digit_char(n) as u32) == 48 + n);
        assert(s.drop_last() =~= Seq::<char>::empty());
        assert(digits_value(s.drop_last()) == 0);
        assert(s.last() == digit_char(n));
    }
}

/// Leading zeros do not change the value of a digit string.
pub proof fn lemma_digits_value_leading_zeros(z: nat, s: Seq<char>)
    ensures
        digits_value(Seq::new(z, |_i: int| '0') + s) == digits_value(s),
    decreases s.len() + z,
{
    let zs = Seq::new(z, |_i: int| '0');
    if s.len() == 0 {
        assert(zs + s =~= zs);
        if z > 0 {
            let zs1 = Seq::new((z - 1) as nat, |_i: int| '0');
            assert(zs.drop_last() =~= zs1 + s);
            lemma_digits_value_leading_zeros((z - 1) as nat, s);
        }
    } else {
        assert((zs + s).drop_last() =~= zs + s.drop_last());
        lemma_digits_value_leading_zeros(z, s.drop_last());
    }
}

/// Reading back zero-padded decimal text gives the number.
pub proof fn lemma_parse_padded_decimal(n: nat, width: nat)
    requires
        n <= u64::MAX,
    ensures
        parse_u64_spec(zero_pad(decimal_spec(n), width)) == Some(n as u64),
        all_ascii_digits(zero_pad(decimal_spec(n), width)),
        zero_pad(decimal_spec(n), width).len() >= 1,
{
    lemma_decimal_digits(n);
    let d = decimal_spec(n);
    let p = zero_pad(d, width);
    if d.len() < width {
        let z = (width - d.len()) as nat;
        lemma_digits_value_leading_zeros(z, d);
        assert forall|i: int| 0 <= i < p.len() implies is_ascii_digit_spec(#[trigger] p[i]) by {
            if i >= z {
                assert(p[i] == d[i - z]);
            }
        }
    }
    assert(is_ascii_digit_spec(p[0]));
    assert(unsigned_digits(p) == p);
}

/// Splitting `a + p + b` at `p`, where `a` holds no character that starts
/// `p`, gives `a` and `b`.
pub proof fn lemma_split_once_at_pattern(a: Seq<char>, p: Seq<char>, b: Seq<char>)
    requires
        p.len() > 0,
        forall|i: int| 0 <= i < a.len() ==> a[i] != p[0],
    ensures
        split_once_spec(a + p + b, p) == Some((a, b)),
{
    let s = a + p + b;
    let k = a.len() as int;
    assert(s.subrange(k, k + p.len()) =~= p);
    assert forall|j: int| 0 <= j < k implies !occurs_at(s, p, j) by {
        if occurs_at(s, p, j) {
            assert(s.subrange(j, j + p.len())[0] == s[j]);
            assert(s[j] == a[j]);
        }
    }
    assert(is_first_occurrence(s, p, k));
    let i = choose|i: int| is_first_occurrence(s, p, i);
    if i < k {
    } else if i > k {
        assert(occurs_at(s, p, k));
    }
    assert(s.take(k) =~= a);
    assert(s.skip(k + p.len()) =~= b);
}

/// A text that starts and ends with a non-whitespace character, with a
/// space added on one side, trims back to itself.
pub proof fn lemma_trim_padded(x: Seq<char>)
    requires
        x.len() > 0,
        !is_whitespace_spec(x[0]),
        !is_whitespace_spec(x.last()),
    ensures
        trim_spec(x + seq![' ']) == x,
        trim_spec(seq![' '] + x) == x,
{
    let r = x + seq![' '];
    lemma_trim_start_skip(r, 0);
    assert(r.skip(0) =~= r);
    assert(r[x.len() - 1] == x.last());
    lemma_trim_end_take(r, x.len() as int);
    assert(r.take(x.len() as int) =~= x);
    let l = seq![' '] + x;
    assert(is_whitespace_spec(l[0]));
    assert(l[1] == x[0]);
    lemma_trim_start_skip(l, 1);
    assert(l.skip(1) =~= x);
    lemma_trim_identity(x);
}

/// Splitting `a + [c] + b` at `c`, where `a` holds no `c`, gives `a` and `b`.
pub proof fn lemma_split_once_at_char(a: Seq<char>, c: char, b: Seq<char>)
    requires
        forall|i: int| 0 <= i < a.len() ==> a[i] != c,
    ensures
        split_once_spec(a + seq![c] + b, seq![c]) == Some((a, b)),
{
    let s = a + seq![c] + b;
    let p = seq![c];
    let k = a.len() as int;
    assert(s.subrange(k, k + 1) =~= p);
    assert forall|j: int| 0 <= j < k implies !occurs_at(s, p, j) by {
        assert(s.subrange(j, j + 1)[0] == a[j]);
    }
    assert(is_first_occurrence(s, p, k));
    let i = choose|i: int| is_first_occurrence(s, p, i);
    if i < k {
    } else if i > k {
        assert(occurs_at(s, p, k));
    }
    assert(s.take(k) =~= a);
    assert(s.skip(k + 1) =~= b);
}

} // verus!

verus! {

// ---------------------------------------------------------------------
// UTF-8 byte offsets
// ---------------------------------------------------------------------

/// UTF-8 encoding distributes over concatenation.
pub proof fn lemma_encode_utf8_concat(a: Seq<char>, b: Seq<char>)
    ensures
        encode_utf8(a + b) == encode_utf8(a) + encode_utf8(b),
    decreases a.len(),
{
    if a.len() == 0 {
        assert(a + b =~= b);
        assert(encode_utf8(a) =~= Seq::<u8>::empty());
        assert(encode_utf8(a) + encode_utf8(b) =~= encode_utf8(b));
    } else {
        assert((a + b).drop_first() =~= a.drop_first() + b);
        assert((a + b)[0] == a[0]);
        lemma_encode_utf8_concat(a.drop_first(), b);
        assert(encode_utf8(a + b) =~= encode_utf8(a) + encode_utf8(b));
    }
}

/// The number of bytes of the UTF-8 encoding of `c`.
pub fn utf8_width(c: char) -> (r: usize)
    ensures
        r == encode_scalar(c as u32).len(),
        1 <= r <= 4,
{
    let u = c as u32;
    if u <= 0x7F {
        1
    } else if u <= 0x7FF {
        2
    } else if u <= 0xFFFF {
        proof {
            assert(!(0xD800 <= u <= 0xDFFF)) by {
                vstd::utf8::char_is_scalar(c);
            }
        }
        3
    } else {
        4
    }
}

/// The number of characters counted from the start, capped at the length.
pub open spec fn capped_index(s: Seq<char>, k: int) -> int {
    if k < s.len() {
        k
    } else {
        s.len() as int
    }
}

/// The byte offset of character `char_index` in `text`, or the byte length of
/// `text` when it has fewer characters.
pub fn char_to_byte_index(text: &str, char_index: usize) -> (r: usize)
    ensures
        r == encode_utf8(text@.take(capped_index(text@, char_index as int))).len(),
{
    let chars = chars_of(text);
    let bytes = text.as_bytes();
    let limit = if char_index < chars.len() {
        char_index
    } else {
        chars.len()
    };
    let mut total: usize = 0;
    let mut i: usize = 0;
    while i < limit
        invariant
            limit <= chars.len(),
            chars@ == text@,
            bytes@ == encode_utf8(text@),
            i <= limit,
            total == encode_utf8(chars@.take(i as int)).len(),
        decreases limit - i,
    {
        proof {
            lemma_encode_utf8_concat(chars@.take(i as int), seq![chars@[i as int]]);
            assert(chars@.take(i as int) + seq![chars@[i as int]] =~= chars@.take(i + 1));
            lemma_encode_utf8_concat(chars@.take(i + 1), chars@.skip(i + 1));
            assert(chars@.take(i + 1) + chars@.skip(i + 1) =~= chars@);
            let one = seq![chars@[i as int]];
            assert(one.drop_first() =~= Seq::<char>::empty());
            assert(encode_utf8(Seq::<char>::empty()) =~= Seq::<u8>::empty());
            assert(encode_utf8(one) =~= encode_scalar(chars@[i as int] as u32));
            assert(encode_utf8(chars@.take(i + 1)).len() <= bytes@.len());
            assert(encode_utf8(chars@.take(i + 1)).len() == total + encode_scalar(
                chars@[i as int] as u32,
            ).len());
            assert(bytes@.len() == bytes.len());
        }
        total = total + utf8_width(chars[i]);
        i = i + 1;
    }
    total
}

/// The number of characters of a string slice.
pub fn char_count(text: &str) -> (r: usize)
    ensures
        r == text@.len(),
{
    chars_of(text).len()
}

} // verus!

verus! {

// ---------------------------------------------------------------------
// Words and joining
// ---------------------------------------------------------------------

/// The words of `s`, as `str::split_whitespace` yields them: its maximal
/// runs of non-whitespace characters, in order.
pub open spec fn words_spec(s: Seq<char>) -> Seq<Seq<char>>
    decreases s.len(),
{
    if s.len() == 0 {
        seq![]
    } else if is_whitespace_spec(s.last()) {
        words_spec(s.drop_last())
    } else if s.len() >= 2 && !is_whitespace_spec(s[s.len() - 2]) {
        let w = words_spec(s.drop_last());
        w.update(w.len() - 1, w.last().push(s.last()))
    } else {
        words_spec(s.drop_last()).push(seq![s.last()])
    }
}

/// `parts` joined with `sep` between neighbours, as `[..].join(sep)` gives it.
pub open spec fn join_spec(parts: Seq<Seq<char>>, sep: Seq<char>) -> Seq<char>
    decreases parts.len(),
{
    if parts.len() == 0 {
        seq![]
    } else if parts.len() == 1 {
        parts[0]
    } else {
        join_spec(parts.drop_last(), sep) + sep + parts.last()
    }
}

/// The words of `s` separated by single spaces
/// (`s.split_whitespace().collect::<Vec<_>>().join(" ")`).
pub open spec fn collapse_whitespace_spec(s: Seq<char>) -> Seq<char> {
    join_spec(words_spec(s), seq![' '])
}

/// Words are never empty, and text ending in a non-space has a word.
pub proof fn lemma_words_nonempty(s: Seq<char>)
    ensures
        forall|k: int| 0 <= k < words_spec(s).len() ==> (#[trigger] words_spec(s)[k]).len() > 0,
        s.len() > 0 && !is_whitespace_spec(s.last()) ==> words_spec(s).len() > 0,
    decreases s.len(),
{
    if s.len() > 0 {
        let t = s.drop_last();
        lemma_words_nonempty(t);
        let w = words_spec(t);
        if is_whitespace_spec(s.last()) {
        } else if s.len() >= 2 && !is_whitespace_spec(s[s.len() - 2]) {
            assert(t.last() == s[s.len() - 2]);
            assert(w.len() > 0);
            let u = w.update(w.len() - 1, w.last().push(s.last()));
            assert forall|k: int| 0 <= k < u.len() implies (#[trigger] u[k]).len() > 0 by {
                if k < w.len() - 1 {
                    assert(u[k] == w[k]);
                }
            }
        } else {
            let u = w.push(seq![s.last()]);
            assert forall|k: int| 0 <= k < u.len() implies (#[trigger] u[k]).len() > 0 by {
                if k < w.len() {
                    assert(u[k] == w[k]);
                }
            }
        }
    }
}

/// Words hold no whitespace.
pub proof fn lemma_words_no_whitespace(s: Seq<char>)
    ensures
        forall|k: int, i: int|
            0 <= k < words_spec(s).len() && 0 <= i < words_spec(s)[k].len() ==> !is_whitespace_spec(
                #[trigger] words_spec(s)[k][i],
            ),
    decreases s.len(),
{
    if s.len() > 0 {
        let t = s.drop_last();
        lemma_words_no_whitespace(t);
        lemma_words_nonempty(t);
        let w = words_spec(t);
        if is_whitespace_spec(s.last()) {
        } else if s.len() >= 2 && !is_whitespace_spec(s[s.len() - 2]) {
            assert(t.last() == s[s.len() - 2]);
            let u = w.update(w.len() - 1, w.last().push(s.last()));
            assert forall|k: int, i: int| 0 <= k < u.len() && 0 <= i < u[k].len() implies !is_whitespace_spec(#[trigger] u[k][i]) by {
                if k < w.len() - 1 {
                    assert(u[k] == w[k]);
                } else if i < w.last().len() {
                    assert(u[k][i] == w[k][i]);
                }
            }
        } else {
            let u = w.push(seq![s.last()]);
            assert forall|k: int, i: int| 0 <= k < u.len() && 0 <= i < u[k].len() implies !is_whitespace_spec(#[trigger] u[k][i]) by {
                if k < w.len() {
                    assert(u[k] == w[k]);
                }
            }
        }
    }
}

/// The words of text followed by a space and a word are its words and that
/// word.
proof fn lemma_words_append_word(x: Seq<char>, w: Seq<char>)
    requires
        w.len() > 0,
        forall|i: int| 0 <= i < w.len() ==> !is_whitespace_spec(#[trigger] w[i]),
    ensures
        words_spec(x + seq![' '] + w) == words_spec(x).push(w),
    decreases w.len(),
{
    let s = x + seq![' '] + w;
    assert(s.last() == w.last());
    if w.len() == 1 {
        let xs = x + seq![' '];
        assert(s.drop_last() =~= xs);
        assert(s[s.len() - 2] == ' ');
        assert(is_whitespace_spec(' '));
        assert(xs.drop_last() =~= x);
        assert(words_spec(xs) == words_spec(x));
        assert(seq![w.last()] =~= w);
        assert(words_spec(s) == words_spec(xs).push(seq![s.last()]));
    } else {
        let w1 = w.drop_last();
        lemma_words_append_word(x, w1);
        assert(s.drop_last() =~= x + seq![' '] + w1);
        assert(s[s.len() - 2] == w1.last());
        assert(!is_whitespace_spec(w[w.len() - 2]));
        let p = words_spec(x).push(w1);
        assert(w1.push(w.last()) =~= w);
        assert(words_spec(s) == p.update(p.len() - 1, p.last().push(s.last())));
        assert(p.update(p.len() - 1, p.last().push(w.last())) =~= words_spec(x).push(w));
    }
}

/// The words of a single word are that word.
proof fn lemma_words_of_word(w: Seq<char>)
    requires
        w.len() > 0,
        forall|i: int| 0 <= i < w.len() ==> !is_whitespace_spec(#[trigger] w[i]),
    ensures
        words_spec(w) == seq![w],
    decreases w.len(),
{
    if w.len() == 1 {
        let e: Seq<char> = seq![];
        assert(w.drop_last() =~= e);
        assert(words_spec(e) =~= Seq::<Seq<char>>::empty());
        assert(seq![w.last()] =~= w);
        assert(words_spec(w) == words_spec(e).push(seq![w.last()]));
        assert(Seq::<Seq<char>>::empty().push(w) =~= seq![w]);
    } else {
        let w1 = w.drop_last();
        lemma_words_of_word(w1);
        assert(!is_whitespace_spec(w[w.len() - 2]));
        assert(w1.push(w.last()) =~= w);
        assert(words_spec(w) == seq![w1].update(0, w1.push(w.last())));
        assert(seq![w1].update(0, w1.push(w.last())) =~= seq![w]);
    }
}

/// Words joined by single spaces split back into the same words.
pub proof fn lemma_words_of_joined_words(parts: Seq<Seq<char>>)
    requires
        forall|k: int| 0 <= k < parts.len() ==> (#[trigger] parts[k]).len() > 0,
        forall|k: int, i: int| 0 <= k < parts.len() && 0 <= i < parts[k].len() ==> !is_whitespace_spec(#[trigger] parts[k][i]),
    ensures
        words_spec(join_spec(parts, seq![' '])) == parts,
    decreases parts.len(),
{
    if parts.len() == 1 {
        lemma_words_of_word(parts[0]);
    } else if parts.len() > 1 {
        let init = parts.drop_last();
        assert forall|k: int| 0 <= k < init.len() implies (#[trigger] init[k]).len() > 0 by {
            assert(init[k] == parts[k]);
        }
        assert forall|k: int, i: int| 0 <= k < init.len() && 0 <= i < init[k].len() implies !is_whitespace_spec(#[trigger] init[k][i]) by {
            assert(init[k] == parts[k]);
        }
        lemma_words_of_joined_words(init);
        let last = parts.last();
        assert forall|i: int| 0 <= i < last.len() implies !is_whitespace_spec(#[trigger] last[i]) by {
            assert(last[i] == parts[parts.len() - 1][i]);
        }
        lemma_words_append_word(join_spec(init, seq![' ']), last);
        assert(init.push(last) =~= parts);
    } else {
        assert(words_spec(Seq::<char>::empty()) =~= Seq::<Seq<char>>::empty());
    }
}

/// Joining after pushing a part.
pub proof fn lemma_join_push(parts: Seq<Seq<char>>, x: Seq<char>, sep: Seq<char>)
    ensures
        join_spec(parts.push(x), sep) == if parts.len() == 0 {
            x
        } else {
            join_spec(parts, sep) + sep + x
        },
{
    assert(parts.push(x).drop_last() =~= parts);
}

/// Joining after extending the last part by one character.
pub proof fn lemma_join_extend_last(parts: Seq<Seq<char>>, c: char, sep: Seq<char>)
    requires
        parts.len() > 0,
    ensures
        join_spec(parts.update(parts.len() - 1, parts.last().push(c)), sep) == join_spec(
            parts,
            sep,
        ).push(c),
{
    let q = parts.update(parts.len() - 1, parts.last().push(c));
    if parts.len() == 1 {
    } else {
        assert(q.drop_last() =~= parts.drop_last());
        assert(join_spec(q, sep) =~= join_spec(parts, sep).push(c));
    }
}

/// Joined non-empty parts are empty only when there are no parts.
pub proof fn lemma_join_nonempty(parts: Seq<Seq<char>>, sep: Seq<char>)
    requires
        forall|k: int| 0 <= k < parts.len() ==> (#[trigger] parts[k]).len() > 0,
    ensures
        (join_spec(parts, sep).len() > 0) == (parts.len() > 0),
{
    if parts.len() > 1 {
        assert(parts.last().len() > 0);
    } else if parts.len() == 1 {
        assert(parts[0].len() > 0);
    }
}

/// The words of `v` separated by single spaces.
pub fn collapse_whitespace(v: &Vec<char>) -> (r: Vec<char>)
    ensures
        r@ == collapse_whitespace_spec(v@),
{
    let mut out: Vec<char> = Vec::new();
    let mut in_word = false;
    let mut i: usize = 0;
    while i < v.len()
        invariant
            i <= v.len(),
            out@ == collapse_whitespace_spec(v@.take(i as int)),
            in_word == (i > 0 && !is_whitespace_spec(v@[i - 1])),
        decreases v.len() - i,
    {
        let c = v[i];
        let ghost pre = v@.take(i as int);
        let ghost cur = v@.take(i + 1);
        proof {
            assert(cur.drop_last() =~= pre);
            assert(cur.last() == c);
            lemma_words_nonempty(pre);
            if i > 0 {
                assert(cur[cur.len() - 2] == v@[i - 1]);
                assert(pre.last() == v@[i - 1]);
            }
        }
        if is_whitespace_char(c) {
            in_word = false;
        } else {
            if in_word {
                proof {
                    lemma_join_extend_last(words_spec(pre), c, seq![' ']);
                }
            } else {
                proof {
                    lemma_join_push(words_spec(pre), seq![c], seq![' ']);
                    lemma_join_nonempty(words_spec(pre), seq![' ']);
                }
                if out.len() > 0 {
                    out.push(' ');
                }
            }
            out.push(c);
            in_word = true;
            proof {
                assert(out@ =~= collapse_whitespace_spec(cur));
            }
        }
        i = i + 1;
    }
    proof {
        assert(v@.take(i as int) =~= v@);
    }
    out
}

/// `parts` joined with `sep`.
pub fn join_chars(parts: &Vec<Vec<char>>, sep: &Vec<char>) -> (r: Vec<char>)
    ensures
        r@ == join_spec(parts@.map_values(|p: Vec<char>| p@), sep@),
{
    let ghost views = parts@.map_values(|p: Vec<char>| p@);
    let mut out: Vec<char> = Vec::new();
    let mut i: usize = 0;
    while i < parts.len()
        invariant
            i <= parts.len(),
            views == parts@.map_values(|p: Vec<char>| p@),
            out@ == join_spec(views.take(i as int), sep@),
        decreases parts.len() - i,
    {
        proof {
            assert(views.take(i + 1) =~= views.take(i as int).push(views[i as int]));
            lemma_join_push(views.take(i as int), views[i as int], sep@);
        }
        if i > 0 {
            append_chars(&mut out, sep);
        }
        append_chars(&mut out, &parts[i]);
        i = i + 1;
    }
    proof {
        assert(views.take(i as int) =~= views);
    }
    out
}

// ---------------------------------------------------------------------
// Lines
// ---------------------------------------------------------------------

/// The pieces of `s` between occurrences of `c` (always at least one).
pub open spec fn split_char_spec(s: Seq<char>, c: char) -> Seq<Seq<char>>
    decreases s.len(),
{
    if s.len() == 0 {
        seq![seq![]]
    } else {
        let p = split_char_spec(s.drop_last(), c);
        if s.last() == c {
            p.push(seq![])
        } else {
            p.update(p.len() - 1, p.last().push(s.last()))
        }
    }
}

/// `s` without one trailing carriage return.
pub open spec fn strip_cr(s: Seq<char>) -> Seq<char> {
    if s.len() > 0 && s.last() == '\r' {
        s.drop_last()
    } else {
        s
    }
}

/// The lines of `s`, as `str::lines` yields them: split at `'\n'`, a `'\r'`
/// just before a `'\n'` removed, and no empty line after a final `'\n'`.
pub open spec fn lines_spec(s: Seq<char>) -> Seq<Seq<char>> {
    let p = split_char_spec(s, '\n');
    let q = if p.last().len() == 0 {
        p.drop_last()
    } else {
        p
    };
    Seq::new(
        q.len(),
        |i: int|
            if i < p.len() - 1 {
                strip_cr(q[i])
            } else {
                q[i]
            },
    )
}

/// A split has at least one piece.
pub proof fn lemma_split_char_nonempty(s: Seq<char>, c: char)
    ensures
        split_char_spec(s, c).len() >= 1,
    decreases s.len(),
{
    if s.len() > 0 {
        lemma_split_char_nonempty(s.drop_last(), c);
    }
}

/// The pieces of `v` between occurrences of `c`.
pub fn split_char(v: &Vec<char>, c: char) -> (r: Vec<Vec<char>>)
    ensures
        r@.map_values(|p: Vec<char>| p@) == split_char_spec(v@, c),
{
    let mut done: Vec<Vec<char>> = Vec::new();
    let mut cur: Vec<char> = Vec::new();
    let mut i: usize = 0;
    while i < v.len()
        invariant
            i <= v.len(),
            done@.map_values(|p: Vec<char>| p@).push(cur@) == split_char_spec(v@.take(i as int), c),
        decreases v.len() - i,
    {
        let ghost pre = v@.take(i as int);
        proof {
            assert(v@.take(i + 1).drop_last() =~= pre);
            lemma_split_char_nonempty(pre, c);
        }
        let ghost dv = done@.map_values(|p: Vec<char>| p@);
        if v[i] == c {
            let finished = cur;
            cur = Vec::new();
            done.push(finished);
            proof {
                assert(done@.map_values(|p: Vec<char>| p@) =~= dv.push(finished@));
                assert(done@.map_values(|p: Vec<char>| p@).push(cur@) =~= split_char_spec(
                    v@.take(i + 1),
                    c,
                ));
            }
        } else {
            cur.push(v[i]);
            proof {
                assert(done@.map_values(|p: Vec<char>| p@).push(cur@) =~= split_char_spec(
                    v@.take(i + 1),
                    c,
                ));
            }
        }
        i = i + 1;
    }
    let ghost dv = done@.map_values(|p: Vec<char>| p@);
    done.push(cur);
    proof {
        assert(v@.take(i as int) =~= v@);
        assert(done@.map_values(|p: Vec<char>| p@) =~= dv.push(cur@));
    }
    done
}

fn strip_cr_vec(v: Vec<char>) -> (r: Vec<char>)
    ensures
        r@ == strip_cr(v@),
{
    let mut v = v;
    if v.len() > 0 && v[v.len() - 1] == '\r' {
        v.pop();
    }
    v
}

/// The lines of `v`, as `str::lines` yields them.
pub fn split_lines(v: &Vec<char>) -> (r: Vec<Vec<char>>)
    ensures
        r@.map_values(|p: Vec<char>| p@) == lines_spec(v@),
{
    let pieces = split_char(v, '\n');
    let ghost p = split_char_spec(v@, '\n');
    proof {
        lemma_split_char_nonempty(v@, '\n');
        assert(pieces@.len() == p.len());
        assert(pieces@[pieces@.len() - 1]@ == p.last());
    }
    let n = pieces.len();
    let keep = if pieces[n - 1].len() == 0 {
        n - 1
    } else {
        n
    };
    let mut out: Vec<Vec<char>> = Vec::new();
    let mut i: usize = 0;
    while i < keep
        invariant
            keep <= n,
            n == pieces@.len(),
            p == split_char_spec(v@, '\n'),
            p.len() == n,
            forall|j: int| 0 <= j < n ==> (#[trigger] pieces@[j])@ == p[j],
            i <= keep,
            out@.len() == i,
            forall|j: int|
                0 <= j < i ==> (#[trigger] out@[j])@ == (if j < n - 1 {
                    strip_cr(p[j])
                } else {
                    p[j]
                }),
        decreases keep - i,
    {
        let piece = subrange_vec(&pieces[i], 0, pieces[i].len());
        proof {
            assert(piece@ =~= p[i as int]);
        }
        if i < n - 1 {
            out.push(strip_cr_vec(piece));
        } else {
            out.push(piece);
        }
        i = i + 1;
    }
    proof {
        assert(out@.map_values(|q: Vec<char>| q@) =~= lines_spec(v@));
    }
    out
}

// ---------------------------------------------------------------------
// Unicode classes and case that std decides from its tables
// ---------------------------------------------------------------------

/// What `str::to_uppercase` returns for a text (by Unicode case mapping).
pub uninterp spec fn to_uppercase_spec(s: Seq<char>) -> Seq<char>;

/// Upper-cases a text with `str::to_uppercase`, which maps each character
/// by the Unicode tables to one or more characters; the contract names the
/// result, which depends on the text alone, and states that it is empty
/// exactly when the text is.
#[verifier::external_body]
pub(crate) fn str_to_uppercase(s: &str) -> (r: String)
    ensures
        r@ == to_uppercase_spec(s@),
        r@.len() > 0 <==> s@.len() > 0,
{
    s.to_uppercase()
}

/// What `char::is_alphanumeric` decides for a non-ASCII character (the
/// Unicode `Alphabetic` and `Numeric` properties).
pub uninterp spec fn non_ascii_alphanumeric(c: char) -> bool;

/// Whether `c` is alphanumeric, in the sense of `char::is_alphanumeric`.
pub open spec fn is_alphanumeric_spec(c: char) -> bool {
    if (c as u32) < 128 {
        ('a' <= c && c <= 'z') || ('A' <= c && c <= 'Z') || ('0' <= c && c <= '9')
    } else {
        non_ascii_alphanumeric(c)
    }
}

/// Tests `c` with `char::is_alphanumeric`: for ASCII, exactly the letters and
/// digits; beyond ASCII, the named Unicode property.
#[verifier::external_body]
pub(crate) fn char_is_alphanumeric(c: char) -> (r: bool)
    ensures
        (c as u32) < 128 ==> r == (('a' <= c && c <= 'z') || ('A' <= c && c <= 'Z') || ('0' <= c
            && c <= '9')),
        (c as u32) >= 128 ==> r == non_ascii_alphanumeric(c),
{
    c.is_alphanumeric()
}

} // verus!

verus! {

/// The vectors `v[lo..hi]` as a new vector of copies.
pub fn subrange_vec_of_vecs(v: &Vec<Vec<char>>, lo: usize, hi: usize) -> (r: Vec<Vec<char>>)
    requires
        lo <= hi <= v.len(),
    ensures
        r@.map_values(|p: Vec<char>| p@) == v@.map_values(|p: Vec<char>| p@).subrange(lo as int, hi as int),
{
    let mut r: Vec<Vec<char>> = Vec::new();
    let mut i = lo;
    while i < hi
        invariant
            lo <= i <= hi <= v.len(),
            r@.len() == i - lo,
            forall|j: int| 0 <= j < r@.len() ==> (#[trigger] r@[j])@ == v@[lo + j]@,
        decreases hi - i,
    {
        r.push(subrange_vec(&v[i], 0, v[i].len()));
        proof {
            assert(v@[i as int]@.subrange(0, v@[i as int]@.len() as int) =~= v@[i as int]@);
        }
        i = i + 1;
    }
    proof {
        assert(r@.map_values(|p: Vec<char>| p@) =~= v@.map_values(|p: Vec<char>| p@).subrange(lo as int, hi as int));
    }
    r
}

} // verus!

verus! {

/// Trimming the end leaves a prefix.
pub proof fn lemma_trim_end_prefix(s: Seq<char>)
    ensures
        trim_end_spec(s).len() <= s.len(),
        trim_end_spec(s) == s.take(trim_end_spec(s).len() as int),
        trim_end_spec(s).len() > 0 ==> !is_whitespace_spec(trim_end_spec(s).last()),
    decreases s.len(),
{
    if s.len() > 0 && is_whitespace_spec(s.last()) {
        lemma_trim_end_prefix(s.drop_last());
        let t = trim_end_spec(s.drop_last());
        assert(s.drop_last().take(t.len() as int) =~= s.take(t.len() as int));
    } else {
        assert(s.take(s.len() as int) =~= s);
    }
}

/// Trimming the start leaves a suffix whose first character is not whitespace.
pub proof fn lemma_trim_start_first(s: Seq<char>)
    ensures
        trim_start_spec(s).len() > 0 ==> !is_whitespace_spec(trim_start_spec(s)[0]),
    decreases s.len(),
{
    if s.len() > 0 && is_whitespace_spec(s[0]) {
        lemma_trim_start_first(s.drop_first());
    }
}

/// A trimmed text neither starts nor ends with whitespace.
pub proof fn lemma_trim_ends(s: Seq<char>)
    ensures
        trim_spec(s).len() > 0 ==> !is_whitespace_spec(trim_spec(s)[0]) && !is_whitespace_spec(
            trim_spec(s).last(),
        ),
{
    let a = trim_start_spec(s);
    lemma_trim_start_first(s);
    lemma_trim_end_prefix(a);
    let t = trim_end_spec(a);
    if t.len() > 0 {
        assert(t[0] == a[0]);
    }
}

/// A text that neither starts nor ends with whitespace is its own trim.
pub proof fn lemma_trim_identity(s: Seq<char>)
    requires
        s.len() > 0,
        !is_whitespace_spec(s[0]),
        !is_whitespace_spec(s.last()),
    ensures
        trim_spec(s) == s,
{
    lemma_trim_start_skip(s, 0);
    assert(s.skip(0) =~= s);
    lemma_trim_end_take(s, s.len() as int);
    assert(s.take(s.len() as int) =~= s);
}

/// Splitting after appending text without the separator extends the last piece.
pub proof fn lemma_split_char_append(s: Seq<char>, t: Seq<char>, c: char)
    requires
        forall|i: int| 0 <= i < t.len() ==> t[i] != c,
    ensures
        split_char_spec(s + t, c) == split_char_spec(s, c).update(
            split_char_spec(s, c).len() - 1,
            split_char_spec(s, c).last() + t,
        ),
    decreases t.len(),
{
    lemma_split_char_nonempty(s, c);
    let p = split_char_spec(s, c);
    if t.len() == 0 {
        assert(s + t =~= s);
        assert(p.last() + t =~= p.last());
        assert(p.update(p.len() - 1, p.last() + t) =~= p);
    } else {
        let t1 = t.drop_last();
        lemma_split_char_append(s, t1, c);
        assert((s + t).drop_last() =~= s + t1);
        assert((s + t).last() == t.last());
        let q = p.update(p.len() - 1, p.last() + t1);
        assert(q.len() == p.len());
        assert(q.last() == p.last() + t1);
        assert((p.last() + t1).push(t.last()) =~= p.last() + t);
        assert(split_char_spec(s + t, c) == q.update(q.len() - 1, q.last().push(t.last())));
        assert(q.update(q.len() - 1, q.last().push(t.last())) =~= p.update(p.len() - 1, p.last() + t));
    }
}

/// Splitting joined pieces that hold no separator gives the pieces back.
pub proof fn lemma_split_join(parts: Seq<Seq<char>>, c: char)
    requires
        parts.len() > 0,
        forall|k: int, i: int| 0 <= k < parts.len() && 0 <= i < parts[k].len() ==> #[trigger] parts[k][i] != c,
    ensures
        split_char_spec(join_spec(parts, seq![c]), c) == parts,
    decreases parts.len(),
{
    if parts.len() == 1 {
        let e: Seq<char> = seq![];
        assert(split_char_spec(e, c) =~= seq![e]);
        assert(e + parts[0] =~= parts[0]);
        lemma_split_char_append(e, parts[0], c);
        assert(seq![e].update(0, e + parts[0]) =~= parts);
    } else {
        let init = parts.drop_last();
        assert forall|k: int, i: int| 0 <= k < init.len() && 0 <= i < init[k].len() implies #[trigger] init[k][i] != c by {
            assert(init[k] == parts[k]);
        }
        lemma_split_join(init, c);
        let a = join_spec(init, seq![c]);
        assert(a + seq![c] == (a + seq![c]).drop_last() + seq![c]);
        let ac = a + seq![c];
        assert(ac.drop_last() =~= a);
        assert(split_char_spec(ac, c) == parts.drop_last().push(seq![]));
        assert forall|i: int| 0 <= i < parts.last().len() implies parts.last()[i] != c by {
            assert(parts[parts.len() - 1][i] != c);
        }
        lemma_split_char_append(ac, parts.last(), c);
        let e: Seq<char> = seq![];
        assert(e + parts.last() =~= parts.last());
        assert(join_spec(parts, seq![c]) == ac + parts.last());
        assert(init.push(e).update(init.len() as int, e + parts.last()) =~= parts);
    }
}

/// The lines of newline-joined lines that hold no newline, do not end in a
/// carriage return, and end with a non-empty line are those lines.
pub proof fn lemma_lines_of_join(parts: Seq<Seq<char>>)
    requires
        parts.len() > 0,
        parts.last().len() > 0,
        forall|k: int, i: int| 0 <= k < parts.len() && 0 <= i < parts[k].len() ==> #[trigger] parts[k][i] != '\n',
        forall|k: int| 0 <= k < parts.len() ==> strip_cr(#[trigger] parts[k]) == parts[k],
    ensures
        lines_spec(join_spec(parts, seq!['\n'])) == parts,
{
    lemma_split_join(parts, '\n');
    assert(lines_spec(join_spec(parts, seq!['\n'])) =~= parts);
}


/// Joining the pieces of a split with the separator gives the text back.
pub proof fn lemma_join_split(s: Seq<char>, c: char)
    ensures
        join_spec(split_char_spec(s, c), seq![c]) == s,
    decreases s.len(),
{
    if s.len() > 0 {
        let t = s.drop_last();
        lemma_join_split(t, c);
        lemma_split_char_nonempty(t, c);
        let p = split_char_spec(t, c);
        if s.last() == c {
            lemma_join_push(p, seq![], seq![c]);
            assert(join_spec(p, seq![c]) + seq![c] + Seq::<char>::empty() =~= s);
        } else {
            lemma_join_extend_last(p, s.last(), seq![c]);
            assert(t.push(s.last()) =~= s);
        }
    }
}

/// The pieces of a split never hold the separator.
pub proof fn lemma_split_no_separator(s: Seq<char>, c: char)
    ensures
        forall|k: int, i: int|
            0 <= k < split_char_spec(s, c).len() && 0 <= i < split_char_spec(s, c)[k].len()
                ==> #[trigger] split_char_spec(s, c)[k][i] != c,
    decreases s.len(),
{
    if s.len() > 0 {
        let t = s.drop_last();
        lemma_split_no_separator(t, c);
        lemma_split_char_nonempty(t, c);
        let p = split_char_spec(t, c);
        let q = split_char_spec(s, c);
        assert forall|k: int, i: int| 0 <= k < q.len() && 0 <= i < q[k].len() implies #[trigger] q[k][i] != c by {
            if s.last() != c && k == p.len() - 1 {
                if i < p[k].len() {
                    assert(q[k][i] == p[k][i]);
                }
            } else if k < p.len() {
                assert(q[k] == p[k]);
            }
        }
    }
}

/// Joining two non-empty runs of parts puts one separator between them.
pub proof fn lemma_join_append(a: Seq<Seq<char>>, b: Seq<Seq<char>>, sep: Seq<char>)
    requires
        a.len() > 0,
        b.len() > 0,
    ensures
        join_spec(a + b, sep) == join_spec(a, sep) + sep + join_spec(b, sep),
    decreases b.len(),
{
    if b.len() == 1 {
        assert(a + b =~= a.push(b[0]));
        lemma_join_push(a, b[0], sep);
    } else {
        let b1 = b.drop_last();
        lemma_join_append(a, b1, sep);
        assert((a + b).drop_last() =~= a + b1);
        assert((a + b).last() == b.last());
        assert(join_spec(a + b, sep) =~= join_spec(a, sep) + sep + join_spec(b, sep));
    }
}

/// The lines of newline-terminated lines that hold no newline and do not end
/// in a carriage return are those lines.
pub proof fn lemma_lines_of_terminated(parts: Seq<Seq<char>>)
    requires
        parts.len() > 0,
        forall|k: int, i: int| 0 <= k < parts.len() && 0 <= i < parts[k].len() ==> #[trigger] parts[k][i] != '\n',
        forall|k: int| 0 <= k < parts.len() ==> strip_cr(#[trigger] parts[k]) == parts[k],
    ensures
        lines_spec(join_spec(parts, seq!['\n']) + seq!['\n']) == parts,
{
    let s = join_spec(parts, seq!['\n']) + seq!['\n'];
    lemma_split_join(parts, '\n');
    assert(s.drop_last() =~= join_spec(parts, seq!['\n']));
    assert(split_char_spec(s, '\n') == parts.push(seq![]));
    assert(lines_spec(s) =~= parts);
}

} // verus!
