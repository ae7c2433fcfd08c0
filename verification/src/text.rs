//! Character-level helpers shared by the parsers and formatters.

use vstd::prelude::*;

verus! {

/// Unicode `White_Space` code points (what `char::is_whitespace` accepts).
pub open spec fn spec_is_whitespace(c: char) -> bool {
    let u = c as u32;
    ||| 0x09 <= u <= 0x0D
    ||| u == 0x20
    ||| u == 0x85
    ||| u == 0xA0
    ||| u == 0x1680
    ||| 0x2000 <= u <= 0x200A
    ||| u == 0x2028
    ||| u == 0x2029
    ||| u == 0x202F
    ||| u == 0x205F
    ||| u == 0x3000
}

/// Whether `c` is Unicode white space.
pub fn is_whitespace(c: char) -> (r: bool)
    ensures
        r == spec_is_whitespace(c),
{
    let u: u32 = c as u32;
    (0x09 <= u && u <= 0x0D) || u == 0x20 || u == 0x85 || u == 0xA0 || u == 0x1680 || (0x2000
        <= u && u <= 0x200A) || u == 0x2028 || u == 0x2029 || u == 0x202F || u == 0x205F || u
        == 0x3000
}

/// The characters of `s`, in order.
pub fn chars_of(s: &str) -> (r: Vec<char>)
    ensures
        r@ == s@,
{
    let mut out: Vec<char> = Vec::new();
    for c in it: s.chars()
        invariant
            out@ == it.seq().take(it.index() as int),
    {
        out.push(c);
    }
    out
}

} // verus!

verus! {

/// `s` without its leading white space.
pub open spec fn trim_start(s: Seq<char>) -> Seq<char>
    decreases s.len(),
{
    if s.len() > 0 && spec_is_whitespace(s[0]) {
        trim_start(s.drop_first())
    } else {
        s
    }
}

/// `s` without its trailing white space.
pub open spec fn trim_end(s: Seq<char>) -> Seq<char>
    decreases s.len(),
{
    if s.len() > 0 && spec_is_whitespace(s.last()) {
        trim_end(s.drop_last())
    } else {
        s
    }
}

/// `s` without leading and trailing white space (what `str::trim` gives).
pub open spec fn trim(s: Seq<char>) -> Seq<char> {
    trim_end(trim_start(s))
}

/// The position of the first `c` in `s`, if there is one.
pub open spec fn find_first(s: Seq<char>, c: char) -> Option<int>
    decreases s.len(),
{
    if s.len() == 0 {
        None
    } else if s[0] == c {
        Some(0)
    } else {
        match find_first(s.drop_first(), c) {
            Some(i) => Some(i + 1),
            None => None,
        }
    }
}

/// `find_first` is the least position that holds `c`.
pub proof fn lemma_find_first(s: Seq<char>, c: char, n: int)
    requires
        0 <= n <= s.len(),
        forall|k: int| 0 <= k < n ==> s[k] != c,
        n < s.len() ==> s[n] == c,
    ensures
        find_first(s, c) == (if n < s.len() { Some(n) } else { None::<int> }),
    decreases n,
{
    if n > 0 {
        lemma_find_first(s.drop_first(), c, n - 1);
    }
}

/// A position that `find_first` gives holds `c`, and no earlier one does.
pub proof fn lemma_find_first_some(s: Seq<char>, c: char)
    ensures
        find_first(s, c) matches Some(i) ==> {
            &&& 0 <= i < s.len()
            &&& s[i] == c
            &&& forall|k: int| 0 <= k < i ==> s[k] != c
        },
        find_first(s, c) is None ==> forall|k: int| 0 <= k < s.len() ==> s[k] != c,
    decreases s.len(),
{
    if s.len() > 0 {
        lemma_find_first_some(s.drop_first(), c);
        if s[0] != c {
            assert forall|k: int| 1 <= k < s.len() implies s[k] == s.drop_first()[k - 1] by {}
        }
    }
}

/// Finds the first `c` in `cs[lo..hi]`.
pub fn find_char(cs: &Vec<char>, lo: usize, hi: usize, c: char) -> (r: Option<usize>)
    requires
        lo <= hi <= cs.len(),
    ensures
        match r {
            Some(p) => lo <= p < hi && find_first(cs@.subrange(lo as int, hi as int), c) == Some(
                p - lo,
            ),
            None => find_first(cs@.subrange(lo as int, hi as int), c) is None,
        },
{
    let mut i: usize = lo;
    while i < hi
        invariant
            lo <= i <= hi <= cs.len(),
            forall|k: int| lo <= k < i ==> cs@[k] != c,
        decreases hi - i,
    {
        if cs[i] == c {
            proof {
                lemma_find_first(cs@.subrange(lo as int, hi as int), c, i - lo);
            }
            return Some(i);
        }
        i += 1;
    }
    proof {
        lemma_find_first(cs@.subrange(lo as int, hi as int), c, hi - lo);
    }
    None
}

/// The bounds of `cs[lo..hi]` once white space is trimmed from both ends.
pub fn trim_bounds(cs: &Vec<char>, lo: usize, hi: usize) -> (r: (usize, usize))
    requires
        lo <= hi <= cs.len(),
    ensures
        lo <= r.0 <= r.1 <= hi,
        cs@.subrange(r.0 as int, r.1 as int) == trim(cs@.subrange(lo as int, hi as int)),
{
    let mut i: usize = lo;
    while i < hi && is_whitespace(cs[i])
        invariant
            lo <= i <= hi <= cs.len(),
            trim_start(cs@.subrange(lo as int, hi as int)) == trim_start(
                cs@.subrange(i as int, hi as int),
            ),
        decreases hi - i,
    {
        assert(cs@.subrange(i as int, hi as int).drop_first() =~= cs@.subrange(
            i + 1,
            hi as int,
        ));
        i += 1;
    }
    let mut j: usize = hi;
    while j > i && is_whitespace(cs[j - 1])
        invariant
            lo <= i <= j <= hi <= cs.len(),
            trim_end(cs@.subrange(i as int, hi as int)) == trim_end(
                cs@.subrange(i as int, j as int),
            ),
        decreases j - i,
    {
        assert(cs@.subrange(i as int, j as int).drop_last() =~= cs@.subrange(
            i as int,
            j - 1,
        ));
        j -= 1;
    }
    (i, j)
}

} // verus!

verus! {

/// `c` in ASCII lower case.
pub open spec fn ascii_lower(c: char) -> char {
    if 'A' <= c <= 'Z' {
        ((c as int) + 32) as char
    } else {
        c
    }
}

/// An ASCII decimal digit.
pub open spec fn is_digit(c: char) -> bool {
    '0' <= c <= '9'
}

/// The value of an ASCII digit.
pub open spec fn digit_value(c: char) -> nat {
    ((c as int) - ('0' as int)) as nat
}

/// Every character of `s` is an ASCII digit.
pub open spec fn all_digits(s: Seq<char>) -> bool {
    forall|i: int| 0 <= i < s.len() ==> is_digit(#[trigger] s[i])
}

/// The number that the decimal digits `s` spell (0 for no digits).
pub open spec fn digits_value(s: Seq<char>) -> nat
    decreases s.len(),
{
    if s.len() == 0 {
        0
    } else {
        digits_value(s.drop_last()) * 10 + digit_value(s.last())
    }
}

/// The digits of a decimal fraction read at `scale` for the first one,
/// `scale / 10` for the next, and so on; digits past a scale of 0 count nothing.
pub open spec fn fraction_value(f: Seq<char>, scale: nat) -> nat
    decreases f.len(),
{
    if f.len() == 0 || scale == 0 {
        0
    } else {
        digit_value(f[0]) * scale + fraction_value(f.drop_first(), scale / 10)
    }
}

/// A prefix of a digit string is worth no more than the whole string.
pub proof fn lemma_digits_value_prefix(s: Seq<char>, k: int)
    requires
        0 <= k <= s.len(),
    ensures
        digits_value(s.take(k)) <= digits_value(s),
    decreases s.len() - k,
{
    if k < s.len() {
        lemma_digits_value_prefix(s, k + 1);
        assert(s.take(k + 1).drop_last() =~= s.take(k));
    } else {
        assert(s.take(k) =~= s);
    }
}

/// A fraction read at `scale` stays below ten times `scale`.
pub proof fn lemma_fraction_value_bound(f: Seq<char>, scale: nat)
    requires
        all_digits(f),
    ensures
        scale > 0 ==> fraction_value(f, scale) < 10 * scale,
        scale == 0 ==> fraction_value(f, scale) == 0,
    decreases f.len(),
{
    if f.len() > 0 && scale > 0 {
        let d = digit_value(f[0]);
        assert(is_digit(f[0]));
        assert(d <= 9);
        assert(f.drop_first().len() < f.len());
        assert(all_digits(f.drop_first())) by {
            assert forall|i: int| 0 <= i < f.drop_first().len() implies is_digit(
                #[trigger] f.drop_first()[i],
            ) by {
                assert(f.drop_first()[i] == f[i + 1]);
            }
        }
        lemma_fraction_value_bound(f.drop_first(), scale / 10);
        assert(d * scale <= 9 * scale) by (nonlinear_arith)
            requires
                d <= 9,
        ;
        assert(10 * (scale / 10) <= scale) by (nonlinear_arith);
    }
}

/// Whether `cs[lo..hi]` is made of ASCII digits only.
pub fn all_digits_in(cs: &Vec<char>, lo: usize, hi: usize) -> (r: bool)
    requires
        lo <= hi <= cs.len(),
    ensures
        r == all_digits(cs@.subrange(lo as int, hi as int)),
{
    let mut i: usize = lo;
    while i < hi
        invariant
            lo <= i <= hi <= cs.len(),
            forall|k: int| lo <= k < i ==> is_digit(#[trigger] cs@[k]),
        decreases hi - i,
    {
        let c = cs[i];
        if !('0' <= c && c <= '9') {
            assert(!is_digit(cs@.subrange(lo as int, hi as int)[i - lo]));
            return false;
        }
        i += 1;
    }
    assert forall|k: int| 0 <= k < hi - lo implies is_digit(
        #[trigger] cs@.subrange(lo as int, hi as int)[k],
    ) by {
        assert(cs@.subrange(lo as int, hi as int)[k] == cs@[lo + k]);
    }
    true
}

/// The value of the digits `cs[lo..hi]`, or `None` where it exceeds `u128`.
pub fn digits_value_in(cs: &Vec<char>, lo: usize, hi: usize) -> (r: Option<u128>)
    requires
        lo <= hi <= cs.len(),
        all_digits(cs@.subrange(lo as int, hi as int)),
    ensures
        match r {
            Some(v) => v == digits_value(cs@.subrange(lo as int, hi as int)),
            None => digits_value(cs@.subrange(lo as int, hi as int)) > u128::MAX,
        },
{
    let ghost s = cs@.subrange(lo as int, hi as int);
    let mut acc: u128 = 0;
    let mut i: usize = lo;
    assert(s.take(0) =~= Seq::<char>::empty());
    while i < hi
        invariant
            lo <= i <= hi <= cs.len(),
            s == cs@.subrange(lo as int, hi as int),
            all_digits(s),
            acc == digits_value(s.take(i - lo)),
        decreases hi - i,
    {
        let ghost k: int = i - lo;
        assert(s.take(k + 1).drop_last() =~= s.take(k));
        assert(s.take(k + 1).last() == cs@[i as int]);
        assert(is_digit(s[k]));
        let d: u128 = ((cs[i] as u32) - ('0' as u32)) as u128;
        let next = acc.checked_mul(10);
        match next {
            None => {
                proof {
                    lemma_digits_value_prefix(s, k + 1);
                }
                return None;
            },
            Some(m) => {
                match m.checked_add(d) {
                    None => {
                        proof {
                            lemma_digits_value_prefix(s, k + 1);
                        }
                        return None;
                    },
                    Some(v) => {
                        acc = v;
                    },
                }
            },
        }
        i += 1;
    }
    assert(s.take(hi - lo) =~= s);
    Some(acc)
}

/// The value of the fraction digits `cs[lo..hi]` in nanoseconds
/// (the first digit counts tenths of a second).
pub fn fraction_nanos_in(cs: &Vec<char>, lo: usize, hi: usize) -> (r: u128)
    requires
        lo <= hi <= cs.len(),
        all_digits(cs@.subrange(lo as int, hi as int)),
    ensures
        r == fraction_value(cs@.subrange(lo as int, hi as int), 100_000_000),
        r < 1_000_000_000,
{
    let ghost s = cs@.subrange(lo as int, hi as int);
    proof {
        lemma_fraction_value_bound(s, 100_000_000);
    }
    let mut acc: u128 = 0;
    let mut scale: u128 = 100_000_000;
    let mut i: usize = lo;
    assert(s.skip(0) =~= s);
    while i < hi && scale > 0
        invariant
            lo <= i <= hi <= cs.len(),
            s == cs@.subrange(lo as int, hi as int),
            all_digits(s),
            scale <= 100_000_000,
            acc + fraction_value(s.skip(i - lo), scale as nat) == fraction_value(s, 100_000_000),
            acc + 10 * scale <= 1_000_000_000,
        decreases hi - i,
    {
        let ghost k: int = i - lo;
        assert(s.skip(k).drop_first() =~= s.skip(k + 1));
        assert(s.skip(k)[0] == cs@[i as int]);
        assert(is_digit(s[k]));
        let d: u128 = ((cs[i] as u32) - ('0' as u32)) as u128;
        assert(d * scale <= 9 * scale) by (nonlinear_arith)
            requires
                d <= 9,
        ;
        assert(10 * (scale / 10) <= scale) by (nonlinear_arith);
        acc = acc + d * scale;
        scale = scale / 10;
        i += 1;
    }
    proof {
        assert(s.skip(i - lo).len() == 0 || scale == 0);
        assert(fraction_value(s.skip(i - lo), scale as nat) == 0);
    }
    acc
}

} // verus!

verus! {

/// Calls `String::push`, which appends `c` to the end of `s`.
#[verifier::external_body]
pub(crate) fn push_char(s: &mut String, c: char)
    ensures
        final(s)@ == old(s)@.push(c),
{
    s.push(c);
}

/// A new `String` holding `cs[lo..hi]`.
pub fn string_from(cs: &Vec<char>, lo: usize, hi: usize) -> (r: String)
    requires
        lo <= hi <= cs.len(),
    ensures
        r@ == cs@.subrange(lo as int, hi as int),
{
    let mut out = String::new();
    let mut i: usize = lo;
    while i < hi
        invariant
            lo <= i <= hi <= cs.len(),
            out@ == cs@.subrange(lo as int, i as int),
        decreases hi - i,
    {
        push_char(&mut out, cs[i]);
        assert(cs@.subrange(lo as int, i + 1) =~= cs@.subrange(lo as int, i as int).push(
            cs@[i as int],
        ));
        i += 1;
    }
    out
}

} // verus!

verus! {

/// The character of a decimal digit (`d < 10`).
pub open spec fn digit_char(d: nat) -> char {
    (48 + d) as char
}

/// The character of a lower-case hexadecimal digit (`d < 16`).
pub open spec fn hex_char(d: nat) -> char {
    if d < 10 {
        (48 + d) as char
    } else {
        (87 + d) as char
    }
}

/// `n` written in decimal, with no leading zeros.
pub open spec fn decimal(n: nat) -> Seq<char>
    decreases n,
{
    if n < 10 {
        seq![digit_char(n)]
    } else {
        decimal(n / 10).push(digit_char(n % 10))
    }
}

/// The last `width` hexadecimal digits of `v`, lower case, zero-padded
/// (what `{:0width$x}` prints for a `v` below `16^width`).
pub open spec fn hex_fixed(v: nat, width: nat) -> Seq<char>
    decreases width,
{
    if width == 0 {
        Seq::<char>::empty()
    } else {
        hex_fixed(v / 16, (width - 1) as nat).push(hex_char(v % 16))
    }
}

/// Appends `n` in decimal to `s`.
pub fn push_decimal(s: &mut String, n: u128)
    ensures
        final(s)@ == old(s)@ + decimal(n as nat),
    decreases n,
{
    if n >= 10 {
        push_decimal(s, n / 10);
    }
    let d: u8 = (n % 10) as u8;
    let c: char = (48u8 + d) as char;
    push_char(s, c);
    assert(s@ =~= old(s)@ + decimal(n as nat));
}

/// The last `width` hexadecimal digits of `v`, lower case, zero-padded.
pub fn hex_digits(v: u64, width: usize) -> (r: Vec<char>)
    ensures
        r@ == hex_fixed(v as nat, width as nat),
    decreases width,
{
    if width == 0 {
        return Vec::new();
    }
    let mut r = hex_digits(v / 16, width - 1);
    let d: u8 = (v % 16) as u8;
    let c: char = if d < 10 {
        (48u8 + d) as char
    } else {
        (87u8 + d) as char
    };
    r.push(c);
    r
}

} // verus!

verus! {

/// The view of an optional string.
pub open spec fn opt_view(s: Option<String>) -> Option<Seq<char>> {
    match s {
        Some(x) => Some(x@),
        None => None,
    }
}

/// Whether the characters `a` spell `lit`.
pub fn chars_are(a: &Vec<char>, lit: &str) -> (r: bool)
    ensures
        r == (a@ == lit@),
{
    let b = chars_of(lit);
    if a.len() != b.len() {
        return false;
    }
    let mut i: usize = 0;
    while i < a.len()
        invariant
            a.len() == b.len(),
            b@ == lit@,
            i <= a.len(),
            forall|k: int| 0 <= k < i ==> a@[k] == b@[k],
        decreases a.len() - i,
    {
        if a[i] != b[i] {
            return false;
        }
        i += 1;
    }
    assert(a@ =~= b@);
    true
}

/// Whether `s` spells `lit`.
pub fn str_is(s: &str, lit: &str) -> (r: bool)
    ensures
        r == (s@ == lit@),
{
    chars_are(&chars_of(s), lit)
}

} // verus!

verus! {

/// How many decimal digits `n` takes, with no leading zeros.
pub open spec fn digit_count(n: nat) -> nat
    decreases n,
{
    if n < 10 {
        1
    } else {
        1 + digit_count(n / 10)
    }
}

/// `decimal(n)` spells `n`: it is made of digits, as many as `n` takes,
/// and their value is `n`.
pub proof fn lemma_decimal_spells(n: nat)
    ensures
        decimal(n).len() == digit_count(n),
        all_digits(decimal(n)),
        digits_value(decimal(n)) == n,
    decreases n,
{
    let d = decimal(n);
    if n < 10 {
        assert(digit_char(n) as int == 48 + n);
        assert(d.drop_last() =~= Seq::<char>::empty());
        assert(digit_value(d.last()) == n);
        assert(digits_value(d) == digits_value(d.drop_last()) * 10 + digit_value(d.last()));
    } else {
        lemma_decimal_spells(n / 10);
        let p = decimal(n / 10);
        assert(digit_char(n % 10) as int == 48 + n % 10);
        assert(d.drop_last() =~= p);
        assert(digit_value(d.last()) == n % 10);
        assert(digits_value(d) == digits_value(p) * 10 + n % 10);
        assert((n / 10) * 10 + n % 10 == n) by (nonlinear_arith);
        assert forall|i: int| 0 <= i < d.len() implies is_digit(#[trigger] d[i]) by {
            if i < p.len() {
                assert(d[i] == p[i]);
            }
        }
    }
}

} // verus!
