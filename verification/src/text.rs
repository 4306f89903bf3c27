//! Text helpers shared by the rest of the library: Unicode white space,
//! trimming, character access and number formatting.
use vstd::prelude::*;

verus! {

/// The characters carrying the Unicode `White_Space` property, which is the
/// definition used by `char::is_whitespace` and `str::trim`.
pub open spec fn is_white_space(c: char) -> bool {
    let u = c as u32;
    ||| 0x9 <= u <= 0xd
    ||| u == 0x20
    ||| u == 0x85
    ||| u == 0xa0
    ||| u == 0x1680
    ||| 0x2000 <= u <= 0x200a
    ||| u == 0x2028
    ||| u == 0x2029
    ||| u == 0x202f
    ||| u == 0x205f
    ||| u == 0x3000
}

/// Whether `c` is a white-space character.
pub fn white_space(c: char) -> (r: bool)
    ensures
        r == is_white_space(c),
{
    let u = c as u32;
    (0x9 <= u && u <= 0xd) || u == 0x20 || u == 0x85 || u == 0xa0 || u == 0x1680 || (0x2000 <= u
        && u <= 0x200a) || u == 0x2028 || u == 0x2029 || u == 0x202f || u == 0x205f || u == 0x3000
}

/// The characters of `s`, in order.
pub fn chars_of(s: &str) -> (r: Vec<char>)
    ensures
        r@ == s@,
{
    broadcast use vstd::string::group_string_axioms;

    let mut out: Vec<char> = Vec::new();
    for c in it: s.chars()
        invariant
            out@ == it.seq().take(it.index()),
    {
        out.push(c);
    }
    out
}


/// Index of the first non-white-space character of `s` at or after `i`
/// (`s.len()` when there is none).
pub open spec fn first_solid(s: Seq<char>, i: int) -> int
    decreases s.len() - i,
{
    if i < 0 || i >= s.len() || !is_white_space(s[i]) {
        i
    } else {
        first_solid(s, i + 1)
    }
}

/// One past the index of the last non-white-space character of `s` before `j`
/// (0 when there is none).
pub open spec fn end_solid(s: Seq<char>, j: int) -> int
    decreases j,
{
    if j <= 0 || j > s.len() || !is_white_space(s[j - 1]) {
        j
    } else {
        end_solid(s, j - 1)
    }
}

/// `s` with leading and trailing white space removed, as `str::trim` does.
pub open spec fn trimmed(s: Seq<char>) -> Seq<char> {
    let a = first_solid(s, 0);
    let b = end_solid(s, s.len() as int);
    if a < b {
        s.subrange(a, b)
    } else {
        Seq::empty()
    }
}

/// Bounds of the first non-white-space index.
pub proof fn lemma_first_solid_bounds(s: Seq<char>, i: int)
    requires
        0 <= i <= s.len(),
    ensures
        i <= first_solid(s, i) <= s.len(),
        first_solid(s, i) < s.len() ==> !is_white_space(s[first_solid(s, i)]),
        forall|k: int| i <= k < first_solid(s, i) ==> is_white_space(#[trigger] s[k]),
    decreases s.len() - i,
{
    if i < s.len() && is_white_space(s[i]) {
        lemma_first_solid_bounds(s, i + 1);
    }
}

/// Bounds of the end of the non-white-space part.
pub proof fn lemma_end_solid_bounds(s: Seq<char>, j: int)
    requires
        0 <= j <= s.len(),
    ensures
        0 <= end_solid(s, j) <= j,
        end_solid(s, j) > 0 ==> !is_white_space(s[end_solid(s, j) - 1]),
        forall|k: int| end_solid(s, j) <= k < j ==> is_white_space(#[trigger] s[k]),
    decreases j,
{
    if j > 0 && is_white_space(s[j - 1]) {
        lemma_end_solid_bounds(s, j - 1);
    }
}

/// Trimming removes exactly the white space at both ends: the result is
/// empty when every character is white space; otherwise it is the stretch of
/// `s` that starts at the first and ends at the last non-white-space
/// character, with only white space before and after it.
pub proof fn law_trimmed_shape(s: Seq<char>)
    ensures
        trimmed(s).len() == 0 <==> forall|k: int| 0 <= k < s.len() ==> is_white_space(#[trigger] s[k]),
        trimmed(s).len() > 0 ==> exists|a: int|
            {
                &&& 0 <= a
                &&& a + trimmed(s).len() <= s.len()
                &&& #[trigger] s.subrange(a, a + trimmed(s).len()) == trimmed(s)
                &&& forall|k: int| 0 <= k < a ==> is_white_space(#[trigger] s[k])
                &&& forall|k: int| a + trimmed(s).len() <= k < s.len() ==> is_white_space(#[trigger] s[k])
                &&& !is_white_space(trimmed(s)[0])
                &&& !is_white_space(trimmed(s).last())
            },
{
    let a = first_solid(s, 0);
    let b = end_solid(s, s.len() as int);
    lemma_first_solid_bounds(s, 0);
    lemma_end_solid_bounds(s, s.len() as int);
    if a < b {
        let t = s.subrange(a, b);
        assert(trimmed(s) == t);
        assert(t[0] == s[a]);
        assert(t.last() == s[b - 1]);
        assert(s.subrange(a, a + t.len()) == t);
        assert(!is_white_space(s[a]));
    } else {
        assert forall|k: int| 0 <= k < s.len() implies is_white_space(#[trigger] s[k]) by {
            if k >= a {
                assert(k >= b);
            }
        }
    }
}

/// The bounds `[a, b)` of the trimmed part of `cs`.
pub fn trim_bounds(cs: &Vec<char>) -> (r: (usize, usize))
    ensures
        r.0 == first_solid(cs@, 0),
        r.1 == end_solid(cs@, cs@.len() as int),
        r.0 <= cs@.len(),
        r.1 <= cs@.len(),
        r.0 < r.1 ==> trimmed(cs@) == cs@.subrange(r.0 as int, r.1 as int),
        r.0 >= r.1 ==> trimmed(cs@) == Seq::<char>::empty(),
{
    let n = cs.len();
    let mut a: usize = 0;
    while a < n && white_space(cs[a])
        invariant
            a <= n,
            n == cs@.len(),
            first_solid(cs@, a as int) == first_solid(cs@, 0),
        decreases n - a,
    {
        a = a + 1;
    }
    let mut b: usize = n;
    while b > 0 && white_space(cs[b - 1])
        invariant
            b <= n,
            n == cs@.len(),
            end_solid(cs@, b as int) == end_solid(cs@, n as int),
        decreases b,
    {
        b = b - 1;
    }
    (a, b)
}

/// Whether `cs[from..]` starts with the characters of `prefix`.
pub fn has_prefix_at(cs: &Vec<char>, from: usize, prefix: &Vec<char>) -> (r: bool)
    requires
        from <= cs@.len(),
    ensures
        r == (from + prefix@.len() <= cs@.len() && cs@.subrange(
            from as int,
            from + prefix@.len(),
        ) == prefix@),
{
    if prefix.len() > cs.len() - from {
        return false;
    }
    let mut k: usize = 0;
    while k < prefix.len()
        invariant
            from + prefix@.len() <= cs@.len(),
            cs@.len() <= usize::MAX,
            k <= prefix@.len(),
            forall|m: int| 0 <= m < k ==> cs@[from + m] == prefix@[m],
        decreases prefix@.len() - k,
    {
        if cs[from + k] != prefix[k] {
            assert(cs@.subrange(from as int, from + prefix@.len())[k as int] != prefix@[k as int]);
            return false;
        }
        k = k + 1;
    }
    assert(cs@.subrange(from as int, from + prefix@.len()) =~= prefix@);
    true
}

/// Appends `c` to `s`.
///
/// Trusted: calls `String::push`, which appends the character at the end.
#[verifier::external_body]
fn push_char(s: &mut String, c: char)
    ensures
        final(s)@ == old(s)@.push(c),
{
    s.push(c)
}

/// The digit characters used for bases up to sixteen (lower case).
pub open spec fn digit_chars() -> Seq<char> {
    seq!['0', '1', '2', '3', '4', '5', '6', '7', '8', '9', 'a', 'b', 'c', 'd', 'e', 'f']
}

/// The digits of `n` in `base`, most significant first, without leading
/// zeros (a single `0` for zero).
pub open spec fn digits(n: nat, base: nat) -> Seq<char>
    decreases n,
{
    if base < 2 || base > 16 {
        Seq::empty()
    } else if n < base {
        seq![digit_chars()[n as int]]
    } else {
        proof {
            assert(n / base < n) by (nonlinear_arith)
                requires
                    base >= 2,
                    n >= base,
            ;
        }
        digits(n / base, base).push(digit_chars()[(n % base) as int])
    }
}

/// Lower-case hexadecimal text of `n`, as `format!("{:x}", n)` writes it.
pub open spec fn lower_hex(n: u64) -> Seq<char> {
    digits(n as nat, 16)
}

/// Decimal text of `n`, as `format!("{}", n)` writes it.
pub open spec fn decimal(n: int) -> Seq<char> {
    if n < 0 {
        seq!['-'] + digits((-n) as nat, 10)
    } else {
        digits(n as nat, 10)
    }
}

/// Decimal digits are never empty, start with a digit character, and are a
/// single character exactly for the numbers below ten.
pub proof fn lemma_decimal_digits_shape(n: nat)
    ensures
        digits(n, 10).len() >= 1,
        digits(n, 10).len() == 1 <==> n < 10,
        '0' <= digits(n, 10)[0] <= '9',
    decreases n,
{
    if n >= 10 {
        assert(n / 10 < n);
        lemma_decimal_digits_shape(n / 10);
        assert(digits(n, 10)[0] == digits(n / 10, 10)[0]);
    }
}

proof fn lemma_digits_injective(a: nat, b: nat)
    requires
        digits(a, 10) == digits(b, 10),
    ensures
        a == b,
    decreases a,
{
    lemma_decimal_digits_shape(a);
    lemma_decimal_digits_shape(b);
    if a >= 10 && b >= 10 {
        let da = digits(a, 10);
        assert(da.drop_last() =~= digits(a / 10, 10));
        assert(digits(b, 10).drop_last() =~= digits(b / 10, 10));
        assert(da.last() == digit_chars()[(a % 10) as int]);
        assert(digits(b, 10).last() == digit_chars()[(b % 10) as int]);
        assert(a % 10 == b % 10);
        lemma_digits_injective(a / 10, b / 10);
    }
}

/// Different numbers have different decimal texts.
pub proof fn law_decimal_injective(a: int, b: int)
    ensures
        decimal(a) == decimal(b) ==> a == b,
{
    if decimal(a) == decimal(b) {
        if a < 0 && b < 0 {
            assert(decimal(a).drop_first() =~= digits((-a) as nat, 10));
            assert(decimal(b).drop_first() =~= digits((-b) as nat, 10));
            lemma_digits_injective((-a) as nat, (-b) as nat);
        } else if a >= 0 && b >= 0 {
            lemma_digits_injective(a as nat, b as nat);
        } else if a < 0 {
            lemma_decimal_digits_shape(b as nat);
            assert(decimal(a)[0] == '-');
        } else {
            lemma_decimal_digits_shape(a as nat);
            assert(decimal(b)[0] == '-');
        }
    }
}

fn digit_char(d: u64) -> (c: char)
    requires
        d < 16,
    ensures
        c == digit_chars()[d as int],
{
    let table: [char; 16] = [
        '0', '1', '2', '3', '4', '5', '6', '7', '8', '9', 'a', 'b', 'c', 'd', 'e', 'f',
    ];
    assert(table@ =~= digit_chars());
    table[d as usize]
}

/// Appends the digits of `n` in `base` to `s`.
pub fn push_digits(s: &mut String, n: u64, base: u64)
    requires
        2 <= base <= 16,
    ensures
        final(s)@ == old(s)@ + digits(n as nat, base as nat),
    decreases n,
{
    if n < base {
        push_char(s, digit_char(n));
    } else {
        assert(n / base < n) by (nonlinear_arith)
            requires
                base >= 2,
                n >= base,
        ;
        push_digits(s, n / base, base);
        push_char(s, digit_char(n % base));
        assert(final(s)@ =~= old(s)@ + digits(n as nat, base as nat));
    }
}

/// Lower-case hexadecimal text of `n`.
pub fn to_lower_hex(n: u64) -> (r: String)
    ensures
        r@ == lower_hex(n),
{
    let mut s = String::new();
    push_digits(&mut s, n, 16);
    assert(s@ =~= lower_hex(n));
    s
}

/// Decimal text of `n`.
pub fn to_decimal(n: i64) -> (r: String)
    ensures
        r@ == decimal(n as int),
{
    let mut s = String::new();
    if n < 0 {
        push_char(&mut s, '-');
        let m: u64 = ((-(n + 1)) as u64) + 1;
        push_digits(&mut s, m, 10);
    } else {
        push_digits(&mut s, n as u64, 10);
    }
    assert(s@ =~= decimal(n as int));
    s
}

} // verus!
