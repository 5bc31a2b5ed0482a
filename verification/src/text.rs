//! Character-level text helpers: Unicode white space and trimming, the
//! grammar of float literals that `f64`'s `FromStr` accepts, decimal
//! rendering of counts, and file-name sanitising.
use vstd::prelude::*;

verus! {

// ---------------------------------------------------------------------
// Building and reading strings
// ---------------------------------------------------------------------

/// The characters of `s`, in order.
pub fn chars_of(s: &str) -> (out: Vec<char>)
    ensures
        out@ == s@,
{
    let mut out: Vec<char> = Vec::new();
    for c in it: s.chars()
        invariant
            out@ == it.seq().take(it.index() as int),
            it.seq() == s@,
    {
        out.push(c);
    }
    out
}

/// Collects characters into a `String` (std's `FromIterator<char>`), which
/// yields exactly those characters in order.
#[verifier::external_body]
pub(crate) fn string_from_chars(cs: &[char]) -> (s: String)
    ensures
        s@ == cs@,
{
    cs.iter().collect()
}

// ---------------------------------------------------------------------
// White space and trimming
// ---------------------------------------------------------------------

/// The Unicode `White_Space` property, which is what `char::is_whitespace`
/// and `str::trim` go by.
pub open spec fn is_white_space(c: char) -> bool {
    let u = c as u32;
    (0x9 <= u <= 0xd) || u == 0x20 || u == 0x85 || u == 0xa0 || u == 0x1680 || (0x2000 <= u
        <= 0x200a) || u == 0x2028 || u == 0x2029 || u == 0x202f || u == 0x205f || u == 0x3000
}

/// Whether `c` is Unicode white space.
pub fn is_white_space_char(c: char) -> (b: bool)
    ensures
        b == is_white_space(c),
{
    let u = c as u32;
    (0x9 <= u && u <= 0xd) || u == 0x20 || u == 0x85 || u == 0xa0 || u == 0x1680 || (0x2000 <= u
        && u <= 0x200a) || u == 0x2028 || u == 0x2029 || u == 0x202f || u == 0x205f || u == 0x3000
}

/// `s` without its leading white space.
pub open spec fn trim_start(s: Seq<char>) -> Seq<char>
    decreases s.len(),
{
    if s.len() > 0 && is_white_space(s[0]) {
        trim_start(s.drop_first())
    } else {
        s
    }
}

/// `s` without its trailing white space.
pub open spec fn trim_end(s: Seq<char>) -> Seq<char>
    decreases s.len(),
{
    if s.len() > 0 && is_white_space(s.last()) {
        trim_end(s.drop_last())
    } else {
        s
    }
}

/// `s` without leading and trailing white space, as `str::trim` gives it.
pub open spec fn trim(s: Seq<char>) -> Seq<char> {
    trim_end(trim_start(s))
}

proof fn lemma_trim_start_skip(s: Seq<char>, i: int)
    requires
        0 <= i <= s.len(),
        forall|k: int| 0 <= k < i ==> is_white_space(#[trigger] s[k]),
    ensures
        trim_start(s) == trim_start(s.skip(i)),
    decreases i,
{
    if i > 0 {
        assert(s.drop_first().skip(i - 1) =~= s.skip(i));
        lemma_trim_start_skip(s.drop_first(), i - 1);
    } else {
        assert(s.skip(0) =~= s);
    }
}

proof fn lemma_trim_end_take(s: Seq<char>, j: int)
    requires
        0 <= j <= s.len(),
        forall|k: int| j <= k < s.len() ==> is_white_space(#[trigger] s[k]),
    ensures
        trim_end(s) == trim_end(s.take(j)),
    decreases s.len() - j,
{
    if j < s.len() {
        assert(s.drop_last().take(j) =~= s.take(j));
        lemma_trim_end_take(s.drop_last(), j);
    } else {
        assert(s.take(j) =~= s);
    }
}

/// Trimming the start drops a prefix, after which the first character (if
/// any) is not white space.
pub proof fn lemma_trim_start_shape(s: Seq<char>)
    ensures
        exists|a: int| 0 <= a <= s.len() && trim_start(s) == s.skip(a),
        trim_start(s).len() > 0 ==> !is_white_space(trim_start(s)[0]),
    decreases s.len(),
{
    if s.len() > 0 && is_white_space(s[0]) {
        lemma_trim_start_shape(s.drop_first());
        let a = choose|a: int| 0 <= a <= s.drop_first().len() && trim_start(s.drop_first()) == s.drop_first().skip(a);
        assert(s.drop_first().skip(a) =~= s.skip(a + 1));
    } else {
        assert(s.skip(0) =~= s);
    }
}

/// Trimming the end drops a suffix, after which the last character (if any)
/// is not white space.
pub proof fn lemma_trim_end_shape(s: Seq<char>)
    ensures
        exists|b: int| 0 <= b <= s.len() && trim_end(s) == s.take(b),
        trim_end(s).len() > 0 ==> !is_white_space(trim_end(s).last()),
    decreases s.len(),
{
    if s.len() > 0 && is_white_space(s.last()) {
        lemma_trim_end_shape(s.drop_last());
        let b = choose|b: int| 0 <= b <= s.drop_last().len() && trim_end(s.drop_last()) == s.drop_last().take(b);
        assert(s.drop_last().take(b) =~= s.take(b));
    } else {
        assert(s.take(s.len() as int) =~= s);
    }
}

/// Trimming keeps a contiguous stretch of `s` that neither starts nor ends
/// with white space.
pub proof fn lemma_trim_shape(s: Seq<char>)
    ensures
        exists|a: int, b: int| 0 <= a <= b <= s.len() && trim(s) == s.subrange(a, b),
        trim(s).len() > 0 ==> !is_white_space(trim(s)[0]) && !is_white_space(trim(s).last()),
{
    lemma_trim_start_shape(s);
    let t = trim_start(s);
    let a = choose|a: int| 0 <= a <= s.len() && trim_start(s) == s.skip(a);
    lemma_trim_end_shape(t);
    let b = choose|b: int| 0 <= b <= t.len() && trim_end(t) == t.take(b);
    assert(t.take(b) =~= s.subrange(a, a + b));
    if trim(s).len() > 0 {
        assert(trim(s)[0] == t[0]);
    }
}

/// The bounds `(a, b)` with `s.subrange(a, b)` being `s` trimmed.
pub fn trim_bounds(cs: &[char]) -> (r: (usize, usize))
    ensures
        r.0 <= r.1 <= cs@.len(),
        cs@.subrange(r.0 as int, r.1 as int) == trim(cs@),
{
    let n = cs.len();
    let mut i: usize = 0;
    while i < n && is_white_space_char(cs[i])
        invariant
            i <= n == cs@.len(),
            forall|k: int| 0 <= k < i ==> is_white_space(#[trigger] cs@[k]),
        decreases n - i,
    {
        i = i + 1;
    }
    let mut j: usize = n;
    while j > i && is_white_space_char(cs[j - 1])
        invariant
            i <= j <= n == cs@.len(),
            forall|k: int| j <= k < n ==> is_white_space(#[trigger] cs@[k]),
        decreases j,
    {
        j = j - 1;
    }
    proof {
        let s = cs@;
        lemma_trim_start_skip(s, i as int);
        assert(trim_start(s.skip(i as int)) == s.skip(i as int));
        let t = s.skip(i as int);
        assert forall|k: int| j - i <= k < t.len() implies is_white_space(#[trigger] t[k]) by {
            assert(t[k] == s[k + i]);
        }
        lemma_trim_end_take(t, j - i);
        let u = t.take(j - i);
        assert(u =~= s.subrange(i as int, j as int));
        if u.len() > 0 {
            assert(u.last() == s[j - 1]);
        }
        assert(trim_end(u) == u);
    }
    (i, j)
}

/// `s` with leading and trailing white space removed.
pub fn trimmed(s: &str) -> (t: String)
    ensures
        t@ == trim(s@),
{
    let cs = chars_of(s);
    let (a, b) = trim_bounds(cs.as_slice());
    let mut out: Vec<char> = Vec::new();
    let mut k = a;
    while k < b
        invariant
            a <= k <= b <= cs@.len(),
            out@ == cs@.subrange(a as int, k as int),
        decreases b - k,
    {
        out.push(cs[k]);
        k = k + 1;
        assert(out@ =~= cs@.subrange(a as int, k as int));
    }
    string_from_chars(out.as_slice())
}

/// `s` holds nothing but white space.
pub open spec fn blank(s: Seq<char>) -> bool {
    trim(s).len() == 0
}

/// Whether `s` holds nothing but white space.
pub fn is_blank(s: &str) -> (b: bool)
    ensures
        b == blank(s@),
{
    let cs = chars_of(s);
    let (a, b) = trim_bounds(cs.as_slice());
    a == b
}

// ---------------------------------------------------------------------
// Float literals
// ---------------------------------------------------------------------

pub open spec fn is_digit(c: char) -> bool {
    '0' <= c <= '9'
}

/// Every character of `s` is an ASCII digit.
pub open spec fn all_digits(s: Seq<char>) -> bool {
    forall|i: int| 0 <= i < s.len() ==> is_digit(#[trigger] s[i])
}

pub open spec fn is_sign(c: char) -> bool {
    c == '+' || c == '-'
}

/// ASCII upper-case letters turned to lower case, other characters kept.
pub open spec fn ascii_lower(c: char) -> char {
    if 'A' <= c <= 'Z' {
        ((c as u32) + 32) as char
    } else {
        c
    }
}

pub open spec fn lowered(s: Seq<char>) -> Seq<char> {
    s.map_values(|c: char| ascii_lower(c))
}

/// `Digit+ | Digit+ '.' Digit* | Digit* '.' Digit+`
pub open spec fn is_mantissa(s: Seq<char>) -> bool {
    ||| s.len() > 0 && all_digits(s)
    ||| exists|k: int|
        0 <= k < s.len() && #[trigger] s[k] == '.' && all_digits(s.take(k)) && all_digits(
            s.skip(k + 1),
        ) && s.len() > 1
}

/// `'e' Sign? Digit+`
pub open spec fn is_exponent(s: Seq<char>) -> bool {
    &&& s.len() > 1
    &&& s[0] == 'e'
    &&& {
        ||| all_digits(s.skip(1))
        ||| s.len() > 2 && is_sign(s[1]) && all_digits(s.skip(2))
    }
}

/// `Mantissa Exp?`
pub open spec fn is_number(s: Seq<char>) -> bool {
    ||| is_mantissa(s)
    ||| exists|k: int| 0 <= k < s.len() && is_mantissa(s.take(k)) && #[trigger] is_exponent(s.skip(k))
}

pub open spec fn is_unsigned_float(s: Seq<char>) -> bool {
    ||| s == seq!['i', 'n', 'f']
    ||| s == seq!['i', 'n', 'f', 'i', 'n', 'i', 't', 'y']
    ||| s == seq!['n', 'a', 'n']
    ||| is_number(s)
}

/// The grammar of `<f64 as FromStr>`: `Sign? ('inf' | 'infinity' | 'nan' | Number)`,
/// matched after ASCII lower-casing; no white space anywhere.
pub open spec fn is_float_literal(s: Seq<char>) -> bool {
    let l = lowered(s);
    ||| is_unsigned_float(l)
    ||| l.len() > 0 && is_sign(l[0]) && is_unsigned_float(l.drop_first())
}

fn lower_char(c: char) -> (d: char)
    ensures
        d == ascii_lower(c),
{
    if 'A' <= c && c <= 'Z' {
        let u: u8 = (c as u8) + 32;
        u as char
    } else {
        c
    }
}

/// First index in `cs[from..to]` holding `c`, or `to` where there is none.
fn find_char(cs: &Vec<char>, from: usize, to: usize, c: char) -> (r: usize)
    requires
        from <= to <= cs@.len(),
    ensures
        from <= r <= to,
        r < to ==> cs@[r as int] == c,
        forall|k: int| from <= k < r ==> cs@[k] != c,
{
    let mut i = from;
    while i < to && cs[i] != c
        invariant
            from <= i <= to <= cs@.len(),
            forall|k: int| from <= k < i ==> cs@[k] != c,
        decreases to - i,
    {
        i = i + 1;
    }
    i
}

/// Whether `cs[from..to]` is all digits.
fn digits_between(cs: &Vec<char>, from: usize, to: usize) -> (b: bool)
    requires
        from <= to <= cs@.len(),
    ensures
        b == all_digits(cs@.subrange(from as int, to as int)),
{
    let mut i = from;
    while i < to
        invariant
            from <= i <= to <= cs@.len(),
            all_digits(cs@.subrange(from as int, i as int)),
        decreases to - i,
    {
        if !('0' <= cs[i] && cs[i] <= '9') {
            assert(cs@.subrange(from as int, to as int)[i - from] == cs@[i as int]);
            return false;
        }
        i = i + 1;
        assert forall|k: int| 0 <= k < i - from implies is_digit(
            #[trigger] cs@.subrange(from as int, i as int)[k],
        ) by {
            if k < i - 1 - from {
                assert(cs@.subrange(from as int, i as int)[k] == cs@.subrange(
                    from as int,
                    i - 1,
                )[k]);
            }
        }
    }
    true
}

proof fn lemma_all_digits_no(s: Seq<char>, c: char, k: int)
    requires
        all_digits(s),
        0 <= k < s.len(),
        !is_digit(c),
    ensures
        s[k] != c,
{
}

/// Whether `cs[from..to]` is a mantissa.
fn check_mantissa(cs: &Vec<char>, from: usize, to: usize) -> (b: bool)
    requires
        from <= to <= cs@.len(),
    ensures
        b == is_mantissa(cs@.subrange(from as int, to as int)),
{
    let ghost s = cs@.subrange(from as int, to as int);
    let d = find_char(cs, from, to, '.');
    if d == to {
        let r = to > from && digits_between(cs, from, to);
        proof {
            if !r && is_mantissa(s) {
                if !(s.len() > 0 && all_digits(s)) {
                    let k = choose|k: int|
                        0 <= k < s.len() && #[trigger] s[k] == '.' && all_digits(s.take(k))
                            && all_digits(s.skip(k + 1)) && s.len() > 1;
                    assert(s[k] == cs@[from + k]);
                }
            }
        }
        r
    } else {
        let a = digits_between(cs, from, d);
        let b = digits_between(cs, d + 1, to);
        let r = a && b && to - from > 1;
        proof {
            let k0 = d - from;
            assert(s[k0] == '.');
            assert(s.take(k0) =~= cs@.subrange(from as int, d as int));
            assert(s.skip(k0 + 1) =~= cs@.subrange(d + 1, to as int));
            if r {
                assert(is_mantissa(s));
            } else if is_mantissa(s) {
                if s.len() > 0 && all_digits(s) {
                    assert(!is_digit(s[k0]));
                } else {
                    let k = choose|k: int|
                        0 <= k < s.len() && #[trigger] s[k] == '.' && all_digits(s.take(k))
                            && all_digits(s.skip(k + 1)) && s.len() > 1;
                    if k < k0 {
                        assert(s.skip(k + 1)[k0 - k - 1] == s[k0]);
                        lemma_all_digits_no(s.skip(k + 1), '.', k0 - k - 1);
                    } else if k > k0 {
                        assert(s.take(k)[k0] == s[k0]);
                        lemma_all_digits_no(s.take(k), '.', k0);
                    }
                }
            }
        }
        r
    }
}

/// Whether `cs[from..to]` is an exponent part.
fn check_exponent(cs: &Vec<char>, from: usize, to: usize) -> (b: bool)
    requires
        from <= to <= cs@.len(),
    ensures
        b == is_exponent(cs@.subrange(from as int, to as int)),
{
    let ghost s = cs@.subrange(from as int, to as int);
    if to - from < 2 || cs[from] != 'e' {
        return false;
    }
    assert(s.skip(1) =~= cs@.subrange(from + 1, to as int));
    if digits_between(cs, from + 1, to) {
        return true;
    }
    if to - from > 2 && (cs[from + 1] == '+' || cs[from + 1] == '-') {
        assert(s.skip(2) =~= cs@.subrange(from + 2, to as int));
        digits_between(cs, from + 2, to)
    } else {
        false
    }
}

proof fn lemma_mantissa_has_no_e(s: Seq<char>, k: int)
    requires
        is_mantissa(s),
        0 <= k < s.len(),
    ensures
        s[k] != 'e',
{
    if !(s.len() > 0 && all_digits(s)) {
        let j = choose|j: int|
            0 <= j < s.len() && #[trigger] s[j] == '.' && all_digits(s.take(j)) && all_digits(
                s.skip(j + 1),
            ) && s.len() > 1;
        if k < j {
            assert(s.take(j)[k] == s[k]);
        } else if k > j {
            assert(s.skip(j + 1)[k - j - 1] == s[k]);
        }
    }
}

/// Whether `cs[from..to]` is a number (mantissa with optional exponent).
fn check_number(cs: &Vec<char>, from: usize, to: usize) -> (b: bool)
    requires
        from <= to <= cs@.len(),
    ensures
        b == is_number(cs@.subrange(from as int, to as int)),
{
    let ghost s = cs@.subrange(from as int, to as int);
    let e = find_char(cs, from, to, 'e');
    let ghost k0: int = e - from;
    if e == to {
        let r = check_mantissa(cs, from, to);
        proof {
            if !r && is_number(s) {
                let k = choose|k: int|
                    0 <= k < s.len() && is_mantissa(s.take(k)) && #[trigger] is_exponent(
                        s.skip(k),
                    );
                assert(s.skip(k)[0] == s[k]);
                assert(s[k] == cs@[from + k]);
            }
        }
        r
    } else {
        let m = check_mantissa(cs, from, e);
        let x = check_exponent(cs, e, to);
        proof {
            assert(s.take(k0) =~= cs@.subrange(from as int, e as int));
            assert(s.skip(k0) =~= cs@.subrange(e as int, to as int));
            assert(s[k0] == 'e');
            if is_mantissa(s) {
                lemma_mantissa_has_no_e(s, k0);
            }
            if is_number(s) && !(m && x) {
                let k = choose|k: int|
                    0 <= k < s.len() && is_mantissa(s.take(k)) && #[trigger] is_exponent(
                        s.skip(k),
                    );
                assert(s.skip(k)[0] == s[k]);
                if k < k0 {
                    assert(s[k] == cs@[from + k]);
                } else if k > k0 {
                    assert(s.take(k)[k0] == s[k0]);
                    lemma_mantissa_has_no_e(s.take(k), k0);
                }
            }
        }
        m && x
    }
}

fn is_word(cs: &Vec<char>, from: usize, word: &[char]) -> (b: bool)
    requires
        from <= cs@.len(),
    ensures
        b == (cs@.skip(from as int) == word@),
{
    let n = cs.len();
    if n - from != word.len() {
        assert(cs@.skip(from as int).len() != word@.len());
        return false;
    }
    let mut i: usize = 0;
    while i < word.len()
        invariant
            from + word@.len() == n == cs@.len(),
            i <= word@.len(),
            forall|k: int| 0 <= k < i ==> cs@[from + k] == word@[k],
        decreases word@.len() - i,
    {
        if cs[from + i] != word[i] {
            assert(cs@.skip(from as int)[i as int] == cs@[from + i]);
            return false;
        }
        i = i + 1;
    }
    assert(cs@.skip(from as int) =~= word@);
    true
}

/// Whether `s` is accepted by `<f64 as FromStr>::from_str`.
pub fn is_float_literal_str(s: &str) -> (b: bool)
    ensures
        b == is_float_literal(s@),
{
    let raw = chars_of(s);
    let mut l: Vec<char> = Vec::new();
    let mut i: usize = 0;
    while i < raw.len()
        invariant
            i <= raw@.len(),
            l@ == lowered(raw@.take(i as int)),
        decreases raw@.len() - i,
    {
        l.push(lower_char(raw[i]));
        i = i + 1;
        assert(l@ =~= lowered(raw@.take(i as int)));
    }
    assert(raw@.take(raw@.len() as int) =~= raw@);
    let ghost ls = lowered(s@);
    let n = l.len();
    let signed = n > 0 && (l[0] == '+' || l[0] == '-');
    let from: usize = if signed { 1 } else { 0 };
    let inf = ['i', 'n', 'f'];
    let infinity = ['i', 'n', 'f', 'i', 'n', 'i', 't', 'y'];
    let nan = ['n', 'a', 'n'];
    let unsigned_here = is_word(&l, from, &inf) || is_word(&l, from, &infinity) || is_word(
        &l,
        from,
        &nan,
    ) || check_number(&l, from, n);
    proof {
        assert(l@.subrange(from as int, n as int) =~= l@.skip(from as int));
        assert(inf@ =~= seq!['i', 'n', 'f']);
        assert(infinity@ =~= seq!['i', 'n', 'f', 'i', 'n', 'i', 't', 'y']);
        assert(nan@ =~= seq!['n', 'a', 'n']);
        if signed {
            assert(ls.drop_first() =~= l@.skip(1));
            if is_unsigned_float(ls) {
                // a signed string is no unsigned float: every alternative starts otherwise
                assert(!is_digit(ls[0]) && ls[0] != '.' && ls[0] != 'i' && ls[0] != 'n');
                if is_number(ls) && !is_mantissa(ls) {
                    let k = choose|k: int|
                        0 <= k < ls.len() && is_mantissa(ls.take(k)) && #[trigger] is_exponent(
                            ls.skip(k),
                        );
                    if k == 0 {
                        assert(ls.skip(k)[0] == ls[0]);
                    } else {
                        lemma_mantissa_first(ls.take(k));
                        assert(ls.take(k)[0] == ls[0]);
                    }
                } else if is_mantissa(ls) {
                    lemma_mantissa_first(ls);
                }
            }
        } else {
            assert(l@.skip(0) =~= l@);
            if ls.len() > 0 && is_sign(ls[0]) {
                assert(false);
            }
        }
    }
    unsigned_here
}

proof fn lemma_mantissa_first(s: Seq<char>)
    requires
        is_mantissa(s),
    ensures
        is_digit(s[0]) || s[0] == '.',
{
    if !(s.len() > 0 && all_digits(s)) {
        let j = choose|j: int|
            0 <= j < s.len() && #[trigger] s[j] == '.' && all_digits(s.take(j)) && all_digits(
                s.skip(j + 1),
            ) && s.len() > 1;
        if j > 0 {
            assert(s.take(j)[0] == s[0]);
        }
    }
}

// ---------------------------------------------------------------------
// Decimal rendering
// ---------------------------------------------------------------------

pub open spec fn digit_char(d: nat) -> char
    recommends
        d < 10,
{
    (('0' as u32) + d) as char
}

/// The decimal digits of `n`, most significant first, with no leading zeros
/// (and "0" for zero), as `Display` prints an unsigned integer.
pub open spec fn decimal(n: nat) -> Seq<char>
    decreases n,
{
    if n < 10 {
        seq![digit_char(n)]
    } else {
        decimal(n / 10).push(digit_char(n % 10))
    }
}

/// The decimal representation of `n`.
pub fn decimal_string(n: usize) -> (s: String)
    ensures
        s@ == decimal(n as nat),
{
    // digits collected least significant first
    let mut rev: Vec<char> = Vec::new();
    let mut m = n;
    loop
        invariant_except_break
            decimal(n as nat) == decimal(m as nat) + rev@.reverse(),
        ensures
            decimal(n as nat) == rev@.reverse(),
        decreases m,
    {
        let d = m % 10;
        let c = ((d as u8) + 48) as char;
        assert(c == digit_char(d as nat));
        let ghost old_rev = rev@;
        rev.push(c);
        assert(rev@.reverse() =~= seq![c] + old_rev.reverse());
        if m < 10 {
            assert(decimal(m as nat) == seq![c]);
            assert(decimal(n as nat) =~= rev@.reverse());
            break;
        }
        assert(decimal(m as nat) == decimal((m / 10) as nat).push(c));
        assert(decimal((m / 10) as nat).push(c) + old_rev.reverse() =~= decimal((m / 10) as nat)
            + rev@.reverse());
        m = m / 10;
    }
    let mut out: Vec<char> = Vec::new();
    let mut k = rev.len();
    while k > 0
        invariant
            k <= rev@.len(),
            out@ == rev@.reverse().take(rev@.len() - k),
        decreases k,
    {
        k = k - 1;
        out.push(rev[k]);
        assert(out@ =~= rev@.reverse().take(rev@.len() - k));
    }
    assert(rev@.reverse().take(rev@.len() as int) =~= rev@.reverse());
    string_from_chars(out.as_slice())
}

// ---------------------------------------------------------------------
// File names
// ---------------------------------------------------------------------

/// What `char::is_alphanumeric` answers for `c` (the Unicode `Alphabetic`
/// or `Numeric` property), for characters outside ASCII.
pub uninterp spec fn unicode_alphanumeric(c: char) -> bool;

/// An ASCII letter or digit.
pub open spec fn ascii_alphanumeric(c: char) -> bool {
    ('a' <= c <= 'z') || ('A' <= c <= 'Z') || ('0' <= c <= '9')
}

/// Whether `c` is alphanumeric: within ASCII exactly the letters and digits
/// are; for any other character it is the Unicode table's answer.
pub open spec fn alphanumeric(c: char) -> bool {
    if (c as u32) < 128 {
        ascii_alphanumeric(c)
    } else {
        unicode_alphanumeric(c)
    }
}

/// `char::is_alphanumeric`, which depends on `c` alone. Claimed: within
/// ASCII it is true exactly for the letters and digits (the only ASCII
/// characters with the Unicode `Alphabetic` property or a numeric general
/// category); outside ASCII its answer is the named `unicode_alphanumeric`,
/// whose values (a table of Unicode properties) are not stated.
#[verifier::external_body]
fn char_is_alphanumeric(c: char) -> (b: bool)
    ensures
        b == (if (c as u32) < 128 {
            ascii_alphanumeric(c)
        } else {
            unicode_alphanumeric(c)
        }),
{
    c.is_alphanumeric()
}

/// What a character of a title becomes in a file name: kept when it is
/// alphanumeric, a hyphen, an underscore or a space, else `_`.
pub open spec fn filename_char(c: char, alphanumeric: bool) -> char {
    if alphanumeric || c == '-' || c == '_' || c == ' ' {
        c
    } else {
        '_'
    }
}

/// The file-name character for `c`, given whether `c` is alphanumeric.
pub fn sanitize_char(c: char, alphanumeric: bool) -> (d: char)
    ensures
        d == filename_char(c, alphanumeric),
{
    if alphanumeric || c == '-' || c == '_' || c == ' ' {
        c
    } else {
        '_'
    }
}

pub open spec fn plot_word() -> Seq<char> {
    seq!['p', 'l', 'o', 't']
}

/// A mapped title finished into a file-name stem: trimmed, or "plot" when
/// nothing is left.
pub open spec fn finish_stem(cleaned: Seq<char>) -> Seq<char> {
    if trim(cleaned).len() == 0 {
        plot_word()
    } else {
        trim(cleaned)
    }
}

/// A title turned into a file-name stem.
pub open spec fn sanitized(name: Seq<char>) -> Seq<char> {
    finish_stem(name.map_values(|c: char| filename_char(c, alphanumeric(c))))
}

/// A character that may stand in a file-name stem.
pub open spec fn filename_safe(c: char) -> bool {
    alphanumeric(c) || c == '-' || c == '_' || c == ' '
}

/// A sanitised stem is never empty and never starts or ends with white
/// space; unless it is the fallback "plot", it consists of alphanumeric
/// characters, hyphens, underscores and spaces only.
pub proof fn sanitize_laws(name: Seq<char>)
    ensures
        sanitized(name).len() > 0,
        !is_white_space(sanitized(name)[0]),
        !is_white_space(sanitized(name).last()),
        sanitized(name) == plot_word() || forall|i: int|
            0 <= i < sanitized(name).len() ==> filename_safe(#[trigger] sanitized(name)[i]),
{
    let m = name.map_values(|c: char| filename_char(c, alphanumeric(c)));
    assert forall|i: int| 0 <= i < m.len() implies filename_safe(#[trigger] m[i]) by {}
    lemma_trim_shape(m);
    if trim(m).len() > 0 {
        let (a, b) = choose|a: int, b: int| 0 <= a <= b <= m.len() && trim(m) == m.subrange(a, b);
        assert forall|i: int| 0 <= i < trim(m).len() implies filename_safe(#[trigger] trim(m)[i]) by {
            assert(trim(m)[i] == m[a + i]);
        }
    } else {
        let p = plot_word();
        assert(p[0] == 'p' && p.last() == 't');
    }
}

/// A sequence that neither starts nor ends with white space is its own trim.
pub proof fn lemma_trim_fixed(s: Seq<char>)
    requires
        s.len() > 0,
        !is_white_space(s[0]),
        !is_white_space(s.last()),
    ensures
        trim(s) == s,
{
    assert(trim_start(s) == s);
    assert(trim_end(s) == s);
}

/// Sanitising never lengthens a title (but for the fallback "plot"), and a
/// sanitised stem is left as it is by sanitising it again.
pub proof fn sanitize_stable(name: Seq<char>)
    ensures
        sanitized(name) == plot_word() || sanitized(name).len() <= name.len(),
        sanitized(sanitized(name)) == sanitized(name),
{
    let f = |c: char| filename_char(c, alphanumeric(c));
    let m = name.map_values(f);
    let r = sanitized(name);
    sanitize_laws(name);
    lemma_trim_shape(m);
    if trim(m).len() > 0 {
        let (a, b) = choose|a: int, b: int| 0 <= a <= b <= m.len() && trim(m) == m.subrange(a, b);
        assert(r.len() == b - a);
    }
    if r != plot_word() {
        assert forall|i: int| 0 <= i < r.len() implies #[trigger] f(r[i]) == r[i] by {
            assert(filename_safe(r[i]));
        }
    } else {
        assert forall|i: int| 0 <= i < r.len() implies #[trigger] f(r[i]) == r[i] by {
            assert(ascii_alphanumeric(r[i]));
        }
    }
    assert(r.map_values(f) =~= r);
    lemma_trim_fixed(r);
}

/// Trims an already mapped stem, and falls back to "plot" when it is empty.
pub fn finish_filename(cleaned: &str) -> (s: String)
    ensures
        s@ == finish_stem(cleaned@),
{
    let t = trimmed(cleaned);
    if t.as_str().is_empty() {
        let p = ['p', 'l', 'o', 't'];
        assert(p@ =~= plot_word());
        string_from_chars(&p)
    } else {
        t
    }
}

/// Turn a subplot title into a filesystem-safe default filename stem.
pub fn sanitize_filename(name: &str) -> (s: String)
    ensures
        s@ == sanitized(name@),
{
    let cs = chars_of(name);
    let mut out: Vec<char> = Vec::new();
    let mut i: usize = 0;
    while i < cs.len()
        invariant
            i <= cs@.len(),
            cs@ == name@,
            out@ == cs@.take(i as int).map_values(
                |c: char| filename_char(c, alphanumeric(c)),
            ),
        decreases cs@.len() - i,
    {
        let c = cs[i];
        out.push(sanitize_char(c, char_is_alphanumeric(c)));
        i = i + 1;
        assert(out@ =~= cs@.take(i as int).map_values(
            |c: char| filename_char(c, alphanumeric(c)),
        ));
    }
    assert(cs@.take(cs@.len() as int) =~= cs@);
    let cleaned = string_from_chars(out.as_slice());
    finish_filename(cleaned.as_str())
}

// ---------------------------------------------------------------------
// Comparing and case
// ---------------------------------------------------------------------

/// Whether `a` and `b` hold the same characters.
pub fn same_text(a: &str, b: &str) -> (r: bool)
    ensures
        r == (a@ == b@),
{
    let x = chars_of(a);
    let y = chars_of(b);
    if x.len() != y.len() {
        return false;
    }
    let mut i: usize = 0;
    while i < x.len()
        invariant
            x@ == a@,
            y@ == b@,
            x@.len() == y@.len(),
            i <= x@.len(),
            forall|k: int| 0 <= k < i ==> x@[k] == y@[k],
        decreases x@.len() - i,
    {
        if x[i] != y[i] {
            return false;
        }
        i = i + 1;
    }
    assert(x@ =~= y@);
    true
}

/// What `str::to_lowercase` gives for `s` (Unicode lower-casing).
pub uninterp spec fn unicode_lowercase(s: Seq<char>) -> Seq<char>;

/// All characters of `s` are ASCII.
pub open spec fn all_ascii(s: Seq<char>) -> bool {
    forall|i: int| 0 <= i < s.len() ==> (#[trigger] s[i] as u32) < 128
}

/// `str::to_lowercase`; its answer depends on `s` alone and is named
/// `unicode_lowercase`. Claimed beyond that: on ASCII text it lower-cases
/// `A`-`Z` and keeps every other character (ASCII letters have their ASCII
/// lowercase forms, and no other ASCII character has a lowercase mapping).
/// The Unicode case tables for other characters are not restated.
#[verifier::external_body]
pub(crate) fn lowercase(s: &str) -> (r: String)
    ensures
        r@ == unicode_lowercase(s@),
        all_ascii(s@) ==> r@ == lowered(s@),
{
    s.to_lowercase()
}

} // verus!
