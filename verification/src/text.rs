//! Character-level text utilities used by the renderers and parsers.

use vstd::prelude::*;

verus! {

/// The characters of a string slice, in order.
pub fn chars_of(s: &str) -> (r: Vec<char>)
    ensures
        r@ == s@,
{
    let mut out: Vec<char> = Vec::new();
    for c in it: s.chars()
        invariant
            out@ == it.seq().take(it.index() as int),
            it.seq() == s@,
    {
        out.push(c);
    }
    out
}

/// Appends the characters of `s`.
pub fn push_str(out: &mut Vec<char>, s: &str)
    ensures
        final(out)@ == old(out)@ + s@,
{
    let ghost start = out@;
    for c in it: s.chars()
        invariant
            out@ == start + it.seq().take(it.index() as int),
            it.seq() == s@,
    {
        out.push(c);
        proof {
            assert(it.seq().take(it.index() + 1) =~= it.seq().take(it.index() as int).push(c));
        }
    }
}

/// Appends a list of characters.
pub fn push_chars(out: &mut Vec<char>, s: &Vec<char>)
    ensures
        final(out)@ == old(out)@ + s@,
{
    let ghost start = out@;
    let n = s.len();
    for i in 0..n
        invariant
            n == s@.len(),
            out@ == start + s@.take(i as int),
    {
        out.push(s[i]);
        proof {
            assert(s@.take(i + 1) =~= s@.take(i as int).push(s@[i as int]));
        }
    }
    proof {
        assert(s@.take(n as int) =~= s@);
    }
}

/// The string made of the given characters.
#[verifier::external_body]
pub(crate) fn string_from_chars(v: &Vec<char>) -> (r: String)
    ensures
        r@ == v@,
{
    String::from_iter(v.iter())
}

/// Text equality of two string slices.
pub fn str_eq(a: &str, b: &str) -> (r: bool)
    ensures
        r == (a@ == b@),
{
    let x: String = a.to_owned();
    let y: String = b.to_owned();
    x == y
}

/// `s` begins with `p`.
pub open spec fn has_prefix(s: Seq<char>, p: Seq<char>) -> bool {
    p.len() <= s.len() && s.subrange(0, p.len() as int) == p
}

/// `s` holds `p` somewhere.
pub open spec fn has_infix(s: Seq<char>, p: Seq<char>) -> bool {
    exists|i: int| 0 <= i && i + p.len() <= s.len() && #[trigger] s.subrange(i, i + p.len()) == p
}

fn matches_at(s: &Vec<char>, p: &Vec<char>, i: usize) -> (r: bool)
    requires
        i + p@.len() <= s@.len(),
    ensures
        r == (s@.subrange(i as int, i + p@.len()) == p@),
{
    let n = p.len();
    let mut k: usize = 0;
    while k < n
        invariant
            n == p@.len(),
            i + n <= s@.len(),
            i + n <= s.len(),
            k <= n,
            forall|j: int| 0 <= j < k ==> s@[i + j] == p@[j],
        decreases n - k,
    {
        if s[i + k] != p[k] {
            proof {
                assert(s@.subrange(i as int, i + n)[k as int] != p@[k as int]);
            }
            return false;
        }
        k = k + 1;
    }
    proof {
        assert(s@.subrange(i as int, i + n) =~= p@);
    }
    true
}

/// `s.starts_with(p)`
pub fn starts_with(s: &str, p: &str) -> (r: bool)
    ensures
        r == has_prefix(s@, p@),
{
    let sv = chars_of(s);
    let pv = chars_of(p);
    if pv.len() > sv.len() {
        return false;
    }
    matches_at(&sv, &pv, 0)
}

/// `s.contains(p)`
pub fn contains(s: &str, p: &str) -> (r: bool)
    ensures
        r == has_infix(s@, p@),
{
    let sv = chars_of(s);
    let pv = chars_of(p);
    if pv.len() > sv.len() {
        return false;
    }
    let last = sv.len() - pv.len();
    let mut i: usize = 0;
    loop
        invariant
            sv@ == s@,
            pv@ == p@,
            last + pv@.len() == sv@.len(),
            i <= last,
            forall|j: int| 0 <= j < i ==> #[trigger] sv@.subrange(j, j + pv@.len()) != pv@,
        decreases last - i,
    {
        if matches_at(&sv, &pv, i) {
            return true;
        }
        if i == last {
            return false;
        }
        i = i + 1;
    }
}

/// Whether `c` has the Unicode `White_Space` property (PropList.txt):
/// U+0009..U+000D, U+0020, U+0085, U+00A0, U+1680, U+2000..U+200A,
/// U+2028, U+2029, U+202F, U+205F and U+3000.
pub open spec fn unicode_white_space(c: char) -> bool {
    let u = c as u32;
    ||| 0x9 <= u <= 0xD
    ||| u == 0x20
    ||| u == 0x85
    ||| u == 0xA0
    ||| u == 0x1680
    ||| 0x2000 <= u <= 0x200A
    ||| u == 0x2028
    ||| u == 0x2029
    ||| u == 0x202F
    ||| u == 0x205F
    ||| u == 0x3000
}

/// Whether `c` is white space, as `char::is_whitespace` tests it.
fn char_is_whitespace(c: char) -> (r: bool)
    ensures
        r == unicode_white_space(c),
{
    let u = c as u32;
    (0x9 <= u && u <= 0xD) || u == 0x20 || u == 0x85 || u == 0xA0 || u == 0x1680 || (0x2000 <= u
        && u <= 0x200A) || u == 0x2028 || u == 0x2029 || u == 0x202F || u == 0x205F || u == 0x3000
}

/// `s` without its leading white space.
pub open spec fn trim_start(s: Seq<char>) -> Seq<char>
    decreases s.len(),
{
    if s.len() > 0 && unicode_white_space(s[0]) {
        trim_start(s.drop_first())
    } else {
        s
    }
}

/// `s` without its trailing white space.
pub open spec fn trim_end(s: Seq<char>) -> Seq<char>
    decreases s.len(),
{
    if s.len() > 0 && unicode_white_space(s.last()) {
        trim_end(s.drop_last())
    } else {
        s
    }
}

/// `str::trim`: `s` without leading and trailing white space.
pub open spec fn trimmed(s: Seq<char>) -> Seq<char> {
    trim_end(trim_start(s))
}

/// `s.trim()`
pub fn trim(s: &str) -> (r: Vec<char>)
    ensures
        r@ == trimmed(s@),
{
    let v = chars_of(s);
    let n = v.len();
    let mut i: usize = 0;
    proof {
        assert(v@.subrange(0, n as int) =~= v@);
    }
    while i < n && char_is_whitespace(v[i])
        invariant
            v@ == s@,
            n == v@.len(),
            i <= n,
            trim_start(s@) == trim_start(v@.subrange(i as int, n as int)),
        decreases n - i,
    {
        proof {
            assert(v@.subrange(i as int, n as int).drop_first() =~= v@.subrange(i + 1, n as int));
        }
        i = i + 1;
    }
    let mut j: usize = n;
    proof {
        assert(trim_start(v@.subrange(i as int, n as int)) == v@.subrange(i as int, n as int));
    }
    while j > i && char_is_whitespace(v[j - 1])
        invariant
            v@ == s@,
            n == v@.len(),
            i <= j <= n,
            trim_start(s@) == v@.subrange(i as int, n as int),
            trimmed(s@) == trim_end(v@.subrange(i as int, j as int)),
        decreases j - i,
    {
        proof {
            assert(v@.subrange(i as int, j as int).drop_last() =~= v@.subrange(i as int, j - 1));
        }
        j = j - 1;
    }
    let mut out: Vec<char> = Vec::new();
    let mut k: usize = i;
    while k < j
        invariant
            i <= k <= j <= n,
            n == v@.len(),
            out@ == v@.subrange(i as int, k as int),
        decreases j - k,
    {
        out.push(v[k]);
        proof {
            assert(v@.subrange(i as int, k + 1) =~= v@.subrange(i as int, k as int).push(v@[k as int]));
        }
        k = k + 1;
    }
    out
}

/// The decimal digit `d` (for `d < 10`).
pub open spec fn digit_char(d: nat) -> char {
    if d == 0 {
        '0'
    } else if d == 1 {
        '1'
    } else if d == 2 {
        '2'
    } else if d == 3 {
        '3'
    } else if d == 4 {
        '4'
    } else if d == 5 {
        '5'
    } else if d == 6 {
        '6'
    } else if d == 7 {
        '7'
    } else if d == 8 {
        '8'
    } else {
        '9'
    }
}

/// The decimal text of a natural number, without leading zeros.
pub open spec fn nat_text(n: nat) -> Seq<char>
    decreases n,
{
    if n < 10 {
        seq![digit_char(n)]
    } else {
        nat_text(n / 10).push(digit_char(n % 10))
    }
}

/// The decimal text of an integer, as `{}` formats it.
pub open spec fn int_text(i: int) -> Seq<char> {
    if i < 0 {
        seq!['-'] + nat_text((-i) as nat)
    } else {
        nat_text(i as nat)
    }
}

fn digit(d: u64) -> (c: char)
    requires
        d < 10,
    ensures
        c == digit_char(d as nat),
{
    if d == 0 {
        '0'
    } else if d == 1 {
        '1'
    } else if d == 2 {
        '2'
    } else if d == 3 {
        '3'
    } else if d == 4 {
        '4'
    } else if d == 5 {
        '5'
    } else if d == 6 {
        '6'
    } else if d == 7 {
        '7'
    } else if d == 8 {
        '8'
    } else {
        '9'
    }
}

/// The decimal text of `n`.
pub fn u64_text(n: u64) -> (r: Vec<char>)
    ensures
        r@ == nat_text(n as nat),
    decreases n,
{
    if n < 10 {
        let mut v: Vec<char> = Vec::new();
        v.push(digit(n));
        v
    } else {
        let mut v = u64_text(n / 10);
        v.push(digit(n % 10));
        v
    }
}

/// The decimal text of `i`.
pub fn i64_text(i: i64) -> (r: Vec<char>)
    ensures
        r@ == int_text(i as int),
{
    if i < 0 {
        let mag: u64 = if i == i64::MIN {
            9223372036854775808u64
        } else {
            (-i) as u64
        };
        let mut v: Vec<char> = Vec::new();
        v.push('-');
        let t = u64_text(mag);
        push_chars(&mut v, &t);
        v
    } else {
        u64_text(i as u64)
    }
}

/// The decimal text of `n`.
pub fn usize_text(n: usize) -> (r: Vec<char>)
    ensures
        r@ == nat_text(n as nat),
{
    u64_text(n as u64)
}

/// `t` right-aligned in two columns, filled with `0` (as `{:0>2}`).
pub open spec fn zero_pad2(t: Seq<char>) -> Seq<char> {
    if t.len() < 2 {
        Seq::new((2 - t.len()) as nat, |k: int| '0') + t
    } else {
        t
    }
}

/// The decimal text of `n`, zero-padded to two columns.
pub fn usize_text_pad2(n: usize) -> (r: Vec<char>)
    ensures
        r@ == zero_pad2(nat_text(n as nat)),
{
    let t = usize_text(n);
    if t.len() < 2 {
        let mut v: Vec<char> = Vec::new();
        let pad = 2 - t.len();
        let mut k: usize = 0;
        while k < pad
            invariant
                k <= pad,
                pad == 2 - t@.len(),
                v@ == Seq::new(k as nat, |q: int| '0'),
            decreases pad - k,
        {
            v.push('0');
            k = k + 1;
            proof {
                assert(v@ =~= Seq::new(k as nat, |q: int| '0'));
            }
        }
        push_chars(&mut v, &t);
        v
    } else {
        t
    }
}

/// `c` is an ASCII decimal digit.
pub open spec fn is_digit(c: char) -> bool {
    '0' <= c && c <= '9'
}

/// The value of a run of decimal digits.
pub open spec fn digits_value(s: Seq<char>) -> nat
    decreases s.len(),
{
    if s.len() == 0 {
        0
    } else {
        digits_value(s.drop_last()) * 10 + ((s.last() as int - '0' as int) as nat)
    }
}

/// `s` without its sign, if it has one.
pub open spec fn unsigned_part(s: Seq<char>) -> Seq<char> {
    if s.len() > 0 && (s[0] == '-' || s[0] == '+') {
        s.drop_first()
    } else {
        s
    }
}

/// `str::parse::<i64>`: an optional `+` or `-` followed by one or more
/// decimal digits, whose value fits in `i64`.
pub open spec fn parse_i64_spec(s: Seq<char>) -> Option<i64> {
    let body = unsigned_part(s);
    let neg = s.len() > 0 && s[0] == '-';
    if body.len() == 0 || !(forall|k: int| 0 <= k < body.len() ==> is_digit(#[trigger] body[k])) {
        None
    } else {
        let v: int = if neg {
            -(digits_value(body) as int)
        } else {
            digits_value(body) as int
        };
        if i64::MIN <= v && v <= i64::MAX {
            Some(v as i64)
        } else {
            None
        }
    }
}

proof fn lemma_digits_value_grows(s: Seq<char>, k: int)
    requires
        0 <= k <= s.len(),
        forall|j: int| 0 <= j < s.len() ==> is_digit(#[trigger] s[j]),
    ensures
        digits_value(s.take(k)) <= digits_value(s),
    decreases s.len(),
{
    if k < s.len() {
        assert(s.drop_last().take(k) =~= s.take(k));
        lemma_digits_value_grows(s.drop_last(), k);
    } else {
        assert(s.take(k) =~= s);
    }
}

fn digit_value(c: char) -> (d: u64)
    requires
        is_digit(c),
    ensures
        d == c as int - '0' as int,
        d < 10,
{
    (c as u32 - '0' as u32) as u64
}

/// The value of an all-digit run, if it is at most `limit`.
fn digits_at_most(v: &Vec<char>, start: usize, limit: u64) -> (r: Option<u64>)
    requires
        start <= v@.len(),
        limit >= 10,
        forall|j: int| start <= j < v@.len() ==> is_digit(#[trigger] v@[j]),
    ensures
        match r {
            Some(x) => x == digits_value(v@.subrange(start as int, v@.len() as int)) && x <= limit,
            None => digits_value(v@.subrange(start as int, v@.len() as int)) > limit,
        },
{
    let n = v.len();
    let ghost body = v@.subrange(start as int, n as int);
    let mut acc: u64 = 0;
    let mut k: usize = start;
    proof {
        assert(body.take(0) =~= Seq::<char>::empty());
    }
    while k < n
        invariant
            start <= k <= n,
            n == v@.len(),
            body == v@.subrange(start as int, n as int),
            forall|j: int| start <= j < n ==> is_digit(#[trigger] v@[j]),
            acc == digits_value(body.take(k - start)),
            acc <= limit,
            limit >= 10,
        decreases n - k,
    {
        let d = digit_value(v[k]);
        proof {
            assert(body.take(k - start + 1).drop_last() =~= body.take(k - start));
            assert(body.take(k - start + 1).last() == v@[k as int]);
            assert(digits_value(body.take(k - start + 1)) == acc * 10 + d);
        }
        let bound: u64 = (limit - d) / 10;
        proof {
            assert(acc > bound ==> acc * 10 + d > limit) by (nonlinear_arith)
                requires
                    bound == (limit - d) / 10,
                    d <= limit,
            ;
            assert(acc <= bound ==> acc * 10 + d <= limit) by (nonlinear_arith)
                requires
                    bound == (limit - d) / 10,
                    d <= limit,
            ;
        }
        if acc > bound {
            proof {
                assert forall|j: int| 0 <= j < body.len() implies is_digit(#[trigger] body[j]) by {
                    assert(body[j] == v@[start + j]);
                }
                lemma_digits_value_grows(body, k - start + 1);
            }
            return None;
        }
        acc = acc * 10 + d;
        k = k + 1;
    }
    proof {
        assert(body.take(n - start) =~= body);
    }
    Some(acc)
}

/// `s.parse::<i64>().ok()`
pub fn parse_i64(s: &str) -> (r: Option<i64>)
    ensures
        r == parse_i64_spec(s@),
{
    let v = chars_of(s);
    let n = v.len();
    let neg = n > 0 && v[0] == '-';
    let start: usize = if n > 0 && (v[0] == '-' || v[0] == '+') {
        1
    } else {
        0
    };
    let ghost body = unsigned_part(s@);
    proof {
        assert(body =~= v@.subrange(start as int, n as int));
    }
    if start == n {
        return None;
    }
    let mut k: usize = start;
    while k < n
        invariant
            start <= k <= n,
            n == v@.len(),
            v@ == s@,
            body == unsigned_part(s@),
            body == v@.subrange(start as int, n as int),
            forall|j: int| start <= j < k ==> is_digit(#[trigger] v@[j]),
        decreases n - k,
    {
        if !('0' <= v[k] && v[k] <= '9') {
            proof {
                assert(!is_digit(body[k - start]));
            }
            return None;
        }
        k = k + 1;
    }
    proof {
        assert forall|j: int| 0 <= j < body.len() implies is_digit(#[trigger] body[j]) by {
            assert(body[j] == v@[start + j]);
        }
    }
    match digits_at_most(&v, start, 9223372036854775808u64) {
        None => None,
        Some(acc) => {
            if neg {
                if acc == 9223372036854775808u64 {
                    Some(i64::MIN)
                } else {
                    Some(-(acc as i64))
                }
            } else if acc > 9223372036854775807u64 {
                None
            } else {
                Some(acc as i64)
            }
        },
    }
}

/// Lines joined by `\n` (`parts.join("\n")`).
pub open spec fn join_lines(parts: Seq<Seq<char>>) -> Seq<char>
    decreases parts.len(),
{
    if parts.len() == 0 {
        Seq::empty()
    } else if parts.len() == 1 {
        parts[0]
    } else {
        join_lines(parts.drop_last()) + seq!['\n'] + parts.last()
    }
}


proof fn lemma_digit_char_injective(a: nat, b: nat)
    requires
        a < 10,
        b < 10,
        digit_char(a) == digit_char(b),
    ensures
        a == b,
{
}

/// The decimal text has at least one digit, two from 10 on.
pub proof fn lemma_nat_text_len(n: nat)
    ensures
        nat_text(n).len() >= 1,
        n >= 10 ==> nat_text(n).len() >= 2,
    decreases n,
{
    if n >= 10 {
        lemma_nat_text_len(n / 10);
    }
}

/// Different numbers have different decimal texts.
pub proof fn lemma_nat_text_injective(a: nat, b: nat)
    requires
        nat_text(a) == nat_text(b),
    ensures
        a == b,
    decreases a,
{
    lemma_nat_text_len(a);
    lemma_nat_text_len(b);
    if a < 10 && b < 10 {
        assert(nat_text(a)[0] == digit_char(a));
        assert(nat_text(b)[0] == digit_char(b));
        lemma_digit_char_injective(a, b);
    } else if a < 10 || b < 10 {
        lemma_nat_text_len(a / 10);
        lemma_nat_text_len(b / 10);
        assert(nat_text(a).len() != nat_text(b).len());
    } else {
        assert(nat_text(a).last() == digit_char(a % 10));
        assert(nat_text(b).last() == digit_char(b % 10));
        lemma_digit_char_injective(a % 10, b % 10);
        assert(nat_text(a).drop_last() =~= nat_text(a / 10));
        assert(nat_text(b).drop_last() =~= nat_text(b / 10));
        lemma_nat_text_injective(a / 10, b / 10);
    }
}

} // verus!
