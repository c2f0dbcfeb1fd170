//! Decimal rendering of integers (plain and zero-padded, as `{}` and
//! `{:0w}` render them), joining, and SQL quote escaping, over `Vec<char>`
//! buffers.
use vstd::prelude::*;

verus! {

/// The character of a decimal digit.
pub open spec fn digit_char(d: int) -> char {
    if d == 0 {
        '0'
    } else if d == 1 {
        '1'
    } else if d == 2 {
        '2'
    } else if d == 3 {
        '3'
    } else if d == 4 {
        '4'
    } else if d == 5 {
        '5'
    } else if d == 6 {
        '6'
    } else if d == 7 {
        '7'
    } else if d == 8 {
        '8'
    } else {
        '9'
    }
}

/// The decimal digits of a natural number, most significant first, with no
/// leading zero (zero is "0").
pub open spec fn decimal_digits(n: nat) -> Seq<char>
    decreases n,
{
    if n < 10 {
        seq![digit_char(n as int)]
    } else {
        decimal_digits(n / 10).push(digit_char((n % 10) as int))
    }
}

pub open spec fn abs_int(i: int) -> nat {
    if i < 0 {
        (-i) as nat
    } else {
        i as nat
    }
}

/// The text of an integer as `{}` renders it.
pub open spec fn int_text(i: int) -> Seq<char> {
    if i < 0 {
        seq!['-'] + decimal_digits(abs_int(i))
    } else {
        decimal_digits(abs_int(i))
    }
}

/// `k` zeros (none when `k <= 0`).
pub open spec fn zeros(k: int) -> Seq<char> {
    Seq::new(if k > 0 { k as nat } else { 0 }, |_i: int| '0')
}

/// The text of an integer as `{:0width}` renders it: sign first, then zeros
/// until the whole text, sign included, is `width` characters long.
pub open spec fn padded_int_text(i: int, width: nat) -> Seq<char> {
    let sign: Seq<char> = if i < 0 { seq!['-'] } else { seq![] };
    let digits = decimal_digits(abs_int(i));
    sign + zeros(width - sign.len() - digits.len()) + digits
}

/// The pieces joined by `sep`, as `join` does.
pub open spec fn join_texts(parts: Seq<Seq<char>>, sep: Seq<char>) -> Seq<char>
    decreases parts.len(),
{
    if parts.len() == 0 {
        seq![]
    } else if parts.len() == 1 {
        parts[0]
    } else {
        join_texts(parts.drop_last(), sep) + sep + parts.last()
    }
}

/// Every single quote doubled, as `replace("'", "''")` does.
pub open spec fn escape_quotes(s: Seq<char>) -> Seq<char>
    decreases s.len(),
{
    if s.len() == 0 {
        seq![]
    } else {
        escape_quotes(s.drop_last()) + (if s.last() == '\'' {
            seq!['\'', '\'']
        } else {
            seq![s.last()]
        })
    }
}

/// The inverse of escaping: a doubled quote reads as one quote.
pub open spec fn unescape_quotes(s: Seq<char>) -> Seq<char>
    decreases s.len(),
{
    if s.len() == 0 {
        seq![]
    } else if s.len() >= 2 && s[0] == '\'' && s[1] == '\'' {
        seq!['\''] + unescape_quotes(s.skip(2))
    } else {
        seq![s[0]] + unescape_quotes(s.skip(1))
    }
}

fn digit_to_char(d: u8) -> (c: char)
    requires
        d < 10,
    ensures
        c == digit_char(d as int),
{
    match d {
        0 => '0',
        1 => '1',
        2 => '2',
        3 => '3',
        4 => '4',
        5 => '5',
        6 => '6',
        7 => '7',
        8 => '8',
        _ => '9',
    }
}

/// Appends the decimal digits of `n`.
pub fn push_digits(out: &mut Vec<char>, n: u128)
    ensures
        final(out)@ == old(out)@ + decimal_digits(n as nat),
    decreases n,
{
    if n >= 10 {
        push_digits(out, n / 10);
    }
    out.push(digit_to_char((n % 10) as u8));
    proof {
        if n >= 10 {
            assert(decimal_digits(n as nat) == decimal_digits((n / 10) as nat).push(
                digit_char((n % 10) as int),
            ));
        }
    }
}

/// The magnitude of a signed value.
pub fn magnitude(v: i128) -> (m: u128)
    ensures
        m as int == abs_int(v as int),
{
    if v < 0 {
        ((-(v + 1)) as u128) + 1
    } else {
        v as u128
    }
}

/// Appends `v` as `{}` renders it.
pub fn push_int(out: &mut Vec<char>, v: i128)
    ensures
        final(out)@ == old(out)@ + int_text(v as int),
{
    let m = magnitude(v);
    if v < 0 {
        out.push('-');
    }
    push_digits(out, m);
}

/// The digits of a natural number, preceded by zeros up to `width`
/// characters.
pub open spec fn padded_digits(n: nat, width: nat) -> Seq<char> {
    zeros(width - decimal_digits(n).len()) + decimal_digits(n)
}

/// Appends the digits of `n`, zero-padded to `width` characters.
pub fn push_padded_digits(out: &mut Vec<char>, n: u128, width: usize)
    ensures
        final(out)@ == old(out)@ + padded_digits(n as nat, width as nat),
{
    let ghost start = out@;
    let mut digits: Vec<char> = Vec::new();
    push_digits(&mut digits, n);
    assert(digits@ =~= decimal_digits(n as nat));
    proof {
        lemma_u128_below_pow10();
        lemma_digits_len(n as nat, 39);
    }
    let used: usize = digits.len();
    let zero_count: usize = if width > used {
        width - used
    } else {
        0
    };
    assert(zeros(zero_count as int) =~= zeros(width - digits@.len()));
    let mut k: usize = 0;
    while k < zero_count
        invariant
            k <= zero_count,
            out@ =~= start + zeros(k as int),
        decreases zero_count - k,
    {
        out.push('0');
        assert(zeros(k + 1) =~= zeros(k as int).push('0'));
        k = k + 1;
    }
    let len = digits.len();
    let mut i: usize = 0;
    while i < len
        invariant
            len == digits@.len(),
            i <= len,
            out@ =~= start + zeros(zero_count as int) + digits@.take(i as int),
        decreases len - i,
    {
        out.push(digits[i]);
        assert(digits@.take(i + 1) =~= digits@.take(i as int).push(digits@[i as int]));
        i = i + 1;
    }
    assert(digits@.take(len as int) =~= digits@);
}

/// Appends `v` as `{:0width}` renders it.
pub fn push_padded_int(out: &mut Vec<char>, v: i128, width: usize)
    ensures
        final(out)@ == old(out)@ + padded_int_text(v as int, width as nat),
{
    let ghost start = out@;
    let m = magnitude(v);
    if v < 0 {
        out.push('-');
        let w: usize = if width > 0 { width - 1 } else { 0 };
        push_padded_digits(out, m, w);
        assert(zeros(w - decimal_digits(m as nat).len()) =~= zeros(
            width - 1 - decimal_digits(m as nat).len(),
        ));
    } else {
        push_padded_digits(out, m, width);
    }
    assert(out@ =~= start + padded_int_text(v as int, width as nat));
}

/// Ten to the power `k`.
pub open spec fn pow10(k: nat) -> int
    decreases k,
{
    if k == 0 {
        1
    } else {
        10 * pow10((k - 1) as nat)
    }
}

pub proof fn lemma_u128_below_pow10()
    ensures
        u128::MAX < pow10(39),
{
    reveal_with_fuel(pow10, 40);
    assert(pow10(39) == 1000000000000000000000000000000000000000int);
}

/// A number below `10^k` has at most `k` digits.
pub proof fn lemma_digits_len(n: nat, k: nat)
    requires
        k >= 1,
        n < pow10(k),
    ensures
        decimal_digits(n).len() <= k,
    decreases k,
{
    if n >= 10 {
        assert(k >= 2) by {
            if k == 1 {
                reveal_with_fuel(pow10, 2);
            }
        }
        assert(n / 10 < pow10((k - 1) as nat));
        lemma_digits_len(n / 10, (k - 1) as nat);
    }
}

/// Appends every character of `s`.
pub fn push_str(out: &mut Vec<char>, s: &str)
    ensures
        final(out)@ == old(out)@ + s@,
{
    let ghost start = out@;
    let n = s.unicode_len();
    let mut i: usize = 0;
    while i < n
        invariant
            n == s@.len(),
            i <= n,
            out@ =~= start + s@.take(i as int),
        decreases n - i,
    {
        out.push(s.get_char(i));
        assert(s@.take(i + 1) =~= s@.take(i as int).push(s@[i as int]));
        i = i + 1;
    }
    assert(s@.take(n as int) =~= s@);
}

/// Appends `s` with every single quote doubled.
pub fn push_escaped(out: &mut Vec<char>, s: &str)
    ensures
        final(out)@ == old(out)@ + escape_quotes(s@),
{
    let ghost start = out@;
    let n = s.unicode_len();
    let mut i: usize = 0;
    while i < n
        invariant
            n == s@.len(),
            i <= n,
            out@ =~= start + escape_quotes(s@.take(i as int)),
        decreases n - i,
    {
        let c = s.get_char(i);
        if c == '\'' {
            out.push('\'');
            out.push('\'');
        } else {
            out.push(c);
        }
        assert(s@.take(i + 1).drop_last() =~= s@.take(i as int));
        i = i + 1;
    }
    assert(s@.take(n as int) =~= s@);
}

/// The text of the characters. Calls `String::from_iter`, which std
/// documents as collecting the characters in order.
#[verifier::external_body]
pub(crate) fn string_from_chars(chars: Vec<char>) -> (s: String)
    ensures
        s@ == chars@,
{
    String::from_iter(chars)
}

/// Escaping distributes over concatenation.
pub proof fn lemma_escape_append(a: Seq<char>, b: Seq<char>)
    ensures
        escape_quotes(a + b) == escape_quotes(a) + escape_quotes(b),
    decreases b.len(),
{
    if b.len() == 0 {
        assert(a + b =~= a);
        assert(escape_quotes(b) =~= seq![]);
        assert(escape_quotes(a) + escape_quotes(b) =~= escape_quotes(a));
    } else {
        assert((a + b).drop_last() =~= a + b.drop_last());
        assert((a + b).last() == b.last());
        lemma_escape_append(a, b.drop_last());
        assert(escape_quotes(a + b) =~= escape_quotes(a) + escape_quotes(b));
    }
}

/// Unescaping an escaped text gives back the text that was escaped.
pub proof fn lemma_unescape_escape(s: Seq<char>)
    ensures
        unescape_quotes(escape_quotes(s)) == s,
    decreases s.len(),
{
    if s.len() == 0 {
        assert(escape_quotes(s) =~= seq![]);
    } else {
        let head = seq![s[0]];
        let rest = s.skip(1);
        assert(s =~= head + rest);
        lemma_escape_append(head, rest);
        assert(head.drop_last() =~= seq![]);
        assert(escape_quotes(seq![]) =~= seq![]);
        let e = escape_quotes(s);
        lemma_unescape_escape(rest);
        if s[0] == '\'' {
            assert(escape_quotes(head) =~= seq!['\'', '\'']);
            assert(e.skip(2) =~= escape_quotes(rest));
            assert(unescape_quotes(e) =~= seq!['\''] + unescape_quotes(e.skip(2)));
        } else {
            assert(escape_quotes(head) =~= seq![s[0]]);
            assert(e.skip(1) =~= escape_quotes(rest));
            assert(unescape_quotes(e) =~= seq![s[0]] + unescape_quotes(e.skip(1)));
        }
        assert(unescape_quotes(e) =~= s);
    }
}

/// A text without single quotes is unchanged by escaping.
pub proof fn lemma_escape_no_quotes(s: Seq<char>)
    requires
        forall|i: int| 0 <= i < s.len() ==> s[i] != '\'',
    ensures
        escape_quotes(s) == s,
    decreases s.len(),
{
    if s.len() > 0 {
        lemma_escape_no_quotes(s.drop_last());
        assert(escape_quotes(s) =~= s);
    }
}

/// `a` and `b` first differ at position `k`, where `a` has the smaller
/// character.
pub open spec fn less_at(a: Seq<char>, b: Seq<char>, k: int) -> bool {
    &&& 0 <= k < a.len()
    &&& k < b.len()
    &&& a.take(k) == b.take(k)
    &&& (a[k] as int) < (b[k] as int)
}

/// `a` comes strictly before `b` in dictionary order, where neither is a
/// prefix of the other.
pub open spec fn text_less(a: Seq<char>, b: Seq<char>) -> bool {
    exists|k: int| #[trigger] less_at(a, b, k)
}

/// Texts in dictionary order are different.
pub proof fn lemma_text_less_distinct(a: Seq<char>, b: Seq<char>)
    requires
        text_less(a, b),
    ensures
        a != b,
{
    let k = choose|k: int| #[trigger] less_at(a, b, k);
}

/// Order is kept when both texts are followed by anything.
pub proof fn lemma_text_less_extend(a: Seq<char>, b: Seq<char>, u: Seq<char>, v: Seq<char>)
    requires
        text_less(a, b),
    ensures
        text_less(a + u, b + v),
{
    let k = choose|k: int| #[trigger] less_at(a, b, k);
    assert((a + u).take(k) =~= a.take(k));
    assert((b + v).take(k) =~= b.take(k));
    assert(less_at(a + u, b + v, k));
}

/// Order is kept when both texts are preceded by the same text.
pub proof fn lemma_text_less_prefix(p: Seq<char>, u: Seq<char>, v: Seq<char>)
    requires
        text_less(u, v),
    ensures
        text_less(p + u, p + v),
{
    let k = choose|k: int| #[trigger] less_at(u, v, k);
    let j = p.len() + k;
    assert((p + u).take(j) =~= p + u.take(k));
    assert((p + v).take(j) =~= p + v.take(k));
    assert(less_at(p + u, p + v, j));
}

/// Order of the middle texts decides the order of `p + x1 + r1` and
/// `p + x2 + r2`.
pub proof fn lemma_text_less_segment(
    p: Seq<char>,
    x1: Seq<char>,
    x2: Seq<char>,
    r1: Seq<char>,
    r2: Seq<char>,
)
    requires
        text_less(x1, x2),
    ensures
        text_less(p + x1 + r1, p + x2 + r2),
{
    lemma_text_less_prefix(p, x1, x2);
    lemma_text_less_extend(p + x1, p + x2, r1, r2);
}

/// The last `w` decimal digits of `n`, most significant first.
pub open spec fn fixed_digits(n: nat, w: nat) -> Seq<char>
    decreases w,
{
    if w == 0 {
        seq![]
    } else {
        fixed_digits(n / 10, (w - 1) as nat).push(digit_char((n % 10) as int))
    }
}

pub proof fn lemma_fixed_digits_len(n: nat, w: nat)
    ensures
        fixed_digits(n, w).len() == w,
    decreases w,
{
    if w > 0 {
        lemma_fixed_digits_len(n / 10, (w - 1) as nat);
    }
}

proof fn lemma_fixed_zero(w: nat)
    ensures
        fixed_digits(0, w) == zeros(w as int),
    decreases w,
{
    if w > 0 {
        lemma_fixed_zero((w - 1) as nat);
        assert(fixed_digits(0, w) =~= zeros(w as int));
    } else {
        assert(fixed_digits(0, w) =~= zeros(w as int));
    }
}

/// A number below `10^w` padded to `w` digits is its last `w` digits.
pub proof fn lemma_padded_is_fixed(n: nat, w: nat)
    requires
        w >= 1,
        n < pow10(w),
    ensures
        padded_digits(n, w) == fixed_digits(n, w),
    decreases w,
{
    lemma_digits_len(n, w);
    if n < 10 {
        lemma_fixed_zero((w - 1) as nat);
        assert(padded_digits(n, w) =~= fixed_digits(n, w));
    } else {
        if w == 1 {
            reveal_with_fuel(pow10, 2);
        }
        assert(n / 10 < pow10((w - 1) as nat));
        lemma_padded_is_fixed(n / 10, (w - 1) as nat);
        let d = decimal_digits(n / 10);
        assert(decimal_digits(n) == d.push(digit_char((n % 10) as int)));
        assert(zeros(w - decimal_digits(n).len()) =~= zeros((w - 1) - d.len()));
        assert(padded_digits(n, w) =~= padded_digits(n / 10, (w - 1) as nat).push(
            digit_char((n % 10) as int),
        ));
    }
}

proof fn lemma_digit_char_order(x: int, y: int)
    requires
        0 <= x < y <= 9,
    ensures
        (digit_char(x) as int) < (digit_char(y) as int),
{
}

/// Padding to a fixed width keeps the order of numbers below `10^w`.
pub proof fn lemma_fixed_digits_order(n1: nat, n2: nat, w: nat)
    requires
        n1 < n2 < pow10(w),
    ensures
        text_less(fixed_digits(n1, w), fixed_digits(n2, w)),
    decreases w,
{
    if w == 0 {
        assert(pow10(0) == 1);
    } else {
        lemma_fixed_digits_len(n1 / 10, (w - 1) as nat);
        lemma_fixed_digits_len(n2 / 10, (w - 1) as nat);
        let c1 = digit_char((n1 % 10) as int);
        let c2 = digit_char((n2 % 10) as int);
        assert(fixed_digits(n1, w) == fixed_digits(n1 / 10, (w - 1) as nat) + seq![c1]);
        assert(fixed_digits(n2, w) == fixed_digits(n2 / 10, (w - 1) as nat) + seq![c2]);
        if n1 / 10 < n2 / 10 {
            assert(n2 / 10 < pow10((w - 1) as nat));
            lemma_fixed_digits_order(n1 / 10, n2 / 10, (w - 1) as nat);
            lemma_text_less_extend(
                fixed_digits(n1 / 10, (w - 1) as nat),
                fixed_digits(n2 / 10, (w - 1) as nat),
                seq![c1],
                seq![c2],
            );
        } else {
            lemma_digit_char_order((n1 % 10) as int, (n2 % 10) as int);
            let k = w - 1;
            assert(fixed_digits(n1, w).take(k) =~= fixed_digits(n2, w).take(k));
            assert(less_at(fixed_digits(n1, w), fixed_digits(n2, w), k));
        }
    }
}

/// Non-negative numbers below `10^width`, zero-padded to `width`, keep
/// their order as texts.
pub proof fn lemma_padded_order(n1: int, n2: int, width: nat)
    requires
        0 <= n1 < n2 < pow10(width),
        width >= 1,
    ensures
        text_less(padded_int_text(n1, width), padded_int_text(n2, width)),
        padded_int_text(n1, width).len() == width,
        padded_int_text(n2, width).len() == width,
{
    lemma_padded_is_fixed(n1 as nat, width);
    lemma_padded_is_fixed(n2 as nat, width);
    lemma_padded_width(n1, width);
    lemma_padded_width(n2, width);
    lemma_fixed_digits_order(n1 as nat, n2 as nat, width);
}

/// A non-negative number below `10^width` zero-padded to `width` is its
/// last `width` digits.
pub proof fn lemma_padded_width(n: int, width: nat)
    requires
        0 <= n < pow10(width),
        width >= 1,
    ensures
        padded_int_text(n, width) == fixed_digits(n as nat, width),
        padded_int_text(n, width).len() == width,
{
    lemma_padded_is_fixed(n as nat, width);
    lemma_fixed_digits_len(n as nat, width);
    assert(padded_int_text(n, width) =~= padded_digits(n as nat, width));
}

/// A decimal digit character.
pub open spec fn is_digit(c: char) -> bool {
    '0' <= c && c <= '9'
}

/// The number a digit character stands for.
pub open spec fn digit_value(c: char) -> int {
    (c as int) - ('0' as int)
}

/// The number a text of digits stands for, read in base ten.
pub open spec fn read_digits(t: Seq<char>) -> int
    decreases t.len(),
{
    if t.len() == 0 {
        0
    } else {
        read_digits(t.drop_last()) * 10 + digit_value(t.last())
    }
}

/// The number a text of digits with an optional leading `-` stands for.
pub open spec fn read_signed(t: Seq<char>) -> int {
    if t.len() > 0 && t[0] == '-' {
        -read_digits(t.skip(1))
    } else {
        read_digits(t)
    }
}

/// Every character of the text is a digit.
pub open spec fn all_digits(t: Seq<char>) -> bool {
    forall|i: int| 0 <= i < t.len() ==> is_digit(#[trigger] t[i])
}

/// One or more digits, with an optional leading `-`.
pub open spec fn is_signed_digits(t: Seq<char>) -> bool {
    if t.len() > 0 && t[0] == '-' {
        t.len() > 1 && all_digits(t.skip(1))
    } else {
        t.len() > 0 && all_digits(t)
    }
}

pub proof fn lemma_digit_char_value(d: int)
    requires
        0 <= d <= 9,
    ensures
        is_digit(digit_char(d)),
        digit_value(digit_char(d)) == d,
{
}

/// Reading a concatenation: the first part is shifted by the length of the
/// second.
pub proof fn lemma_read_digits_append(a: Seq<char>, b: Seq<char>)
    ensures
        read_digits(a + b) == read_digits(a) * pow10(b.len()) + read_digits(b),
    decreases b.len(),
{
    if b.len() == 0 {
        assert(a + b =~= a);
        assert(read_digits(b) == 0);
        assert(pow10(0) == 1);
    } else {
        let c = b.drop_last();
        assert((a + b).drop_last() =~= a + c);
        assert((a + b).last() == b.last());
        lemma_read_digits_append(a, c);
        let p = pow10(c.len());
        assert(pow10(b.len()) == 10 * p);
        let ra = read_digits(a);
        let rc = read_digits(c);
        let dv = digit_value(b.last());
        assert(read_digits(a + b) == read_digits(a + c) * 10 + dv);
        assert(read_digits(b) == rc * 10 + dv);
        assert(read_digits(a + c) == ra * p + rc);
        assert((ra * p + rc) * 10 == ra * (10 * p) + rc * 10) by (nonlinear_arith);
        assert(read_digits(a + b) == ra * pow10(b.len()) + read_digits(b));
    }
}

/// The decimal digits of a number read back as the number, and are digits.
pub proof fn lemma_read_decimal_digits(n: nat)
    ensures
        read_digits(decimal_digits(n)) == n,
        all_digits(decimal_digits(n)),
        decimal_digits(n).len() >= 1,
    decreases n,
{
    lemma_digit_char_value((n % 10) as int);
    if n >= 10 {
        lemma_read_decimal_digits(n / 10);
        let d = decimal_digits(n / 10);
        let t = decimal_digits(n);
        assert(t == d.push(digit_char((n % 10) as int)));
        assert(t.drop_last() =~= d);
        assert(t.last() == digit_char((n % 10) as int));
        assert(read_digits(t) == read_digits(d) * 10 + (n % 10) as int);
        assert((n / 10) * 10 + n % 10 == n);
        assert forall|i: int| 0 <= i < t.len() implies is_digit(#[trigger] t[i]) by {
            if i < d.len() {
                assert(t[i] == d[i]);
            }
        }
    } else {
        let t = decimal_digits(n);
        assert(t.drop_last() =~= Seq::<char>::empty());
        assert(read_digits(t) == read_digits(t.drop_last()) * 10 + digit_value(t.last()));
    }
}

/// The last `w` digits of a number below `10^w` read back as the number,
/// and are digits.
pub proof fn lemma_read_fixed_digits(n: nat, w: nat)
    requires
        n < pow10(w),
    ensures
        read_digits(fixed_digits(n, w)) == n,
        all_digits(fixed_digits(n, w)),
        fixed_digits(n, w).len() == w,
    decreases w,
{
    lemma_fixed_digits_len(n, w);
    if w > 0 {
        let p = pow10((w - 1) as nat);
        assert(pow10(w) == 10 * p);
        assert(n / 10 < p);
        lemma_read_fixed_digits(n / 10, (w - 1) as nat);
        lemma_digit_char_value((n % 10) as int);
        let d = fixed_digits(n / 10, (w - 1) as nat);
        let t = fixed_digits(n, w);
        assert(t == d.push(digit_char((n % 10) as int)));
        assert(t.drop_last() =~= d);
        assert(read_digits(t) == read_digits(d) * 10 + (n % 10) as int);
        assert((n / 10) * 10 + n % 10 == n);
        assert forall|i: int| 0 <= i < t.len() implies is_digit(#[trigger] t[i]) by {
            if i < d.len() {
                assert(t[i] == d[i]);
            }
        }
    } else {
        assert(n == 0);
    }
}

/// The text of an integer is one or more digits with a minus sign exactly
/// for negative numbers, and reads back as the integer.
pub proof fn lemma_int_text_value(i: int)
    ensures
        is_signed_digits(int_text(i)),
        read_signed(int_text(i)) == i,
        (int_text(i)[0] == '-') == (i < 0),
{
    let d = decimal_digits(abs_int(i));
    lemma_read_decimal_digits(abs_int(i));
    assert(is_digit(d[0]));
    if i < 0 {
        assert(int_text(i).skip(1) =~= d);
    }
}

/// A non-negative number below `10^width`, zero-padded to `width`, is
/// `width` digits that read back as the number.
pub proof fn lemma_padded_value(n: int, width: nat)
    requires
        0 <= n < pow10(width),
        width >= 1,
    ensures
        padded_int_text(n, width).len() == width,
        all_digits(padded_int_text(n, width)),
        read_digits(padded_int_text(n, width)) == n,
{
    lemma_padded_width(n, width);
    lemma_read_fixed_digits(n as nat, width);
}

} // verus!
