//! Text handling: code-point order, decimal integers, signs of numbers, array text.
use vstd::prelude::*;
use vstd::string::*;

verus! {

/// Code-point order of two strings, which is also the byte order of their UTF-8 forms.
pub open spec fn str_less(a: Seq<char>, b: Seq<char>) -> bool
    decreases a.len(),
{
    if a.len() == 0 {
        b.len() > 0
    } else if b.len() == 0 {
        false
    } else if a[0] != b[0] {
        (a[0] as u32) < (b[0] as u32)
    } else {
        str_less(a.drop_first(), b.drop_first())
    }
}

/// `a` comes before `b` in code-point order.
pub fn text_less(a: &String, b: &String) -> (r: bool)
    ensures
        r == str_less(a@, b@),
{
    let sa = a.as_str();
    let sb = b.as_str();
    let la = sa.unicode_len();
    let lb = sb.unicode_len();
    let mut i: usize = 0;
    proof {
        assert(a@.skip(0) =~= a@);
        assert(b@.skip(0) =~= b@);
    }
    while i < la && i < lb
        invariant
            la == a@.len(),
            lb == b@.len(),
            sa@ == a@,
            sb@ == b@,
            i <= la,
            i <= lb,
            str_less(a@, b@) == str_less(a@.skip(i as int), b@.skip(i as int)),
        decreases la - i,
    {
        let ca = sa.get_char(i);
        let cb = sb.get_char(i);
        proof {
            let x = a@.skip(i as int);
            let y = b@.skip(i as int);
            assert(x[0] == ca);
            assert(y[0] == cb);
            assert(x.drop_first() =~= a@.skip(i + 1));
            assert(y.drop_first() =~= b@.skip(i + 1));
        }
        if ca != cb {
            return (ca as u32) < (cb as u32);
        }
        i = i + 1;
    }
    i < lb
}

/// The characters of the ten decimal digits, in order.
pub open spec fn digit_chars() -> Seq<char> {
    seq!['0', '1', '2', '3', '4', '5', '6', '7', '8', '9']
}

pub open spec fn is_digit(c: char) -> bool {
    '0' <= c && c <= '9'
}

pub open spec fn digit_value(c: char) -> nat {
    (c as u32 - '0' as u32) as nat
}

/// Decimal text of `n`, without sign or leading zeros.
pub open spec fn decimal(n: nat) -> Seq<char>
    decreases n,
{
    if n < 10 {
        seq![digit_chars()[n as int]]
    } else {
        decimal(n / 10).push(digit_chars()[(n % 10) as int])
    }
}

/// Decimal text of `n`.
pub fn decimal_text(n: u64) -> (r: String)
    ensures
        r@ == decimal(n as nat),
{
    let digits = "0123456789";
    proof {
        reveal_strlit("0123456789");
        assert(digits@ =~= digit_chars());
    }
    let mut out = String::new();
    let mut m: u64 = n;
    proof {
        assert(decimal(n as nat) + out@ =~= decimal(n as nat));
    }
    loop
        invariant_except_break
            decimal(n as nat) == decimal(m as nat) + out@,
        invariant
            digits@ == digit_chars(),
        ensures
            out@ == decimal(n as nat),
        decreases m,
    {
        let d = (m % 10) as usize;
        let piece = String::from_str(digits.substring_char(d, d + 1));
        proof {
            assert(piece@ =~= seq![digit_chars()[d as int]]);
            let q = (m / 10) as nat;
            if m < 10 {
                assert(decimal(m as nat) == seq![digit_chars()[m as int]]);
                assert(seq![digit_chars()[d as int]] + out@ =~= decimal(m as nat) + out@);
            } else {
                assert(decimal(m as nat) == decimal(q).push(digit_chars()[d as int]));
                assert(decimal(q) + (seq![digit_chars()[d as int]] + out@) =~= decimal(m as nat) + out@);
            }
        }
        out = piece.concat(out.as_str());
        if m < 10 {
            break ;
        }
        m = m / 10;
    }
    out
}

/// Value of a sequence of decimal digits.
pub open spec fn digits_value(s: Seq<char>) -> nat
    decreases s.len(),
{
    if s.len() == 0 {
        0
    } else {
        digits_value(s.drop_last()) * 10 + digit_value(s.last())
    }
}

/// A non-empty run of decimal digits.
pub open spec fn all_digits(s: Seq<char>) -> bool {
    s.len() > 0 && forall|i: int| 0 <= i < s.len() ==> is_digit(#[trigger] s[i])
}

/// The unsigned integer that `s` writes in decimal, where it fits in a `u64`.
pub open spec fn parse_count(s: Seq<char>) -> Option<nat> {
    if all_digits(s) && digits_value(s) <= u64::MAX {
        Some(digits_value(s))
    } else {
        None
    }
}

proof fn lemma_digits_prefix_le(s: Seq<char>, i: int)
    requires
        0 <= i <= s.len(),
    ensures
        digits_value(s.take(i)) <= digits_value(s),
    decreases s.len(),
{
    if i < s.len() {
        assert(s.drop_last().take(i) =~= s.take(i));
        lemma_digits_prefix_le(s.drop_last(), i);
    } else {
        assert(s.take(i) =~= s);
    }
}

/// Decimal text reads back as the number it was written from.
pub proof fn lemma_decimal_round_trip(n: nat)
    requires
        n <= u64::MAX,
    ensures
        parse_count(decimal(n)) == Some(n),
    decreases n,
{
    lemma_decimal_digits(n);
}

proof fn lemma_decimal_digits(n: nat)
    ensures
        all_digits(decimal(n)),
        digits_value(decimal(n)) == n,
    decreases n,
{
    let d = decimal(n);
    if n < 10 {
        assert(d.drop_last() =~= Seq::<char>::empty());
        assert(digit_value(digit_chars()[n as int]) == n);
        assert(digits_value(d) == digits_value(d.drop_last()) * 10 + digit_value(d.last()));
        assert(digits_value(Seq::<char>::empty()) == 0);
    } else {
        lemma_decimal_digits(n / 10);
        assert(d.drop_last() =~= decimal(n / 10));
        assert(digit_value(digit_chars()[(n % 10) as int]) == n % 10);
        vstd::arithmetic::div_mod::lemma_fundamental_div_mod(n as int, 10);
        assert(digits_value(d) == digits_value(d.drop_last()) * 10 + digit_value(d.last()));
        assert(d.last() == digit_chars()[(n % 10) as int]);
        assert((n / 10) * 10 == 10 * (n / 10)) by (nonlinear_arith);
        assert forall|i: int| 0 <= i < d.len() implies is_digit(#[trigger] d[i]) by {
            if i < d.len() - 1 {
                assert(d[i] == decimal(n / 10)[i]);
            }
        }
    }
}

/// Reads an unsigned decimal integer.
pub fn parse_count_text(t: &String) -> (r: Option<u64>)
    ensures
        match parse_count(t@) {
            Some(v) => r == Some(v as u64),
            None => r is None,
        },
{
    let s = t.as_str();
    let len = s.unicode_len();
    if len == 0 {
        return None;
    }
    let mut acc: u64 = 0;
    let mut i: usize = 0;
    while i < len
        invariant
            len == t@.len(),
            s@ == t@,
            i <= len,
            acc as nat == digits_value(t@.take(i as int)),
            forall|j: int| 0 <= j < i ==> is_digit(#[trigger] t@[j]),
        decreases len - i,
    {
        let c = s.get_char(i);
        proof {
            assert(t@.take(i + 1).drop_last() =~= t@.take(i as int));
            assert(t@.take(i + 1).last() == c);
        }
        if !('0' <= c && c <= '9') {
            return None;
        }
        let d = (c as u32 - '0' as u32) as u64;
        if acc > (u64::MAX - d) / 10 {
            proof {
                lemma_digits_prefix_le(t@, i + 1);
            }
            return None;
        }
        acc = acc * 10 + d;
        i = i + 1;
    }
    proof {
        assert(t@.take(i as int) =~= t@);
    }
    Some(acc)
}

/// `s` is digits, then a point at `i`, then one or more zeros.
pub open spec fn zero_fraction_at(s: Seq<char>, i: int) -> bool {
    &&& 0 < i && i + 1 < s.len()
    &&& all_digits(s.take(i))
    &&& s[i] == '.'
    &&& forall|j: int| i < j < s.len() ==> #[trigger] s[j] == '0'
}

/// The unsigned integer that `s` writes, where it fits in a `u64`: decimal digits,
/// possibly followed by a point and zeros only.
pub open spec fn whole_count(s: Seq<char>) -> Option<nat> {
    if parse_count(s) is Some {
        parse_count(s)
    } else if exists|i: int| zero_fraction_at(s, i) {
        parse_count(s.take(choose|i: int| zero_fraction_at(s, i)))
    } else {
        None
    }
}

/// Reads an unsigned integer written with digits, possibly followed by a point and zeros.
pub fn parse_whole_text(t: &String) -> (r: Option<u64>)
    ensures
        match whole_count(t@) {
            Some(v) => r == Some(v as u64),
            None => r is None,
        },
{
    match parse_count_text(t) {
        Some(n) => {
            return Some(n);
        },
        None => {},
    }
    let s = t.as_str();
    let len = s.unicode_len();
    let mut i: usize = 0;
    while i < len && s.get_char(i) != '.'
        invariant
            len == t@.len(),
            s@ == t@,
            i <= len,
            parse_count(t@) is None,
            forall|j: int| 0 <= j < i ==> #[trigger] t@[j] != '.',
        decreases len - i,
    {
        i = i + 1;
    }
    proof {
        assert forall|q: int| zero_fraction_at(t@, q) implies q == i by {
            if q < i {
                assert(t@[q] == '.');
            } else if q > i {
                assert(is_digit(t@.take(q)[i as int]));
            }
        }
    }
    if i == 0 || i >= len || len - i < 2 {
        return None;
    }
    let mut j: usize = i + 1;
    while j < len
        invariant
            len == t@.len(),
            s@ == t@,
            i < j <= len,
            0 < i,
            parse_count(t@) is None,
            forall|q: int| zero_fraction_at(t@, q) ==> q == i,
            forall|k: int| i < k < j ==> #[trigger] t@[k] == '0',
        decreases len - j,
    {
        if s.get_char(j) != '0' {
            proof {
                assert(!zero_fraction_at(t@, i as int));
            }
            return None;
        }
        j = j + 1;
    }
    let head = String::from_str(s.substring_char(0, i));
    proof {
        assert(head@ =~= t@.take(i as int));
        if all_digits(t@.take(i as int)) {
            assert(zero_fraction_at(t@, i as int));
        }
    }
    parse_count_text(&head)
}

/// A JSON number text that writes a value below zero: a minus sign and a non-zero
/// digit before any exponent.
pub open spec fn is_negative_number(s: Seq<char>) -> bool {
    s.len() > 0 && s[0] == '-' && exists|i: int|
        1 <= i < s.len() && '1' <= #[trigger] s[i] && s[i] <= '9' && forall|j: int|
            1 <= j < i ==> #[trigger] s[j] != 'e' && s[j] != 'E'
}

/// Whether a JSON number text writes a value below zero.
pub fn number_is_negative(t: &String) -> (r: bool)
    ensures
        r == is_negative_number(t@),
{
    let s = t.as_str();
    let len = s.unicode_len();
    if len == 0 || s.get_char(0) != '-' {
        return false;
    }
    let mut i: usize = 1;
    while i < len
        invariant
            len == t@.len(),
            s@ == t@,
            t@[0] == '-',
            1 <= i <= len,
            forall|j: int| 1 <= j < i ==> #[trigger] t@[j] != 'e' && t@[j] != 'E' && !('1' <= t@[j] && t@[j] <= '9'),
        decreases len - i,
    {
        let c = s.get_char(i);
        if c == 'e' || c == 'E' {
            proof {
                assert forall|k: int|
                    1 <= k < t@.len() && '1' <= #[trigger] t@[k] && t@[k] <= '9' implies !(forall|j: int|
                    1 <= j < k ==> #[trigger] t@[j] != 'e' && t@[j] != 'E') by {
                    assert(k > i);
                    assert(t@[i as int] == 'e' || t@[i as int] == 'E');
                }
            }
            return false;
        }
        if '1' <= c && c <= '9' {
            return true;
        }
        i = i + 1;
    }
    false
}

/// The whitespace that is cut from around the items of an array's text form: the
/// characters with the Unicode White_Space property.
pub open spec fn is_space(c: char) -> bool {
    let u = c as u32;
    (0x09 <= u && u <= 0x0D) || u == 0x20 || u == 0x85 || u == 0xA0 || u == 0x1680 || (0x2000 <= u
        && u <= 0x200A) || u == 0x2028 || u == 0x2029 || u == 0x202F || u == 0x205F || u == 0x3000
}

pub open spec fn trim_start(s: Seq<char>) -> Seq<char>
    decreases s.len(),
{
    if s.len() > 0 && is_space(s[0]) {
        trim_start(s.drop_first())
    } else {
        s
    }
}

pub open spec fn trim_end(s: Seq<char>) -> Seq<char>
    decreases s.len(),
{
    if s.len() > 0 && is_space(s.last()) {
        trim_end(s.drop_last())
    } else {
        s
    }
}

/// `s` without the whitespace at either end.
pub open spec fn trim(s: Seq<char>) -> Seq<char> {
    trim_end(trim_start(s))
}

fn is_space_char(c: char) -> (r: bool)
    ensures
        r == is_space(c),
{
    let u = c as u32;
    (0x09 <= u && u <= 0x0D) || u == 0x20 || u == 0x85 || u == 0xA0 || u == 0x1680 || (0x2000 <= u
        && u <= 0x200A) || u == 0x2028 || u == 0x2029 || u == 0x202F || u == 0x205F || u == 0x3000
}

/// `s[from..to]` without the whitespace at either end.
fn trimmed_piece(s: &str, from: usize, to: usize) -> (r: String)
    requires
        from <= to <= s@.len(),
    ensures
        r@ == trim(s@.subrange(from as int, to as int)),
{
    let mut a = from;
    while a < to && is_space_char(s.get_char(a))
        invariant
            from <= a <= to,
            to <= s@.len(),
            trim_start(s@.subrange(from as int, to as int)) == trim_start(s@.subrange(a as int, to as int)),
        decreases to - a,
    {
        proof {
            assert(s@.subrange(a as int, to as int).drop_first() =~= s@.subrange(a + 1, to as int));
        }
        a = a + 1;
    }
    let mut b = to;
    while b > a && is_space_char(s.get_char(b - 1))
        invariant
            from <= a <= b <= to,
            to <= s@.len(),
            trim_end(s@.subrange(a as int, to as int)) == trim_end(s@.subrange(a as int, b as int)),
        decreases b,
    {
        proof {
            assert(s@.subrange(a as int, b as int).drop_last() =~= s@.subrange(a as int, b - 1));
        }
        b = b - 1;
    }
    proof {
        let x = s@.subrange(a as int, to as int);
        assert(trim_start(x) == x);
        let y = s@.subrange(a as int, b as int);
        assert(trim_end(y) == y);
    }
    String::from_str(s.substring_char(a, b))
}

/// The pieces of `s` between commas; text with no comma is one piece.
pub open spec fn split_commas(s: Seq<char>) -> Seq<Seq<char>>
    decreases s.len(),
{
    if s.len() == 0 {
        seq![Seq::empty()]
    } else {
        let r = split_commas(s.drop_last());
        if s.last() == ',' {
            r.push(Seq::empty())
        } else {
            r.update(r.len() - 1, r.last().push(s.last()))
        }
    }
}

proof fn lemma_split_nonempty(s: Seq<char>)
    ensures
        split_commas(s).len() > 0,
    decreases s.len(),
{
    if s.len() > 0 {
        lemma_split_nonempty(s.drop_last());
    }
}

/// The text inside one enclosing pair of braces, or the whole text where there is none.
pub open spec fn strip_braces(s: Seq<char>) -> Seq<char> {
    if s.len() >= 2 && s[0] == '{' && s.last() == '}' {
        s.subrange(1, s.len() - 1)
    } else {
        s
    }
}

/// The items of an array written as text, `{a,b,c}`: the braces dropped, the rest cut at
/// each comma and each piece trimmed. Empty text has no items.
pub open spec fn array_text_items(s: Seq<char>) -> Seq<Seq<char>> {
    let inner = strip_braces(s);
    if inner.len() == 0 {
        Seq::empty()
    } else {
        split_commas(inner).map_values(|p: Seq<char>| trim(p))
    }
}

/// The items of an array written as text, `{a,b,c}`.
pub fn split_array_text(t: &String) -> (r: Vec<String>)
    ensures
        r@.len() == array_text_items(t@).len(),
        forall|i: int| 0 <= i < r@.len() ==> #[trigger] r@[i]@ == array_text_items(t@)[i],
{
    let s = t.as_str();
    let len = s.unicode_len();
    let (lo, hi) = if len >= 2 && s.get_char(0) == '{' && s.get_char(len - 1) == '}' {
        (1, len - 1)
    } else {
        (0, len)
    };
    let ghost inner = strip_braces(t@);
    proof {
        assert(inner =~= t@.subrange(lo as int, hi as int));
    }
    let mut out: Vec<String> = Vec::new();
    if lo == hi {
        return out;
    }
    let ghost mut raw: Seq<Seq<char>> = Seq::empty();
    let mut start = lo;
    let mut i = lo;
    proof {
        assert(inner.take(0) =~= Seq::<char>::empty());
        assert(t@.subrange(lo as int, lo as int) =~= Seq::<char>::empty());
        assert(raw.push(Seq::<char>::empty()) =~= seq![Seq::<char>::empty()]);
    }
    while i < hi
        invariant
            s@ == t@,
            len == t@.len(),
            lo <= start <= i <= hi <= len,
            inner == t@.subrange(lo as int, hi as int),
            split_commas(inner.take(i - lo)) == raw.push(t@.subrange(start as int, i as int)),
            out@.len() == raw.len(),
            forall|j: int| 0 <= j < raw.len() ==> #[trigger] out@[j]@ == trim(raw[j]),
        decreases hi - i,
    {
        let c = s.get_char(i);
        proof {
            assert(inner.take(i + 1 - lo).drop_last() =~= inner.take(i - lo));
            assert(inner.take(i + 1 - lo).last() == c);
        }
        if c == ',' {
            let piece = trimmed_piece(s, start, i);
            out.push(piece);
            proof {
                raw = raw.push(t@.subrange(start as int, i as int));
                assert(t@.subrange(i + 1, i + 1) =~= Seq::<char>::empty());
            }
            start = i + 1;
        } else {
            proof {
                assert(t@.subrange(start as int, i as int).push(c) =~= t@.subrange(start as int, i + 1));
            }
        }
        i = i + 1;
    }
    let piece = trimmed_piece(s, start, hi);
    out.push(piece);
    proof {
        assert(inner.take(hi - lo) =~= inner);
        raw = raw.push(t@.subrange(start as int, hi as int));
        assert(array_text_items(t@) =~= raw.map_values(|p: Seq<char>| trim(p)));
    }
    out
}

} // verus!
