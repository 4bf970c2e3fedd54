//! Character-level text utilities: searching, slicing and number formatting.

use vstd::prelude::*;
use vstd::string::*;
use vstd::utf8::*;
use vstd::arithmetic::power::pow;

verus! {

/// `pat` occurs in `s` starting at character position `i`.
pub open spec fn matches_at(s: Seq<char>, pat: Seq<char>, i: int) -> bool {
    0 <= i && i + pat.len() <= s.len() && s.subrange(i, i + pat.len()) == pat
}

/// `pat` occurs somewhere in `s`.
pub open spec fn contains_seq(s: Seq<char>, pat: Seq<char>) -> bool {
    exists|i: int| matches_at(s, pat, i)
}

/// `i` is the position of the first occurrence of `pat` in `s`.
pub open spec fn is_first_match(s: Seq<char>, pat: Seq<char>, i: int) -> bool {
    &&& matches_at(s, pat, i)
    &&& forall|j: int| 0 <= j < i ==> !matches_at(s, pat, j)
}

/// `i` is the position of the last occurrence of `pat` in `s`.
pub open spec fn is_last_match(s: Seq<char>, pat: Seq<char>, i: int) -> bool {
    &&& matches_at(s, pat, i)
    &&& forall|j: int| i < j ==> !matches_at(s, pat, j)
}

/// The characters of a string slice, in order.
pub fn chars_of(s: &str) -> (v: Vec<char>)
    ensures
        v@ == s@,
{
    let n = s.unicode_len();
    let mut v: Vec<char> = Vec::new();
    let mut i: usize = 0;
    while i < n
        invariant
            n == s@.len(),
            i <= n,
            v@ == s@.take(i as int),
        decreases n - i,
    {
        v.push(s.get_char(i));
        i = i + 1;
        assert(v@ =~= s@.take(i as int));
    }
    assert(v@ =~= s@);
    v
}

/// Whether `pat` occurs in `s` at position `i`.
pub fn matches_at_exec(s: &Vec<char>, pat: &Vec<char>, i: usize) -> (b: bool)
    ensures
        b == matches_at(s@, pat@, i as int),
{
    if i > s.len() || pat.len() > s.len() - i {
        return false;
    }
    let mut k: usize = 0;
    while k < pat.len()
        invariant
            i + pat.len() <= s.len(),
            k <= pat.len(),
            forall|j: int| 0 <= j < k ==> s@[i + j] == pat@[j],
        decreases pat.len() - k,
    {
        if s[i + k] != pat[k] {
            assert(s@.subrange(i as int, i + pat.len())[k as int] != pat@[k as int]);
            return false;
        }
        k = k + 1;
    }
    assert(s@.subrange(i as int, i + pat@.len()) =~= pat@);
    true
}

/// The position of the first occurrence of `pat` in `s`, if any.
pub fn find_seq(s: &Vec<char>, pat: &Vec<char>) -> (r: Option<usize>)
    ensures
        r matches Some(i) ==> is_first_match(s@, pat@, i as int),
        r is None ==> !contains_seq(s@, pat@),
{
    if pat.len() > s.len() {
        return None;
    }
    let last = s.len() - pat.len();
    let mut i: usize = 0;
    loop
        invariant
            last == s.len() - pat.len(),
            i <= last,
            forall|j: int| 0 <= j < i ==> !matches_at(s@, pat@, j),
        decreases last - i,
    {
        if matches_at_exec(s, pat, i) {
            return Some(i);
        }
        if i == last {
            return None;
        }
        i = i + 1;
    }
}

/// The position of the last occurrence of `pat` in `s`, if any.
pub fn rfind_seq(s: &Vec<char>, pat: &Vec<char>) -> (r: Option<usize>)
    ensures
        r matches Some(i) ==> is_last_match(s@, pat@, i as int),
        r is None ==> !contains_seq(s@, pat@),
{
    if pat.len() > s.len() {
        return None;
    }
    let last = s.len() - pat.len();
    let mut i: usize = last;
    loop
        invariant
            last == s.len() - pat.len(),
            i <= last,
            forall|j: int| i < j ==> !matches_at(s@, pat@, j),
        decreases i,
    {
        if matches_at_exec(s, pat, i) {
            return Some(i);
        }
        if i == 0 {
            return None;
        }
        i = i - 1;
    }
}

/// Whether `pat` occurs somewhere in `s`.
pub fn contains_exec(s: &Vec<char>, pat: &str) -> (b: bool)
    ensures
        b == contains_seq(s@, pat@),
{
    let p = chars_of(pat);
    match find_seq(s, &p) {
        Some(_) => true,
        None => false,
    }
}

/// The character of the decimal digit `d`.
pub open spec fn digit_char(d: int) -> char {
    (d + 48) as char
}

/// The decimal notation of `n`, most significant digit first, without leading zeros.
pub open spec fn decimal(n: nat) -> Seq<char>
    decreases n,
{
    if n < 10 {
        seq![digit_char(n as int)]
    } else {
        decimal(n / 10) + seq![digit_char((n % 10) as int)]
    }
}

fn digit_str(d: u32) -> (r: &'static str)
    requires
        d < 10,
    ensures
        r@ == seq![digit_char(d as int)],
{
    proof {
        reveal_strlit("0");
        reveal_strlit("1");
        reveal_strlit("2");
        reveal_strlit("3");
        reveal_strlit("4");
        reveal_strlit("5");
        reveal_strlit("6");
        reveal_strlit("7");
        reveal_strlit("8");
        reveal_strlit("9");
    }
    let r = if d == 0 {
        "0"
    } else if d == 1 {
        "1"
    } else if d == 2 {
        "2"
    } else if d == 3 {
        "3"
    } else if d == 4 {
        "4"
    } else if d == 5 {
        "5"
    } else if d == 6 {
        "6"
    } else if d == 7 {
        "7"
    } else if d == 8 {
        "8"
    } else {
        "9"
    };
    assert(r@ =~= seq![digit_char(d as int)]);
    r
}

/// Appends the decimal notation of `n` to `out`.
pub fn push_decimal(out: &mut String, n: u32)
    ensures
        final(out)@ == old(out)@ + decimal(n as nat),
    decreases n,
{
    if n >= 10 {
        push_decimal(out, n / 10);
    }
    out.append(digit_str(n % 10));
    assert(final(out)@ =~= old(out)@ + decimal(n as nat));
}

/// The character is one of the ASCII digits `0` to `9`.
pub open spec fn is_digit(c: char) -> bool {
    48 <= (c as u32) <= 57
}

/// The value of a string of decimal digits.
pub open spec fn digits_value(s: Seq<char>) -> nat
    decreases s.len(),
{
    if s.len() == 0 {
        0
    } else {
        digits_value(s.drop_last()) * 10 + ((s.last() as u32) - 48) as nat
    }
}

/// The digits that follow an optional leading `+`.
pub open spec fn unsigned_digits(s: Seq<char>) -> Seq<char> {
    if s.len() > 0 && s[0] == '+' {
        s.skip(1)
    } else {
        s
    }
}

/// What parsing `s` as a `u32` gives: an optional `+` followed by at least
/// one ASCII digit, with a value that fits in 32 bits; `None` otherwise.
pub open spec fn parse_u32_spec(s: Seq<char>) -> Option<u32> {
    let d = unsigned_digits(s);
    if d.len() > 0 && (forall|i: int| 0 <= i < d.len() ==> #[trigger] is_digit(d[i]))
        && digits_value(d) <= u32::MAX {
        Some(digits_value(d) as u32)
    } else {
        None
    }
}

proof fn lemma_digits_value_grows(s: Seq<char>, i: int)
    requires
        0 <= i <= s.len(),
        forall|k: int| 0 <= k < s.len() ==> #[trigger] is_digit(s[k]),
    ensures
        digits_value(s.take(i)) <= digits_value(s),
    decreases s.len() - i,
{
    if i < s.len() {
        lemma_digits_value_grows(s, i + 1);
        assert(s.take(i + 1).drop_last() =~= s.take(i));
    } else {
        assert(s.take(i) =~= s);
    }
}

/// Parses the characters as a `u32` the way `str::parse::<u32>` does.
pub fn parse_u32(s: &Vec<char>) -> (r: Option<u32>)
    ensures
        r == parse_u32_spec(s@),
{
    let start: usize = if s.len() > 0 && s[0] == '+' { 1 } else { 0 };
    let ghost d = unsigned_digits(s@);
    assert(d =~= s@.skip(start as int));
    if start >= s.len() {
        return None;
    }
    let mut value: u64 = 0;
    let mut i: usize = start;
    while i < s.len()
        invariant
            start <= i <= s.len(),
            start < s.len(),
            d == s@.skip(start as int),
            d == unsigned_digits(s@),
            forall|k: int| 0 <= k < i - start ==> #[trigger] is_digit(d[k]),
            value == digits_value(d.take(i - start)),
            value <= u32::MAX,
        decreases s.len() - i,
    {
        let c = s[i];
        assert(d[i - start] == c);
        if !((c as u32) >= 48 && (c as u32) <= 57) {
            assert(!is_digit(d[i - start]));
            return None;
        }
        let next: u64 = value * 10 + ((c as u32) - 48) as u64;
        assert(d.take(i + 1 - start).drop_last() =~= d.take(i - start));
        if next > 0xffff_ffff {
            proof {
                if forall|k: int| 0 <= k < d.len() ==> #[trigger] is_digit(d[k]) {
                    lemma_digits_value_grows(d, i + 1 - start);
                }
            }
            return None;
        }
        value = next;
        i = i + 1;
    }
    assert(d.take(i - start) =~= d);
    Some(value as u32)
}

/// The characters of `s` with every occurrence of `c` removed.
pub open spec fn remove_all(s: Seq<char>, c: char) -> Seq<char>
    decreases s.len(),
{
    if s.len() == 0 {
        s
    } else if s.last() == c {
        remove_all(s.drop_last(), c)
    } else {
        remove_all(s.drop_last(), c).push(s.last())
    }
}

/// Removes every occurrence of `c`.
pub fn remove_char(s: &Vec<char>, c: char) -> (r: Vec<char>)
    ensures
        r@ == remove_all(s@, c),
{
    let mut r: Vec<char> = Vec::new();
    let mut i: usize = 0;
    assert(s@.take(0) =~= Seq::<char>::empty());
    while i < s.len()
        invariant
            i <= s.len(),
            r@ == remove_all(s@.take(i as int), c),
        decreases s.len() - i,
    {
        assert(s@.take(i + 1).drop_last() =~= s@.take(i as int));
        if s[i] != c {
            r.push(s[i]);
        }
        i = i + 1;
    }
    assert(s@.take(i as int) =~= s@);
    r
}

/// What the `Debug` formatting of a string slice gives for `s`.
pub uninterp spec fn str_debug(s: Seq<char>) -> Seq<char>;

/// The character is printable ASCII and is not a quote or a backslash, so the
/// `Debug` formatting of a string writes it unchanged.
pub open spec fn is_plain_char(c: char) -> bool {
    32 <= (c as u32) <= 126 && c != '"' && c != '\\' && c != '\''
}

/// The `Debug` form of a string slice (`format!("{:?}", s)`): the text in double
/// quotes, with quotes, backslashes, control and non-printable characters escaped.
/// The contract names the result and states the one case that std documents in a
/// few words: printable ASCII other than quotes and backslash is written as it is.
/// How the other characters are escaped is left unsaid.
#[verifier::external_body]
pub(crate) fn debug_quoted(s: &str) -> (r: String)
    ensures
        r@ == str_debug(s@),
        (forall|i: int| 0 <= i < s@.len() ==> #[trigger] is_plain_char(s@[i]))
            ==> r@ == seq!['"'] + s@ + seq!['"'],
{
    format!("{:?}", s)
}

/// The characters of `s` that follow its first `n` bytes of UTF-8.
pub open spec fn after_byte(s: Seq<char>, n: int) -> Seq<char> {
    decode_utf8(encode_utf8(s).subrange(n, encode_utf8(s).len() as int))
}

/// Byte offset `n` of the UTF-8 encoding of `s` falls between two characters
/// (or at either end), so that `s[n..]` does not panic.
pub open spec fn is_byte_boundary(s: Seq<char>, n: int) -> bool {
    is_char_boundary(encode_utf8(s), n)
}

/// `&s[n..]`: the string after its first `n` bytes.
pub fn skip_bytes(s: &str, n: usize) -> (r: &str)
    requires
        is_byte_boundary(s@, n as int),
    ensures
        r@ == after_byte(s@, n as int),
{
    broadcast use encode_utf8_decode_utf8;

    let (_, rest) = s.split_at(n);
    assert(rest.spec_bytes() == encode_utf8(rest@));
    rest
}

/// The position of the first occurrence of `pat` in `s` (meaningful when it occurs).
pub open spec fn first_index(s: Seq<char>, pat: Seq<char>) -> int {
    choose|i: int| is_first_match(s, pat, i)
}

/// The position of the last occurrence of `pat` in `s` (meaningful when it occurs).
pub open spec fn last_index(s: Seq<char>, pat: Seq<char>) -> int {
    choose|i: int| is_last_match(s, pat, i)
}

/// The first occurrence of a pattern is at a single position, which
/// `first_index` names.
pub proof fn lemma_first_index(s: Seq<char>, pat: Seq<char>, i: int)
    requires
        is_first_match(s, pat, i),
    ensures
        first_index(s, pat) == i,
{
    let j = first_index(s, pat);
    assert(is_first_match(s, pat, j));
    if j < i {
        assert(!matches_at(s, pat, j));
    } else if i < j {
        assert(!matches_at(s, pat, i));
    }
}

/// The last occurrence of a pattern is at a single position, which `last_index` names.
pub proof fn lemma_last_index(s: Seq<char>, pat: Seq<char>, i: int)
    requires
        is_last_match(s, pat, i),
    ensures
        last_index(s, pat) == i,
{
    let j = last_index(s, pat);
    assert(is_last_match(s, pat, j));
    if j < i {
        assert(!matches_at(s, pat, i));
    } else if i < j {
        assert(!matches_at(s, pat, j));
    }
}

/// If a pattern occurs, it has a last occurrence, at the position `last_index` names.
pub proof fn lemma_last_exists(s: Seq<char>, pat: Seq<char>, k: int)
    requires
        matches_at(s, pat, k),
    ensures
        is_last_match(s, pat, last_index(s, pat)),
    decreases s.len() - k,
{
    if forall|j: int| k < j ==> !matches_at(s, pat, j) {
        lemma_last_index(s, pat, k);
    } else {
        let j = choose|j: int| k < j && matches_at(s, pat, j);
        lemma_last_exists(s, pat, j);
    }
}

/// The characters from position `from` up to `to`.
pub fn slice_vec(s: &Vec<char>, from: usize, to: usize) -> (r: Vec<char>)
    requires
        from <= to <= s.len(),
    ensures
        r@ == s@.subrange(from as int, to as int),
{
    let mut r: Vec<char> = Vec::new();
    let mut i: usize = from;
    while i < to
        invariant
            from <= i <= to <= s.len(),
            r@ == s@.subrange(from as int, i as int),
        decreases to - i,
    {
        r.push(s[i]);
        i = i + 1;
        assert(r@ =~= s@.subrange(from as int, i as int));
    }
    r
}

/// The UTF-8 encoding of two strings one after the other is the encoding of
/// the first followed by that of the second.
pub proof fn lemma_encode_utf8_concat(a: Seq<char>, b: Seq<char>)
    ensures
        encode_utf8(a + b) == encode_utf8(a) + encode_utf8(b),
    decreases a.len(),
{
    if a.len() == 0 {
        assert(a + b =~= b);
        assert(encode_utf8(a) + encode_utf8(b) =~= encode_utf8(b));
    } else {
        lemma_encode_utf8_concat(a.drop_first(), b);
        assert((a + b).drop_first() =~= a.drop_first() + b);
        assert((a + b)[0] == a[0]);
        assert(encode_scalar(a[0] as u32) + (encode_utf8(a.drop_first()) + encode_utf8(b))
            =~= encode_scalar(a[0] as u32) + encode_utf8(a.drop_first()) + encode_utf8(b));
    }
}

/// Cutting `a + b` after the bytes of `a` is allowed and leaves `b`.
pub proof fn lemma_after_prefix(a: Seq<char>, b: Seq<char>)
    ensures
        is_byte_boundary(a + b, encode_utf8(a).len() as int),
        after_byte(a + b, encode_utf8(a).len() as int) == b,
{
    broadcast use encode_utf8_valid_utf8, encode_utf8_decode_utf8;

    lemma_encode_utf8_concat(a, b);
    let ea = encode_utf8(a);
    let eb = encode_utf8(b);
    let all = encode_utf8(a + b);
    assert(all == ea + eb);
    assert(valid_utf8(all));
    if eb.len() == 0 {
        is_char_boundary_start_end_of_seq(all);
        assert(all.len() == ea.len());
    } else {
        is_char_boundary_start_end_of_seq(eb);
        is_char_boundary_iff_not_is_continuation_byte(eb, 0);
        is_char_boundary_iff_not_is_continuation_byte(all, ea.len() as int);
        assert(all[ea.len() as int] == eb[0]);
    }
    assert(all.subrange(ea.len() as int, all.len() as int) =~= eb);
}

/// The digits of a decimal notation are ASCII digits.
proof fn lemma_digit_char(d: int)
    requires
        0 <= d < 10,
    ensures
        is_digit(digit_char(d)),
        (digit_char(d) as u32) - 48 == d,
        digit_char(d) != '+',
{
}

/// The decimal notation of `n` is a non-empty string of digits whose value is `n`.
pub proof fn lemma_decimal_digits(n: nat)
    ensures
        decimal(n).len() > 0,
        forall|i: int| 0 <= i < decimal(n).len() ==> #[trigger] is_digit(decimal(n)[i]),
        digits_value(decimal(n)) == n,
        decimal(n)[0] != '+',
    decreases n,
{
    if n < 10 {
        lemma_digit_char(n as int);
        assert(decimal(n).drop_last() =~= Seq::<char>::empty());
        assert(digits_value(decimal(n).drop_last()) == 0);
        assert(digits_value(decimal(n)) == 0 * 10 + ((decimal(n).last() as u32) - 48) as nat);
    } else {
        lemma_decimal_digits(n / 10);
        lemma_digit_char((n % 10) as int);
        let d = decimal(n);
        assert(d.drop_last() =~= decimal(n / 10));
        assert(d.last() == digit_char((n % 10) as int));
        assert(digits_value(d) == digits_value(decimal(n / 10)) * 10 + (n % 10));
        assert((n / 10) * 10 + n % 10 == n);
        assert forall|i: int| 0 <= i < d.len() implies #[trigger] is_digit(d[i]) by {
            if i < d.len() - 1 {
                assert(d[i] == decimal(n / 10)[i]);
            }
        }
        assert(d[0] == decimal(n / 10)[0]);
    }
}

/// Reading the decimal notation of a number gives the number back.
pub proof fn lemma_parse_decimal(n: u32)
    ensures
        parse_u32_spec(decimal(n as nat)) == Some(n),
{
    lemma_decimal_digits(n as nat);
    assert(unsigned_digits(decimal(n as nat)) == decimal(n as nat));
}

/// The decimal notation has no leading zero: it starts with `0` only for
/// zero itself, whose notation is the single digit `0`.
pub proof fn lemma_decimal_no_leading_zero(n: nat)
    ensures
        decimal(n).len() > 0,
        n > 0 ==> decimal(n)[0] != '0',
        n == 0 ==> decimal(n) == seq!['0'],
    decreases n,
{
    if n >= 10 {
        lemma_decimal_no_leading_zero(n / 10);
        assert(decimal(n)[0] == decimal(n / 10)[0]);
    }
}

/// The decimal notation of a number `n > 0` has as many characters as `n` has
/// digits: `10^(len - 1) <= n < 10^len`.
pub proof fn lemma_decimal_length(n: nat)
    requires
        n > 0,
    ensures
        pow(10, (decimal(n).len() - 1) as nat) <= n < pow(10, decimal(n).len()),
    decreases n,
{
    reveal(pow);
    if n < 10 {
        assert(decimal(n).len() == 1);
        assert(pow(10, 0) == 1);
        assert(pow(10, 1) == 10 * pow(10, 0));
    } else {
        lemma_decimal_length(n / 10);
        let k = decimal(n / 10).len();
        assert(decimal(n).len() == k + 1);
        let p = pow(10, (k - 1) as nat);
        let q = pow(10, k);
        assert(q == 10 * p);
        assert(pow(10, (k + 1) as nat) == 10 * q);
        assert(p <= n / 10 < q);
        assert(10 * p <= 10 * (n / 10)) by (nonlinear_arith)
            requires
                p <= n / 10,
        ;
        assert(10 * (n / 10) + 10 <= 10 * q) by (nonlinear_arith)
            requires
                n / 10 + 1 <= q,
        ;
    }
}

/// The decimal notation is the only string of digits without a leading zero
/// (other than the single digit `0`) whose value is `n`: it is what the usual
/// formatting of a number writes.
pub proof fn lemma_decimal_unique(s: Seq<char>, n: nat)
    requires
        s.len() > 0,
        forall|i: int| 0 <= i < s.len() ==> #[trigger] is_digit(s[i]),
        s[0] != '0' || s.len() == 1,
        digits_value(s) == n,
    ensures
        s == decimal(n),
    decreases s.len(),
{
    let d = ((s.last() as u32) - 48) as nat;
    assert(is_digit(s[s.len() - 1]));
    assert(d < 10);
    let c = s.last();
    assert(c as u32 == d + 48);
    lemma_digit_char(d as int);
    assert(c as u32 == digit_char(d as int) as u32);
    char_u32_cast(c, c as u32);
    char_u32_cast(digit_char(d as int), c as u32);
    assert(c == digit_char(d as int));
    if s.len() == 1 {
        assert(s.drop_last() =~= Seq::<char>::empty());
        assert(digits_value(s.drop_last()) == 0);
        assert(n == d);
        assert(s =~= seq![digit_char(n as int)]);
    } else {
        let init = s.drop_last();
        assert forall|i: int| 0 <= i < init.len() implies #[trigger] is_digit(init[i]) by {
            assert(init[i] == s[i]);
        }
        assert(init[0] == s[0]);
        let m = digits_value(init);
        lemma_decimal_unique(init, m);
        assert(n == m * 10 + d);
        if m == 0 {
            lemma_decimal_no_leading_zero(0);
            assert(init[0] == '0');
        }
        assert(n >= 10);
        assert(n / 10 == m && n % 10 == d);
        assert(s =~= init + seq![s.last()]);
    }
}

} // verus!
