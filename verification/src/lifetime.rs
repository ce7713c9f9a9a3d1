use std::collections::BTreeMap;
use vstd::prelude::*;
use vstd::std_specs::cmp::PartialOrdIs;
use vstd::std_specs::cmp::PartialOrdSpec;
use vstd::string::*;
use vstd::utf8::*;

use crate::text::{decimal, digit_char};

verus! {

/// Why `parse_nonempty` turned its input down.
#[derive(Debug, PartialEq, Eq, Structural)]
pub enum MyError {
    ParseFailed,
    Empty,
}

/// A decimal digit.
pub open spec fn is_digit(c: char) -> bool {
    '0' <= c <= '9'
}

/// The value of a string of decimal digits, most significant first.
pub open spec fn digits_value(s: Seq<char>) -> int
    decreases s.len(),
{
    if s.len() == 0 {
        0
    } else {
        digits_value(s.drop_last()) * 10 + (s.last() as int - '0' as int)
    }
}

/// A non-empty run of decimal digits.
pub open spec fn all_digits(s: Seq<char>) -> bool {
    s.len() > 0 && forall|i: int| 0 <= i < s.len() ==> is_digit(#[trigger] s[i])
}

/// The integer that `s` writes in decimal: an optional `+` or `-` sign and at
/// least one digit, nothing else.
pub open spec fn signed_decimal_value(s: Seq<char>) -> Option<int> {
    if s.len() > 0 && s[0] == '-' {
        if all_digits(s.drop_first()) {
            Some(-digits_value(s.drop_first()))
        } else {
            None
        }
    } else if s.len() > 0 && s[0] == '+' {
        if all_digits(s.drop_first()) {
            Some(digits_value(s.drop_first()))
        } else {
            None
        }
    } else if all_digits(s) {
        Some(digits_value(s))
    } else {
        None
    }
}

/// What `str::parse::<i32>` accepts: a signed decimal whose value fits in an
/// `i32`.
pub open spec fn parsed_i32(s: Seq<char>) -> Option<i32> {
    match signed_decimal_value(s) {
        Some(v) => if i32::MIN <= v <= i32::MAX {
            Some(v as i32)
        } else {
            None
        },
        None => None,
    }
}

/// Parses `s` as an `i32` with std's `FromStr`.
///
/// The contract claims what std documents for `i32::from_str`: an optional
/// `+` or `-` followed by one or more ASCII digits, whose value must fit.
#[verifier::external_body]
fn parse_i32(s: &str) -> (r: Option<i32>)
    ensures
        r == parsed_i32(s@),
{
    s.parse::<i32>().ok()
}

/// Parses a non-empty string as an `i32`; an empty string is `Empty`, any
/// other string that is not an `i32` in decimal is `ParseFailed`.
pub fn parse_nonempty(s: &str) -> (r: Result<i32, MyError>)
    ensures
        s@.len() == 0 ==> r == Err::<i32, MyError>(MyError::Empty),
        s@.len() != 0 ==> r == match parsed_i32(s@) {
            Some(n) => Ok::<i32, MyError>(n),
            None => Err(MyError::ParseFailed),
        },
{
    if s.is_empty() {
        return Err(MyError::Empty);
    }
    match parse_i32(s) {
        Some(num) => Ok(num),
        None => Err(MyError::ParseFailed),
    }
}

/// An `i32` written in decimal, as std's `Display` writes it: a `-` for a
/// negative number, then the digits of its magnitude.
pub open spec fn i32_text(n: i32) -> Seq<char> {
    if n < 0 {
        seq!['-'] + decimal((-(n as int)) as nat)
    } else {
        decimal(n as nat)
    }
}

/// The decimal digits of `m` are digits, and they read back as `m`.
proof fn lemma_decimal_reads_back(m: nat)
    ensures
        all_digits(decimal(m)),
        digits_value(decimal(m)) == m,
        decimal(m).len() > 0,
    decreases m,
{
    if m < 10 {
        assert(decimal(m) == seq![digit_char(m)]);
        assert(decimal(m).drop_last() =~= Seq::<char>::empty());
        assert(digit_char(m) as int == m + 48);
        assert('0' as int == 48);
        assert(decimal(m).last() == digit_char(m));
        assert(digits_value(decimal(m)) == digits_value(decimal(m).drop_last()) * 10 + (
        decimal(m).last() as int - '0' as int));
        assert(digits_value(Seq::<char>::empty()) == 0);
    } else {
        assert(digit_char(m % 10) as int == m % 10 + 48);
        assert('0' as int == 48);
        assert(m == (m / 10) * 10 + m % 10) by (nonlinear_arith);
        lemma_decimal_reads_back(m / 10);
        let prefix = decimal(m / 10);
        assert(decimal(m) == prefix.push(digit_char(m % 10)));
        assert(decimal(m).drop_last() =~= prefix);
        assert(decimal(m).last() == digit_char(m % 10));
        assert(digits_value(decimal(m)) == digits_value(prefix) * 10 + (digit_char(m % 10) as int
            - '0' as int));
        assert forall|i: int| 0 <= i < decimal(m).len() implies is_digit(#[trigger] decimal(m)[i]) by {
            if i < prefix.len() {
                assert(decimal(m)[i] == prefix[i]);
            }
        }
    }
}

/// Parsing the decimal text of any `i32` gives the number back, so
/// `parse_nonempty` answers `Ok(n)` on it (the text is never empty).
pub proof fn law_parse_round_trip(n: i32)
    ensures
        i32_text(n).len() > 0,
        parsed_i32(i32_text(n)) == Some(n),
{
    if n < 0 {
        let mag: nat = (-(n as int)) as nat;
        lemma_decimal_reads_back(mag);
        let t = i32_text(n);
        assert(t.drop_first() =~= decimal(mag));
        assert(t[0] == '-');
    } else {
        lemma_decimal_reads_back(n as nat);
        let t = decimal(n as nat);
        assert(is_digit(t[0]));
    }
}

/// The comparisons of `T` follow its specified partial order.
pub open spec fn follows_order<T: PartialOrd>() -> bool {
    T::obeys_partial_cmp_spec()
}

/// The index that a left-to-right scan of the first `n` items keeps: it
/// starts at the first item and moves to each later item that is strictly
/// greater than the one it holds.
pub open spec fn scan_max<T: PartialOrd>(s: Seq<T>, n: nat) -> nat
    decreases n,
{
    if n == 0 {
        0
    } else {
        let k = scan_max(s, (n - 1) as nat);
        if s[n - 1].is_gt(&s[k as int]) {
            (n - 1) as nat
        } else {
            k
        }
    }
}

/// The scan keeps an index among those it has looked at.
proof fn lemma_scan_max_bound<T: PartialOrd>(s: Seq<T>, n: nat)
    ensures
        n == 0 ==> scan_max(s, n) == 0,
        n > 0 ==> scan_max(s, n) < n,
    decreases n,
{
    if n > 0 {
        lemma_scan_max_bound(s, (n - 1) as nat);
    }
}

/// `x` is strictly greater than `y`, by the specified order of `T`.
pub open spec fn greater<T: PartialOrd>(x: T, y: T) -> bool {
    x.is_gt(&y)
}

/// "Strictly greater" is a strict weak order on the items of `s`: never both
/// ways, transitive, and whatever is greater than one item is greater than
/// every item that is not greater than that one. (Any list of integers is an
/// instance.)
pub open spec fn gt_is_strict_weak_on<T: PartialOrd>(s: Seq<T>) -> bool {
    &&& forall|i: int, j: int|
        0 <= i < s.len() && 0 <= j < s.len() && #[trigger] greater(s[i], s[j]) ==> !greater(
            s[j],
            s[i],
        )
    &&& forall|i: int, j: int, k: int|
        0 <= i < s.len() && 0 <= j < s.len() && 0 <= k < s.len() && #[trigger] greater(s[i], s[j])
            && #[trigger] greater(s[j], s[k]) ==> greater(s[i], s[k])
    &&& forall|a: int, b: int, c: int|
        0 <= a < s.len() && 0 <= b < s.len() && 0 <= c < s.len() && !greater(s[a], s[b])
            && #[trigger] greater(s[c], s[b]) ==> #[trigger] greater(s[c], s[a])
}

/// Among the first `n` items, the one at `k` is a maximum (nothing is
/// greater) and the first one (it is greater than every item before it).
pub open spec fn is_first_maximum<T: PartialOrd>(s: Seq<T>, n: int, k: int) -> bool {
    &&& 0 <= k < n <= s.len()
    &&& forall|j: int| 0 <= j < n ==> !greater(#[trigger] s[j], s[k])
    &&& forall|j: int| 0 <= j < k ==> greater(s[k], #[trigger] s[j])
}

/// For a strict weak order, the scan keeps the first maximum of what it has
/// looked at.
pub proof fn law_scan_finds_first_maximum<T: PartialOrd>(s: Seq<T>, n: nat)
    requires
        gt_is_strict_weak_on(s),
        0 < n <= s.len(),
    ensures
        is_first_maximum(s, n as int, scan_max(s, n) as int),
    decreases n,
{
    if n == 1 {
        assert(scan_max(s, 0) == 0);
        if greater(s[0], s[0]) {
            assert(!greater(s[0], s[0]));
        }
    } else {
        let m = (n - 1) as nat;
        law_scan_finds_first_maximum(s, m);
        let k = scan_max(s, m) as int;
        let last = m as int;
        if greater(s[last], s[k]) {
            assert forall|j: int| 0 <= j < n implies !greater(#[trigger] s[j], s[last]) by {
                if j == last {
                    if greater(s[last], s[last]) {
                        assert(!greater(s[last], s[last]));
                    }
                } else if greater(s[j], s[last]) {
                    assert(greater(s[j], s[k]));
                }
            }
            assert forall|j: int| 0 <= j < last implies greater(s[last], #[trigger] s[j]) by {
                assert(!greater(s[j], s[k]));
            }
        } else {
            assert forall|j: int| 0 <= j < n implies !greater(#[trigger] s[j], s[k]) by {
                if j < last {
                    assert(!greater(s[j], s[k]));
                }
            }
        }
    }
}

/// The integers' "greater than" is a strict weak order on any list.
pub proof fn lemma_i32_gt_is_strict_weak(s: Seq<i32>)
    ensures
        gt_is_strict_weak_on(s),
{
}

/// The item that the scan keeps over a whole list.
pub open spec fn scan_result<T: PartialOrd>(s: Seq<T>) -> T {
    s[scan_max(s, s.len()) as int]
}

/// What `max_ref` finds: nothing for an empty list, otherwise the item that
/// the scan keeps.
pub open spec fn scan_result_opt<T: PartialOrd>(s: Seq<T>) -> Option<T> {
    if s.len() == 0 {
        None
    } else {
        Some(scan_result(s))
    }
}

/// `max_ref` and `largest` agree: on a non-empty list whose comparisons
/// follow `T`'s specified order, `max_ref` finds `Some` of the very item that
/// `largest` finds (both keep the item at the same scan position).
pub proof fn law_max_ref_is_largest<T: PartialOrd>(s: Seq<T>)
    requires
        s.len() > 0,
    ensures
        scan_result_opt(s) == Some(scan_result(s)),
        scan_max(s, s.len()) < s.len(),
{
    lemma_scan_max_bound(s, s.len());
}

/// The largest item of a non-empty list: the one that a left-to-right scan
/// keeps when it moves to each strictly greater item.
pub fn largest<T: PartialOrd>(list: &[T]) -> (r: &T)
    requires
        list@.len() > 0,
    ensures
        exists|k: int| 0 <= k < list@.len() && *r == list@[k],
        follows_order::<T>() ==> *r == scan_result(list@),
        gt_is_strict_weak_on(list@) ==> is_first_maximum(
            list@,
            list@.len() as int,
            scan_max(list@, list@.len()) as int,
        ),
{
    proof {
        if gt_is_strict_weak_on(list@) {
            law_scan_finds_first_maximum(list@, list@.len());
        }
    }
    let n = list.len();
    let mut largest = &list[0];
    let ghost mut k: nat = 0;
    let mut i: usize = 0;
    while i < n
        invariant
            n == list@.len(),
            0 < n,
            i <= n,
            k < n,
            *largest == list@[k as int],
            follows_order::<T>() ==> k == scan_max(list@, i as nat),
        decreases n - i,
    {
        proof {
            lemma_scan_max_bound(list@, i as nat);
        }
        let item = &list[i];
        if item > largest {
            largest = item;
            proof {
                k = i as nat;
            }
        }
        i = i + 1;
    }
    largest
}

/// The largest item of the list as `largest` finds it, or `None` for an
/// empty list.
pub fn max_ref<T: PartialOrd>(list: &[T]) -> (r: Option<&T>)
    ensures
        list@.len() == 0 <==> r is None,
        r matches Some(m) ==> exists|k: int| 0 <= k < list@.len() && *m == list@[k],
        follows_order::<T>() ==> match r {
            None => scan_result_opt(list@) is None,
            Some(m) => scan_result_opt(list@) == Some(*m),
        },
        gt_is_strict_weak_on(list@) && list@.len() > 0 ==> is_first_maximum(
            list@,
            list@.len() as int,
            scan_max(list@, list@.len()) as int,
        ),
{
    proof {
        if gt_is_strict_weak_on(list@) && list@.len() > 0 {
            law_scan_finds_first_maximum(list@, list@.len());
        }
    }
    if list.is_empty() {
        return None;
    }
    let n = list.len();
    let mut max = &list[0];
    let ghost mut k: nat = 0;
    let mut i: usize = 0;
    while i < n
        invariant
            n == list@.len(),
            0 < n,
            i <= n,
            k < n,
            *max == list@[k as int],
            follows_order::<T>() ==> k == scan_max(list@, i as nat),
        decreases n - i,
    {
        proof {
            lemma_scan_max_bound(list@, i as nat);
        }
        let item = &list[i];
        if item > max {
            max = item;
            proof {
                k = i as nat;
            }
        }
        i = i + 1;
    }
    Some(max)
}


/// `k` is where the first word of `s` ends: no `x` before it, and `x` at it
/// unless it is the end of `s`.
pub open spec fn ends_first_word<A>(s: Seq<A>, x: A, k: int) -> bool {
    &&& 0 <= k <= s.len()
    &&& forall|j: int| 0 <= j < k ==> s[j] != x
    &&& k < s.len() ==> s[k] == x
}

/// The byte index of the first space in `s`, or the byte length of `s` when
/// it has none.
pub fn first_word(s: &str) -> (r: usize)
    ensures
        ends_first_word(s.spec_bytes(), 32u8, r as int),
{
    let bytes = s.as_bytes();
    let n = bytes.len();
    for i in 0..n
        invariant
            n == s.spec_bytes().len(),
            bytes@ == s.spec_bytes(),
            forall|j: int| 0 <= j < i ==> bytes@[j] != 32u8,
    {
        if bytes[i] == 32u8 {
            return i;
        }
    }
    s.len()
}

/// Every character takes at least one byte in UTF-8.
proof fn lemma_chars_fit_bytes(chars: Seq<char>)
    ensures
        chars.len() <= vstd::utf8::encode_utf8(chars).len(),
    decreases chars.len(),
{
    if chars.len() > 0 {
        lemma_chars_fit_bytes(chars.drop_first());
    }
}

/// The first word of `s`: everything before its first space, or all of `s`
/// when it has none.
pub fn first_word2(s: &str) -> (r: &str)
    ensures
        s@.subrange(0, r@.len() as int) == r@,
        ends_first_word(s@, ' ', r@.len() as int),
{
    proof {
        lemma_chars_fit_bytes(s@);
    }
    let ghost total: int = s@.len() as int;
    let byte_len = s.as_bytes().len();
    assert(total <= byte_len);
    let mut i: usize = 0;
    for c in it: s.chars()
        invariant
            total == s@.len(),
            total <= usize::MAX,
            i == it.index(),
            it.seq() == s@,
            forall|j: int| 0 <= j < i ==> s@[j] != ' ',
    {
        if c == ' ' {
            return s.substring_char(0, i);
        }
        i = i + 1;
    }
    s
}


/// No byte of the UTF-8 encoding of a character other than a space is a
/// space byte, and a space encodes as the single space byte.
proof fn lemma_space_byte(c: char)
    ensures
        c == ' ' ==> encode_scalar(c as u32) == seq![32u8],
        c != ' ' ==> forall|j: int|
            0 <= j < encode_scalar(c as u32).len() ==> #[trigger] encode_scalar(c as u32)[j] != 32u8,
        encode_scalar(c as u32).len() >= 1,
{
    let v = c as u32;
    vstd::utf8::char_is_scalar(c);
    if has_width_1_encoding(v) {
        assert(leading_byte_width_1(v) == v as u8) by (bit_vector)
            requires
                v <= 0x7F,
        ;
        if c != ' ' {
            assert(v != 32);
            assert(v as u8 != 32u8) by (bit_vector)
                requires
                    v <= 0x7F,
                    v != 32,
            ;
        }
    } else {
        assert(c != ' ');
        assert(last_continuation_byte(v) >= 0x80) by (bit_vector);
        if has_width_2_encoding(v) {
            assert(leading_byte_width_2(v) >= 0x80) by (bit_vector);
        } else if has_width_3_encoding(v) {
            assert(leading_byte_width_3(v) >= 0x80) by (bit_vector);
            assert(second_last_continuation_byte(v) >= 0x80) by (bit_vector);
        } else {
            assert(leading_byte_width_4(v) >= 0x80) by (bit_vector);
            assert(second_last_continuation_byte(v) >= 0x80) by (bit_vector);
            assert(third_last_continuation_byte(v) >= 0x80) by (bit_vector);
        }
    }
}

/// The two ways of finding the first word agree: the byte index of the first
/// space (`first_word`) is the byte length of the characters before the first
/// space (`first_word2`).
pub proof fn law_first_words_agree(s: Seq<char>, word_len: int, byte_index: int)
    requires
        ends_first_word(s, ' ', word_len),
        ends_first_word(encode_utf8(s), 32u8, byte_index),
    ensures
        byte_index == encode_utf8(s.subrange(0, word_len)).len(),
    decreases s.len(),
{
    if s.len() == 0 {
        assert(s.subrange(0, word_len) =~= Seq::<char>::empty());
    } else {
        let c = s[0];
        let rest = s.drop_first();
        let head = encode_scalar(c as u32);
        let bytes = encode_utf8(s);
        assert(bytes == head + encode_utf8(rest));
        lemma_space_byte(c);
        if c == ' ' {
            assert(word_len == 0);
            assert(bytes[0] == 32u8);
            assert(byte_index == 0);
            assert(s.subrange(0, word_len) =~= Seq::<char>::empty());
        } else {
            let m = head.len() as int;
            assert(word_len >= 1);
            if byte_index < m {
                assert(bytes[byte_index] == head[byte_index]);
            }
            assert(byte_index >= m);
            let rest_bytes = encode_utf8(rest);
            assert forall|j: int| 0 <= j < word_len - 1 implies rest[j] != ' ' by {
                assert(rest[j] == s[j + 1]);
            }
            assert forall|j: int| 0 <= j < byte_index - m implies rest_bytes[j] != 32u8 by {
                assert(rest_bytes[j] == bytes[j + m]);
            }
            if byte_index - m < rest_bytes.len() {
                assert(rest_bytes[byte_index - m] == bytes[byte_index]);
            }
            if word_len - 1 < rest.len() {
                assert(rest[word_len - 1] == s[word_len]);
            }
            law_first_words_agree(rest, word_len - 1, byte_index - m);
            let word = s.subrange(0, word_len);
            assert(word.drop_first() =~= rest.subrange(0, word_len - 1));
            assert(word[0] == c);
            assert(encode_utf8(word) == head + encode_utf8(word.drop_first()));
        }
    }
}

/// A resting order.
pub struct Order {
    pub id: u64,
    pub price: u64,
    pub qty: u64,
}

/// The bid side of a book: each price level holds one order.
pub struct OrderBook {
    pub bids: BTreeMap<u64, Order>,
}

/// `p` is the highest key of `m`.
pub open spec fn is_top_key<V>(m: Map<u64, V>, p: u64) -> bool {
    m.contains_key(p) && forall|q: u64| #[trigger] m.contains_key(q) ==> q <= p
}

/// The entry with the greatest key, from std's `BTreeMap::last_key_value`.
///
/// The contract claims what std documents: the last pair of the map, whose key
/// is its maximum, and `None` for an empty map.
#[verifier::external_body]
fn last_entry<V>(m: &BTreeMap<u64, V>) -> (r: Option<(&u64, &V)>)
    ensures
        r is None <==> m@.dom().is_empty(),
        r matches Some((k, v)) ==> is_top_key(m@, *k) && m@[*k] == *v,
{
    m.last_key_value()
}

impl OrderBook {
    /// The order at the highest bid price, or `None` when there are no bids.
    pub fn best_bid(&self) -> (r: Option<&Order>)
        ensures
            r is None <==> self.bids@.dom().is_empty(),
            r matches Some(o) ==> exists|p: u64| is_top_key(self.bids@, p) && self.bids@[p] == *o,
    {
        match last_entry(&self.bids) {
            Some((_price, order)) => Some(order),
            None => None,
        }
    }
}

} // verus!
