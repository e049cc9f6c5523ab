//! Text helpers: decimal rendering, prefix and suffix trimming, and the byte
//! order that every id-ordered scan uses.

use vstd::prelude::*;
use vstd::utf8::encode_utf8;

verus! {

/// The decimal digit of a value below ten.
pub open spec fn digit_char(d: nat) -> char {
    (('0' as nat + d) as u32) as char
}

/// The decimal rendering of `n`, without leading zeros.
pub open spec fn decimal(n: nat) -> Seq<char>
    decreases n,
{
    if n < 10 {
        seq![digit_char(n)]
    } else {
        decimal(n / 10).push(digit_char(n % 10))
    }
}

fn digit_text(d: u64) -> (r: &'static str)
    requires
        d < 10,
    ensures
        r@ == seq![digit_char(d as nat)],
{
    proof {
        reveal_strlit("0");
        reveal_strlit("1");
        reveal_strlit("2");
        reveal_strlit("3");
        reveal_strlit("4");
        reveal_strlit("5");
        reveal_strlit("6");
        reveal_strlit("7");
        reveal_strlit("8");
        reveal_strlit("9");
    }
    if d == 0 {
        "0"
    } else if d == 1 {
        "1"
    } else if d == 2 {
        "2"
    } else if d == 3 {
        "3"
    } else if d == 4 {
        "4"
    } else if d == 5 {
        "5"
    } else if d == 6 {
        "6"
    } else if d == 7 {
        "7"
    } else if d == 8 {
        "8"
    } else {
        "9"
    }
}

/// Renders `n` in decimal.
pub fn decimal_text(n: u64) -> (r: String)
    ensures
        r@ == decimal(n as nat),
    decreases n,
{
    if n < 10 {
        String::from_str(digit_text(n))
    } else {
        let mut head = decimal_text(n / 10);
        head.append(digit_text(n % 10));
        head
    }
}

/// `s` without its trailing `/` characters.
pub open spec fn trim_slashes(s: Seq<char>) -> Seq<char>
    decreases s.len(),
{
    if s.len() > 0 && s.last() == '/' {
        trim_slashes(s.drop_last())
    } else {
        s
    }
}

/// Strips every trailing `/` from `s`.
pub fn trimmed_root(s: &str) -> (r: String)
    ensures
        r@ == trim_slashes(s@),
{
    let mut end: usize = s.unicode_len();
    assert(s@.take(end as int) == s@);
    while end > 0 && s.get_char(end - 1) == '/'
        invariant
            end <= s@.len(),
            trim_slashes(s@) == trim_slashes(s@.take(end as int)),
        decreases end,
    {
        assert(s@.take(end as int).drop_last() == s@.take(end - 1));
        end = end - 1;
    }
    assert(s@.take(end as int) == s@.subrange(0, end as int));
    String::from_str(s.substring_char(0, end))
}

/// Whether `s` starts with `prefix`.
pub fn has_prefix(s: &str, prefix: &str) -> (r: bool)
    ensures
        r == prefix@.is_prefix_of(s@),
{
    let total: usize = s.unicode_len();
    let wanted: usize = prefix.unicode_len();
    if wanted > total {
        return false;
    }
    let mut i: usize = 0;
    while i < wanted
        invariant
            i <= wanted <= total,
            total == s@.len(),
            wanted == prefix@.len(),
            forall|k: int| 0 <= k < i ==> s@[k] == prefix@[k],
        decreases wanted - i,
    {
        if s.get_char(i) != prefix.get_char(i) {
            assert(s@[i as int] != prefix@[i as int]);
            assert(s@.subrange(0, wanted as int)[i as int] == s@[i as int]);
            return false;
        }
        i = i + 1;
    }
    assert(prefix@ =~= s@.subrange(0, wanted as int));
    true
}

/// Texts with the same bytes are the same.
pub proof fn bytes_determine_text(a: Seq<char>, b: Seq<char>)
    ensures
        encode_utf8(a) == encode_utf8(b) <==> a == b,
{
    vstd::utf8::encode_utf8_decode_utf8(a);
    vstd::utf8::encode_utf8_decode_utf8(b);
}

/// Whether two texts are the same.
pub fn same_text(a: &str, b: &str) -> (r: bool)
    ensures
        r == (a@ == b@),
{
    let left: &[u8] = a.as_bytes();
    let right: &[u8] = b.as_bytes();
    proof {
        bytes_determine_text(a@, b@);
    }
    if left.len() != right.len() {
        return false;
    }
    let mut i: usize = 0;
    while i < left.len()
        invariant
            i <= left.len(),
            left.len() == right.len(),
            left@ == encode_utf8(a@),
            right@ == encode_utf8(b@),
            encode_utf8(a@) == encode_utf8(b@) <==> a@ == b@,
            forall|k: int| 0 <= k < i ==> left@[k] == right@[k],
        decreases left.len() - i,
    {
        if left[i] != right[i] {
            return false;
        }
        i = i + 1;
    }
    assert(left@ =~= right@);
    true
}

/// A text that may be absent, over plain values.
pub open spec fn text_option(value: Option<String>) -> Option<Seq<char>> {
    match value {
        Some(text) => Some(text@),
        None => None,
    }
}

/// Whether two texts are both absent, or both there and the same.
pub fn same_text_option(a: &Option<String>, b: &Option<String>) -> (r: bool)
    ensures
        r == (text_option(*a) == text_option(*b)),
{
    match (a, b) {
        (Some(x), Some(y)) => same_text(x.as_str(), y.as_str()),
        (None, None) => true,
        _ => false,
    }
}

/// `a` followed by `b`.
pub fn joined(a: &str, b: &str) -> (r: String)
    ensures
        r@ == a@ + b@,
{
    let mut text = String::from_str(a);
    text.append(b);
    text
}

/// Lexicographic order on byte strings.
pub open spec fn bytes_less(a: Seq<u8>, b: Seq<u8>) -> bool
    decreases b.len(),
{
    if b.len() == 0 {
        false
    } else if a.len() == 0 {
        true
    } else if a[0] != b[0] {
        a[0] < b[0]
    } else {
        bytes_less(a.drop_first(), b.drop_first())
    }
}

/// The scan order on text: lexicographic on UTF-8 bytes.
pub open spec fn text_less(a: Seq<char>, b: Seq<char>) -> bool {
    bytes_less(encode_utf8(a), encode_utf8(b))
}

/// Compares two texts in scan order.
pub fn is_text_less(a: &str, b: &str) -> (r: bool)
    ensures
        r == text_less(a@, b@),
{
    let left: &[u8] = a.as_bytes();
    let right: &[u8] = b.as_bytes();
    let mut i: usize = 0;
    assert(left@.skip(0) == left@);
    assert(right@.skip(0) == right@);
    while i < left.len() && i < right.len()
        invariant
            i <= left.len(),
            i <= right.len(),
            left@ == encode_utf8(a@),
            right@ == encode_utf8(b@),
            bytes_less(left@, right@) == bytes_less(left@.skip(i as int), right@.skip(i as int)),
        decreases left.len() - i,
    {
        assert(left@.skip(i as int)[0] == left@[i as int]);
        assert(right@.skip(i as int)[0] == right@[i as int]);
        if left[i] != right[i] {
            return left[i] < right[i];
        }
        assert(left@.skip(i as int).drop_first() == left@.skip(i + 1));
        assert(right@.skip(i as int).drop_first() == right@.skip(i + 1));
        i = i + 1;
    }
    i < right.len()
}

proof fn bytes_less_is_irreflexive(a: Seq<u8>)
    ensures
        !bytes_less(a, a),
    decreases a.len(),
{
    if a.len() > 0 {
        bytes_less_is_irreflexive(a.drop_first());
    }
}

proof fn bytes_less_is_transitive(a: Seq<u8>, b: Seq<u8>, c: Seq<u8>)
    requires
        bytes_less(a, b),
        bytes_less(b, c),
    ensures
        bytes_less(a, c),
    decreases a.len(),
{
    if a.len() > 0 && a[0] == b[0] && b[0] == c[0] {
        bytes_less_is_transitive(a.drop_first(), b.drop_first(), c.drop_first());
    }
}

proof fn bytes_less_is_total(a: Seq<u8>, b: Seq<u8>)
    ensures
        bytes_less(a, b) || bytes_less(b, a) || a == b,
    decreases a.len(),
{
    if a.len() > 0 && b.len() > 0 && a[0] == b[0] {
        bytes_less_is_total(a.drop_first(), b.drop_first());
        if a.drop_first() == b.drop_first() {
            assert(a =~= seq![a[0]] + a.drop_first());
            assert(b =~= seq![b[0]] + b.drop_first());
        }
    } else if a.len() == 0 && b.len() == 0 {
        assert(a =~= b);
    }
}

/// The scan order is a strict total order on texts: nothing precedes itself,
/// and of two different texts exactly one precedes the other.
pub proof fn text_order_is_total(a: Seq<char>, b: Seq<char>)
    ensures
        !text_less(a, a),
        text_less(a, b) || text_less(b, a) || a == b,
        !(text_less(a, b) && text_less(b, a)),
{
    bytes_less_is_irreflexive(encode_utf8(a));
    bytes_less_is_total(encode_utf8(a), encode_utf8(b));
    bytes_determine_text(a, b);
    if text_less(a, b) && text_less(b, a) {
        bytes_less_is_transitive(encode_utf8(a), encode_utf8(b), encode_utf8(a));
    }
}

/// The scan order is transitive.
pub proof fn text_order_is_transitive(a: Seq<char>, b: Seq<char>, c: Seq<char>)
    requires
        text_less(a, b),
        text_less(b, c),
    ensures
        text_less(a, c),
{
    bytes_less_is_transitive(encode_utf8(a), encode_utf8(b), encode_utf8(c));
}

proof fn lemma_bytes_less(a: Seq<u8>, b: Seq<u8>)
    ensures
        bytes_less(a, b) <==> (a.len() < b.len() && (forall|j: int|
            0 <= j < a.len() ==> #[trigger] a[j] == b[j])) || (exists|k: int|
            0 <= k < a.len() && k < b.len() && #[trigger] a[k] < b[k] && (forall|j: int|
                0 <= j < k ==> #[trigger] a[j] == b[j])),
    decreases b.len(),
{
    if a.len() > 0 && b.len() > 0 && a[0] == b[0] {
        let x = a.drop_first();
        let y = b.drop_first();
        lemma_bytes_less(x, y);
        if bytes_less(a, b) {
            if x.len() < y.len() && (forall|j: int| 0 <= j < x.len() ==> #[trigger] x[j] == y[j]) {
                assert forall|j: int| 0 <= j < a.len() implies #[trigger] a[j] == b[j] by {
                    if j > 0 {
                        assert(x[j - 1] == y[j - 1]);
                    }
                }
            } else {
                let k = choose|k: int|
                    0 <= k < x.len() && k < y.len() && #[trigger] x[k] < y[k] && (forall|j: int|
                        0 <= j < k ==> #[trigger] x[j] == y[j]);
                assert(a[k + 1] < b[k + 1]);
                assert forall|j: int| 0 <= j < k + 1 implies #[trigger] a[j] == b[j] by {
                    if j > 0 {
                        assert(x[j - 1] == y[j - 1]);
                    }
                }
            }
        }
        if a.len() < b.len() && (forall|j: int| 0 <= j < a.len() ==> #[trigger] a[j] == b[j]) {
            assert forall|j: int| 0 <= j < x.len() implies #[trigger] x[j] == y[j] by {
                assert(a[j + 1] == b[j + 1]);
            }
        }
        if exists|k: int|
            0 <= k < a.len() && k < b.len() && #[trigger] a[k] < b[k] && (forall|j: int|
                0 <= j < k ==> #[trigger] a[j] == b[j]) {
            let k = choose|k: int|
                0 <= k < a.len() && k < b.len() && #[trigger] a[k] < b[k] && (forall|j: int|
                    0 <= j < k ==> #[trigger] a[j] == b[j]);
            assert(x[k - 1] < y[k - 1]);
            assert forall|j: int| 0 <= j < k - 1 implies #[trigger] x[j] == y[j] by {
                assert(a[j + 1] == b[j + 1]);
            }
        }
    } else if a.len() > 0 && b.len() > 0 {
        if a[0] > b[0] {
            assert forall|k: int| 0 <= k < a.len() && k < b.len() && #[trigger] a[k] < b[k] implies !(
            forall|j: int| 0 <= j < k ==> #[trigger] a[j] == b[j]) by {
                assert(a[0] != b[0]);
            }
        }
    }
}

/// The order of texts is that of their UTF-8 bytes, byte by byte from the front:
/// one text precedes another exactly where its bytes are a proper beginning of
/// the other's, or where at the first place at which they differ its byte is the
/// smaller one. This is the order in which a scan by id delivers its rows.
pub proof fn text_order_is_that_of_the_bytes(a: Seq<char>, b: Seq<char>)
    ensures
        text_less(a, b) <==> (encode_utf8(a).len() < encode_utf8(b).len() && (forall|j: int|
            0 <= j < encode_utf8(a).len() ==> #[trigger] encode_utf8(a)[j] == encode_utf8(b)[j]))
            || (exists|k: int|
            0 <= k < encode_utf8(a).len() && k < encode_utf8(b).len() && #[trigger] encode_utf8(
                a,
            )[k] < encode_utf8(b)[k] && (forall|j: int|
                0 <= j < k ==> #[trigger] encode_utf8(a)[j] == encode_utf8(b)[j])),
{
    lemma_bytes_less(encode_utf8(a), encode_utf8(b));
}

/// Trimming takes slashes off the end and nothing else, and leaves none there.
pub proof fn trimming_takes_trailing_slashes_only(s: Seq<char>)
    ensures
        trim_slashes(s).len() <= s.len(),
        trim_slashes(s) == s.take(trim_slashes(s).len() as int),
        forall|i: int| trim_slashes(s).len() <= i < s.len() ==> #[trigger] s[i] == '/',
        trim_slashes(s).len() > 0 ==> trim_slashes(s).last() != '/',
    decreases s.len(),
{
    if s.len() > 0 && s.last() == '/' {
        trimming_takes_trailing_slashes_only(s.drop_last());
        let kept = trim_slashes(s).len() as int;
        assert(s.drop_last().take(kept) =~= s.take(kept));
        assert forall|i: int| kept <= i < s.len() implies #[trigger] s[i] == '/' by {
            if i < s.len() - 1 {
                assert(s.drop_last()[i] == s[i]);
            }
        }
    } else {
        assert(s.take(s.len() as int) =~= s);
    }
}

/// An absent text differs from every text, the empty one included, and two texts
/// that are there are compared by what they say.
pub proof fn an_absent_text_is_no_text(a: Option<String>, b: Option<String>)
    ensures
        text_option(a) == text_option(b) <==> (a is None && b is None) || (a is Some && b is Some
            && a->0@ == b->0@),
        text_option(a) is None <==> a is None,
        a matches Some(text) ==> text_option(a) == Some(text@),
{
}

/// The decimal rendering spells the number: it is made of digits, none of them a
/// leading zero, and read from the front, ten times what came before plus the
/// digit, it gives the number back.
pub proof fn decimal_spells_the_number(n: nat)
    ensures
        decimal(n).len() > 0,
        forall|i: int| 0 <= i < decimal(n).len() ==> '0' <= #[trigger] decimal(n)[i] <= '9',
        decimal(n).len() > 1 ==> decimal(n)[0] != '0',
        decimal(n).fold_left(0int, |value: int, digit: char| 10 * value + (digit as int - '0' as int))
            == n,
    decreases n,
{
    reveal_with_fuel(Seq::fold_left, 2);
    let read = |value: int, digit: char| 10 * value + (digit as int - '0' as int);
    if n < 10 {
        assert(digit_char(n) as int == '0' as int + n);
        assert(decimal(n).drop_last() =~= Seq::empty());
    } else {
        let head = decimal(n / 10);
        decimal_spells_the_number(n / 10);
        assert(digit_char(n % 10) as int == '0' as int + n % 10);
        assert(decimal(n).drop_last() =~= head);
        assert forall|i: int| 0 <= i < decimal(n).len() implies '0' <= #[trigger] decimal(n)[i]
            <= '9' by {
            if i < head.len() {
                assert(decimal(n)[i] == head[i]);
            }
        }
        if head.len() == 1 {
            assert(head[0] as int - '0' as int == n / 10) by {
                assert(head.drop_last() =~= Seq::empty());
            }
        }
    }
}

} // verus!
