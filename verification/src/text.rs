//! Decimal notation of whole numbers.

use vstd::prelude::*;
use vstd::string::*;
use vstd::utf8::{encode_utf8, decode_utf8, encode_utf8_decode_utf8};
use crate::color::push_char;

verus! {

/// The character of a decimal digit.
pub open spec fn decimal_char(d: nat) -> char
    recommends
        d < 10,
{
    ((d + '0' as nat) as u8) as char
}

/// The decimal notation of `n`, without leading zeros.
pub open spec fn decimal_digits(n: nat) -> Seq<char>
    decreases n,
{
    if n < 10 {
        seq![decimal_char(n)]
    } else {
        decimal_digits(n / 10).push(decimal_char(n % 10))
    }
}

/// The number that a sequence of decimal digits denotes; leading zeros count
/// for nothing.
pub open spec fn decimal_value(s: Seq<char>) -> nat
    decreases s.len(),
{
    if s.len() == 0 {
        0
    } else {
        decimal_value(s.drop_last()) * 10 + (s.last() as nat - '0' as nat) as nat
    }
}

/// Every character is one of `0` to `9`.
pub open spec fn all_decimal(s: Seq<char>) -> bool {
    forall|i: int| 0 <= i < s.len() ==> '0' <= #[trigger] s[i] <= '9'
}

/// The notation of a number consists of digits and denotes that number.
pub proof fn lemma_decimal_round_trip(n: nat)
    ensures
        decimal_digits(n).len() >= 1,
        all_decimal(decimal_digits(n)),
        decimal_value(decimal_digits(n)) == n,
    decreases n,
{
    let s = decimal_digits(n);
    if n < 10 {
        assert(s.drop_last() =~= Seq::<char>::empty());
        assert(decimal_value(s.drop_last()) == 0);
    } else {
        lemma_decimal_round_trip(n / 10);
        assert(s.drop_last() =~= decimal_digits(n / 10));
    }
}

/// Appends the decimal notation of `n`.
pub fn append_decimal(s: &mut String, n: u64)
    ensures
        final(s)@ == old(s)@ + decimal_digits(n as nat),
    decreases n,
{
    if n >= 10 {
        append_decimal(s, n / 10);
    }
    let d: u8 = (n % 10) as u8;
    push_char(s, (d + 48) as char);
    assert(s@ =~= old(s)@ + decimal_digits(n as nat));
}


/// Lexicographic order of byte sequences: a proper prefix comes first.
pub open spec fn bytes_lt(a: Seq<u8>, b: Seq<u8>) -> bool
    decreases a.len(),
{
    if b.len() == 0 {
        false
    } else if a.len() == 0 {
        true
    } else if a[0] != b[0] {
        a[0] < b[0]
    } else {
        bytes_lt(a.drop_first(), b.drop_first())
    }
}

/// The order of texts: that of their UTF-8 bytes, which is the order of
/// `str`.
pub open spec fn text_lt(a: Seq<char>, b: Seq<char>) -> bool {
    bytes_lt(encode_utf8(a), encode_utf8(b))
}

pub proof fn lemma_bytes_lt_irreflexive(a: Seq<u8>)
    ensures
        !bytes_lt(a, a),
    decreases a.len(),
{
    if a.len() > 0 {
        lemma_bytes_lt_irreflexive(a.drop_first());
    }
}

pub proof fn lemma_bytes_lt_transitive(a: Seq<u8>, b: Seq<u8>, c: Seq<u8>)
    requires
        bytes_lt(a, b),
        bytes_lt(b, c),
    ensures
        bytes_lt(a, c),
    decreases a.len(),
{
    if a.len() > 0 && a[0] == b[0] && b[0] == c[0] {
        lemma_bytes_lt_transitive(a.drop_first(), b.drop_first(), c.drop_first());
    }
}

pub proof fn lemma_bytes_lt_total(a: Seq<u8>, b: Seq<u8>)
    ensures
        bytes_lt(a, b) || a == b || bytes_lt(b, a),
    decreases a.len(),
{
    if a.len() > 0 && b.len() > 0 && a[0] == b[0] {
        lemma_bytes_lt_total(a.drop_first(), b.drop_first());
        if a.drop_first() == b.drop_first() {
            assert(a =~= seq![a[0]] + a.drop_first());
            assert(b =~= seq![b[0]] + b.drop_first());
        }
    } else if a.len() == 0 && b.len() == 0 {
        assert(a =~= b);
    }
}

/// The order of texts is a strict total order.
pub proof fn lemma_text_order(a: Seq<char>, b: Seq<char>, c: Seq<char>)
    ensures
        !text_lt(a, a),
        text_lt(a, b) && text_lt(b, c) ==> text_lt(a, c),
        text_lt(a, b) || a == b || text_lt(b, a),
        !(text_lt(a, b) && text_lt(b, a)),
{
    lemma_bytes_lt_irreflexive(encode_utf8(a));
    if text_lt(a, b) && text_lt(b, c) {
        lemma_bytes_lt_transitive(encode_utf8(a), encode_utf8(b), encode_utf8(c));
    }
    lemma_bytes_lt_total(encode_utf8(a), encode_utf8(b));
    if encode_utf8(a) == encode_utf8(b) {
        encode_utf8_decode_utf8(a);
        encode_utf8_decode_utf8(b);
    }
    if text_lt(a, b) && text_lt(b, a) {
        lemma_bytes_lt_transitive(encode_utf8(a), encode_utf8(b), encode_utf8(a));
    }
}

proof fn lemma_bytes_lt_skip(a: Seq<u8>, b: Seq<u8>, i: int)
    requires
        0 <= i <= a.len(),
        i <= b.len(),
        forall|k: int| 0 <= k < i ==> a[k] == b[k],
    ensures
        bytes_lt(a, b) == bytes_lt(a.skip(i), b.skip(i)),
    decreases i,
{
    if i == 0 {
        assert(a.skip(0) =~= a);
        assert(b.skip(0) =~= b);
    } else {
        let a1 = a.drop_first();
        let b1 = b.drop_first();
        assert forall|k: int| 0 <= k < i - 1 implies a1[k] == b1[k] by {
            assert(a1[k] == a[k + 1] && b1[k] == b[k + 1]);
        }
        lemma_bytes_lt_skip(a1, b1, i - 1);
        assert(a1.skip(i - 1) =~= a.skip(i));
        assert(b1.skip(i - 1) =~= b.skip(i));
        assert(a[0] == b[0]);
    }
}

/// Whether `a` comes before `b` in the order of texts.
pub fn str_lt(a: &str, b: &str) -> (r: bool)
    ensures
        r == text_lt(a@, b@),
{
    let x = a.as_bytes();
    let y = b.as_bytes();
    let mut i: usize = 0;
    while i < x.len() && i < y.len() && x[i] == y[i]
        invariant
            i <= x@.len(),
            i <= y@.len(),
            forall|k: int| 0 <= k < i ==> x@[k] == y@[k],
        decreases x@.len() - i,
    {
        i += 1;
    }
    proof {
        lemma_bytes_lt_skip(x@, y@, i as int);
        let xs = x@.skip(i as int);
        let ys = y@.skip(i as int);
        if i < x@.len() && i < y@.len() {
            assert(xs[0] == x@[i as int] && ys[0] == y@[i as int]);
        }
    }
    if i >= y.len() {
        false
    } else if i >= x.len() {
        true
    } else {
        x[i] < y[i]
    }
}


/// Whether two texts are the same.
pub fn str_eq(a: &str, b: &str) -> (r: bool)
    ensures
        r == (a@ == b@),
{
    proof {
        lemma_text_order(a@, b@, a@);
    }
    !str_lt(a, b) && !str_lt(b, a)
}

/// The texts of a list of strings.
pub open spec fn texts(items: Seq<String>) -> Seq<Seq<char>> {
    items.map_values(|s: String| s@)
}

/// Each text comes before every later one: ascending, nothing twice.
pub open spec fn strictly_ascending(items: Seq<Seq<char>>) -> bool {
    forall|i: int, j: int| 0 <= i < j < items.len() ==> text_lt(#[trigger] items[i], #[trigger] items[j])
}

/// A copy of a list of strings.
pub fn clone_strings(items: &Vec<String>) -> (copy: Vec<String>)
    ensures
        texts(copy@) == texts(items@),
{
    let mut copy: Vec<String> = Vec::new();
    let mut i: usize = 0;
    while i < items.len()
        invariant
            i <= items@.len(),
            copy@.len() == i,
            forall|k: int| 0 <= k < i ==> (#[trigger] copy@[k])@ == items@[k]@,
        decreases items@.len() - i,
    {
        copy.push(items[i].clone());
        i += 1;
    }
    assert(texts(copy@) =~= texts(items@));
    copy
}

/// The number of strings of an ascending list that come before `x`.
fn ascending_position(items: &Vec<String>, x: &str) -> (i: usize)
    requires
        strictly_ascending(texts(items@)),
    ensures
        i <= items@.len(),
        forall|k: int| 0 <= k < i ==> text_lt(#[trigger] items@[k]@, x@),
        forall|k: int| i <= k < items@.len() ==> !text_lt(#[trigger] items@[k]@, x@),
{
    let mut i: usize = 0;
    while i < items.len() && str_lt(items[i].as_str(), x)
        invariant
            i <= items@.len(),
            forall|k: int| 0 <= k < i ==> text_lt(#[trigger] items@[k]@, x@),
        decreases items@.len() - i,
    {
        i += 1;
    }
    proof {
        assert forall|k: int| i <= k < items@.len() implies !text_lt(#[trigger] items@[k]@, x@) by {
            if k > i {
                assert(text_lt(texts(items@)[i as int], texts(items@)[k]));
                lemma_text_order(items@[i as int]@, items@[k]@, x@);
            }
        }
    }
    i
}

/// Whether an ascending list holds `x`.
pub fn ascending_contains(items: &Vec<String>, x: &str) -> (b: bool)
    requires
        strictly_ascending(texts(items@)),
    ensures
        b == texts(items@).contains(x@),
{
    let i = ascending_position(items, x);
    let found = i < items.len() && !str_lt(x, items[i].as_str());
    proof {
        let t = texts(items@);
        lemma_text_order(x@, x@, x@);
        if found {
            assert(!text_lt(items@[i as int]@, x@));
            lemma_text_order(x@, items@[i as int]@, x@);
            assert(t[i as int] == x@);
        } else if t.contains(x@) {
            let k = choose|k: int| 0 <= k < t.len() && t[k] == x@;
            assert(items@[k]@ == x@);
            if k > i {
                assert(text_lt(t[i as int], t[k]));
                assert(!text_lt(items@[i as int]@, x@));
            }
        }
    }
    found
}

/// Puts `x` in its place in an ascending list, unless the list holds it.
pub fn ascending_insert(items: &mut Vec<String>, x: String)
    requires
        strictly_ascending(texts(old(items)@)),
    ensures
        strictly_ascending(texts(final(items)@)),
        forall|t: Seq<char>|
            #[trigger] texts(final(items)@).contains(t) <==> texts(old(items)@).contains(t) || t == x@,
        texts(old(items)@).contains(x@) ==> texts(final(items)@) == texts(old(items)@),
{
    let i = ascending_position(items, x.as_str());
    let ghost before = texts(items@);
    if i < items.len() && !str_lt(x.as_str(), items[i].as_str()) {
        proof {
            lemma_text_order(x@, before[i as int], x@);
            assert(before[i as int] == x@);
        }
        return ;
    }
    items.insert(i, x);
    proof {
        let after = texts(items@);
        assert(after =~= before.insert(i as int, x@));
        assert forall|a: int, b: int| 0 <= a < b < after.len() implies text_lt(
            #[trigger] after[a],
            #[trigger] after[b],
        ) by {
            if b == i {
                assert(after[a] == old(items)@[a]@);
            } else if a == i {
                assert(after[b] == before[b - 1]);
                assert(!text_lt(old(items)@[b - 1]@, x@));
                lemma_text_order(x@, before[i as int], before[b - 1]);
                if b - 1 > i {
                    assert(text_lt(before[i as int], before[b - 1]));
                    assert(!text_lt(old(items)@[i as int]@, x@));
                    lemma_text_order(before[i as int], x@, before[i as int]);
                }
                lemma_text_order(before[b - 1], x@, before[b - 1]);
            } else {
                let a0 = if a < i { a } else { a - 1 };
                let b0 = if b < i { b } else { b - 1 };
                assert(text_lt(before[a0], before[b0]));
            }
        }
        assert forall|t: Seq<char>| #[trigger] after.contains(t) <==> before.contains(t) || t == x@ by {
            if after.contains(t) {
                let k = choose|k: int| 0 <= k < after.len() && after[k] == t;
                if k < i {
                    assert(before[k] == t);
                } else if k > i {
                    assert(before[k - 1] == t);
                }
            }
            if before.contains(t) {
                let k = choose|k: int| 0 <= k < before.len() && before[k] == t;
                let k1 = if k < i { k } else { k + 1 };
                assert(after[k1] == t);
            }
            if t == x@ {
                assert(after[i as int] == t);
            }
        }
        if before.contains(x@) {
            let k = choose|k: int| 0 <= k < before.len() && before[k] == x@;
            lemma_text_order(x@, x@, x@);
            assert(old(items)@[k]@ == x@);
            if k > i {
                assert(text_lt(before[i as int], before[k]));
            }
        }
    }
}

/// Takes `x` out of an ascending list, if the list holds it.
pub fn ascending_remove(items: &mut Vec<String>, x: &str)
    requires
        strictly_ascending(texts(old(items)@)),
    ensures
        strictly_ascending(texts(final(items)@)),
        forall|t: Seq<char>|
            #[trigger] texts(final(items)@).contains(t) <==> texts(old(items)@).contains(t) && t != x@,
        !texts(old(items)@).contains(x@) ==> texts(final(items)@) == texts(old(items)@),
{
    let i = ascending_position(items, x);
    let ghost before = texts(items@);
    if i < items.len() && !str_lt(x, items[i].as_str()) {
        proof {
            lemma_text_order(x@, before[i as int], x@);
            assert(before[i as int] == x@);
        }
        let _ = items.remove(i);
        proof {
            let after = texts(items@);
            assert(after =~= before.remove(i as int));
            assert forall|a: int, b: int| 0 <= a < b < after.len() implies text_lt(
                #[trigger] after[a],
                #[trigger] after[b],
            ) by {
                let a0 = if a < i { a } else { a + 1 };
                let b0 = if b < i { b } else { b + 1 };
                assert(text_lt(before[a0], before[b0]));
            }
            assert forall|t: Seq<char>| #[trigger] after.contains(t) <==> before.contains(t) && t
                != x@ by {
                if after.contains(t) {
                    let k = choose|k: int| 0 <= k < after.len() && after[k] == t;
                    let k0 = if k < i { k } else { k + 1 };
                    assert(before[k0] == t);
                    lemma_text_order(x@, x@, x@);
                    if k0 < i {
                        assert(text_lt(before[k0], before[i as int]));
                    } else {
                        assert(text_lt(before[i as int], before[k0]));
                    }
                }
                if before.contains(t) && t != x@ {
                    let k = choose|k: int| 0 <= k < before.len() && before[k] == t;
                    let k1 = if k < i { k } else { k - 1 };
                    assert(after[k1] == t);
                }
            }
        }
    } else {
        proof {
            if before.contains(x@) {
                let k = choose|k: int| 0 <= k < before.len() && before[k] == x@;
                lemma_text_order(x@, x@, x@);
                assert(old(items)@[k]@ == x@);
                if i < before.len() {
                    lemma_text_order(x@, before[i as int], x@);
                    if k > i {
                        assert(text_lt(before[i as int], before[k]));
                        lemma_text_order(x@, before[i as int], before[k]);
                    }
                }
            }
        }
    }
}


/// Whether a character is white space as Unicode has it.
pub uninterp spec fn whitespace(c: char) -> bool;

/// `char::is_whitespace` of the standard library.
#[verifier::external_body]
pub(crate) fn is_whitespace(c: char) -> (b: bool)
    ensures
        b == whitespace(c),
{
    c.is_whitespace()
}

} // verus!
