//! Finds port numbers in text that a terminal shows.

use vstd::prelude::*;
use vstd::string::*;

verus! {

pub open spec fn is_digit(b: u8) -> bool {
    48 <= b <= 57
}

/// The end of the run of digits that starts at `from`.
pub open spec fn digits_end(bytes: Seq<u8>, from: int) -> int
    decreases bytes.len() - from,
{
    if 0 <= from < bytes.len() && is_digit(bytes[from]) {
        digits_end(bytes, from + 1)
    } else {
        from
    }
}

/// The number that the digits from `from` up to `to` denote.
pub open spec fn digits_value(bytes: Seq<u8>, from: int, to: int) -> nat
    decreases to - from,
{
    if to <= from {
        0
    } else {
        digits_value(bytes, from, to - 1) * 10 + (bytes[to - 1] - 48) as nat
    }
}

/// The port that is written at `i`: a colon followed by one to five digits,
/// whose value is between 1 and 65535, and by no further digit.
pub open spec fn port_at(bytes: Seq<u8>, i: int) -> Option<u16> {
    if 0 <= i < bytes.len() && bytes[i] == 58 {
        let end = digits_end(bytes, i + 1);
        let value = digits_value(bytes, i + 1, end);
        if 1 <= end - (i + 1) <= 5 && 1 <= value <= 65535 {
            Some(value as u16)
        } else {
            None
        }
    } else {
        None
    }
}

/// The port is written somewhere before `upto`.
pub open spec fn port_before(bytes: Seq<u8>, upto: int, port: u16) -> bool {
    exists|k: int| 0 <= k < upto && #[trigger] port_at(bytes, k) == Some(port)
}

/// Each number is smaller than every later one.
pub open spec fn ascending(ports: Seq<u16>) -> bool {
    forall|i: int, j: int| 0 <= i < j < ports.len() ==> ports[i] < ports[j]
}

fn insert_port(ports: &mut Vec<u16>, port: u16)
    requires
        ascending(old(ports)@),
    ensures
        ascending(final(ports)@),
        forall|p: u16| #[trigger] final(ports)@.contains(p) <==> old(ports)@.contains(p) || p == port,
{
    let mut i: usize = 0;
    while i < ports.len() && ports[i] < port
        invariant
            i <= ports@.len(),
            ports@ == old(ports)@,
            forall|k: int| 0 <= k < i ==> ports@[k] < port,
        decreases ports@.len() - i,
    {
        i += 1;
    }
    let ghost before = ports@;
    if i < ports.len() && ports[i] == port {
        assert(before[i as int] == port);
        return ;
    }
    ports.insert(i, port);
    proof {
        let after = ports@;
        assert(after =~= before.insert(i as int, port));
        assert forall|a: int, b: int| 0 <= a < b < after.len() implies after[a] < after[b] by {
            let a0 = if a < i { a } else { a - 1 };
            let b0 = if b < i { b } else { b - 1 };
            if a != i && b != i {
                assert(before[a0] < before[b0]);
            } else if a == i {
                assert(after[b] == before[b - 1]);
                if b - 1 > i {
                    assert(before[i as int] < before[b - 1]);
                }
            }
        }
        assert forall|p: u16| #[trigger] after.contains(p) <==> before.contains(p) || p == port by {
            if after.contains(p) {
                let k = choose|k: int| 0 <= k < after.len() && after[k] == p;
                if k < i {
                    assert(before[k] == p);
                } else if k > i {
                    assert(before[k - 1] == p);
                }
            }
            if before.contains(p) {
                let k = choose|k: int| 0 <= k < before.len() && before[k] == p;
                let k1 = if k < i { k } else { k + 1 };
                assert(after[k1] == p);
            }
            if p == port {
                assert(after[i as int] == p);
            }
        }
    }
}

proof fn lemma_digits_end(bytes: Seq<u8>, from: int, to: int)
    requires
        0 <= from <= to <= bytes.len(),
        forall|k: int| from <= k < to ==> is_digit(#[trigger] bytes[k]),
    ensures
        digits_end(bytes, from) == digits_end(bytes, to),
    decreases to - from,
{
    if from < to {
        lemma_digits_end(bytes, from + 1, to);
    }
}

/// The ports that are written in a text, each once, in ascending order. A
/// port is a colon followed by one to five digits that give a number from 1
/// to 65535.
pub fn detect_ports_in_text(text: &str) -> (ports: Vec<u16>)
    ensures
        ascending(ports@),
        forall|p: u16|
            #[trigger] ports@.contains(p) <==> port_before(
                text.spec_bytes(),
                text.spec_bytes().len() as int,
                p,
            ),
{
    let bytes = text.as_bytes();
    let n = bytes.len();
    let mut ports: Vec<u16> = Vec::new();
    let mut i: usize = 0;
    while i < n
        invariant
            i <= n,
            n == bytes@.len(),
            ascending(ports@),
            forall|p: u16| #[trigger] ports@.contains(p) <==> port_before(bytes@, i as int, p),
        decreases n - i,
    {
        let ghost found = ports@;
        let ghost at = i as int;
        let mut next: usize = i + 1;
        if bytes[i] == 58 {
            let mut j: usize = i + 1;
            let mut value: u32 = 0;
            while j < n && bytes[j] >= 48 && bytes[j] <= 57 && j - (i + 1) < 5
                invariant
                    i + 1 <= j <= n,
                    n == bytes@.len(),
                    j - (i + 1) <= 5,
                    forall|k: int| i + 1 <= k < j ==> is_digit(#[trigger] bytes@[k]),
                    value == digits_value(bytes@, i + 1, j as int),
                    value <= 99999,
                    j - (i + 1) < 5 ==> value <= 9999,
                    j - (i + 1) < 4 ==> value <= 999,
                    j - (i + 1) < 3 ==> value <= 99,
                    j - (i + 1) < 2 ==> value <= 9,
                    j - (i + 1) < 1 ==> value == 0,
                decreases n - j,
            {
                value = value * 10 + (bytes[j] - 48) as u32;
                j += 1;
            }
            proof {
                lemma_digits_end(bytes@, i + 1, j as int);
            }
            let more = j < n && bytes[j] >= 48 && bytes[j] <= 57;
            if j > i + 1 && !more {
                assert(digits_end(bytes@, i + 1) == j);
                if value >= 1 && value <= 65535 {
                    insert_port(&mut ports, value as u16);
                }
                next = j;
            } else {
                proof {
                    if more {
                        lemma_digits_end(bytes@, i + 1, j + 1);
                        lemma_digits_end_grows(bytes@, j + 1);
                    }
                    assert(port_at(bytes@, at) is None);
                }
            }
        } else {
            assert(port_at(bytes@, at) is None);
        }
        proof {
            assert forall|k: int| at < k < next implies port_at(bytes@, k) is None by {
                assert(is_digit(bytes@[k]));
            }
            assert forall|p: u16| #[trigger] ports@.contains(p) <==> port_before(
                bytes@,
                next as int,
                p,
            ) by {
                if port_before(bytes@, next as int, p) {
                    let k = choose|k: int| 0 <= k < next && #[trigger] port_at(bytes@, k) == Some(p);
                    if k < at {
                        assert(port_before(bytes@, at, p));
                    }
                }
                if found.contains(p) {
                    assert(port_before(bytes@, at, p));
                    let k = choose|k: int| 0 <= k < at && #[trigger] port_at(bytes@, k) == Some(p);
                    assert(0 <= k < next && port_at(bytes@, k) == Some(p));
                }
                if port_at(bytes@, at) == Some(p) {
                    assert(0 <= at < next);
                }
            }
        }
        i = next;
    }
    ports
}

proof fn lemma_digits_end_grows(bytes: Seq<u8>, from: int)
    requires
        0 <= from <= bytes.len(),
    ensures
        digits_end(bytes, from) >= from,
    decreases bytes.len() - from,
{
    if from < bytes.len() && is_digit(bytes[from]) {
        lemma_digits_end_grows(bytes, from + 1);
    }
}

} // verus!
