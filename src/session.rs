use vstd::prelude::*;
use vstd::string::StringSliceAdditionalSpecFns;

verus! {

/// Whether a byte is an ASCII decimal digit.
pub open spec fn is_digit(b: u8) -> bool {
    48 <= b <= 57
}

/// The number that a run of decimal digits writes.
pub open spec fn decimal_value(s: Seq<u8>) -> nat
    decreases s.len(),
{
    if s.len() == 0 {
        0
    } else {
        decimal_value(s.drop_last()) * 10 + (s.last() - 48) as nat
    }
}

/// The digits of a token, after one optional leading `+`.
pub open spec fn unsigned_part(s: Seq<u8>) -> Seq<u8> {
    if s.len() > 0 && s[0] == 43 {
        s.drop_first()
    } else {
        s
    }
}

/// The user identifier that a session token holds: one or more decimal
/// digits, after an optional `+`, whose value fits in 64 bits.
pub open spec fn decoded_id(s: Seq<u8>) -> Option<u64> {
    let d = unsigned_part(s);
    if d.len() > 0 && (forall|i: int| 0 <= i < d.len() ==> #[trigger] is_digit(d[i]))
        && decimal_value(d) <= u64::MAX {
        Some(decimal_value(d) as u64)
    } else {
        None
    }
}

proof fn lemma_prefix_value_le(s: Seq<u8>, j: int)
    requires
        0 <= j <= s.len(),
        forall|i: int| 0 <= i < s.len() ==> #[trigger] is_digit(s[i]),
    ensures
        decimal_value(s.subrange(0, j)) <= decimal_value(s),
    decreases s.len(),
{
    if j < s.len() {
        let t = s.drop_last();
        assert(t.subrange(0, j) =~= s.subrange(0, j));
        assert forall|i: int| 0 <= i < t.len() implies #[trigger] is_digit(t[i]) by {
            assert(t[i] == s[i]);
        }
        lemma_prefix_value_le(t, j);
    } else {
        assert(s.subrange(0, j) =~= s);
    }
}

/// Decodes the user identifier that a session token carries; `None` where the
/// token does not hold one.
pub fn decode_session(token: &str) -> (r: Option<u64>)
    ensures
        r == decoded_id(token.spec_bytes()),
{
    let b = token.as_bytes();
    let ghost s = b@;
    let start: usize = if b.len() > 0 && b[0] == 43 {
        1
    } else {
        0
    };
    let ghost d = unsigned_part(s);
    assert(d =~= s.subrange(start as int, s.len() as int));
    if start == b.len() {
        return None;
    }
    let mut acc: u64 = 0;
    let mut i: usize = start;
    while i < b.len()
        invariant
            b@ == s,
            d == s.subrange(start as int, s.len() as int),
            d == unsigned_part(s),
            s == token.spec_bytes(),
            start <= i <= s.len(),
            forall|j: int| 0 <= j < i - start ==> #[trigger] is_digit(d[j]),
            acc == decimal_value(d.subrange(0, i - start)),
        decreases s.len() - i,
    {
        let c = b[i];
        if c < 48 || c > 57 {
            assert(!is_digit(d[i - start]));
            return None;
        }
        let digit: u64 = (c - 48) as u64;
        let ghost k = i - start;
        proof {
            assert(d.subrange(0, k + 1).drop_last() =~= d.subrange(0, k));
        }
        if acc > 1844674407370955161 || (acc == 1844674407370955161 && digit > 5) {
            proof {
                assert(decimal_value(d.subrange(0, k + 1)) > u64::MAX);
                if forall|j: int| 0 <= j < d.len() ==> #[trigger] is_digit(d[j]) {
                    lemma_prefix_value_le(d, k + 1);
                }
            }
            return None;
        }
        acc = acc * 10 + digit;
        i = i + 1;
    }
    assert(d.subrange(0, d.len() as int) =~= d);
    Some(acc)
}

} // verus!
