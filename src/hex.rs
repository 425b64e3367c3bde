use vstd::prelude::*;

verus! {

/// Is `b` a hexadecimal digit, in either case?
pub open spec fn is_hex(b: u8) -> bool {
    (48 <= b <= 57) || (97 <= b <= 102) || (65 <= b <= 70)
}

/// The value of a hexadecimal digit.
pub open spec fn hex_val(b: u8) -> nat {
    if 48 <= b <= 57 {
        (b - 48) as nat
    } else if 97 <= b <= 102 {
        (b - 87) as nat
    } else {
        (b - 55) as nat
    }
}

/// The lowercase digit for `d < 16`.
pub open spec fn hex_char(d: nat) -> u8 {
    if d < 10 {
        (48 + d) as u8
    } else {
        (87 + d) as u8
    }
}

/// How many hexadecimal digits `s` starts with.
pub open spec fn hex_run(s: Seq<u8>) -> nat
    decreases s.len(),
{
    if s.len() > 0 && is_hex(s[0]) {
        1 + hex_run(s.skip(1))
    } else {
        0
    }
}

/// The number that the hexadecimal digits `s` spell, most significant first.
pub open spec fn hex_value(s: Seq<u8>) -> nat
    decreases s.len(),
{
    if s.len() == 0 {
        0
    } else {
        hex_value(s.drop_last()) * 16 + hex_val(s.last())
    }
}

/// `n` written in lowercase hexadecimal, without leading zeros.
pub open spec fn hex(n: nat) -> Seq<u8>
    decreases n,
{
    if n < 16 {
        seq![hex_char(n)]
    } else {
        hex(n / 16).push(hex_char(n % 16))
    }
}

pub open spec fn pow16(j: nat) -> nat
    decreases j,
{
    if j == 0 {
        1
    } else {
        16 * pow16((j - 1) as nat)
    }
}

/// A run of hex digits is cut short by a shorter prefix.
pub proof fn lemma_hex_run_take(s: Seq<u8>, j: int)
    requires
        0 <= j <= s.len(),
    ensures
        hex_run(s.take(j)) == if hex_run(s) < j { hex_run(s) } else { j as nat },
        hex_run(s) <= s.len(),
    decreases s.len(),
{
    if s.len() > 0 {
        lemma_hex_run_take(s.skip(1), if j > 0 { j - 1 } else { 0 });
        if j > 0 {
            assert(s.take(j).skip(1) =~= s.skip(1).take(j - 1));
        }
    }
}

/// The digits of `hex(n)` are hex digits, at most `j` of them when
/// `n < 16^j`, and they spell `n`.
pub proof fn lemma_hex(n: nat)
    ensures
        hex(n).len() >= 1,
        forall|i: int| 0 <= i < hex(n).len() ==> is_hex(#[trigger] hex(n)[i]),
        hex_value(hex(n)) == n,
        forall|j: nat| n < pow16(j) && j >= 1 ==> hex(n).len() <= j,
    decreases n,
{
    if n < 16 {
        let h = hex(n);
        assert(h.drop_last() =~= Seq::<u8>::empty());
        assert(hex_value(h.drop_last()) == 0);
        assert forall|j: nat| n < pow16(j) && j >= 1 implies hex(n).len() <= j by {}
    } else {
        lemma_hex((n / 16) as nat);
        let h = hex(n);
        assert(h.drop_last() =~= hex((n / 16) as nat));
        assert forall|j: nat| n < pow16(j) && j >= 1 implies hex(n).len() <= j by {
            if j == 1 {
                assert(pow16(1) == 16 * pow16(0));
            } else {
                assert(pow16(j) == 16 * pow16((j - 1) as nat));
                assert((n / 16) < pow16((j - 1) as nat)) by (nonlinear_arith)
                    requires
                        n < 16 * pow16((j - 1) as nat),
                ;
            }
        }
    }
}

/// A run of digits that ends at a non-digit is exactly that long.
pub proof fn lemma_hex_run_prefix(d: Seq<u8>, t: Seq<u8>)
    requires
        forall|i: int| 0 <= i < d.len() ==> is_hex(#[trigger] d[i]),
        t.len() > 0,
        !is_hex(t[0]),
    ensures
        hex_run(d + t) == d.len(),
    decreases d.len(),
{
    if d.len() > 0 {
        assert((d + t).skip(1) =~= d.skip(1) + t);
        lemma_hex_run_prefix(d.skip(1), t);
    } else {
        assert(d + t =~= t);
    }
}

/// Writes `hex(n)` after what `out` holds.
pub fn push_hex(out: &mut Vec<u8>, n: u64)
    ensures
        final(out)@ == old(out)@ + hex(n as nat),
    decreases n,
{
    if n >= 16 {
        push_hex(out, n / 16);
    }
    let d: u64 = n % 16;
    let c: u8 = if d < 10 {
        (48 + d) as u8
    } else {
        (87 + d) as u8
    };
    out.push(c);
    assert(out@ =~= old(out)@ + hex(n as nat)) by {
        if n >= 16 {
            assert(hex(n as nat) == hex((n / 16) as nat).push(hex_char((n % 16) as nat)));
        }
    }
}

/// `n` in decimal, without leading zeros.
pub open spec fn decimal(n: nat) -> Seq<u8>
    decreases n,
{
    if n < 10 {
        seq![(48 + n) as u8]
    } else {
        decimal(n / 10).push((48 + n % 10) as u8)
    }
}

/// Writes `decimal(n)` after what `out` holds.
pub fn push_decimal(out: &mut Vec<u8>, n: u64)
    ensures
        final(out)@ == old(out)@ + decimal(n as nat),
    decreases n,
{
    if n >= 10 {
        push_decimal(out, n / 10);
    }
    out.push((48 + n % 10) as u8);
    assert(out@ =~= old(out)@ + decimal(n as nat));
}

/// Sixteen hex digits make 2^64.
pub proof fn lemma_pow16_16()
    ensures
        pow16(16) == 0x1_0000_0000_0000_0000nat,
{
    reveal_with_fuel(pow16, 17);
}

} // verus!
