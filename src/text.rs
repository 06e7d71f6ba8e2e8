use vstd::prelude::*;

verus! {

/// The decimal digits of `n` in ASCII, most significant first; `0` is "0".
pub open spec fn decimal(n: nat) -> Seq<u8>
    decreases n,
{
    if n < 10 {
        seq![(48 + n) as u8]
    } else {
        decimal(n / 10).push((48 + n % 10) as u8)
    }
}

/// Ten to the power `k`.
pub open spec fn pow10(k: nat) -> nat
    decreases k,
{
    if k == 0 {
        1
    } else {
        10 * pow10((k - 1) as nat)
    }
}

/// `n` in decimal, right-aligned in a field of `width` bytes whose leading
/// unused bytes are zero.
pub open spec fn right_aligned(n: nat, width: nat) -> Seq<u8> {
    Seq::new((width - decimal(n).len()) as nat, |_i: int| 0u8) + decimal(n)
}

/// `number` in decimal, right-aligned in five bytes; unused bytes are zero.
pub fn format_u16(number: u16) -> (r: [u8; 5])
    ensures
        r@ == right_aligned(number as nat, 5),
{
    let mut res: [u8; 5] = [0u8; 5];
    let mut num: u16 = number;
    let mut n: usize = 5;
    proof {
        reveal_with_fuel(pow10, 6);
    }
    loop
        invariant_except_break
            0 < n <= 5,
            n < 5 ==> num > 0,
            num < pow10(n as nat),
            decimal(number as nat) == decimal(num as nat) + res@.subrange(n as int, 5),
            forall|i: int| 0 <= i < n ==> res@[i] == 0,
        ensures
            res@ == right_aligned(number as nat, 5),
        decreases n,
    {
        let ghost before = num;
        n -= 1;
        res[n] = 0x30 + (num % 10) as u8;
        num /= 10;
        assert(pow10(n as nat + 1) == 10 * pow10(n as nat));
        assert(num < pow10(n as nat));
        assert(pow10(0) == 1);
        assert(res@.subrange(n as int, 5) =~= seq![res@[n as int]] + res@.subrange(n + 1, 5));
        if num == 0 {
            assert(res@.subrange(n as int, 5) == decimal(before as nat) + res@.subrange(n + 1, 5));
            assert(res@ =~= Seq::new(n as nat, |_i: int| 0u8) + res@.subrange(n as int, 5));
            break ;
        }
        assert(decimal(before as nat) == decimal(num as nat).push(res@[n as int]));
        assert(decimal(num as nat) + res@.subrange(n as int, 5) =~= decimal(before as nat)
            + res@.subrange(n + 1, 5));
    }
    res
}

/// `number` in decimal, right-aligned in ten bytes; unused bytes are zero.
pub fn format_u32(number: u32) -> (r: [u8; 10])
    ensures
        r@ == right_aligned(number as nat, 10),
{
    let mut res: [u8; 10] = [0u8; 10];
    let mut num: u32 = number;
    let mut n: usize = 10;
    proof {
        reveal_with_fuel(pow10, 11);
    }
    loop
        invariant_except_break
            0 < n <= 10,
            n < 10 ==> num > 0,
            num < pow10(n as nat),
            decimal(number as nat) == decimal(num as nat) + res@.subrange(n as int, 10),
            forall|i: int| 0 <= i < n ==> res@[i] == 0,
        ensures
            res@ == right_aligned(number as nat, 10),
        decreases n,
    {
        let ghost before = num;
        n -= 1;
        res[n] = 0x30 + (num % 10) as u8;
        num /= 10;
        assert(pow10(n as nat + 1) == 10 * pow10(n as nat));
        assert(num < pow10(n as nat));
        assert(pow10(0) == 1);
        assert(res@.subrange(n as int, 10) =~= seq![res@[n as int]] + res@.subrange(n + 1, 10));
        if num == 0 {
            assert(res@.subrange(n as int, 10) == decimal(before as nat) + res@.subrange(n + 1, 10));
            assert(res@ =~= Seq::new(n as nat, |_i: int| 0u8) + res@.subrange(n as int, 10));
            break ;
        }
        assert(decimal(before as nat) == decimal(num as nat).push(res@[n as int]));
        assert(decimal(num as nat) + res@.subrange(n as int, 10) =~= decimal(before as nat)
            + res@.subrange(n + 1, 10));
    }
    res
}

/// A byte with ASCII lower-case letters turned to upper case.
pub open spec fn upper_ascii(c: u8) -> u8 {
    if 0x61 <= c <= 0x7a {
        (c - 0x20) as u8
    } else {
        c
    }
}

/// Turns the ASCII lower-case letters of `buf` to upper case, in place.
pub fn make_upper_ascii(buf: &mut [u8])
    ensures
        final(buf)@.len() == old(buf)@.len(),
        forall|i: int| 0 <= i < old(buf)@.len() ==> #[trigger] final(buf)@[i] == upper_ascii(old(buf)@[i]),
{
    let mut i: usize = 0;
    while i < buf.len()
        invariant
            i <= buf@.len(),
            buf@.len() == old(buf)@.len(),
            forall|k: int| 0 <= k < i ==> #[trigger] buf@[k] == upper_ascii(old(buf)@[k]),
            forall|k: int| i <= k < buf@.len() ==> #[trigger] buf@[k] == old(buf)@[k],
        decreases buf@.len() - i,
    {
        let c = buf[i];
        if 0x61 <= c && c <= 0x7a {
            let u = c & !0x20u8;
            assert(0x61 <= c <= 0x7a ==> c & !0x20u8 == c - 0x20) by (bit_vector);
            buf[i] = u;
        }
        i += 1;
    }
}

} // verus!
