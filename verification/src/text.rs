//! Numbers as ASCII text, for reports over a serial line.
use vstd::prelude::*;

verus! {

/// The character of a decimal digit.
pub open spec fn digit(d: int) -> u8 {
    (48 + d) as u8
}

/// A number in decimal digits, without leading zeros.
pub open spec fn decimal(n: nat) -> Seq<u8>
    decreases n,
{
    if n < 10 {
        seq![digit(n as int)]
    } else {
        decimal(n / 10).push(digit((n % 10) as int))
    }
}

/// Ten to the power of `n`.
spec fn power10(n: nat) -> int
    decreases n,
{
    if n == 0 {
        1
    } else {
        10 * power10((n - 1) as nat)
    }
}

/// Appends a number in decimal.
pub fn write_dec(out: &mut Vec<u8>, value: u32)
    ensures
        final(out)@ == old(out)@ + decimal(value as nat),
{
    let mut buf: [u8; 10] = [0u8, 0, 0, 0, 0, 0, 0, 0, 0, 0];
    let mut i: usize = 9;
    let mut left: u32 = value / 10;
    buf[9] = 48 + (value % 10) as u8;
    proof {
        reveal_with_fuel(power10, 11);
        assert(buf@.skip(9) =~= seq![digit((value % 10) as int)]);
        if left > 0 {
            assert(decimal(left as nat) + buf@.skip(9) =~= decimal(value as nat));
        }
    }
    while left > 0
        invariant
            i <= 9,
            left < power10(i as nat),
            decimal(value as nat) == if left > 0 {
                decimal(left as nat) + buf@.skip(i as int)
            } else {
                buf@.skip(i as int)
            },
        decreases left,
    {
        let ghost before = buf@;
        let ghost at = i;
        let ghost n = left as nat;
        assert(i > 0);
        i = i - 1;
        buf[i] = 48 + (left % 10) as u8;
        left = left / 10;
        proof {
            let last = digit((n % 10) as int);
            assert(buf@.skip(i as int) =~= seq![last] + before.skip(at as int));
            if left > 0 {
                assert(decimal(n) =~= decimal(left as nat).push(last));
                assert(decimal(n) + before.skip(at as int) =~= decimal(left as nat) + buf@.skip(
                    i as int,
                ));
            } else {
                assert(decimal(n) =~= seq![last]);
            }
        }
    }
    append(out, &buf, i);
}

/// Appends the bytes of `buf` from `from` on.
fn append(out: &mut Vec<u8>, buf: &[u8; 10], from: usize)
    requires
        from <= 10,
    ensures
        final(out)@ == old(out)@ + buf@.skip(from as int),
{
    let mut i: usize = from;
    while i < 10
        invariant
            from <= i <= 10,
            out@ == old(out)@ + buf@.subrange(from as int, i as int),
        decreases 10 - i,
    {
        out.push(buf[i]);
        i = i + 1;
    }
    assert(buf@.subrange(from as int, 10) =~= buf@.skip(from as int));
}

/// Tenths as text: a sign where it is negative, the units, a point and one
/// digit.
pub open spec fn tenths(deci: int) -> Seq<u8> {
    let sign = if deci < 0 {
        seq![45u8]
    } else {
        Seq::empty()
    };
    let size = if deci < 0 {
        -deci
    } else {
        deci
    };
    sign + decimal((size / 10) as nat) + seq![46u8] + decimal((size % 10) as nat)
}

/// Appends a number of tenths, such as 273 as `27.3`.
pub fn write_deci(out: &mut Vec<u8>, deci: i16)
    ensures
        final(out)@ == old(out)@ + tenths(deci as int),
{
    let mut size: i32 = deci as i32;
    if size < 0 {
        out.push(45);
        size = -size;
    }
    let size: u32 = size as u32;
    write_dec(out, size / 10);
    out.push(46);
    write_dec(out, size % 10);
    assert(out@ =~= old(out)@ + tenths(deci as int));
}

/// The character of a hexadecimal digit.
pub open spec fn hex_digit(d: int) -> u8 {
    if d < 10 {
        (48 + d) as u8
    } else {
        (55 + d) as u8
    }
}

/// Bytes in hexadecimal, each followed by a space.
pub open spec fn hex(bytes: Seq<u8>) -> Seq<u8>
    decreases bytes.len(),
{
    if bytes.len() == 0 {
        Seq::empty()
    } else {
        let b = bytes.last() as int;
        hex(bytes.drop_last()) + seq![hex_digit(b / 16), hex_digit(b % 16), 32u8]
    }
}

/// Appends bytes in hexadecimal.
pub fn write_hex(out: &mut Vec<u8>, bytes: &[u8])
    ensures
        final(out)@ == old(out)@ + hex(bytes@),
{
    let mut i: usize = 0;
    while i < bytes.len()
        invariant
            i <= bytes@.len(),
            out@ == old(out)@ + hex(bytes@.take(i as int)),
        decreases bytes@.len() - i,
    {
        let ghost before = out@;
        let b: u8 = bytes[i];
        out.push(hex_char(b / 16));
        out.push(hex_char(b % 16));
        out.push(32);
        proof {
            assert(bytes@.take(i + 1).drop_last() =~= bytes@.take(i as int));
            assert(out@ =~= before + seq![
                hex_digit(b as int / 16),
                hex_digit(b as int % 16),
                32u8,
            ]);
            assert(out@ =~= old(out)@ + hex(bytes@.take(i + 1)));
        }
        i = i + 1;
    }
    assert(bytes@.take(i as int) =~= bytes@);
}

fn hex_char(d: u8) -> (r: u8)
    requires
        d < 16,
    ensures
        r == hex_digit(d as int),
{
    if d < 10 {
        48 + d
    } else {
        55 + d
    }
}

/// The number that decimal digits stand for.
pub open spec fn number(text: Seq<u8>) -> int
    decreases text.len(),
{
    if text.len() == 0 {
        0
    } else {
        10 * number(text.drop_last()) + text.last() - 48
    }
}

/// The digits of a number stand for that number, and they do not begin with a
/// zero unless the number is zero.
pub proof fn lemma_decimal_told(n: nat)
    ensures
        number(decimal(n)) == n,
        decimal(n).len() >= 1,
        n > 0 ==> decimal(n)[0] != 48,
    decreases n,
{
    reveal_with_fuel(number, 2);
    if n < 10 {
        assert(decimal(n).drop_last() =~= Seq::empty());
    } else {
        lemma_decimal_told(n / 10);
        assert(decimal(n).drop_last() =~= decimal(n / 10));
    }
}

/// The hexadecimal text tells the bytes.
pub proof fn lemma_hex_told(a: Seq<u8>, b: Seq<u8>)
    requires
        hex(a) == hex(b),
    ensures
        a == b,
    decreases a.len(),
{
    lemma_hex_length(a);
    lemma_hex_length(b);
    if a.len() > 0 {
        let x = hex(a);
        let y = hex(b);
        let n = x.len() as int;
        assert(x.take(n - 3) =~= hex(a.drop_last()));
        assert(y.take(n - 3) =~= hex(b.drop_last()));
        lemma_hex_told(a.drop_last(), b.drop_last());
        assert(x[n - 3] == y[n - 3] && x[n - 2] == y[n - 2]);
        let p = a.last() as int;
        let q = b.last() as int;
        assert(x[n - 3] == hex_digit(p / 16) && x[n - 2] == hex_digit(p % 16));
        assert(y[n - 3] == hex_digit(q / 16) && y[n - 2] == hex_digit(q % 16));
        assert(p == q);
        assert(a =~= a.drop_last().push(a.last()));
        assert(b =~= b.drop_last().push(b.last()));
    } else {
        assert(a =~= b);
    }
}

/// Three characters for each byte.
proof fn lemma_hex_length(bytes: Seq<u8>)
    ensures
        hex(bytes).len() == 3 * bytes.len(),
    decreases bytes.len(),
{
    if bytes.len() > 0 {
        lemma_hex_length(bytes.drop_last());
    }
}

/// The value of a hexadecimal digit, with letters in capitals.
pub open spec fn hex_value(c: u8) -> int {
    if c < 58 {
        c - 48
    } else {
        c - 65 + 10
    }
}

/// Hexadecimal text has two digits and a space for each byte, the high digit
/// first.
pub proof fn lemma_hex_digits(bytes: Seq<u8>, i: int)
    requires
        0 <= i < bytes.len(),
    ensures
        hex(bytes).len() == 3 * bytes.len(),
        16 * hex_value(hex(bytes)[3 * i]) + hex_value(hex(bytes)[3 * i + 1]) == bytes[i],
        hex(bytes)[3 * i + 2] == 32,
        48 <= hex(bytes)[3 * i] <= 57 || 65 <= hex(bytes)[3 * i] <= 70,
        48 <= hex(bytes)[3 * i + 1] <= 57 || 65 <= hex(bytes)[3 * i + 1] <= 70,
    decreases bytes.len(),
{
    lemma_hex_length(bytes);
    let front = bytes.drop_last();
    lemma_hex_length(front);
    if i < front.len() {
        lemma_hex_digits(front, i);
        assert(hex(bytes)[3 * i] == hex(front)[3 * i]);
        assert(hex(bytes)[3 * i + 1] == hex(front)[3 * i + 1]);
        assert(hex(bytes)[3 * i + 2] == hex(front)[3 * i + 2]);
    }
}

/// Tenths are a minus sign (45) if they are negative, the whole part, a point (46)
/// and one digit.
pub proof fn lemma_tenths_told(deci: int)
    ensures
        ({
            let text = tenths(deci);
            let size = if deci < 0 {
                -deci
            } else {
                deci
            };
            let from = if deci < 0 {
                1int
            } else {
                0
            };
            let point = text.len() - 2;
            &&& deci < 0 ==> text[0] == 45
            &&& point > from
            &&& text[point] == 46
            &&& 10 * number(text.subrange(from, point)) + (text[point + 1] - 48) == size
        }),
{
    let size = if deci < 0 {
        -deci
    } else {
        deci
    };
    let text = tenths(deci);
    let whole = decimal((size / 10) as nat);
    let from = if deci < 0 {
        1int
    } else {
        0
    };
    lemma_decimal_told((size / 10) as nat);
    assert(decimal((size % 10) as nat) =~= seq![digit(size % 10)]);
    assert(text.subrange(from, text.len() - 2) =~= whole);
}

} // verus!
