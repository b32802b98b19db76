//! The byte-level JSON writing used by the canonical lease encoding.
use vstd::prelude::*;
use vstd::string::StringSliceAdditionalSpecFns;

verus! {

/// The lowercase hex digit byte for a nibble.
pub open spec fn nibble_digit(n: int) -> u8 {
    if n < 10 {
        (0x30 + n) as u8
    } else {
        (0x61 + n - 10) as u8
    }
}

/// How one byte of a string value is written inside a JSON string: quote
/// and backslash are backslash-escaped, control bytes become `\u00XX`
/// (lowercase hex), every other byte is copied.
pub open spec fn json_escaped(b: u8) -> Seq<u8> {
    if b == 0x22 {
        seq![0x5cu8, 0x22u8]
    } else if b == 0x5c {
        seq![0x5cu8, 0x5cu8]
    } else if b < 0x20 {
        seq![0x5cu8, 0x75u8, 0x30u8, 0x30u8, nibble_digit(b as int / 16), nibble_digit(b as int % 16)]
    } else {
        seq![b]
    }
}

/// The escaped bytes of a whole value.
pub open spec fn json_escape(s: Seq<u8>) -> Seq<u8>
    decreases s.len(),
{
    if s.len() == 0 {
        Seq::empty()
    } else {
        json_escape(s.drop_last()) + json_escaped(s.last())
    }
}

/// A JSON string literal holding the bytes `s`.
pub open spec fn json_string(s: Seq<u8>) -> Seq<u8> {
    seq![0x22u8] + json_escape(s) + seq![0x22u8]
}

/// The decimal digits of `n`, most significant first, without leading zeros.
pub open spec fn decimal(n: nat) -> Seq<u8>
    decreases n,
{
    if n < 10 {
        seq![(0x30 + n) as u8]
    } else {
        decimal(n / 10) + seq![(0x30 + n % 10) as u8]
    }
}

/// Append `bytes` to `out`.
pub fn push_bytes(out: &mut Vec<u8>, bytes: &[u8])
    ensures
        final(out)@ == old(out)@ + bytes@,
{
    let mut i: usize = 0;
    while i < bytes.len()
        invariant
            i <= bytes@.len(),
            out@ == old(out)@ + bytes@.subrange(0, i as int),
        decreases bytes@.len() - i,
    {
        out.push(bytes[i]);
        i = i + 1;
        assert(out@ =~= old(out)@ + bytes@.subrange(0, i as int));
    }
    assert(bytes@.subrange(0, bytes@.len() as int) =~= bytes@);
}

/// Append the UTF-8 bytes of `text`.
pub fn push_str(out: &mut Vec<u8>, text: &str)
    ensures
        final(out)@ == old(out)@ + text.spec_bytes(),
{
    push_bytes(out, text.as_bytes());
}

/// Append the decimal digits of `n`.
pub fn push_decimal(out: &mut Vec<u8>, n: u64)
    ensures
        final(out)@ == old(out)@ + decimal(n as nat),
    decreases n,
{
    if n >= 10 {
        push_decimal(out, n / 10);
    }
    out.push((0x30 + n % 10) as u8);
    assert(out@ =~= old(out)@ + decimal(n as nat));
}

fn push_escaped(out: &mut Vec<u8>, byte: u8)
    ensures
        final(out)@ == old(out)@ + json_escaped(byte),
{
    if byte == 0x22 {
        out.push(0x5c);
        out.push(0x22);
    } else if byte == 0x5c {
        out.push(0x5c);
        out.push(0x5c);
    } else if byte < 0x20 {
        out.push(0x5c);
        out.push(0x75);
        out.push(0x30);
        out.push(0x30);
        let high = byte / 16;
        let low = byte % 16;
        out.push(if high < 10 { 0x30 + high } else { 0x61 + high - 10 });
        out.push(if low < 10 { 0x30 + low } else { 0x61 + low - 10 });
    } else {
        out.push(byte);
    }
    assert(out@ =~= old(out)@ + json_escaped(byte));
}

/// Minimal JSON string writer: the signed fields are meant to be ASCII
/// identifiers, but quote, backslash and control bytes are escaped so that
/// no value can change the meaning of the signed bytes.
pub fn write_json_string(out: &mut Vec<u8>, value: &str)
    ensures
        final(out)@ == old(out)@ + json_string(value.spec_bytes()),
{
    let bytes = value.as_bytes();
    let ghost start = out@;
    out.push(0x22);
    let mut i: usize = 0;
    while i < bytes.len()
        invariant
            i <= bytes@.len(),
            out@ == start + seq![0x22u8] + json_escape(bytes@.subrange(0, i as int)),
        decreases bytes@.len() - i,
    {
        push_escaped(out, bytes[i]);
        proof {
            let next = bytes@.subrange(0, i + 1);
            assert(next.drop_last() =~= bytes@.subrange(0, i as int));
            assert(next.last() == bytes@[i as int]);
        }
        i = i + 1;
        assert(out@ =~= start + seq![0x22u8] + json_escape(bytes@.subrange(0, i as int)));
    }
    assert(bytes@.subrange(0, bytes@.len() as int) =~= bytes@);
    out.push(0x22);
    assert(out@ =~= start + json_string(value.spec_bytes()));
}

/// Write `"key":` followed by the JSON string of `value`.
pub fn write_string_field(out: &mut Vec<u8>, key: &str, value: &str)
    ensures
        final(out)@ == old(out)@ + seq![0x22u8] + key.spec_bytes() + seq![0x22u8, 0x3au8]
            + json_string(value.spec_bytes()),
{
    let ghost start = out@;
    out.push(0x22);
    push_str(out, key);
    out.push(0x22);
    out.push(0x3a);
    assert(out@ =~= start + seq![0x22u8] + key.spec_bytes() + seq![0x22u8, 0x3au8]);
    write_json_string(out, value);
}

/// Escaping a byte then a value is escaping their concatenation.
proof fn lemma_escape_front(c: u8, s: Seq<u8>)
    ensures
        json_escape(seq![c] + s) == json_escaped(c) + json_escape(s),
    decreases s.len(),
{
    let t = seq![c] + s;
    if s.len() == 0 {
        assert(t.drop_last() =~= Seq::<u8>::empty());
        assert(t.last() == c);
        assert(json_escape(t) == json_escape(t.drop_last()) + json_escaped(c));
        assert(json_escape(t.drop_last()) == Seq::<u8>::empty());
        assert(json_escaped(c) + json_escape(s) =~= json_escaped(c));
        assert(Seq::<u8>::empty() + json_escaped(c) =~= json_escaped(c));
    } else {
        lemma_escape_front(c, s.drop_last());
        assert(t.drop_last() =~= seq![c] + s.drop_last());
        assert(t.last() == s.last());
        assert(json_escape(t) == json_escape(t.drop_last()) + json_escaped(t.last()));
        assert(json_escape(s) == json_escape(s.drop_last()) + json_escaped(s.last()));
        assert(json_escaped(c) + json_escape(s.drop_last()) + json_escaped(s.last()) =~= json_escaped(c)
            + (json_escape(s.drop_last()) + json_escaped(s.last())));
    }
}

proof fn lemma_nibble_digit_injective(a: int, b: int)
    requires
        0 <= a < 16,
        0 <= b < 16,
        nibble_digit(a) == nibble_digit(b),
    ensures
        a == b,
{
}

/// One escaped byte is recognised from the front of the bytes it starts.
proof fn lemma_escaped_front(a: u8, b: u8, x: Seq<u8>, y: Seq<u8>)
    requires
        json_escaped(a) + x == json_escaped(b) + y,
    ensures
        a == b,
        x == y,
{
    let ea = json_escaped(a);
    let eb = json_escaped(b);
    let l = ea + x;
    assert(l[0] == ea[0] && l[0] == eb[0]);
    if ea.len() == 6 && eb.len() == 6 {
        assert(l[4] == ea[4] && l[4] == eb[4]);
        assert(l[5] == ea[5] && l[5] == eb[5]);
        lemma_nibble_digit_injective(a as int / 16, b as int / 16);
        lemma_nibble_digit_injective(a as int % 16, b as int % 16);
    } else if ea.len() >= 2 && eb.len() >= 2 {
        assert(l[1] == ea[1] && l[1] == eb[1]);
    }
    assert(a == b);
    assert(x =~= l.subrange(ea.len() as int, l.len() as int));
    assert(y =~= l.subrange(eb.len() as int, l.len() as int));
}

/// Escaped bytes never start with a quote.
proof fn lemma_escape_no_quote_start(s: Seq<u8>)
    requires
        s.len() > 0,
    ensures
        json_escape(s).len() > 0,
        json_escape(s)[0] != 0x22,
{
    lemma_escape_front(s[0], s.drop_first());
    assert(seq![s[0]] + s.drop_first() =~= s);
}

/// Escaped text read up to its closing quote gives back the value and the
/// bytes after it.
proof fn lemma_escape_unique(a: Seq<u8>, b: Seq<u8>, x: Seq<u8>, y: Seq<u8>)
    requires
        json_escape(a) + seq![0x22u8] + x == json_escape(b) + seq![0x22u8] + y,
    ensures
        a == b,
        x == y,
    decreases a.len() + b.len(),
{
    if a.len() == 0 && b.len() == 0 {
        assert(x =~= (json_escape(a) + seq![0x22u8] + x).subrange(1, x.len() as int + 1));
        assert(y =~= (json_escape(b) + seq![0x22u8] + y).subrange(1, y.len() as int + 1));
    } else if a.len() == 0 {
        lemma_escape_no_quote_start(b);
        assert((json_escape(a) + seq![0x22u8] + x)[0] == 0x22);
        assert((json_escape(b) + seq![0x22u8] + y)[0] == json_escape(b)[0]);
    } else if b.len() == 0 {
        lemma_escape_no_quote_start(a);
        assert((json_escape(b) + seq![0x22u8] + y)[0] == 0x22);
        assert((json_escape(a) + seq![0x22u8] + x)[0] == json_escape(a)[0]);
    } else {
        lemma_escape_front(a[0], a.drop_first());
        lemma_escape_front(b[0], b.drop_first());
        assert(seq![a[0]] + a.drop_first() =~= a);
        assert(seq![b[0]] + b.drop_first() =~= b);
        let ra = json_escape(a.drop_first()) + seq![0x22u8] + x;
        let rb = json_escape(b.drop_first()) + seq![0x22u8] + y;
        assert(json_escape(a) + seq![0x22u8] + x =~= json_escaped(a[0]) + ra);
        assert(json_escape(b) + seq![0x22u8] + y =~= json_escaped(b[0]) + rb);
        lemma_escaped_front(a[0], b[0], ra, rb);
        lemma_escape_unique(a.drop_first(), b.drop_first(), x, y);
        assert(a =~= seq![a[0]] + a.drop_first());
        assert(b =~= seq![b[0]] + b.drop_first());
    }
}

/// A JSON string literal is read back from the front: the value it holds
/// and the bytes after it are determined.
pub proof fn lemma_json_string_unique(a: Seq<u8>, b: Seq<u8>, x: Seq<u8>, y: Seq<u8>)
    requires
        json_string(a) + x == json_string(b) + y,
    ensures
        a == b,
        x == y,
{
    let l = json_string(a) + x;
    assert(json_escape(a) + seq![0x22u8] + x =~= l.subrange(1, l.len() as int));
    assert(json_escape(b) + seq![0x22u8] + y =~= (json_string(b) + y).subrange(1, l.len() as int));
    lemma_escape_unique(a, b, x, y);
}

/// Decimal digits are ASCII digits, at least one, one only below ten.
proof fn lemma_decimal_digits(n: nat)
    ensures
        decimal(n).len() >= 1,
        n < 10 <==> decimal(n).len() == 1,
        forall|i: int| 0 <= i < decimal(n).len() ==> 0x30 <= #[trigger] decimal(n)[i] <= 0x39,
    decreases n,
{
    if n >= 10 {
        lemma_decimal_digits(n / 10);
        assert(decimal(n).len() == decimal(n / 10).len() + 1);
        assert forall|i: int| 0 <= i < decimal(n).len() implies 0x30 <= #[trigger] decimal(n)[i] <= 0x39 by {
            if i < decimal(n / 10).len() {
                assert(decimal(n)[i] == decimal(n / 10)[i]);
            }
        }
    }
}

proof fn lemma_decimal_injective(n: nat, m: nat)
    requires
        decimal(n) == decimal(m),
    ensures
        n == m,
    decreases n,
{
    lemma_decimal_digits(n);
    lemma_decimal_digits(m);
    if n >= 10 {
        assert(m >= 10);
        assert(decimal(n / 10) =~= decimal(n).drop_last());
        assert(decimal(m / 10) =~= decimal(m).drop_last());
        lemma_decimal_injective(n / 10, m / 10);
        assert(decimal(n).last() == decimal(m).last());
        assert(decimal(n).last() == (0x30 + n % 10) as u8);
        assert(decimal(m).last() == (0x30 + m % 10) as u8);
        assert(((0x30 + n % 10) as u8) as int == 0x30 + n % 10);
        assert(((0x30 + m % 10) as u8) as int == 0x30 + m % 10);
        assert(n % 10 == m % 10);
        assert(n == 10 * (n / 10) + n % 10);
        assert(m == 10 * (m / 10) + m % 10);
    } else {
        assert(m < 10);
        assert(decimal(n)[0] == decimal(m)[0]);
        assert(decimal(n)[0] == (0x30 + n) as u8);
        assert(decimal(m)[0] == (0x30 + m) as u8);
        assert(((0x30 + n) as u8) as int == 0x30 + n);
        assert(((0x30 + m) as u8) as int == 0x30 + m);
    }
}

/// A decimal number followed by a non-digit is read back from the front.
pub proof fn lemma_decimal_unique(n: nat, m: nat, x: Seq<u8>, y: Seq<u8>)
    requires
        decimal(n) + x == decimal(m) + y,
        x.len() > 0,
        y.len() > 0,
        !(0x30 <= x[0] <= 0x39),
        !(0x30 <= y[0] <= 0x39),
    ensures
        n == m,
        x == y,
{
    lemma_decimal_digits(n);
    lemma_decimal_digits(m);
    let l = decimal(n) + x;
    let dn = decimal(n).len();
    let dm = decimal(m).len();
    if dn < dm {
        assert(l[dn as int] == x[0]);
        assert((decimal(m) + y)[dn as int] == decimal(m)[dn as int]);
    } else if dm < dn {
        assert((decimal(m) + y)[dm as int] == y[0]);
        assert(l[dm as int] == decimal(n)[dm as int]);
    }
    assert(decimal(n) =~= l.subrange(0, dn as int));
    assert(decimal(m) =~= (decimal(m) + y).subrange(0, dn as int));
    lemma_decimal_injective(n, m);
    assert(x =~= l.subrange(dn as int, l.len() as int));
    assert(y =~= (decimal(m) + y).subrange(dn as int, l.len() as int));
}

} // verus!
