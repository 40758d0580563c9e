//! The vocabulary of USB packets, and the two checksums that guard them.
use vstd::prelude::*;

verus! {

#[derive(Debug, Copy, Clone, PartialEq, Eq, Structural)]
pub enum TokenType {
    Setup,
    Out,
    In,
    Ping,
}

#[derive(Debug, Clone, Copy, PartialEq, Eq, Structural)]
pub struct Token {
    pub token_type: TokenType,
    pub address: u8,
    pub endpoint: u8,
}

#[derive(Debug, Clone, Copy, PartialEq, Eq, Structural)]
pub enum DataPID {
    Data0,
    Data1,
    Data2,
    MData,
}

#[derive(Debug, Clone, PartialEq, Eq)]
pub struct Data {
    pub pid: DataPID,
    pub payload: Vec<u8>,
}

/// What a data packet is, apart from where its bytes are stored.
pub struct DataView {
    pub pid: DataPID,
    pub payload: Seq<u8>,
}

impl View for Data {
    type V = DataView;

    open spec fn view(&self) -> DataView {
        DataView { pid: self.pid, payload: self.payload@ }
    }
}

#[derive(Debug, Clone, Copy, PartialEq, Eq, Structural)]
pub enum HandShake {
    Ack,
    NAck,
    Stall,
    NYet,
    /// The split-transaction error handshake (`ERR`).
    Error,
}

/// One step of the 5-bit checksum: the register after the lowest bit of `b` went in.
pub open spec fn crc5_step(acc: u8, b: u8) -> u8 {
    let shifted = acc << 1;
    if (b & 1) != ((acc >> 4) & 1) {
        (shifted ^ 5) & 0x1F
    } else {
        shifted & 0x1F
    }
}

/// The 5-bit register after the `n` lowest bits of `b` went in, lowest first.
pub open spec fn crc5_bits(acc: u8, b: u8, n: nat) -> u8
    decreases n,
{
    if n == 0 {
        acc
    } else {
        crc5_bits(crc5_step(acc, b), b >> 1, (n - 1) as nat)
    }
}

/// The 5-bit checksum register after all of `v` went in: polynomial `0x05`,
/// starting from `0x1F`, each byte lowest bit first.
pub open spec fn crc5_spec(v: Seq<u8>) -> u8
    decreases v.len(),
{
    if v.len() == 0 {
        0x1F
    } else {
        crc5_bits(crc5_spec(v.drop_last()), v.last(), 8)
    }
}

/// One step of the 16-bit checksum: the register after the lowest bit of `b` went in.
pub open spec fn crc16_step(acc: u16, b: u8) -> u16 {
    let shifted = acc << 1;
    if (b as u16 & 1) != ((acc >> 15) & 1) {
        shifted ^ 0x8005
    } else {
        shifted
    }
}

/// The 16-bit register after the `n` lowest bits of `b` went in, lowest first.
pub open spec fn crc16_bits(acc: u16, b: u8, n: nat) -> u16
    decreases n,
{
    if n == 0 {
        acc
    } else {
        crc16_bits(crc16_step(acc, b), b >> 1, (n - 1) as nat)
    }
}

/// The 16-bit checksum register after all of `v` went in: polynomial `0x8005`,
/// starting from `0xFFFF`, each byte lowest bit first, nothing flipped at the end.
pub open spec fn crc16_spec(v: Seq<u8>) -> u16
    decreases v.len(),
{
    if v.len() == 0 {
        0xFFFF
    } else {
        crc16_bits(crc16_spec(v.drop_last()), v.last(), 8)
    }
}

/// The 5-bit checksum of a token's two bytes. A token that arrived intact,
/// checksum included, leaves `0x0C`.
pub fn crc5(v: &[u8]) -> (acc: u8)
    ensures
        acc == crc5_spec(v@),
{
    let mut acc: u8 = 0x1F;
    let mut i: usize = 0;
    while i < v.len()
        invariant
            i <= v.len(),
            acc == crc5_spec(v@.take(i as int)),
        decreases v.len() - i,
    {
        let first: u8 = v[i];
        let mut b: u8 = first;
        let ghost start: u8 = acc;
        let mut k: u8 = 0;
        while k < 8
            invariant
                k <= 8,
                crc5_bits(acc, b, (8 - k) as nat) == crc5_bits(start, first, 8),
            decreases 8 - k,
        {
            let do_xor: bool = (b & 1) != ((acc >> 4) & 1);
            acc = acc << 1;
            if do_xor {
                acc = acc ^ 5;
            }
            acc = acc & 0x1F;
            b = b >> 1;
            k = k + 1;
        }
        proof {
            assert(v@.take(i + 1).drop_last() =~= v@.take(i as int));
        }
        i = i + 1;
    }
    proof {
        assert(v@.take(v.len() as int) =~= v@);
    }
    acc
}

/// The 16-bit checksum of a data packet's bytes. A payload followed by its
/// own checksum field leaves `0x800D`.
pub fn crc16(v: &[u8]) -> (acc: u16)
    ensures
        acc == crc16_spec(v@),
{
    let mut acc: u16 = 0xFFFF;
    let mut i: usize = 0;
    while i < v.len()
        invariant
            i <= v.len(),
            acc == crc16_spec(v@.take(i as int)),
        decreases v.len() - i,
    {
        let first: u8 = v[i];
        let mut b: u8 = first;
        let ghost start: u16 = acc;
        let mut k: u8 = 0;
        while k < 8
            invariant
                k <= 8,
                crc16_bits(acc, b, (8 - k) as nat) == crc16_bits(start, first, 8),
            decreases 8 - k,
        {
            let do_xor: bool = (b as u16 & 1) != ((acc >> 15) & 1);
            acc = acc << 1;
            if do_xor {
                acc = acc ^ 0x8005;
            }
            b = b >> 1;
            k = k + 1;
        }
        proof {
            assert(v@.take(i + 1).drop_last() =~= v@.take(i as int));
        }
        i = i + 1;
    }
    proof {
        assert(v@.take(v.len() as int) =~= v@);
    }
    acc
}

/// The 16-bit register after the four lowest bits of `b` went in.
pub open spec fn crc16_four(acc: u16, b: u8) -> u16 {
    crc16_step(crc16_step(crc16_step(crc16_step(acc, b), b >> 1), (b >> 1) >> 1), ((b >> 1) >> 1) >> 1)
}

/// The bits of a 16-bit value in the opposite order.
pub open spec fn reversed16(x: u16) -> u16 {
    ((x & 0x0001) << 15) | ((x & 0x0002) << 13) | ((x & 0x0004) << 11) | ((x & 0x0008) << 9) | ((x
        & 0x0010) << 7) | ((x & 0x0020) << 5) | ((x & 0x0040) << 3) | ((x & 0x0080) << 1) | ((x
        & 0x0100) >> 1) | ((x & 0x0200) >> 3) | ((x & 0x0400) >> 5) | ((x & 0x0800) >> 7) | ((x
        & 0x1000) >> 9) | ((x & 0x2000) >> 11) | ((x & 0x4000) >> 13) | ((x & 0x8000) >> 15)
}

/// The checksum field that a sender puts behind a payload whose checksum
/// register is `register`: the register with every bit flipped, its highest
/// bit sent first.
pub open spec fn crc16_field(register: u16) -> u16 {
    reversed16(!register)
}

/// The two bytes of the checksum field, in the order in which they are sent.
pub open spec fn crc16_field_bytes(register: u16) -> (u8, u8) {
    ((crc16_field(register) & 0xFF) as u8, (crc16_field(register) >> 8) as u8)
}

/// The residual of the 16-bit checksum: whatever the register holds, the
/// two bytes of the checksum field made of it bring the register to `0x800D`.
pub proof fn lemma_crc16_residual(register: u16)
    ensures
        crc16_bits(
            crc16_bits(register, crc16_field_bytes(register).0, 8),
            crc16_field_bytes(register).1,
            8,
        ) == 0x800D,
{
    let s = register;
    let lo = crc16_field_bytes(s).0;
    let hi = crc16_field_bytes(s).1;
    let lo4 = (((lo >> 1) >> 1) >> 1) >> 1;
    let hi4 = (((hi >> 1) >> 1) >> 1) >> 1;
    let a4 = crc16_four(s, lo);
    let a8 = crc16_four(a4, lo4);
    let a12 = crc16_four(a8, hi);
    let a16 = crc16_four(a12, hi4);
    assert(crc16_bits(s, lo, 8) == a8) by {
        reveal_with_fuel(crc16_bits, 9);
    }
    assert(crc16_bits(a8, hi, 8) == a16) by {
        reveal_with_fuel(crc16_bits, 9);
    }
    assert(crc16_four(s, (reversed16(!s) & 0xFF) as u8) == (s << 4) ^ 0x22) by (bit_vector);
    assert(crc16_four(
        (s << 4) ^ 0x22,
        (((((reversed16(!s) & 0xFF) as u8) >> 1) >> 1) >> 1) >> 1,
    ) == (s << 8) ^ 0x202) by (bit_vector);
    assert(crc16_four((s << 8) ^ 0x202, (reversed16(!s) >> 8) as u8) == (s << 12) ^ 0x2002)
        by (bit_vector);
    assert(crc16_four(
        (s << 12) ^ 0x2002,
        (((((reversed16(!s) >> 8) as u8) >> 1) >> 1) >> 1) >> 1,
    ) == 0x800D) by (bit_vector);
}

/// A payload followed by the two bytes of its checksum field leaves
/// `0x800D` in the 16-bit checksum, whatever the payload is.
pub proof fn lemma_crc16_of_valid_data(payload: Seq<u8>)
    ensures
        ({
            let field = crc16_field_bytes(crc16_spec(payload));
            crc16_spec(payload + seq![field.0, field.1]) == 0x800D
        }),
{
    let field = crc16_field_bytes(crc16_spec(payload));
    let one = payload.push(field.0);
    let two = payload + seq![field.0, field.1];
    assert(two.drop_last() =~= one);
    assert(one.drop_last() =~= payload);
    assert(two.last() == field.1 && one.last() == field.0);
    assert(crc16_spec(one) == crc16_bits(crc16_spec(payload), field.0, 8));
    assert(crc16_spec(two) == crc16_bits(crc16_spec(one), field.1, 8));
    lemma_crc16_residual(crc16_spec(payload));
}

/// The 5-bit register after the three lowest bits of `b` went in.
pub open spec fn crc5_three(acc: u8, b: u8) -> u8 {
    crc5_step(crc5_step(crc5_step(acc, b), b >> 1), (b >> 1) >> 1)
}

/// The 5-bit register after the five lowest bits of `b` went in.
pub open spec fn crc5_five(acc: u8, b: u8) -> u8 {
    crc5_step(
        crc5_step(crc5_three(acc, b), ((b >> 1) >> 1) >> 1),
        (((b >> 1) >> 1) >> 1) >> 1,
    )
}

/// The five lowest bits of a value in the opposite order.
pub open spec fn reversed5(x: u8) -> u8 {
    ((x & 0x01) << 4) | ((x & 0x02) << 2) | (x & 0x04) | ((x & 0x08) >> 2) | ((x & 0x10) >> 4)
}

/// The checksum field of a token whose eleven bits of address and endpoint
/// are the byte `lsb` and the three lowest bits of `high`: the register
/// after those bits with every bit flipped, its highest bit sent first.
pub open spec fn crc5_field(lsb: u8, high: u8) -> u8 {
    reversed5(!crc5_three(crc5_bits(0x1F, lsb, 8), high) & 0x1F)
}

/// The second field byte of a token: the three highest bits of address and
/// endpoint below the checksum field.
pub open spec fn token_high_byte(lsb: u8, high: u8) -> u8 {
    (high & 0x07) | (crc5_field(lsb, high) << 3)
}

/// The two field bytes of a token, the second with the checksum field, leave
/// `0x0C` in the 5-bit checksum, whatever address and endpoint they hold.
pub proof fn lemma_crc5_of_valid_token(lsb: u8, high: u8)
    ensures
        crc5_spec(seq![lsb, token_high_byte(lsb, high)]) == 0x0C,
        token_high_byte(lsb, high) & 0x07 == high & 0x07,
{
    let a = crc5_bits(0x1F, lsb, 8);
    let r = crc5_three(a, high);
    let f = reversed5(!r & 0x1F);
    let msb = (high & 0x07) | (f << 3);
    assert(msb == token_high_byte(lsb, high));
    let two = seq![lsb, msb];
    let one = seq![lsb];
    assert(two.drop_last() =~= one);
    assert(one.drop_last() =~= Seq::<u8>::empty());
    assert(two.last() == msb && one.last() == lsb);
    assert(crc5_spec(Seq::<u8>::empty()) == 0x1F);
    assert(crc5_spec(one) == crc5_bits(crc5_spec(one.drop_last()), lsb, 8));
    assert(crc5_spec(two) == crc5_bits(crc5_spec(one), msb, 8));
    assert(crc5_spec(two) == crc5_bits(a, msb, 8));
    let rest = ((msb >> 1) >> 1) >> 1;
    assert(crc5_bits(a, msb, 8) == crc5_five(crc5_three(a, msb), rest)) by {
        reveal_with_fuel(crc5_bits, 9);
    }
    assert(crc5_three(a, (high & 0x07) | (f << 3)) == crc5_three(a, high)) by (bit_vector);
    assert(crc5_three(a, high) < 32) by (bit_vector);
    assert(reversed5(!r & 0x1F) < 32) by (bit_vector);
    assert(crc5_five(r, ((((high & 0x07) | (f << 3)) >> 1) >> 1) >> 1) == crc5_five(r, f))
        by (bit_vector)
        requires
            f < 32,
    ;
    assert(crc5_five(r, reversed5(!r & 0x1F)) == 0x0C) by (bit_vector)
        requires
            r < 32,
    ;
    assert(((high & 0x07) | (f << 3)) & 0x07 == high & 0x07) by (bit_vector);
}

/// What is left of a byte after its four lowest bits went into a register.
pub open spec fn upper_bits(b: u8) -> u8 {
    (((b >> 1) >> 1) >> 1) >> 1
}

/// Four bits go into the register in a way that respects differences: the
/// difference of two outcomes is the outcome of the differences.
pub proof fn lemma_four_linear(x: u16, y: u16, a: u8, b: u8)
    by (bit_vector)
    ensures
        crc16_four(x, a) ^ crc16_four(y, b) == crc16_four(x ^ y, a ^ b),
        upper_bits(a) ^ upper_bits(b) == upper_bits(a ^ b),
{
}

/// Where four bits leave the register with its lowest bits clear, the
/// polynomial was never added: the register was only shifted. So the bits
/// that are clear after it were clear four places lower before it, and a
/// register that held nothing took in nothing.
pub proof fn lemma_four_back(acc: u16, b: u8)
    by (bit_vector)
    ensures
        crc16_four(acc, b) == 0 ==> acc & 0x0FFF == 0,
        crc16_four(acc, b) & 0x0FFF == 0 ==> acc & 0x00FF == 0,
        crc16_four(acc, b) & 0x00FF == 0 ==> acc & 0x000F == 0,
        acc == 0 && crc16_four(acc, b) & 0x000F == 0 ==> crc16_four(acc, b) == 0 && b & 0xF == 0,
        crc16_four(acc, b) & 0x0FFF == 0 ==> crc16_four(acc, b) & 0x000F == 0,
        crc16_four(acc, b) & 0x00FF == 0 ==> crc16_four(acc, b) & 0x000F == 0,
        crc16_four(acc, b) == 0 ==> crc16_four(acc, b) & 0x000F == 0,
{
}

/// Two bytes that leave a register that held nothing with nothing are nothing.
pub proof fn lemma_two_bytes_of_nothing(a: u8, b: u8)
    requires
        crc16_four(
            crc16_four(crc16_four(crc16_four(0, a), upper_bits(a)), b),
            upper_bits(b),
        ) == 0,
    ensures
        a == 0,
        b == 0,
{
    let t1 = crc16_four(0, a);
    let t2 = crc16_four(t1, upper_bits(a));
    let t3 = crc16_four(t2, b);
    lemma_four_back(t3, upper_bits(b));
    lemma_four_back(t2, b);
    lemma_four_back(t1, upper_bits(a));
    lemma_four_back(0, a);
    assert(t1 == 0);
    assert(t2 == 0);
    assert(t3 == 0);
    assert(a == 0 && b == 0) by (bit_vector)
        requires
            a & 0xF == 0,
            upper_bits(a) & 0xF == 0,
            b & 0xF == 0,
            upper_bits(b) & 0xF == 0,
    ;
}

/// Only the checksum field brings a register to the residual: two bytes
/// that bring it to `0x800D` are the two bytes of the checksum field.
pub proof fn lemma_crc16_residual_unique(register: u16, a: u8, b: u8)
    requires
        crc16_bits(crc16_bits(register, a, 8), b, 8) == 0x800D,
    ensures
        (a, b) == crc16_field_bytes(register),
{
    let s = register;
    let lo = crc16_field_bytes(s).0;
    let hi = crc16_field_bytes(s).1;
    lemma_crc16_residual(s);
    let r1 = crc16_four(s, a);
    let r2 = crc16_four(r1, upper_bits(a));
    let r3 = crc16_four(r2, b);
    let r4 = crc16_four(r3, upper_bits(b));
    let q1 = crc16_four(s, lo);
    let q2 = crc16_four(q1, upper_bits(lo));
    let q3 = crc16_four(q2, hi);
    let q4 = crc16_four(q3, upper_bits(hi));
    assert(crc16_bits(s, a, 8) == r2 && crc16_bits(s, lo, 8) == q2) by {
        reveal_with_fuel(crc16_bits, 9);
    }
    assert(crc16_bits(r2, b, 8) == r4 && crc16_bits(q2, hi, 8) == q4) by {
        reveal_with_fuel(crc16_bits, 9);
    }
    lemma_four_linear(s, s, a, lo);
    lemma_four_linear(r1, q1, upper_bits(a), upper_bits(lo));
    lemma_four_linear(r2, q2, b, hi);
    lemma_four_linear(r3, q3, upper_bits(b), upper_bits(hi));
    assert(s ^ s == 0 && (r4 == q4 ==> r4 ^ q4 == 0) && (a ^ lo == 0 ==> a == lo) && (b ^ hi == 0
        ==> b == hi)) by (bit_vector);
    lemma_two_bytes_of_nothing(a ^ lo, b ^ hi);
}

/// Of all pairs of bytes behind a payload, only its checksum field leaves
/// `0x800D` in the 16-bit checksum.
pub proof fn lemma_crc16_only_valid_data(payload: Seq<u8>, a: u8, b: u8)
    requires
        crc16_spec(payload + seq![a, b]) == 0x800D,
    ensures
        (a, b) == crc16_field_bytes(crc16_spec(payload)),
{
    let one = payload.push(a);
    let two = payload + seq![a, b];
    assert(two.drop_last() =~= one);
    assert(one.drop_last() =~= payload);
    assert(two.last() == b && one.last() == a);
    assert(crc16_spec(one) == crc16_bits(crc16_spec(payload), a, 8));
    assert(crc16_spec(two) == crc16_bits(crc16_spec(one), b, 8));
    lemma_crc16_residual_unique(crc16_spec(payload), a, b);
}

} // verus!
