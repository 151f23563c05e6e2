//! Building Digimatic frames for the simulator, and the transport payloads
//! (text line or raw bits) that carry them.
//!
//! The simulator produces a value in mm; the application scales it to
//! hundredths (two decimals, the point position every generated frame uses)
//! and the frame is built from that integer here.

use vstd::prelude::*;

use crate::config::FrameFormat;
use crate::frame::{spec_sign_code, Sign, TransportFrame, FRAME_LENGTH};
use crate::parser::bit_weight;
use crate::frame::BitMode;

verus! {

/// `x` divided by ten `k` times.
pub open spec fn div10(x: nat, k: nat) -> nat
    decreases k,
{
    if k == 0 {
        x
    } else {
        div10(x, (k - 1) as nat) / 10
    }
}

/// The decimal digit of `x` with weight `10^k`.
pub open spec fn digit_at(x: nat, k: nat) -> u8 {
    (div10(x, k) % 10) as u8
}

/// The nibbles of the frame for a value in hundredths: `FFFF`, the sign,
/// the last six decimal digits, point position 2 and unit mm.
pub open spec fn frame_nibbles(scaled: u32, negative: bool) -> Seq<u8> {
    let x = scaled as nat;
    seq![
        0x0Fu8,
        0x0F,
        0x0F,
        0x0F,
        if negative { 0x08u8 } else { 0x00u8 },
        digit_at(x, 5),
        digit_at(x, 4),
        digit_at(x, 3),
        digit_at(x, 2),
        digit_at(x, 1),
        digit_at(x, 0),
        0x02,
        0x00,
    ]
}

/// Builds the frame for a value given in hundredths of a millimetre.
///
/// The sign nibble is `8` when `negative`, else `0`; the data digits are the
/// last six decimal digits of `scaled`; the point position is 2 and the unit mm.
pub fn build_frame_array(scaled: u32, negative: bool) -> (r: [u8; FRAME_LENGTH])
    ensures
        r@ == frame_nibbles(scaled, negative),
{
    let mut digi_frame = [0x0Fu8; FRAME_LENGTH];
    digi_frame[4] = if negative {
        Sign::Minus.code()
    } else {
        Sign::Plus.code()
    };
    digi_frame[11] = 0x02;
    digi_frame[12] = 0x00;
    let mut to_bcd: u32 = scaled;
    let mut k: usize = 0;
    while k < 6
        invariant
            k <= 6,
            to_bcd == div10(scaled as nat, k as nat),
            digi_frame@.len() == FRAME_LENGTH,
            forall|j: int| 0 <= j < 4 ==> digi_frame@[j] == 0x0F,
            digi_frame@[4] == (if negative { 0x08u8 } else { 0x00u8 }),
            digi_frame@[11] == 0x02,
            digi_frame@[12] == 0x00,
            forall|j: int| 0 <= j < k ==> digi_frame@[10 - j] == #[trigger] digit_at(scaled as nat, j as nat),
        decreases 6 - k,
    {
        digi_frame[10 - k] = (to_bcd % 10) as u8;
        to_bcd = to_bcd / 10;
        k = k + 1;
    }
    assert(digi_frame@ =~= frame_nibbles(scaled, negative));
    digi_frame
}

/// Value of the data digits of a built frame: the last six decimal digits.
pub proof fn lemma_frame_digits_value(scaled: u32, negative: bool)
    ensures
        crate::frame::digits_value(frame_nibbles(scaled, negative).subrange(5, 11)) == scaled
            % 1_000_000,
        crate::frame::all_bcd(frame_nibbles(scaled, negative).subrange(5, 11)),
{
    let x = scaled as nat;
    let n = frame_nibbles(scaled, negative);
    let d = n.subrange(5, 11);
    let q0 = div10(x, 0);
    let q1 = div10(x, 1);
    let q2 = div10(x, 2);
    let q3 = div10(x, 3);
    let q4 = div10(x, 4);
    let q5 = div10(x, 5);
    let q6 = div10(x, 6);
    assert(q0 == 10 * q1 + q0 % 10);
    assert(q1 == 10 * q2 + q1 % 10);
    assert(q2 == 10 * q3 + q2 % 10);
    assert(q3 == 10 * q4 + q3 % 10);
    assert(q4 == 10 * q5 + q4 % 10);
    assert(q5 == 10 * q6 + q5 % 10);
    assert(d.drop_last().drop_last().drop_last().drop_last().drop_last().drop_last() =~= Seq::<
        u8,
    >::empty());
    reveal_with_fuel(crate::frame::digits_value, 7);
    assert(crate::frame::digits_value(d) == x - q6 * 1_000_000);
    vstd::arithmetic::div_mod::lemma_div_denominator(x as int, 10, 10);
    vstd::arithmetic::div_mod::lemma_div_denominator(x as int, 100, 10);
    vstd::arithmetic::div_mod::lemma_div_denominator(x as int, 1000, 10);
    vstd::arithmetic::div_mod::lemma_div_denominator(x as int, 10000, 10);
    vstd::arithmetic::div_mod::lemma_div_denominator(x as int, 100000, 10);
    assert(q6 == x / 1_000_000);
    vstd::arithmetic::div_mod::lemma_fundamental_div_mod(x as int, 1_000_000);
}

/// The uppercase hex character byte of a nibble `0..=15`.
pub open spec fn hex_byte(v: u8) -> u8 {
    if v <= 9 {
        (48 + v) as u8
    } else {
        (55 + v) as u8
    }
}

/// The uppercase hex text of a byte without leading zeros (as `{:X}` writes
/// it): one character below 16, else two.
pub open spec fn hex_of_byte(v: u8) -> Seq<u8> {
    if v < 16 {
        seq![hex_byte(v)]
    } else {
        seq![hex_byte(v / 16), hex_byte(v % 16)]
    }
}

/// The text line of a frame: the uppercase hex text of each byte, in order.
pub open spec fn frame_text_bytes(n: Seq<u8>) -> Seq<u8>
    decreases n.len(),
{
    if n.len() == 0 {
        Seq::empty()
    } else {
        frame_text_bytes(n.drop_last()) + hex_of_byte(n.last())
    }
}

/// For nibbles `0..=15` the text line has one hex character per nibble.
pub proof fn lemma_frame_text_of_nibbles(n: Seq<u8>)
    requires
        forall|i: int| 0 <= i < n.len() ==> n[i] <= 15,
    ensures
        frame_text_bytes(n) == n.map_values(|v: u8| hex_byte(v)),
    decreases n.len(),
{
    if n.len() > 0 {
        let p = n.drop_last();
        assert forall|i: int| 0 <= i < p.len() implies p[i] <= 15 by {
            assert(p[i] == n[i]);
        }
        lemma_frame_text_of_nibbles(p);
        assert(n.map_values(|v: u8| hex_byte(v)) =~= p.map_values(|v: u8| hex_byte(v)) + seq![
            hex_byte(n.last()),
        ]);
    }
}

/// The bits of a frame: for each nibble, its four bits in the given order.
pub open spec fn frame_bits(n: Seq<u8>, mode: BitMode) -> Seq<u8> {
    Seq::new((n.len() * 4) as nat, |k: int| ((n[k / 4] as int / bit_weight(mode, k % 4)) % 2) as u8)
}

/// The text line of a frame: each byte in uppercase hex, one digit below 16
/// and two digits from 16 on.
pub fn frame_to_text(nibbles: &[u8]) -> (r: Vec<u8>)
    ensures
        r@ == frame_text_bytes(nibbles@),
{
    let mut out: Vec<u8> = Vec::new();
    let mut i: usize = 0;
    proof {
        assert(nibbles@.take(0) =~= Seq::<u8>::empty());
    }
    while i < nibbles.len()
        invariant
            i <= nibbles@.len(),
            out@ == frame_text_bytes(nibbles@.take(i as int)),
        decreases nibbles@.len() - i,
    {
        let v = nibbles[i];
        let ghost before = out@;
        if v >= 16 {
            out.push(hex_char_byte(v / 16));
        }
        out.push(hex_char_byte(v % 16));
        proof {
            assert(nibbles@.take(i + 1).drop_last() =~= nibbles@.take(i as int));
            assert(nibbles@.take(i + 1).last() == v);
            if v < 16 {
                assert(v % 16 == v);
            }
            assert(out@ =~= before + hex_of_byte(v));
        }
        i = i + 1;
    }
    assert(nibbles@.take(i as int) =~= nibbles@);
    out
}

/// The uppercase hex character byte of a value `0..=15`.
fn hex_char_byte(v: u8) -> (r: u8)
    requires
        v <= 15,
    ensures
        r == hex_byte(v),
{
    if v <= 9 {
        48 + v
    } else {
        55 + v
    }
}

/// The bits of a frame, four per nibble, least significant bit first.
pub fn frame_to_bits(nibbles: &[u8]) -> (r: Vec<u8>)
    ensures
        r@ == frame_bits(nibbles@, BitMode::Lsb),
{
    let mut out: Vec<u8> = Vec::new();
    let mut i: usize = 0;
    while i < nibbles.len()
        invariant
            i <= nibbles@.len(),
            out@.len() == 4 * i,
            forall|k: int| 0 <= k < 4 * i ==> out@[k] == frame_bits(nibbles@, BitMode::Lsb)[k],
        decreases nibbles@.len() - i,
    {
        let v = nibbles[i];
        out.push(v % 2);
        out.push((v / 2) % 2);
        out.push((v / 4) % 2);
        out.push((v / 8) % 2);
        proof {
            assert forall|k: int| 4 * i <= k < 4 * i + 4 implies out@[k] == frame_bits(
                nibbles@,
                BitMode::Lsb,
            )[k] by {
                assert(k / 4 == i);
                assert(k % 4 == k - 4 * i);
            }
        }
        i = i + 1;
    }
    assert(out@ =~= frame_bits(nibbles@, BitMode::Lsb));
    out
}

/// `p` is the payload that carries the frame for `scaled` / `negative` in `format`.
pub open spec fn is_payload(p: TransportFrame, scaled: u32, negative: bool, format: FrameFormat) -> bool {
    match format {
        FrameFormat::Str => p matches TransportFrame::Str(v) && v@ == frame_text_bytes(
            frame_nibbles(scaled, negative),
        ),
        FrameFormat::Bin => p matches TransportFrame::Bin(v) && v@ == frame_bits(
            frame_nibbles(scaled, negative),
            BitMode::Lsb,
        ),
    }
}

/// Bits round trip: reading back the bits written for nibbles `0..=15`
/// (in either bit order) gives the nibbles again.
pub proof fn lemma_bits_roundtrip(n: Seq<u8>, mode: BitMode)
    requires
        n.len() == FRAME_LENGTH,
        forall|i: int| 0 <= i < n.len() ==> n[i] <= 15,
    ensures
        frame_bits(n, mode).len() == crate::parser::FRAME_BITS,
        crate::parser::nibbles_of_bits(frame_bits(n, mode), mode) == n,
{
    let b = frame_bits(n, mode);
    assert forall|i: int| 0 <= i < FRAME_LENGTH implies #[trigger] crate::parser::nibble_at(b, i, mode)
        == n[i] by {
        let v = n[i];
        assert((4 * i) / 4 == i);
        assert((4 * i + 1) / 4 == i);
        assert((4 * i + 2) / 4 == i);
        assert((4 * i + 3) / 4 == i);
        assert((4 * i) % 4 == 0);
        assert((4 * i + 1) % 4 == 1);
        assert((4 * i + 2) % 4 == 2);
        assert((4 * i + 3) % 4 == 3);
        assert(v % 2 + (v / 2 % 2) * 2 + (v / 4 % 2) * 4 + (v / 8 % 2) * 8 == v) by (bit_vector)
            requires
                v <= 15,
        ;
        assert((v / 8 % 2) * 8 + (v / 4 % 2) * 4 + (v / 2 % 2) * 2 + v % 2 == v) by (bit_vector)
            requires
                v <= 15,
        ;
        let b0 = b[4 * i];
        let b1 = b[4 * i + 1];
        let b2 = b[4 * i + 2];
        let b3 = b[4 * i + 3];
        match mode {
            BitMode::Lsb => {
                assert(b0 == v % 2);
                assert(b1 == v / 2 % 2);
                assert(b2 == v / 4 % 2);
                assert(b3 == v / 8 % 2);
            },
            BitMode::Msb => {
                assert(b0 == v / 8 % 2);
                assert(b1 == v / 4 % 2);
                assert(b2 == v / 2 % 2);
                assert(b3 == v % 2);
            },
        }
        assert(b0 % 2 == b0 && b1 % 2 == b1 && b2 % 2 == b2 && b3 % 2 == b3);
    }
    assert(crate::parser::nibbles_of_bits(b, mode) =~= n);
}

/// The transport payload carrying the frame for a value in hundredths:
/// the text line (`FFFF...`) or the 52 raw bits, LSB first.
pub fn build_simulator_payload(scaled: u32, negative: bool, format: FrameFormat) -> (r: TransportFrame)
    ensures
        is_payload(r, scaled, negative, format),
{
    let frame = build_frame_array(scaled, negative);
    match format {
        FrameFormat::Str => TransportFrame::Str(frame_to_text(&frame)),
        FrameFormat::Bin => TransportFrame::Bin(frame_to_bits(&frame)),
    }
}

} // verus!
