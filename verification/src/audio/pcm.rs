//! Conversion of raw PCM bytes into normalised single precision samples.
//!
//! A sample is held as the bit pattern of an IEEE 754 single precision number.

use crate::error::{CoreError, ErrorView, Result};
use crate::protocol::SampleFormat;
use crate::text;
use vstd::arithmetic::power2;
use vstd::prelude::*;

verus! {

/// The size of one sample in bytes; zero where the format says nothing.
pub open spec fn sample_bytes(format: SampleFormat) -> nat {
    match format {
        SampleFormat::F32 => 4,
        SampleFormat::I16 => 2,
        SampleFormat::Unspecified => 0,
    }
}

/// The error where a format says nothing.
pub open spec fn unspecified() -> ErrorView {
    ErrorView::AudioFormat("sample format was not specified"@)
}

/// The error where bytes are no whole number of samples.
pub open spec fn ragged(format: SampleFormat, len: nat) -> ErrorView {
    let name = if format == SampleFormat::F32 {
        "f32 payload of "@
    } else {
        "i16 payload of "@
    };
    ErrorView::AudioFormat(
        name + text::decimal_text(len) + " bytes is not a multiple of "@ + text::decimal_text(
            sample_bytes(format),
        ),
    )
}

/// The number in four bytes from `i` on, the lowest first.
pub open spec fn word32(bytes: Seq<u8>, i: int) -> u32 {
    (bytes[i] + bytes[i + 1] * 0x100 + bytes[i + 2] * 0x1_0000 + bytes[i + 3] * 0x100_0000) as u32
}

/// The number in two bytes from `i` on, the lowest first, in two's complement.
pub open spec fn word16(bytes: Seq<u8>, i: int) -> i16 {
    let word = bytes[i] + bytes[i + 1] * 0x100;
    if word < 0x8000 {
        word as i16
    } else {
        (word - 0x1_0000) as i16
    }
}

/// The lowest significand that a normal number has, as an integer.
pub const SIGNIFICAND: u32 = 0x80_0000;

/// The bits of a positive number without its sign: the significand is doubled until
/// it is normal, and the exponent goes down by one each time.
pub open spec fn normal_bits(significand: nat, exponent: nat) -> nat
    decreases exponent,
{
    if exponent <= 1 || significand >= SIGNIFICAND {
        (exponent * SIGNIFICAND + significand - SIGNIFICAND) as nat
    } else {
        normal_bits(2 * significand, (exponent - 1) as nat)
    }
}

/// The bit pattern of `word / 32768`. The exponent is that of 2^-15, with the bias of
/// 127 and the 23 places that the significand stands to the left of the point.
pub open spec fn scaled_bits(word: i16) -> u32 {
    if word == 0 {
        0
    } else if word > 0 {
        normal_bits(word as nat, 135) as u32
    } else {
        (0x8000_0000 + normal_bits((-word) as nat, 135)) as u32
    }
}

/// The bits of the number one.
pub const ONE_BITS: u32 = 0x3F80_0000;

/// The bits above which a magnitude is no number.
pub const INFINITY_BITS: u32 = 0x7F80_0000;

/// The bits of a number without its sign. Numbers are ordered by them as by their size.
pub open spec fn magnitude(bits: u32) -> u32 {
    if bits < 0x8000_0000 {
        bits
    } else {
        (bits - 0x8000_0000) as u32
    }
}

/// The nearest number in the range `[-1, 1]`; silence for what is no number.
pub open spec fn clamped(bits: u32) -> u32 {
    if magnitude(bits) > INFINITY_BITS {
        0
    } else if magnitude(bits) <= ONE_BITS {
        bits
    } else if bits < 0x8000_0000 {
        ONE_BITS
    } else {
        (0x8000_0000 + ONE_BITS) as u32
    }
}

/// The samples in a payload.
pub open spec fn samples_in(bytes: Seq<u8>, format: SampleFormat) -> std::result::Result<
    Seq<u32>,
    ErrorView,
> {
    match format {
        SampleFormat::F32 => if bytes.len() % 4 == 0 {
            Ok(Seq::new(bytes.len() / 4, |i: int| clamped(word32(bytes, 4 * i))))
        } else {
            Err(ragged(format, bytes.len()))
        },
        SampleFormat::I16 => if bytes.len() % 2 == 0 {
            Ok(Seq::new(bytes.len() / 2, |i: int| scaled_bits(word16(bytes, 2 * i))))
        } else {
            Err(ragged(format, bytes.len()))
        },
        SampleFormat::Unspecified => Err(unspecified()),
    }
}

/// Size of one sample in bytes.
pub fn bytes_per_sample(format: SampleFormat) -> (size: Result<usize>)
    ensures
        match size {
            Ok(size) => format != SampleFormat::Unspecified && size == sample_bytes(format),
            Err(error) => format == SampleFormat::Unspecified && error@ == unspecified(),
        },
{
    match format {
        SampleFormat::F32 => Ok(4),
        SampleFormat::I16 => Ok(2),
        SampleFormat::Unspecified => Err(
            CoreError::AudioFormat("sample format was not specified".to_string()),
        ),
    }
}

fn ragged_error(format: SampleFormat, len: usize) -> (error: CoreError)
    requires
        format != SampleFormat::Unspecified,
    ensures
        error@ == ragged(format, len as nat),
{
    let (name, size): (&str, u64) = match format {
        SampleFormat::F32 => ("f32 payload of ", 4),
        _ => ("i16 payload of ", 2),
    };
    let mut message: String = name.to_string();
    message.append(text::decimal(len as u64).as_str());
    message.append(" bytes is not a multiple of ");
    message.append(text::decimal(size).as_str());
    CoreError::AudioFormat(message)
}

/// The bit pattern of `word / 32768`.
pub fn scale_word(word: i16) -> (bits: u32)
    ensures
        bits == scaled_bits(word),
{
    if word == 0 {
        return 0;
    }
    let mut significand: u32 = if word > 0 {
        word as u32
    } else {
        (-(word as i32)) as u32
    };
    let ghost size: nat = significand as nat;
    let mut exponent: u32 = 135;
    while significand < SIGNIFICAND && exponent > 1
        invariant
            significand < 2 * SIGNIFICAND,
            1 <= exponent <= 135,
            normal_bits(significand as nat, exponent as nat) == normal_bits(size, 135),
        decreases exponent,
    {
        significand = significand * 2;
        exponent = exponent - 1;
    }
    let positive: u32 = exponent * SIGNIFICAND + significand - SIGNIFICAND;
    if word > 0 {
        positive
    } else {
        0x8000_0000 + positive
    }
}

/// The nearest number in the range `[-1, 1]`; silence for what is no number.
pub fn clamp_sample(bits: u32) -> (sample: u32)
    ensures
        sample == clamped(bits),
{
    let size: u32 = if bits < 0x8000_0000 {
        bits
    } else {
        bits - 0x8000_0000
    };
    if size > INFINITY_BITS {
        0
    } else if size <= ONE_BITS {
        bits
    } else if bits < 0x8000_0000 {
        ONE_BITS
    } else {
        0x8000_0000 + ONE_BITS
    }
}

/// Decode interleaved PCM into single precision samples in the range `[-1, 1]`. Where a
/// payload of such samples leaves the range, they are clamped; one that is no number
/// becomes silence.
pub fn decode_to_f32(bytes: &[u8], format: SampleFormat) -> (samples: Result<Vec<u32>>)
    ensures
        match samples {
            Ok(samples) => samples_in(bytes@, format) == Ok::<Seq<u32>, ErrorView>(samples@),
            Err(error) => samples_in(bytes@, format) == Err::<Seq<u32>, ErrorView>(error@),
        },
{
    let len: usize = bytes.len();
    match format {
        SampleFormat::F32 => {
            if len % 4 != 0 {
                return Err(ragged_error(format, len));
            }
            let count: usize = len / 4;
            let mut samples: Vec<u32> = Vec::new();
            let mut i: usize = 0;
            while i < count
                invariant
                    i <= count,
                    4 * count == len == bytes@.len(),
                    samples@ == Seq::new(i as nat, |j: int| clamped(word32(bytes@, 4 * j))),
                decreases count - i,
            {
                let at: usize = 4 * i;
                let word: u32 = bytes[at] as u32 + bytes[at + 1] as u32 * 0x100 + bytes[at
                    + 2] as u32 * 0x1_0000 + bytes[at + 3] as u32 * 0x100_0000;
                samples.push(clamp_sample(word));
                i += 1;
                assert(samples@ =~= Seq::new(i as nat, |j: int| clamped(word32(bytes@, 4 * j))));
            }
            Ok(samples)
        },
        SampleFormat::I16 => {
            if len % 2 != 0 {
                return Err(ragged_error(format, len));
            }
            let count: usize = len / 2;
            let mut samples: Vec<u32> = Vec::new();
            let mut i: usize = 0;
            while i < count
                invariant
                    i <= count,
                    2 * count == len == bytes@.len(),
                    samples@ == Seq::new(i as nat, |j: int| scaled_bits(word16(bytes@, 2 * j))),
                decreases count - i,
            {
                let at: usize = 2 * i;
                let word: i32 = bytes[at] as i32 + bytes[at + 1] as i32 * 0x100;
                let signed: i16 = if word < 0x8000 {
                    word as i16
                } else {
                    (word - 0x1_0000) as i16
                };
                samples.push(scale_word(signed));
                i += 1;
                assert(samples@ =~= Seq::new(
                    i as nat,
                    |j: int| scaled_bits(word16(bytes@, 2 * j)),
                ));
            }
            Ok(samples)
        },
        SampleFormat::Unspecified => Err(
            CoreError::AudioFormat("sample format was not specified".to_string()),
        ),
    }
}

// ---------------------------------------------------------------------------
// Laws
// ---------------------------------------------------------------------------

/// A payload of whole samples is decoded, whatever it holds, and gives one sample for
/// each of them.
pub proof fn law_whole_samples(bytes: Seq<u8>, format: SampleFormat)
    requires
        format != SampleFormat::Unspecified,
        bytes.len() % sample_bytes(format) == 0,
    ensures
        samples_in(bytes, format) matches Ok(samples) && samples.len() * sample_bytes(format)
            == bytes.len(),
{
}

/// Doubling `steps` times at most makes a significand normal and keeps the number.
proof fn lemma_normal_bits(significand: nat, exponent: nat, steps: nat)
    requires
        significand < 2 * SIGNIFICAND,
        significand * power2::pow2(steps) >= SIGNIFICAND,
        exponent > steps,
    ensures
        ({
            let bits = normal_bits(significand, exponent);
            let low = bits % SIGNIFICAND as nat;
            let high = bits / SIGNIFICAND as nat;
            &&& (SIGNIFICAND + low) * power2::pow2(high) == significand * power2::pow2(exponent)
            &&& 1 <= high <= exponent
        }),
    decreases steps,
{
    if significand >= SIGNIFICAND {
        let bits = normal_bits(significand, exponent);
        assert(bits == exponent * SIGNIFICAND + (significand - SIGNIFICAND));
        vstd::arithmetic::div_mod::lemma_fundamental_div_mod_converse(
            bits as int,
            SIGNIFICAND as int,
            exponent as int,
            significand - SIGNIFICAND,
        );
    } else {
        if steps == 0 {
            power2::lemma_pow2(0);
            assert(power2::pow2(0) == 1) by {
                power2::lemma2_to64();
            }
            assert(significand * power2::pow2(0) == significand);
        }
        let half = power2::pow2((steps - 1) as nat);
        power2::lemma_pow2_unfold(steps);
        assert(significand * (2 * half) == (2 * significand) * half) by (nonlinear_arith);
        lemma_normal_bits(2 * significand, (exponent - 1) as nat, (steps - 1) as nat);
        power2::lemma_pow2_unfold(exponent);
        let rest = power2::pow2((exponent - 1) as nat);
        assert(significand * (2 * rest) == (2 * significand) * rest) by (nonlinear_arith);
    }
}

/// The bits of a number stand for it: the significand times two to the power of the
/// exponent is what it was before the significand was made normal.
pub proof fn law_normal_bits(significand: nat, exponent: nat)
    requires
        0 < significand < 2 * SIGNIFICAND,
        exponent >= 24,
    ensures
        ({
            let bits = normal_bits(significand, exponent);
            let low = bits % SIGNIFICAND as nat;
            let high = bits / SIGNIFICAND as nat;
            &&& (SIGNIFICAND + low) * power2::pow2(high) == significand * power2::pow2(exponent)
            &&& 1 <= high <= exponent
        }),
{
    power2::lemma2_to64();
    assert(significand * power2::pow2(23) >= SIGNIFICAND) by (nonlinear_arith)
        requires
            significand > 0,
            power2::pow2(23) == SIGNIFICAND,
    ;
    lemma_normal_bits(significand, exponent, 23);
}

/// The sizes of scaled words do not exceed one.
proof fn lemma_scaled_range(word: i16)
    ensures
        magnitude(scaled_bits(word)) <= ONE_BITS,
{
    if word != 0 {
        let size: nat = if word > 0 {
            word as nat
        } else {
            (-word) as nat
        };
        law_normal_bits(size, 135);
        let bits = normal_bits(size, 135);
        let low = bits % SIGNIFICAND as nat;
        let high = bits / SIGNIFICAND as nat;
        let limit = power2::pow2(127);
        power2::lemma2_to64();
        power2::lemma_pow2_adds(8, 127);
        power2::lemma_pow2_pos(127);
        assert(power2::pow2(8) == 256);
        assert(size * (256 * limit) <= SIGNIFICAND * limit) by (nonlinear_arith)
            requires
                size <= 32768,
                SIGNIFICAND == 32768 * 256,
        ;
        if high >= 128 {
            let above = power2::pow2(high);
            power2::lemma_pow2_strictly_increases(127, high);
            assert((SIGNIFICAND + low) * above > SIGNIFICAND * limit) by (nonlinear_arith)
                requires
                    above > limit,
                    low >= 0,
                    SIGNIFICAND > 0,
                    limit > 0,
            ;
        }
        if high == 127 && low > 0 {
            assert((SIGNIFICAND + low) * limit > SIGNIFICAND * limit) by (nonlinear_arith)
                requires
                    low > 0,
                    limit > 0,
            ;
        }
        vstd::arithmetic::div_mod::lemma_fundamental_div_mod(bits as int, SIGNIFICAND as int);
        assert(bits <= 127 * SIGNIFICAND) by (nonlinear_arith)
            requires
                bits == SIGNIFICAND * high + low,
                low < SIGNIFICAND,
                high < 127 || high == 127 && low == 0,
        ;
    }
}

/// Every decoded sample, of either format, lies in the range `[-1, 1]`: its size is at
/// most that of the number one.
pub proof fn law_range(bytes: Seq<u8>, format: SampleFormat)
    ensures
        samples_in(bytes, format) matches Ok(samples) ==> forall|i: int| #![trigger samples[i]]
            0 <= i < samples.len() ==> magnitude(samples[i]) <= ONE_BITS,
{
    if let Ok(samples) = samples_in(bytes, format) {
        assert forall|i: int| #![trigger samples[i]] 0 <= i < samples.len() implies magnitude(
            samples[i],
        ) <= ONE_BITS by {
            if format == SampleFormat::I16 {
                lemma_scaled_range(word16(bytes, 2 * i));
            }
        }
    }
}

/// A sample that is in the range already is kept bit by bit.
pub proof fn law_in_range_kept(bits: u32)
    ensures
        magnitude(bits) <= ONE_BITS ==> clamped(bits) == bits,
        clamped(clamped(bits)) == clamped(bits),
{
}

/// Decoding goes sample by sample: behind a payload of whole samples, another one adds
/// its own samples, and is refused where it is refused by itself.
pub proof fn law_concatenated(a: Seq<u8>, b: Seq<u8>, format: SampleFormat)
    requires
        format != SampleFormat::Unspecified,
        a.len() % sample_bytes(format) == 0,
    ensures
        samples_in(a + b, format) is Ok <==> samples_in(b, format) is Ok,
        samples_in(b, format) is Ok ==> samples_in(a + b, format)->Ok_0 == samples_in(
            a,
            format,
        )->Ok_0 + samples_in(b, format)->Ok_0,
{
    if samples_in(b, format) is Ok {
        let one = samples_in(a, format)->Ok_0;
        let two = samples_in(b, format)->Ok_0;
        let both = samples_in(a + b, format)->Ok_0;
        let size = sample_bytes(format) as int;
        assert(both.len() == one.len() + two.len());
        assert forall|i: int| 0 <= i < both.len() implies both[i] == #[trigger] (one + two)[i] by {
            if i < one.len() {
                assert((a + b)[size * i] == a[size * i]);
                assert((a + b)[size * i + 1] == a[size * i + 1]);
                assert(format == SampleFormat::F32 ==> (a + b)[4 * i + 2] == a[4 * i + 2]);
                assert(format == SampleFormat::F32 ==> (a + b)[4 * i + 3] == a[4 * i + 3]);
            } else {
                let k = i - one.len();
                assert(size * i == a.len() + size * k);
                assert((a + b)[size * i] == b[size * k]);
                assert((a + b)[size * i + 1] == b[size * k + 1]);
                assert(format == SampleFormat::F32 ==> (a + b)[4 * i + 2] == b[4 * k + 2]);
                assert(format == SampleFormat::F32 ==> (a + b)[4 * i + 3] == b[4 * k + 3]);
            }
        }
        assert(both =~= one + two);
    }
}

/// The payload of one 16-bit word, lowest byte first and in two's complement, decodes to
/// the number `word / 32768`: a sign, and a significand times a power of two that is the
/// size of the word with the point fifteen places further left.
pub proof fn law_i16_sample(b0: u8, b1: u8, word: i16)
    requires
        b0 + 256 * b1 == if word >= 0 {
            word as int
        } else {
            word + 65536
        },
    ensures
        samples_in(seq![b0, b1], SampleFormat::I16) matches Ok(samples) && {
            let bits = samples[0];
            let fraction = magnitude(bits) as nat % SIGNIFICAND as nat;
            let exponent = magnitude(bits) as nat / SIGNIFICAND as nat;
            let size: nat = if word >= 0 {
                word as nat
            } else {
                (-word) as nat
            };
            &&& samples.len() == 1
            &&& word == 0 ==> bits == 0
            &&& word > 0 ==> bits < 0x8000_0000
            &&& word < 0 ==> bits >= 0x8000_0000
            &&& word != 0 ==> (SIGNIFICAND + fraction) * power2::pow2(exponent) == size
                * power2::pow2(135)
        },
{
    let bytes = seq![b0, b1];
    assert(word16(bytes, 0) == word);
    let samples = samples_in(bytes, SampleFormat::I16)->Ok_0;
    assert(samples[0] == scaled_bits(word16(bytes, 0)));
    if word != 0 {
        let size: nat = if word > 0 {
            word as nat
        } else {
            (-word) as nat
        };
        law_normal_bits(size, 135);
        let bits = normal_bits(size, 135);
        let low = bits % (SIGNIFICAND as nat);
        let high = bits / (SIGNIFICAND as nat);
        vstd::arithmetic::div_mod::lemma_fundamental_div_mod(bits as int, SIGNIFICAND as int);
        assert(bits < 0x8000_0000) by (nonlinear_arith)
            requires
                bits == SIGNIFICAND * high + low,
                high <= 135,
                low < SIGNIFICAND,
                SIGNIFICAND == 0x80_0000,
        ;
    }
}

/// The payload of one single precision number, lowest byte first, decodes to it where it
/// lies in the range `[-1, 1]`, to silence where it is no number, and otherwise to one,
/// with its sign.
pub proof fn law_f32_sample(b0: u8, b1: u8, b2: u8, b3: u8, word: u32)
    requires
        b0 + 0x100 * b1 + 0x1_0000 * b2 + 0x100_0000 * b3 == word,
    ensures
        samples_in(seq![b0, b1, b2, b3], SampleFormat::F32) matches Ok(samples) && {
            let size = word % 0x8000_0000;
            &&& samples.len() == 1
            &&& size <= 0x3F80_0000 ==> samples[0] == word
            &&& 0x3F80_0000 < size <= 0x7F80_0000 ==> samples[0] % 0x8000_0000 == 0x3F80_0000
                && samples[0] / 0x8000_0000 == word / 0x8000_0000
            &&& size > 0x7F80_0000 ==> samples[0] == 0
        },
{
    let bytes = seq![b0, b1, b2, b3];
    assert(word32(bytes, 0) == word);
    let samples = samples_in(bytes, SampleFormat::F32)->Ok_0;
    assert(samples[0] == clamped(word32(bytes, 0)));
}

} // verus!
