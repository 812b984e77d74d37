//! The LTC frame: the SMPTE 12M frame of 80 bits with its BCD time fields and its sync word.
//! Bit 0 is transmitted first and bit 79 last; the low bit of a field has the lowest bit number.

use vstd::arithmetic::div_mod::lemma_mod_breakdown;
use vstd::arithmetic::power2::{lemma2_to64, lemma_pow2_unfold, pow2};
use vstd::prelude::*;

use crate::text::{
    chars_of, decimal, digit_char, digits_value, is_digit, law_two_digits_are_read_back,
    number_up_to, parse_number, push_quoted,
    push_two_digits, quoted, string_of, two_digits, unsigned_part,
};

verus! {

/// The number of bits in a frame.
pub const FRAME_BITS: usize = 80;

/// The sync word, bits 64 to 79 of every frame.
pub const SYNC: [bool; 16] = [
    false, false, true, true, true, true, true, true, true, true, true, true, true, true, false,
    true,
];

/// A timecode: hours, minutes, seconds and frames, and whether it counts in drop-frame.
#[derive(Clone, Copy, Debug, PartialEq, Eq, Structural)]
pub struct Timecode {
    pub hours: u8,
    pub minutes: u8,
    pub seconds: u8,
    pub frames: u8,
    pub drop_frame: bool,
}

/// Bit `k` of `v` in binary.
pub open spec fn bit_at(v: nat, k: nat) -> bool
    decreases k,
{
    if k == 0 {
        v % 2 == 1
    } else {
        bit_at(v / 2, (k - 1) as nat)
    }
}

/// The number in the field of `n` bits at `start`, low bit first.
pub open spec fn field_value(bits: Seq<bool>, start: int, n: nat) -> nat
    decreases n,
{
    if n == 0 {
        0
    } else {
        (if bits[start] { 1nat } else { 0nat }) + 2 * field_value(bits, start + 1, (n - 1) as nat)
    }
}

/// How many of the bits are 0.
pub open spec fn zeros(bits: Seq<bool>) -> nat
    decreases bits.len(),
{
    if bits.len() == 0 {
        0
    } else {
        zeros(bits.drop_last()) + (if bits.last() { 0nat } else { 1nat })
    }
}

proof fn lemma_shift_is_bit(v: u8, k: u8)
    requires
        k < 8,
    ensures
        ((v >> k) & 1 == 1) == bit_at(v as nat, k as nat),
    decreases k,
{
    if k == 0 {
        assert((v >> 0u8) & 1 == v % 2) by (bit_vector);
    } else {
        let j: u8 = (k - 1) as u8;
        let h: u8 = v / 2;
        lemma_shift_is_bit(h, j);
        assert(v >> k == h >> j) by (bit_vector)
            requires
                0 < k < 8,
                j == k - 1,
                h == v / 2,
        ;
    }
}

/// Writes the `n` low bits of `value` into the bits from `start` on.
pub fn set_field(bits: &mut [bool; 80], start: usize, n: usize, value: u8)
    requires
        start + n <= 80,
        n <= 8,
    ensures
        forall|i: int|
            0 <= i < 80 ==> #[trigger] final(bits)@[i] == if start <= i < start + n {
                bit_at(value as nat, (i - start) as nat)
            } else {
                old(bits)@[i]
            },
{
    let mut i: usize = 0;
    while i < n
        invariant
            i <= n <= 8,
            start + n <= 80,
            forall|j: int|
                0 <= j < 80 ==> #[trigger] bits@[j] == if start <= j < start + i {
                    bit_at(value as nat, (j - start) as nat)
                } else {
                    old(bits)@[j]
                },
        decreases n - i,
    {
        let k: u8 = i as u8;
        proof {
            lemma_shift_is_bit(value, k);
        }
        bits[start + i] = (value >> k) & 1 == 1;
        i += 1;
    }
}

proof fn lemma_field_bound(bits: Seq<bool>, start: int, n: nat)
    ensures
        field_value(bits, start, n) < pow2(n),
    decreases n,
{
    if n == 0 {
        lemma2_to64();
    } else {
        lemma_field_bound(bits, start + 1, (n - 1) as nat);
        lemma_pow2_unfold(n);
    }
}

/// Reads the field of `n` bits at `start`, low bit first.
pub fn get_field(bits: &[bool], start: usize, n: usize) -> (r: u8)
    requires
        start + n <= bits.len(),
        n <= 8,
    ensures
        r == field_value(bits@, start as int, n as nat),
        r < pow2(n as nat),
{
    let mut v: u8 = 0;
    let mut i: usize = n;
    while i > 0
        invariant
            i <= n <= 8,
            start + n <= bits.len(),
            v == field_value(bits@, start + i, (n - i) as nat),
        decreases i,
    {
        i -= 1;
        proof {
            lemma_field_bound(bits@, start + i, (n - i) as nat);
            lemma2_to64();
            if n - i < 8 {
                vstd::arithmetic::power2::lemma_pow2_strictly_increases((n - i) as nat, 8);
            }
        }
        v = 2 * v + (if bits[start + i] { 1 } else { 0 });
    }
    proof {
        lemma_field_bound(bits@, start as int, n as nat);
    }
    v
}

/// Bit `i` of the frame for `tc` before the polarity correction.
pub open spec fn plain_bit(tc: Timecode, i: int) -> bool {
    if 0 <= i < 4 {
        bit_at(tc.frames as nat % 10, i as nat)
    } else if 8 <= i < 10 {
        bit_at(tc.frames as nat / 10, (i - 8) as nat)
    } else if i == 10 {
        tc.drop_frame
    } else if 16 <= i < 20 {
        bit_at(tc.seconds as nat % 10, (i - 16) as nat)
    } else if 24 <= i < 27 {
        bit_at(tc.seconds as nat / 10, (i - 24) as nat)
    } else if 32 <= i < 36 {
        bit_at(tc.minutes as nat % 10, (i - 32) as nat)
    } else if 40 <= i < 43 {
        bit_at(tc.minutes as nat / 10, (i - 40) as nat)
    } else if 48 <= i < 52 {
        bit_at(tc.hours as nat % 10, (i - 48) as nat)
    } else if 56 <= i < 58 {
        bit_at(tc.hours as nat / 10, (i - 56) as nat)
    } else if 64 <= i < 80 {
        SYNC@[i - 64]
    } else {
        false
    }
}

/// The frame for `tc` before the polarity correction.
pub open spec fn plain_bits(tc: Timecode) -> Seq<bool> {
    Seq::new(80, |i: int| plain_bit(tc, i))
}

/// The frame for `tc`: its time fields, its drop-frame flag and the sync word, with bit 27 set
/// where that makes the number of zeros even.
pub open spec fn frame_bits(tc: Timecode) -> Seq<bool> {
    plain_bits(tc).update(27, zeros(plain_bits(tc)) % 2 == 1)
}

/// The bits of the frames for `tcs`, one after the other.
pub open spec fn bits_of(tcs: Seq<Timecode>) -> Seq<bool> {
    Seq::new(80 * tcs.len(), |i: int| frame_bits(tcs[i / 80])[i % 80])
}

/// The timecode that the time fields and the drop-frame flag of a frame hold.
pub open spec fn timecode_of(bits: Seq<bool>) -> Timecode {
    Timecode {
        hours: (field_value(bits, 56, 2) * 10 + field_value(bits, 48, 4)) as u8,
        minutes: (field_value(bits, 40, 3) * 10 + field_value(bits, 32, 4)) as u8,
        seconds: (field_value(bits, 24, 3) * 10 + field_value(bits, 16, 4)) as u8,
        frames: (field_value(bits, 8, 2) * 10 + field_value(bits, 0, 4)) as u8,
        drop_frame: bits[10],
    }
}

/// Counts the bits that are 0.
fn count_zeros(bits: &[bool; 80]) -> (n: usize)
    ensures
        n == zeros(bits@),
{
    let mut n: usize = 0;
    let mut i: usize = 0;
    while i < 80
        invariant
            i <= 80,
            n <= i,
            n == zeros(bits@.take(i as int)),
        decreases 80 - i,
    {
        assert(bits@.take(i + 1).drop_last() == bits@.take(i as int));
        if !bits[i] {
            n += 1;
        }
        i += 1;
    }
    assert(bits@.take(80) == bits@);
    n
}

/// The 80 bits of the frame for `tc`.
pub fn encode_frame(tc: Timecode) -> (b: [bool; 80])
    ensures
        b@ == frame_bits(tc),
{
    let mut b: [bool; 80] = [false; 80];
    set_field(&mut b, 0, 4, tc.frames % 10);
    set_field(&mut b, 8, 2, tc.frames / 10);
    b[10] = tc.drop_frame;
    set_field(&mut b, 16, 4, tc.seconds % 10);
    set_field(&mut b, 24, 3, tc.seconds / 10);
    set_field(&mut b, 32, 4, tc.minutes % 10);
    set_field(&mut b, 40, 3, tc.minutes / 10);
    set_field(&mut b, 48, 4, tc.hours % 10);
    set_field(&mut b, 56, 2, tc.hours / 10);
    let mut i: usize = 0;
    let ghost before = b@;
    while i < 16
        invariant
            i <= 16,
            before.len() == 80,
            forall|j: int|
                0 <= j < 80 ==> #[trigger] b@[j] == if 64 <= j < 64 + i {
                    SYNC@[j - 64]
                } else {
                    before[j]
                },
        decreases 16 - i,
    {
        b[64 + i] = SYNC[i];
        i += 1;
    }
    assert(b@ =~= plain_bits(tc));
    // Polarity correction: an even number of zeros in the whole frame.
    if count_zeros(&b) % 2 != 0 {
        b[27] = true;
    }
    assert(b@ =~= frame_bits(tc));
    b
}

/// The timecode in the bits of a frame, of which the first 58 are read.
pub fn decode_frame(bits: &[bool]) -> (tc: Timecode)
    requires
        bits.len() >= 58,
    ensures
        tc == timecode_of(bits@),
{
    proof {
        lemma2_to64();
    }
    Timecode {
        hours: get_field(bits, 56, 2) * 10 + get_field(bits, 48, 4),
        minutes: get_field(bits, 40, 3) * 10 + get_field(bits, 32, 4),
        seconds: get_field(bits, 24, 3) * 10 + get_field(bits, 16, 4),
        frames: get_field(bits, 8, 2) * 10 + get_field(bits, 0, 4),
        drop_frame: bits[10],
    }
}

proof fn lemma_field_of_bits(bits: Seq<bool>, start: int, n: nat, v: nat)
    requires
        forall|i: int| start <= i < start + n ==> #[trigger] bits[i] == bit_at(v, (i - start) as nat),
    ensures
        field_value(bits, start, n) == v % pow2(n),
    decreases n,
{
    if n == 0 {
        lemma2_to64();
    } else {
        let m = (n - 1) as nat;
        assert(bits[start] == bit_at(v, 0));
        assert forall|i: int| start + 1 <= i < start + 1 + m implies #[trigger] bits[i] == bit_at(
            v / 2,
            (i - (start + 1)) as nat,
        ) by {
            assert(bits[i] == bit_at(v, (i - start) as nat));
        }
        lemma_field_of_bits(bits, start + 1, m, v / 2);
        lemma_pow2_unfold(n);
        vstd::arithmetic::power2::lemma_pow2_pos(m);
        lemma_mod_breakdown(v as int, 2, pow2(m) as int);
    }
}

proof fn lemma_zeros_update(bits: Seq<bool>, k: int)
    requires
        0 <= k < bits.len(),
        !bits[k],
    ensures
        zeros(bits) == zeros(bits.update(k, true)) + 1,
    decreases bits.len(),
{
    if k == bits.len() - 1 {
        assert(bits.update(k, true).drop_last() == bits.drop_last());
    } else {
        assert(bits.update(k, true).drop_last() == bits.drop_last().update(k, true));
        lemma_zeros_update(bits.drop_last(), k);
    }
}

/// Every frame has an even number of zeros.
pub proof fn law_zeros_even(tc: Timecode)
    ensures
        zeros(frame_bits(tc)) % 2 == 0,
{
    if zeros(plain_bits(tc)) % 2 == 1 {
        lemma_zeros_update(plain_bits(tc), 27);
    } else {
        assert(frame_bits(tc) == plain_bits(tc));
    }
}

/// Every frame is 80 bits long and ends in the sync word.
pub proof fn law_frame_ends_in_sync(tc: Timecode)
    ensures
        frame_bits(tc).len() == 80,
        frame_bits(tc).subrange(64, 80) == SYNC@,
{
    assert(frame_bits(tc).subrange(64, 80) =~= SYNC@);
}

/// The fields of `tc` fit the widths that the frame has for them: two bits for the tens of the
/// hours and the frames, three for those of the minutes and the seconds.
pub open spec fn fits_frame(tc: Timecode) -> bool {
    tc.hours < 40 && tc.minutes < 80 && tc.seconds < 80 && tc.frames < 40
}

proof fn lemma_frame_field(tc: Timecode, start: int, n: nat, v: nat)
    requires
        0 <= start,
        start + n <= 80,
        !(start <= 27 < start + n),
        forall|i: int| start <= i < start + n ==> plain_bit(tc, i) == bit_at(v, (i - start) as nat),
    ensures
        field_value(frame_bits(tc), start, n) == v % pow2(n),
{
    let b = frame_bits(tc);
    assert forall|i: int| start <= i < start + n implies #[trigger] b[i] == bit_at(
        v,
        (i - start) as nat,
    ) by {
        assert(b[i] == plain_bits(tc)[i]);
    }
    lemma_field_of_bits(b, start, n, v);
}

proof fn lemma_frame_fields(tc: Timecode)
    ensures
        field_value(frame_bits(tc), 0, 4) == (tc.frames as nat % 10) % 16,
        field_value(frame_bits(tc), 8, 2) == (tc.frames as nat / 10) % 4,
        field_value(frame_bits(tc), 16, 4) == (tc.seconds as nat % 10) % 16,
        field_value(frame_bits(tc), 24, 3) == (tc.seconds as nat / 10) % 8,
        field_value(frame_bits(tc), 32, 4) == (tc.minutes as nat % 10) % 16,
        field_value(frame_bits(tc), 40, 3) == (tc.minutes as nat / 10) % 8,
        field_value(frame_bits(tc), 48, 4) == (tc.hours as nat % 10) % 16,
        field_value(frame_bits(tc), 56, 2) == (tc.hours as nat / 10) % 4,
{
    assert(pow2(2) == 4 && pow2(3) == 8 && pow2(4) == 16) by {
        lemma2_to64();
    }
    lemma_frame_field(tc, 0, 4, tc.frames as nat % 10);
    lemma_frame_field(tc, 8, 2, tc.frames as nat / 10);
    lemma_frame_field(tc, 16, 4, tc.seconds as nat % 10);
    lemma_frame_field(tc, 24, 3, tc.seconds as nat / 10);
    lemma_frame_field(tc, 32, 4, tc.minutes as nat % 10);
    lemma_frame_field(tc, 40, 3, tc.minutes as nat / 10);
    lemma_frame_field(tc, 48, 4, tc.hours as nat % 10);
    lemma_frame_field(tc, 56, 2, tc.hours as nat / 10);
}

proof fn lemma_bcd(v: nat, tens: nat)
    requires
        v < 256,
        tens == 4 || tens == 8,
    ensures
        0 <= ((v / 10) % tens) * 10 + (v % 10) % 16 < 256,
        ((v / 10) % tens) * 10 + (v % 10) % 16 == v <==> v < 10 * tens,
{
}

/// Decoding a frame gives back the timecode that it was made from, for every timecode whose
/// fields fit the frame, and for no other.
pub proof fn law_decode_inverts_encode(tc: Timecode)
    ensures
        timecode_of(frame_bits(tc)) == tc <==> fits_frame(tc),
{
    let b = frame_bits(tc);
    let t = timecode_of(b);
    assert(t.drop_frame == tc.drop_frame) by {
        assert(b[10] == plain_bits(tc)[10]);
    }
    assert((t.hours == tc.hours <==> tc.hours < 40) && (t.minutes == tc.minutes <==> tc.minutes
        < 80) && (t.seconds == tc.seconds <==> tc.seconds < 80) && (t.frames == tc.frames
        <==> tc.frames < 40)) by {
        lemma_frame_fields(tc);
        lemma_bcd(tc.hours as nat, 4);
        lemma_bcd(tc.minutes as nat, 8);
        lemma_bcd(tc.seconds as nat, 8);
        lemma_bcd(tc.frames as nat, 4);
    }
}

/// A character that separates the fields of a timecode.
pub open spec fn is_separator(c: char) -> bool {
    c == ':' || c == ';'
}

/// The fields between the separators of a text; one more than there are separators.
pub open spec fn fields(s: Seq<char>) -> Seq<Seq<char>>
    decreases s.len(),
{
    if s.len() == 0 {
        seq![Seq::empty()]
    } else {
        let before = fields(s.drop_last());
        if is_separator(s.last()) {
            before.push(Seq::empty())
        } else {
            before.drop_last().push(before.last().push(s.last()))
        }
    }
}

/// The number of a timecode field: at most 255.
pub open spec fn field_number(s: Seq<char>) -> Option<nat> {
    number_up_to(s, 255)
}

/// What is said of a text that does not have four fields.
pub open spec fn shape_message(s: Seq<char>) -> Seq<char> {
    "expected HH:MM:SS:FF, got "@ + quoted(s)
}

/// What is said of a field that is no number.
pub open spec fn field_message(s: Seq<char>) -> Seq<char> {
    "bad field "@ + quoted(s)
}

/// The timecode that a text stands for, or what is wrong with the text: first that it does not
/// have four fields, then the first field that is no number up to 255.
pub open spec fn parsed(s: Seq<char>) -> Result<Timecode, Seq<char>> {
    let f = fields(s);
    if f.len() != 4 {
        Err(shape_message(s))
    } else if field_number(f[0]) is None {
        Err(field_message(f[0]))
    } else if field_number(f[1]) is None {
        Err(field_message(f[1]))
    } else if field_number(f[2]) is None {
        Err(field_message(f[2]))
    } else if field_number(f[3]) is None {
        Err(field_message(f[3]))
    } else {
        Ok(
            Timecode {
                hours: field_number(f[0])->0 as u8,
                minutes: field_number(f[1])->0 as u8,
                seconds: field_number(f[2])->0 as u8,
                frames: field_number(f[3])->0 as u8,
                drop_frame: s.contains(';'),
            },
        )
    }
}

/// "HH:MM:SS:FF", or "HH:MM:SS;FF" in drop-frame.
pub open spec fn timecode_text(tc: Timecode) -> Seq<char> {
    two_digits(tc.hours as nat) + seq![':'] + two_digits(tc.minutes as nat) + seq![':']
        + two_digits(tc.seconds as nat) + seq![if tc.drop_frame { ';' } else { ':' }]
        + two_digits(tc.frames as nat)
}

/// Where each field of a text starts and ends.
fn field_ranges(s: &Vec<char>) -> (ranges: Vec<(usize, usize)>)
    ensures
        ranges.len() == fields(s@).len(),
        forall|k: int|
            0 <= k < ranges.len() ==> {
                &&& (#[trigger] ranges@[k]).0 <= ranges@[k].1 <= s.len()
                &&& fields(s@)[k] == s@.subrange(ranges@[k].0 as int, ranges@[k].1 as int)
            },
{
    let mut ranges: Vec<(usize, usize)> = Vec::new();
    let mut start: usize = 0;
    let mut i: usize = 0;
    assert(s@.take(0).len() == 0);
    while i < s.len()
        invariant
            start <= i <= s.len(),
            fields(s@.take(i as int)).len() == ranges.len() + 1,
            forall|k: int|
                0 <= k < ranges.len() ==> {
                    &&& (#[trigger] ranges@[k]).0 <= ranges@[k].1 <= s.len()
                    &&& fields(s@.take(i as int))[k] == s@.subrange(
                        ranges@[k].0 as int,
                        ranges@[k].1 as int,
                    )
                },
            fields(s@.take(i as int)).last() == s@.subrange(start as int, i as int),
        decreases s.len() - i,
    {
        assert(s@.take(i + 1).drop_last() == s@.take(i as int));
        let c: char = s[i];
        if c == ':' || c == ';' {
            ranges.push((start, i));
            start = i + 1;
        } else {
            assert(s@.subrange(start as int, i as int).push(c) == s@.subrange(start as int, i + 1));
        }
        i += 1;
    }
    assert(s@.take(i as int) == s@);
    ranges.push((start, i));
    ranges
}

/// Whether the characters hold a semicolon.
fn has_semicolon(s: &Vec<char>) -> (r: bool)
    ensures
        r == s@.contains(';'),
{
    let mut i: usize = 0;
    while i < s.len()
        invariant
            i <= s.len(),
            forall|j: int| 0 <= j < i ==> s@[j] != ';',
        decreases s.len() - i,
    {
        if s[i] == ';' {
            return true;
        }
        i += 1;
    }
    false
}

/// Reads one field, or says that it is no number.
fn read_field(s: &Vec<char>, from: usize, to: usize) -> (r: Result<u8, String>)
    requires
        from <= to <= s.len(),
    ensures
        match r {
            Ok(v) => field_number(s@.subrange(from as int, to as int)) == Some(v as nat),
            Err(m) => {
                &&& field_number(s@.subrange(from as int, to as int)) is None
                &&& m@ == field_message(s@.subrange(from as int, to as int))
            },
        },
{
    match parse_number(s, from, to, 255) {
        Some(v) => Ok(v as u8),
        None => {
            let mut m: String = "bad field ".to_owned();
            let field: String = string_of(s, from, to);
            push_quoted(&mut m, field.as_str());
            Err(m)
        },
    }
}

impl Timecode {
    /// Reads "HH:MM:SS:FF". A ';' before the frames field marks drop-frame, as usual
    /// ("01:00:00;00").
    pub fn parse(s: &str) -> (r: Result<Timecode, String>)
        ensures
            match r {
                Ok(tc) => parsed(s@) == Ok::<Timecode, Seq<char>>(tc),
                Err(m) => parsed(s@) == Err::<Timecode, Seq<char>>(m@),
            },
    {
        let chars: Vec<char> = chars_of(s);
        let ranges: Vec<(usize, usize)> = field_ranges(&chars);
        if ranges.len() != 4 {
            let mut m: String = "expected HH:MM:SS:FF, got ".to_owned();
            push_quoted(&mut m, s);
            return Err(m);
        }
        let hours: u8 = match read_field(&chars, ranges[0].0, ranges[0].1) {
            Ok(v) => v,
            Err(m) => return Err(m),
        };
        let minutes: u8 = match read_field(&chars, ranges[1].0, ranges[1].1) {
            Ok(v) => v,
            Err(m) => return Err(m),
        };
        let seconds: u8 = match read_field(&chars, ranges[2].0, ranges[2].1) {
            Ok(v) => v,
            Err(m) => return Err(m),
        };
        let frames: u8 = match read_field(&chars, ranges[3].0, ranges[3].1) {
            Ok(v) => v,
            Err(m) => return Err(m),
        };
        Ok(Timecode { hours, minutes, seconds, frames, drop_frame: has_semicolon(&chars) })
    }

    /// "HH:MM:SS:FF", or "HH:MM:SS;FF" in drop-frame.
    pub fn to_string(&self) -> (r: String)
        ensures
            r@ == timecode_text(*self),
    {
        let mut out = String::new();
        push_two_digits(&mut out, self.hours);
        out.push(':');
        push_two_digits(&mut out, self.minutes);
        out.push(':');
        push_two_digits(&mut out, self.seconds);
        out.push(if self.drop_frame { ';' } else { ':' });
        push_two_digits(&mut out, self.frames);
        assert(out@ =~= timecode_text(*self));
        out
    }
}

proof fn lemma_digits_push(s: Seq<char>, d: nat)
    requires
        d < 10,
    ensures
        digits_value(s.push(digit_char(d))) == digits_value(s) * 10 + d,
        is_digit(digit_char(d)),
{
    assert(s.push(digit_char(d)).drop_last() == s);
}

proof fn lemma_decimal_reads_back(n: nat)
    ensures
        decimal(n).len() > 0,
        forall|i: int| 0 <= i < decimal(n).len() ==> is_digit(#[trigger] decimal(n)[i]),
        digits_value(decimal(n)) == n,
    decreases n,
{
    if n < 10 {
        lemma_digits_push(Seq::empty(), n);
        assert(decimal(n) == Seq::<char>::empty().push(digit_char(n)));
    } else {
        lemma_decimal_reads_back(n / 10);
        lemma_digits_push(decimal(n / 10), n % 10);
    }
}

proof fn lemma_two_digits_reads_back(n: nat)
    requires
        n <= 255,
    ensures
        forall|i: int| 0 <= i < two_digits(n).len() ==> is_digit(#[trigger] two_digits(n)[i]),
        field_number(two_digits(n)) == Some(n),
{
    lemma_decimal_reads_back(n);
    if n < 10 {
        lemma_digits_push(seq!['0'], n);
        lemma_digits_push(Seq::empty(), 0);
        assert(seq!['0'] == Seq::<char>::empty().push('0'));
        assert(two_digits(n) == seq!['0'].push(digit_char(n)));
    }
    assert(is_digit(two_digits(n)[0]));
    assert(unsigned_part(two_digits(n)) == two_digits(n));
}

proof fn lemma_fields_of_tail(a: Seq<char>, b: Seq<char>)
    requires
        a.len() > 0,
        is_separator(a.last()),
        forall|i: int| 0 <= i < b.len() ==> !is_separator(#[trigger] b[i]),
    ensures
        fields(a + b) == fields(a.drop_last()).push(b),
    decreases b.len(),
{
    if b.len() == 0 {
        assert(a + b == a);
        assert(b == Seq::<char>::empty());
    } else {
        lemma_fields_of_tail(a, b.drop_last());
        assert((a + b).drop_last() == a + b.drop_last());
        assert(b.drop_last().push(b.last()) == b);
        assert(fields(a.drop_last()).push(b.drop_last()).drop_last() == fields(a.drop_last()));
    }
}

proof fn lemma_fields_of_one(b: Seq<char>)
    requires
        forall|i: int| 0 <= i < b.len() ==> !is_separator(#[trigger] b[i]),
    ensures
        fields(b) == seq![b],
    decreases b.len(),
{
    if b.len() == 0 {
        assert(b == Seq::<char>::empty());
    } else {
        lemma_fields_of_one(b.drop_last());
        assert(b.drop_last().push(b.last()) == b);
        assert(seq![b.drop_last()].drop_last().push(b) == seq![b]);
    }
}

/// Reading the text of a timecode gives back the timecode, whatever its fields hold.
pub proof fn law_parse_inverts_to_string(tc: Timecode)
    ensures
        parsed(timecode_text(tc)) == Ok::<Timecode, Seq<char>>(tc),
{
    let h = two_digits(tc.hours as nat);
    let m = two_digits(tc.minutes as nat);
    let s = two_digits(tc.seconds as nat);
    let f = two_digits(tc.frames as nat);
    let sep = if tc.drop_frame {
        ';'
    } else {
        ':'
    };
    lemma_two_digits_reads_back(tc.hours as nat);
    lemma_two_digits_reads_back(tc.minutes as nat);
    lemma_two_digits_reads_back(tc.seconds as nat);
    lemma_two_digits_reads_back(tc.frames as nat);
    let a1 = h + seq![':'];
    let a2 = a1 + m + seq![':'];
    let a3 = a2 + s + seq![sep];
    let text = timecode_text(tc);
    assert(text == a3 + f);
    assert(a1.drop_last() == h);
    assert(a2.drop_last() == a1 + m);
    assert(a3.drop_last() == a2 + s);
    lemma_fields_of_one(h);
    lemma_fields_of_tail(a1, m);
    lemma_fields_of_tail(a2, s);
    lemma_fields_of_tail(a3, f);
    assert(fields(text) == seq![h, m, s, f]);
    assert(text.contains(';') == tc.drop_frame) by {
        if tc.drop_frame {
            assert(text[a3.len() - 1] == ';');
        } else {
            assert forall|i: int| 0 <= i < text.len() implies text[i] != ';' by {
                let n1 = a1.len() as int;
                let n2 = a2.len() as int;
                let n3 = a3.len() as int;
                if i < h.len() {
                    assert(text[i] == h[i]);
                } else if n1 <= i < n1 + m.len() {
                    assert(text[i] == m[i - n1]);
                } else if n2 <= i < n2 + s.len() {
                    assert(text[i] == s[i - n2]);
                } else if n3 <= i {
                    assert(text[i] == f[i - n3]);
                }
            }
        }
    }
}

/// The timecode one frame after `tc` at `fps` frame numbers a second. In drop-frame, frame
/// numbers 00 and 01 are left out at the top of every minute except every tenth.
pub open spec fn successor(tc: Timecode, fps: u8) -> Timecode {
    if tc.frames + 1 < fps {
        Timecode { frames: (tc.frames + 1) as u8, ..tc }
    } else if tc.seconds + 1 < 60 {
        Timecode { frames: 0, seconds: (tc.seconds + 1) as u8, ..tc }
    } else {
        let minutes: u8 = if tc.minutes + 1 < 60 {
            (tc.minutes + 1) as u8
        } else {
            0
        };
        let hours: u8 = if tc.minutes + 1 < 60 {
            tc.hours
        } else {
            ((tc.hours + 1) % 24) as u8
        };
        let frames: u8 = if tc.drop_frame && minutes % 10 != 0 {
            2
        } else {
            0
        };
        Timecode { hours, minutes, seconds: 0, frames, drop_frame: tc.drop_frame }
    }
}

/// No field that is counted up on the way from `tc` to the next frame is at 255 already.
pub open spec fn can_step(tc: Timecode, fps: u8) -> bool {
    &&& tc.frames < 255
    &&& tc.frames + 1 >= fps ==> {
        &&& tc.seconds < 255
        &&& tc.seconds + 1 >= 60 ==> {
            &&& tc.minutes < 255
            &&& tc.minutes + 1 >= 60 ==> tc.hours < 255
        }
    }
}

/// Increments by one frame. `fps` is the NOMINAL number of frames a second, by which frames are
/// numbered (30 for 29.97, 24 for 23.976).
pub fn next_frame(tc: Timecode, fps: u8) -> (r: Timecode)
    requires
        can_step(tc, fps),
    ensures
        r == successor(tc, fps),
{
    let mut t: Timecode = tc;
    t.frames = t.frames + 1;
    if t.frames >= fps {
        t.frames = 0;
        t.seconds = t.seconds + 1;
        if t.seconds >= 60 {
            t.seconds = 0;
            t.minutes = t.minutes + 1;
            if t.minutes >= 60 {
                t.minutes = 0;
                t.hours = (t.hours + 1) % 24;
            }
            if t.drop_frame && t.minutes % 10 != 0 {
                t.frames = 2;
            }
        }
    }
    t
}

/// Whether the step to the next frame can be taken.
pub fn has_next(tc: Timecode, fps: u8) -> (r: bool)
    ensures
        r == can_step(tc, fps),
{
    tc.frames < 255 && (tc.frames + 1 < fps || (tc.seconds < 255 && (tc.seconds + 1 < 60 || (
    tc.minutes < 255 && (tc.minutes + 1 < 60 || tc.hours < 255)))))
}

/// The timecode `n` frames after `start`.
pub open spec fn nth_frame(start: Timecode, n: nat, fps: u8) -> Timecode
    decreases n,
{
    if n == 0 {
        start
    } else {
        successor(nth_frame(start, (n - 1) as nat, fps), fps)
    }
}

/// Each of the `count` steps from `start` on can be taken.
pub open spec fn can_count(start: Timecode, count: nat, fps: u8) -> bool {
    forall|k: nat| k < count ==> can_step(#[trigger] nth_frame(start, k, fps), fps)
}

/// `count` timecodes, one frame after the other, the first of which is `start`.
pub fn sequence(start: Timecode, count: u32, fps: u8) -> (v: Vec<Timecode>)
    requires
        can_count(start, count as nat, fps),
    ensures
        v.len() == count,
        forall|i: int| 0 <= i < count ==> #[trigger] v@[i] == nth_frame(start, i as nat, fps),
{
    let mut v: Vec<Timecode> = Vec::new();
    let mut t: Timecode = start;
    let mut i: u32 = 0;
    while i < count
        invariant
            i <= count,
            can_count(start, count as nat, fps),
            v.len() == i,
            t == nth_frame(start, i as nat, fps),
            forall|j: int| 0 <= j < i ==> #[trigger] v@[j] == nth_frame(start, j as nat, fps),
        decreases count - i,
    {
        v.push(t);
        t = next_frame(t, fps);
        i += 1;
    }
    v
}

/// The timecodes of `sequence`, or `None` where a field would have to be counted past 255.
pub fn checked_sequence(start: Timecode, count: u32, fps: u8) -> (r: Option<Vec<Timecode>>)
    ensures
        match r {
            Some(v) => {
                &&& can_count(start, count as nat, fps)
                &&& v.len() == count
                &&& forall|i: int|
                    0 <= i < count ==> #[trigger] v@[i] == nth_frame(start, i as nat, fps)
            },
            None => !can_count(start, count as nat, fps),
        },
{
    let mut t: Timecode = start;
    let mut i: u32 = 0;
    while i < count
        invariant
            i <= count,
            t == nth_frame(start, i as nat, fps),
            can_count(start, i as nat, fps),
        decreases count - i,
    {
        if !has_next(t, fps) {
            assert(!can_step(nth_frame(start, i as nat, fps), fps));
            return None;
        }
        t = next_frame(t, fps);
        i += 1;
    }
    Some(sequence(start, count, fps))
}

/// Each time field of a frame is a BCD number, low bit first: the units of the frames in bits 0 to
/// 3 and the tens in 8 and 9, the seconds in 16 to 19 and 24 to 26, the minutes in 32 to 35 and 40
/// to 42, the hours in 48 to 51 and 56 and 57. Bit 10 is the drop-frame flag.
pub proof fn law_fields_are_bcd(bits: Seq<bool>)
    ensures
        ({
            let t = timecode_of(bits);
            let one = |i: int| if bits[i] { 1int } else { 0int };
            &&& t.frames == one(0) + 2 * one(1) + 4 * one(2) + 8 * one(3) + 10 * (one(8) + 2 * one(9))
            &&& t.seconds == one(16) + 2 * one(17) + 4 * one(18) + 8 * one(19) + 10 * (one(24) + 2
                * one(25) + 4 * one(26))
            &&& t.minutes == one(32) + 2 * one(33) + 4 * one(34) + 8 * one(35) + 10 * (one(40) + 2
                * one(41) + 4 * one(42))
            &&& t.hours == one(48) + 2 * one(49) + 4 * one(50) + 8 * one(51) + 10 * (one(56) + 2
                * one(57))
            &&& t.drop_frame == bits[10]
        }),
{
    reveal_with_fuel(field_value, 5);
}

/// Only the bits of the time fields and the drop-frame flag are read: frames that agree on those
/// hold the same timecode, whatever their user bits and other flags are.
pub proof fn law_user_bits_are_not_read(a: Seq<bool>, b: Seq<bool>)
    requires
        forall|i: int|
            0 <= i <= 3 || 8 <= i <= 10 || 16 <= i <= 19 || 24 <= i <= 26 || 32 <= i <= 35 || 40 <= i
                <= 42 || 48 <= i <= 51 || 56 <= i <= 57 ==> #[trigger] a[i] == b[i],
    ensures
        timecode_of(a) == timecode_of(b),
{
    law_fields_are_bcd(a);
    law_fields_are_bcd(b);
}

/// A frame with any user bits and flags round the time fields of `tc` decodes to `tc`.
pub proof fn law_frame_with_user_bits_decodes(tc: Timecode, bits: Seq<bool>)
    requires
        tc.hours < 40 && tc.minutes < 80 && tc.seconds < 80 && tc.frames < 40,
        forall|i: int|
            0 <= i <= 3 || 8 <= i <= 10 || 16 <= i <= 19 || 24 <= i <= 26 || 32 <= i <= 35 || 40 <= i
                <= 42 || 48 <= i <= 51 || 56 <= i <= 57 ==> #[trigger] bits[i] == frame_bits(tc)[i],
    ensures
        timecode_of(bits) == tc,
{
    law_user_bits_are_not_read(bits, frame_bits(tc));
    law_decode_inverts_encode(tc);
}

/// A frame has no user bits and no flags set, but for the drop-frame flag and bit 27.
pub proof fn law_frame_has_no_user_bits(tc: Timecode, i: int)
    requires
        4 <= i <= 7 || 11 <= i <= 15 || 20 <= i <= 23 || 28 <= i <= 31 || 36 <= i <= 39 || 43 <= i
            <= 47 || 52 <= i <= 55 || 58 <= i <= 63,
    ensures
        !frame_bits(tc)[i],
{
    assert(frame_bits(tc)[i] == plain_bits(tc)[i]);
}

/// Of a field that is too large for its place in the frame, the units and the low bits of the tens
/// are left.
pub proof fn law_large_fields_are_cut(tc: Timecode)
    ensures
        ({
            let t = timecode_of(frame_bits(tc));
            &&& t.hours == (tc.hours / 10) % 4 * 10 + tc.hours % 10
            &&& t.minutes == (tc.minutes / 10) % 8 * 10 + tc.minutes % 10
            &&& t.seconds == (tc.seconds / 10) % 8 * 10 + tc.seconds % 10
            &&& t.frames == (tc.frames / 10) % 4 * 10 + tc.frames % 10
            &&& t.drop_frame == tc.drop_frame
        }),
{
    lemma_frame_fields(tc);
    lemma_bcd(tc.hours as nat, 4);
    lemma_bcd(tc.minutes as nat, 8);
    lemma_bcd(tc.seconds as nat, 8);
    lemma_bcd(tc.frames as nat, 4);
    assert(frame_bits(tc)[10] == plain_bits(tc)[10]);
}

/// The sync word is 0011 1111 1111 1101: no frame is without it.
pub proof fn law_sync_word(tc: Timecode)
    ensures
        forall|i: int|
            64 <= i < 80 ==> #[trigger] frame_bits(tc)[i] == (i != 64 && i != 65 && i != 78),
{
    law_frame_ends_in_sync(tc);
    assert forall|i: int| 64 <= i < 80 implies #[trigger] frame_bits(tc)[i] == (i != 64 && i != 65
        && i != 78) by {
        assert(frame_bits(tc).subrange(64, 80)[i - 64] == frame_bits(tc)[i]);
    }
}

proof fn lemma_zeros_filter(bits: Seq<bool>)
    ensures
        zeros(bits) == bits.filter(|b: bool| !b).len(),
    decreases bits.len(),
{
    reveal(Seq::filter);
    if bits.len() > 0 {
        lemma_zeros_filter(bits.drop_last());
    }
}

/// Every frame has an even number of bits that are 0, all eighty of them counted.
pub proof fn law_zeros_counted_are_even(tc: Timecode)
    ensures
        frame_bits(tc).len() == 80,
        frame_bits(tc).filter(|b: bool| !b).len() % 2 == 0,
{
    law_zeros_even(tc);
    lemma_zeros_filter(frame_bits(tc));
}

/// The bits of several frames are those of each, one frame after the other.
pub proof fn law_bits_of_frames(tcs: Seq<Timecode>, f: int)
    requires
        0 <= f < tcs.len(),
    ensures
        bits_of(tcs).len() == 80 * tcs.len(),
        bits_of(tcs).subrange(80 * f, 80 * f + 80) == frame_bits(tcs[f]),
{
    assert(bits_of(tcs).subrange(80 * f, 80 * f + 80) =~= frame_bits(tcs[f])) by {
        assert forall|i: int| 0 <= i < 80 implies bits_of(tcs)[80 * f + i] == frame_bits(tcs[f])[i] by {
            assert((80 * f + i) / 80 == f && (80 * f + i) % 80 == i);
        }
    }
}

/// A text of four fields between colons and semicolons is read field by field: as hours, minutes,
/// seconds and frames, in drop-frame where one of the separators is a semicolon. Where a field is
/// no number up to 255, the first such field is named.
pub proof fn law_parse_reads_four_fields(
    a: Seq<char>,
    b: Seq<char>,
    c: Seq<char>,
    d: Seq<char>,
    s1: char,
    s2: char,
    s3: char,
)
    requires
        s1 == ':' || s1 == ';',
        s2 == ':' || s2 == ';',
        s3 == ':' || s3 == ';',
        !a.contains(':') && !a.contains(';'),
        !b.contains(':') && !b.contains(';'),
        !c.contains(':') && !c.contains(';'),
        !d.contains(':') && !d.contains(';'),
    ensures
        ({
            let r = parsed(a + seq![s1] + b + seq![s2] + c + seq![s3] + d);
            if number_up_to(a, 255) is None {
                r == Err::<Timecode, Seq<char>>("bad field "@ + quoted(a))
            } else if number_up_to(b, 255) is None {
                r == Err::<Timecode, Seq<char>>("bad field "@ + quoted(b))
            } else if number_up_to(c, 255) is None {
                r == Err::<Timecode, Seq<char>>("bad field "@ + quoted(c))
            } else if number_up_to(d, 255) is None {
                r == Err::<Timecode, Seq<char>>("bad field "@ + quoted(d))
            } else {
                &&& r is Ok
                &&& number_up_to(a, 255) == Some(r->Ok_0.hours as nat)
                &&& number_up_to(b, 255) == Some(r->Ok_0.minutes as nat)
                &&& number_up_to(c, 255) == Some(r->Ok_0.seconds as nat)
                &&& number_up_to(d, 255) == Some(r->Ok_0.frames as nat)
                &&& r->Ok_0.drop_frame == (s1 == ';' || s2 == ';' || s3 == ';')
            }
        }),
{
    let a1 = a + seq![s1];
    let a2 = a1 + b + seq![s2];
    let a3 = a2 + c + seq![s3];
    let text = a3 + d;
    assert(text =~= a + seq![s1] + b + seq![s2] + c + seq![s3] + d);
    assert(a1.drop_last() =~= a);
    assert(a2.drop_last() =~= a1 + b);
    assert(a3.drop_last() =~= a2 + c);
    lemma_fields_of_one(a);
    lemma_fields_of_tail(a1, b);
    lemma_fields_of_tail(a2, c);
    lemma_fields_of_tail(a3, d);
    assert(fields(text) =~= seq![a, b, c, d]);
    let n1 = a1.len() as int;
    let n2 = a2.len() as int;
    let n3 = a3.len() as int;
    assert(text[n1 - 1] == s1 && text[n2 - 1] == s2 && text[n3 - 1] == s3);
    if s1 != ';' && s2 != ';' && s3 != ';' {
        assert forall|i: int| 0 <= i < text.len() implies text[i] != ';' by {
            if i < a.len() {
                assert(text[i] == a[i]);
            } else if n1 <= i < n1 + b.len() {
                assert(text[i] == b[i - n1]);
            } else if n2 <= i < n2 + c.len() {
                assert(text[i] == c[i - n2]);
            } else if n3 <= i {
                assert(text[i] == d[i - n3]);
            }
        }
    }
}

proof fn lemma_fields_counted(s: Seq<char>)
    ensures
        fields(s).len() == s.filter(|c: char| c == ':' || c == ';').len() + 1,
    decreases s.len(),
{
    reveal(Seq::filter);
    if s.len() > 0 {
        lemma_fields_counted(s.drop_last());
    }
}

/// A text that does not have exactly three colons and semicolons is rejected.
pub proof fn law_parse_rejects_other_shapes(s: Seq<char>)
    requires
        s.filter(|c: char| c == ':' || c == ';').len() != 3,
    ensures
        parsed(s) == Err::<Timecode, Seq<char>>("expected HH:MM:SS:FF, got "@ + quoted(s)),
{
    lemma_fields_counted(s);
}

/// Where the second has another frame, only the frame number goes up.
pub proof fn law_next_within_second(tc: Timecode, fps: u8)
    requires
        tc.frames + 1 < fps,
    ensures
        ({
            let t = successor(tc, fps);
            &&& t.frames == tc.frames + 1
            &&& t.seconds == tc.seconds && t.minutes == tc.minutes && t.hours == tc.hours
            &&& t.drop_frame == tc.drop_frame
        }),
{
}

/// Behind the last frame of a second comes the next second of the day, at frame 0; in drop-frame
/// at frame 2 where a minute starts that is not a tenth one. It does not matter how far past its
/// last frame the second was numbered.
pub proof fn law_next_starts_a_second(tc: Timecode, fps: u8)
    requires
        tc.frames + 1 >= fps,
        tc.hours < 24 && tc.minutes < 60 && tc.seconds < 60,
    ensures
        ({
            let t = successor(tc, fps);
            &&& t.hours < 24 && t.minutes < 60 && t.seconds < 60
            &&& t.hours * 3600 + t.minutes * 60 + t.seconds == (tc.hours * 3600 + tc.minutes * 60
                + tc.seconds + 1) % 86400
            &&& t.frames == if tc.drop_frame && t.seconds == 0 && t.minutes % 10 != 0 {
                2int
            } else {
                0int
            }
            &&& t.drop_frame == tc.drop_frame
        }),
{
}

/// Fields that are out of range count up no further: behind the last frame of a second numbered 59
/// or more comes second 0 of the next minute, and so on with the minutes; the hours go on modulo
/// 24.
pub proof fn law_next_brings_fields_into_range(tc: Timecode, fps: u8)
    requires
        tc.frames + 1 >= fps,
    ensures
        ({
            let t = successor(tc, fps);
            &&& t.seconds < 60 && (tc.seconds >= 59 <==> t.seconds == 0)
            &&& tc.seconds < 59 ==> t.seconds == tc.seconds + 1 && t.minutes == tc.minutes && t.hours
                == tc.hours
            &&& tc.seconds >= 59 ==> t.minutes < 60 && (tc.minutes >= 59 <==> t.minutes == 0)
            &&& tc.seconds >= 59 && tc.minutes < 59 ==> t.minutes == tc.minutes + 1 && t.hours
                == tc.hours
            &&& tc.seconds >= 59 && tc.minutes >= 59 ==> t.hours < 24 && (t.hours - tc.hours - 1) % 24
                == 0
            &&& t.frames == if tc.drop_frame && tc.seconds >= 59 && t.minutes % 10 != 0 {
                2int
            } else {
                0int
            }
        }),
{
}

/// From a start with no field at 255, frames can be counted without end.
pub proof fn law_counting_does_not_stop(start: Timecode, n: nat, fps: u8)
    requires
        start.hours < 255 && start.minutes < 255 && start.seconds < 255 && start.frames < 255,
    ensures
        can_count(start, n, fps),
{
    assert forall|k: nat| k < n implies can_step(#[trigger] nth_frame(start, k, fps), fps) by {
        lemma_no_field_fills_up(start, k, fps);
    }
}

proof fn lemma_no_field_fills_up(start: Timecode, n: nat, fps: u8)
    requires
        start.hours < 255 && start.minutes < 255 && start.seconds < 255 && start.frames < 255,
    ensures
        ({
            let t = nth_frame(start, n, fps);
            t.hours < 255 && t.minutes < 255 && t.seconds < 255 && t.frames < 255
        }),
    decreases n,
{
    if n > 0 {
        lemma_no_field_fills_up(start, (n - 1) as nat, fps);
    }
}

/// Counting on from where a count ended is counting in one go, and each step is one frame.
pub proof fn law_counts_add_up(start: Timecode, n: nat, m: nat, fps: u8)
    ensures
        nth_frame(start, 0, fps) == start,
        nth_frame(start, 1, fps) == successor(start, fps),
        nth_frame(nth_frame(start, n, fps), m, fps) == nth_frame(start, n + m, fps),
    decreases m,
{
    reveal_with_fuel(nth_frame, 2);
    if m > 0 {
        law_counts_add_up(start, n, (m - 1) as nat, fps);
    }
}

/// The text of a timecode with fields of two digits is HH:MM:SS:FF, with a semicolon before the
/// frames in drop-frame alone.
pub proof fn law_text_has_its_shape(tc: Timecode)
    requires
        tc.hours < 100 && tc.minutes < 100 && tc.seconds < 100 && tc.frames < 100,
    ensures
        ({
            let t = timecode_text(tc);
            &&& t.len() == 11
            &&& number_up_to(t.subrange(0, 2), 99) == Some(tc.hours as nat)
            &&& number_up_to(t.subrange(3, 5), 99) == Some(tc.minutes as nat)
            &&& number_up_to(t.subrange(6, 8), 99) == Some(tc.seconds as nat)
            &&& number_up_to(t.subrange(9, 11), 99) == Some(tc.frames as nat)
            &&& t[2] == ':' && t[5] == ':'
            &&& t[8] == if tc.drop_frame {
                ';'
            } else {
                ':'
            }
        }),
{
    law_two_digits_are_read_back(tc.hours as nat);
    law_two_digits_are_read_back(tc.minutes as nat);
    law_two_digits_are_read_back(tc.seconds as nat);
    law_two_digits_are_read_back(tc.frames as nat);
    let t = timecode_text(tc);
    assert(t.subrange(0, 2) =~= two_digits(tc.hours as nat));
    assert(t.subrange(3, 5) =~= two_digits(tc.minutes as nat));
    assert(t.subrange(6, 8) =~= two_digits(tc.seconds as nat));
    assert(t.subrange(9, 11) =~= two_digits(tc.frames as nat));
}

} // verus!
