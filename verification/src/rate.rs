//! Frame rates. A rate has a NOMINAL number of frames a second, by which frames are numbered,
//! and a REAL one, which times the samples; drop-frame goes with the 29.97 family only.

use vstd::prelude::*;

use crate::text::{decimal, push_decimal, push_quoted, push_two_digits, quoted, str_eq, two_digits};

verus! {

/// The number `num / den`.
#[derive(Clone, Copy, Debug, PartialEq, Eq, Structural)]
pub struct Ratio {
    pub num: u32,
    pub den: u32,
}

/// A frame rate.
#[derive(Clone, Copy, Debug, PartialEq, Eq, Structural)]
pub struct RateSpec {
    pub nominal: u8,
    pub real: Ratio,
    pub drop: bool,
}

/// The names of the usual rates.
pub const PRESETS: [&'static str; 5] = ["24", "25", "30", "29.97", "23.976"];

/// `num / den` is less than a millionth away from a whole number.
pub open spec fn nearly_whole(num: nat, den: nat) -> bool {
    let r = num % den;
    r * 1_000_000 < den || (den - r) * 1_000_000 < den
}

/// `num / den` in hundredths, rounded to the nearest; where two are as near, to the even one.
pub open spec fn hundredths(num: nat, den: nat) -> nat {
    let h = (num * 100) / den;
    let r = (num * 100) % den;
    if 2 * r > den || (2 * r == den && h % 2 == 1) {
        h + 1
    } else {
        h
    }
}

/// `num / den` with two decimals.
pub open spec fn two_decimals(num: nat, den: nat) -> Seq<char> {
    let h = hundredths(num, den);
    decimal(h / 100) + seq!['.'] + two_digits(h % 100)
}

/// A short name for a rate: its nominal number where the real rate is whole, else the real rate
/// with two decimals.
pub open spec fn rate_label(rate: RateSpec) -> Seq<char> {
    let num = rate.real.num as nat;
    let den = rate.real.den as nat;
    if nearly_whole(num, den) {
        decimal(rate.nominal as nat)
    } else {
        two_decimals(num, den)
    }
}

impl RateSpec {
    /// A short name: "30", "29.97".
    pub fn label(&self) -> (r: String)
        requires
            self.real.den > 0,
        ensures
            r@ == rate_label(*self),
    {
        let num: u64 = self.real.num as u64;
        let den: u64 = self.real.den as u64;
        let rest: u64 = num % den;
        let mut out = String::new();
        if rest * 1_000_000 < den || (den - rest) * 1_000_000 < den {
            push_decimal(&mut out, self.nominal as u64);
        } else {
            let mut h: u64 = num * 100 / den;
            let r: u64 = num * 100 % den;
            if 2 * r > den || (2 * r == den && h % 2 == 1) {
                h = h + 1;
            }
            push_decimal(&mut out, h / 100);
            out.push('.');
            push_two_digits(&mut out, (h % 100) as u8);
        }
        out
    }
}

/// 30000 / 1001, the real rate of 29.97.
pub open spec fn real_2997() -> Ratio {
    Ratio { num: 30_000, den: 1001 }
}

/// 24000 / 1001, the real rate of 23.976.
pub open spec fn real_2398() -> Ratio {
    Ratio { num: 24_000, den: 1001 }
}

/// The rate with the name `fps`, for a start that is in drop-frame or not. In drop-frame, 30 is
/// short for 29.97.
pub open spec fn named_rate(fps: Seq<char>, start_is_df: bool) -> Option<RateSpec> {
    if fps == "24"@ {
        Some(RateSpec { nominal: 24, real: Ratio { num: 24, den: 1 }, drop: false })
    } else if fps == "25"@ {
        Some(RateSpec { nominal: 25, real: Ratio { num: 25, den: 1 }, drop: false })
    } else if fps == "30"@ && start_is_df {
        Some(RateSpec { nominal: 30, real: real_2997(), drop: true })
    } else if fps == "30"@ {
        Some(RateSpec { nominal: 30, real: Ratio { num: 30, den: 1 }, drop: false })
    } else if fps == "29.97"@ || fps == "29.97df"@ {
        Some(RateSpec { nominal: 30, real: real_2997(), drop: start_is_df })
    } else if fps == "23.976"@ || fps == "23.98"@ {
        Some(RateSpec { nominal: 24, real: real_2398(), drop: false })
    } else {
        None
    }
}

/// The rate with the name `fps`; nothing where no rate has that name.
pub fn find_rate(fps: &str, start_is_df: bool) -> (r: Option<RateSpec>)
    ensures
        r == named_rate(fps@, start_is_df),
{
    if str_eq(fps, "24") {
        Some(RateSpec { nominal: 24, real: Ratio { num: 24, den: 1 }, drop: false })
    } else if str_eq(fps, "25") {
        Some(RateSpec { nominal: 25, real: Ratio { num: 25, den: 1 }, drop: false })
    } else if str_eq(fps, "30") && start_is_df {
        Some(RateSpec { nominal: 30, real: Ratio { num: 30_000, den: 1001 }, drop: true })
    } else if str_eq(fps, "30") {
        Some(RateSpec { nominal: 30, real: Ratio { num: 30, den: 1 }, drop: false })
    } else if str_eq(fps, "29.97") || str_eq(fps, "29.97df") {
        Some(RateSpec { nominal: 30, real: Ratio { num: 30_000, den: 1001 }, drop: start_is_df })
    } else if str_eq(fps, "23.976") || str_eq(fps, "23.98") {
        Some(RateSpec { nominal: 24, real: Ratio { num: 24_000, den: 1001 }, drop: false })
    } else {
        None
    }
}

/// What is said of a name that no rate has; `option` is what the rate is called there.
pub open spec fn unsupported_message(option: Seq<char>, fps: Seq<char>) -> Seq<char> {
    "unsupported "@ + option + " "@ + quoted(fps) + " (try 24, 25, 30, 29.97, 23.976)"@
}

/// What is said of drop-frame at a rate that has none.
pub open spec fn no_drop_message(fps: Seq<char>) -> Seq<char> {
    "drop-frame (';') is only defined for 29.97, not "@ + fps + " fps"@
}

/// The rate with the name `fps`, or what is wrong with it: that no rate has that name, or that a
/// start in drop-frame was given for a rate without drop-frame.
pub open spec fn parsed_rate(option: Seq<char>, fps: Seq<char>, start_is_df: bool) -> Result<
    RateSpec,
    Seq<char>,
> {
    match named_rate(fps, start_is_df) {
        None => Err(unsupported_message(option, fps)),
        Some(rate) => if start_is_df && !rate.drop {
            Err(no_drop_message(fps))
        } else {
            Ok(rate)
        },
    }
}

/// Reads the name of a rate, where messages call the rate by the name `option`.
pub fn parse_rate_option(option: &str, fps: &str, start_is_df: bool) -> (r: Result<
    RateSpec,
    String,
>)
    ensures
        match r {
            Ok(rate) => parsed_rate(option@, fps@, start_is_df) == Ok::<RateSpec, Seq<char>>(rate),
            Err(m) => parsed_rate(option@, fps@, start_is_df) == Err::<RateSpec, Seq<char>>(m@),
        },
{
    match find_rate(fps, start_is_df) {
        None => {
            let mut m: String = "unsupported ".to_owned();
            m.append(option);
            m.append(" ");
            push_quoted(&mut m, fps);
            m.append(" (try 24, 25, 30, 29.97, 23.976)");
            Err(m)
        },
        Some(rate) => if start_is_df && !rate.drop {
            let mut m: String = "drop-frame (';') is only defined for 29.97, not ".to_owned();
            m.append(fps);
            m.append(" fps");
            Err(m)
        } else {
            Ok(rate)
        },
    }
}

/// Reads the name of a rate: 24, 25, 30, 29.97 or 23.976, for a start that is in drop-frame or
/// not.
pub fn parse_rate(fps: &str, start_is_df: bool) -> (r: Result<RateSpec, String>)
    ensures
        match r {
            Ok(rate) => parsed_rate("fps"@, fps@, start_is_df) == Ok::<RateSpec, Seq<char>>(rate),
            Err(m) => parsed_rate("fps"@, fps@, start_is_df) == Err::<RateSpec, Seq<char>>(m@),
        },
{
    parse_rate_option("fps", fps, start_is_df)
}

/// Every preset is the name of a rate.
pub proof fn law_presets_are_rates(i: int, option: Seq<char>)
    requires
        0 <= i < PRESETS@.len(),
    ensures
        parsed_rate(option, PRESETS@[i]@, false) is Ok,
{
    assert(PRESETS@[0]@ == "24"@ && PRESETS@[1]@ == "25"@ && PRESETS@[2]@ == "30"@ && PRESETS@[3]@
        == "29.97"@ && PRESETS@[4]@ == "23.976"@);
}

/// A rate is in drop-frame exactly where the start is, and drop-frame goes with 30 frame numbers
/// at 30000 / 1001 frames a second. The real rate is the nominal one, or that by 1000 / 1001.
pub proof fn law_drop_frame_is_2997(option: Seq<char>, fps: Seq<char>, start_is_df: bool)
    ensures
        match parsed_rate(option, fps, start_is_df) {
            Ok(rate) => {
                &&& rate.drop == start_is_df
                &&& rate.drop ==> rate.nominal == 30 && rate.real == real_2997()
                &&& rate.real == (Ratio { num: rate.nominal as u32, den: 1 }) || rate.real == (
                Ratio { num: (rate.nominal * 1000) as u32, den: 1001 })
            },
            Err(_) => true,
        },
{
}

/// A whole rate is called by its nominal number; so is one that is less than a millionth away from
/// a whole number `w`. Any other, between `w` and the next, is called by the number of hundredths
/// that is the nearest to it, or by the even one where two are as near.
pub proof fn law_label_is_the_nearest(rate: RateSpec, w: nat)
    requires
        rate.real.den > 0,
    ensures
        ({
            let num = rate.real.num as int;
            let den = rate.real.den as int;
            let label = rate_label(rate);
            &&& num % den == 0 ==> label == decimal(rate.nominal as nat)
            &&& -den < (num - w * den) * 1_000_000 < den ==> label == decimal(rate.nominal as nat)
            &&& (num - w * den) * 1_000_000 >= den && (w * den + den - num) * 1_000_000 >= den
                ==> exists|h: nat|
                #![trigger decimal(h / 100)]
                {
                    &&& label == decimal(h / 100) + seq!['.'] + two_digits(h % 100)
                    &&& -den <= 2 * (num * 100 - h * den) <= den
                    &&& 2 * (num * 100 - h * den) == den || 2 * (num * 100 - h * den) == -den ==> h
                        % 2 == 0
                }
        }),
{
    let num = rate.real.num as int;
    let den = rate.real.den as int;
    let q = num / den;
    let r = num % den;
    vstd::arithmetic::div_mod::lemma_fundamental_div_mod(num, den);
    vstd::arithmetic::div_mod::lemma_mod_bound(num, den);
    if -den < (num - w * den) * 1_000_000 < den {
        let e = num - w * den;
        assert(-den < e < den);
        if e >= 0 {
            assert(w * den == den * w) by (nonlinear_arith);
            vstd::arithmetic::div_mod::lemma_fundamental_div_mod_converse(num, den, w as int, e);
        } else {
            assert((w - 1) * den == w * den - den) by (nonlinear_arith);
            assert((w - 1) * den == den * (w - 1)) by (nonlinear_arith);
            vstd::arithmetic::div_mod::lemma_fundamental_div_mod_converse(
                num,
                den,
                w - 1,
                e + den,
            );
        }
    }
    if (num - w * den) * 1_000_000 >= den && (w * den + den - num) * 1_000_000 >= den {
        assert(w * den == den * w) by (nonlinear_arith);
        vstd::arithmetic::div_mod::lemma_fundamental_div_mod_converse(
            num,
            den,
            w as int,
            num - w * den,
        );
        assert(!nearly_whole(num as nat, den as nat));
    }
    let h = hundredths(num as nat, den as nat);
    let g = (num * 100) / den;
    let s = (num * 100) % den;
    vstd::arithmetic::div_mod::lemma_fundamental_div_mod(num * 100, den);
    vstd::arithmetic::div_mod::lemma_mod_bound(num * 100, den);
    assert(g * den == den * g && (g + 1) * den == den * g + den) by (nonlinear_arith);
    assert(-den <= 2 * (num * 100 - h * den) <= den);
    if !nearly_whole(num as nat, den as nat) {
        assert(rate_label(rate) == decimal(h / 100) + seq!['.'] + two_digits(h % 100));
    }
}

/// The rates that have names: 24, 25, 30 and 29.97, the latter also with df behind it, and 23.976,
/// which may be written 23.98. No other name is read, and in drop-frame only those of 30 frames a
/// second are. The real rate is the nominal one by 1000 / 1001 for 29.97 and 23.976, and for 30 in
/// drop-frame; else it is the nominal one itself.
pub proof fn law_names_of_rates(option: Seq<char>, fps: Seq<char>, start_is_df: bool)
    ensures
        ({
            let ntsc = fps == "29.97"@ || fps == "29.97df"@;
            let film = fps == "23.976"@ || fps == "23.98"@;
            let whole = fps == "24"@ || fps == "25"@ || fps == "30"@;
            match parsed_rate(option, fps, start_is_df) {
                Ok(rate) => {
                    &&& ntsc || film || whole
                    &&& start_is_df ==> ntsc || fps == "30"@
                    &&& rate.nominal == 24 <==> film || fps == "24"@
                    &&& rate.nominal == 25 <==> fps == "25"@
                    &&& rate.nominal == 30 <==> ntsc || fps == "30"@
                    &&& ntsc || film || start_is_df ==> rate.real.num == rate.nominal * 1000
                        && rate.real.den == 1001
                    &&& whole && !start_is_df ==> rate.real.num == rate.nominal && rate.real.den == 1
                },
                Err(m) => {
                    &&& !ntsc && !film && !whole ==> m == "unsupported "@ + option + " "@ + quoted(fps)
                        + " (try 24, 25, 30, 29.97, 23.976)"@
                    &&& ntsc || film || whole ==> start_is_df && !ntsc && fps != "30"@ && m
                        == "drop-frame (';') is only defined for 29.97, not "@ + fps + " fps"@
                },
            }
        }),
{
    reveal_strlit("24");
    reveal_strlit("25");
    reveal_strlit("30");
    reveal_strlit("29.97");
    reveal_strlit("29.97df");
    reveal_strlit("23.976");
    reveal_strlit("23.98");
    assert("24"@.len() == 2 && "25"@.len() == 2 && "30"@.len() == 2 && "29.97"@.len() == 5
        && "29.97df"@.len() == 7 && "23.976"@.len() == 6 && "23.98"@.len() == 5);
    assert("24"@[1] == '4' && "25"@[1] == '5' && "30"@[1] == '0' && "29.97"@[1] == '9'
        && "23.98"@[1] == '3');
}

} // verus!
