//! The command line: which command is asked for, with which options, and what is printed.

use vstd::prelude::*;
use vstd::slice::slice_subrange;

use crate::frame::{timecode_text, Timecode};
use crate::generate::{prepare_option, prepared, GenReport};
use crate::rate::{rate_label, RateSpec};
use crate::text::{
    chars_of, decimal, law_decimal_is_read_back, number_up_to, number_value, parse_u32, push_decimal,
    str_eq, string_of,
};

verus! {

/// The options that were given, by name.
pub struct Flags {
    entries: Vec<(String, String)>,
}

spec fn map_of(entries: Seq<(String, String)>) -> Map<Seq<char>, Seq<char>>
    decreases entries.len(),
{
    if entries.len() == 0 {
        Map::empty()
    } else {
        map_of(entries.drop_last()).insert(entries.last().0@, entries.last().1@)
    }
}

impl View for Flags {
    type V = Map<Seq<char>, Seq<char>>;

    closed spec fn view(&self) -> Map<Seq<char>, Seq<char>> {
        map_of(self.entries@)
    }
}

/// The arguments as texts.
pub open spec fn texts(args: Seq<String>) -> Seq<Seq<char>> {
    args.map_values(|s: String| s@)
}

/// The argument is the name of an option: it starts with two hyphens.
pub open spec fn is_option(arg: Seq<char>) -> bool {
    arg.len() >= 2 && arg[0] == '-' && arg[1] == '-'
}

/// The options `m` and those in `args`. The argument behind an option's name is its value,
/// whatever it looks like. Of two values for one option the later counts. Other arguments are
/// passed over, and so is a name with nothing behind it.
pub open spec fn with_flags(m: Map<Seq<char>, Seq<char>>, args: Seq<Seq<char>>) -> Map<
    Seq<char>,
    Seq<char>,
>
    decreases args.len(),
{
    if args.len() == 0 {
        m
    } else if is_option(args[0]) && args.len() >= 2 {
        with_flags(m.insert(args[0].skip(2), args[1]), args.skip(2))
    } else {
        with_flags(m, args.skip(1))
    }
}

/// The first argument that is not the name of an option.
pub open spec fn first_positional(args: Seq<Seq<char>>) -> Option<Seq<char>>
    decreases args.len(),
{
    if args.len() == 0 {
        None
    } else if is_option(args[0]) {
        first_positional(args.skip(1))
    } else {
        Some(args[0])
    }
}

/// The name in an argument that names an option.
fn option_name(arg: &str) -> (r: Option<String>)
    ensures
        match r {
            Some(name) => is_option(arg@) && name@ == arg@.skip(2),
            None => !is_option(arg@),
        },
{
    let chars: Vec<char> = chars_of(arg);
    if chars.len() >= 2 && chars[0] == '-' && chars[1] == '-' {
        assert(chars@.subrange(2, chars@.len() as int) == arg@.skip(2));
        Some(string_of(&chars, 2, chars.len()))
    } else {
        None
    }
}

/// The options in the arguments.
pub fn flags(args: &[String]) -> (m: Flags)
    ensures
        m@ == with_flags(Map::empty(), texts(args@)),
{
    let mut m: Flags = Flags { entries: Vec::new() };
    let ghost all = texts(args@);
    let mut i: usize = 0;
    assert(all.skip(0) == all);
    while i < args.len()
        invariant
            i <= args.len(),
            all == texts(args@),
            with_flags(m@, all.skip(i as int)) == with_flags(Map::empty(), all),
        decreases args.len() - i,
    {
        assert(all.skip(i as int)[0] == args@[i as int]@);
        assert(all.skip(i as int).skip(1) == all.skip(i + 1));
        match option_name(args[i].as_str()) {
            Some(name) if args.len() - i >= 2 => {
                assert(all.skip(i as int)[1] == args@[i + 1]@);
                assert(all.skip(i as int).skip(2) == all.skip(i + 2));
                let ghost before = m.entries@;
                let value: String = args[i + 1].clone();
                m.entries.push((name, value));
                assert(m.entries@.drop_last() == before);
                i += 2;
            },
            _ => {
                i += 1;
            },
        }
    }
    m
}

/// The first argument that is not the name of an option.
pub fn positional(args: &[String]) -> (r: Option<String>)
    ensures
        match r {
            Some(s) => first_positional(texts(args@)) == Some(s@),
            None => first_positional(texts(args@)) is None,
        },
{
    let ghost all = texts(args@);
    let mut i: usize = 0;
    assert(all.skip(0) == all);
    while i < args.len()
        invariant
            i <= args.len(),
            all == texts(args@),
            first_positional(all.skip(i as int)) == first_positional(all),
        decreases args.len() - i,
    {
        assert(all.skip(i as int)[0] == args@[i as int]@);
        assert(all.skip(i as int).skip(1) == all.skip(i + 1));
        if option_name(args[i].as_str()).is_none() {
            return Some(args[i].clone());
        }
        i += 1;
    }
    None
}

/// The value of option `k`, or `d` where it was not given.
pub open spec fn value_or(m: Map<Seq<char>, Seq<char>>, k: Seq<char>, d: Seq<char>) -> Seq<char> {
    if m.contains_key(k) {
        m[k]
    } else {
        d
    }
}

/// The number that option `k` has, or `d` where it was not given or is no number.
pub open spec fn number_or(m: Map<Seq<char>, Seq<char>>, k: Seq<char>, d: u32) -> u32 {
    if m.contains_key(k) && number_up_to(m[k], u32::MAX as nat) is Some {
        number_up_to(m[k], u32::MAX as nat)->0 as u32
    } else {
        d
    }
}

impl Flags {
    /// The value of option `k`.
    pub fn get(&self, k: &str) -> (r: Option<String>)
        ensures
            match r {
                Some(v) => self@.contains_key(k@) && v@ == self@[k@],
                None => !self@.contains_key(k@),
            },
    {
        let mut i: usize = self.entries.len();
        assert(self.entries@.take(i as int) == self.entries@);
        while i > 0
            invariant
                i <= self.entries.len(),
                self@.contains_key(k@) == map_of(self.entries@.take(i as int)).contains_key(k@),
                self@.contains_key(k@) ==> self@[k@] == map_of(self.entries@.take(i as int))[k@],
            decreases i,
        {
            i -= 1;
            assert(self.entries@.take(i + 1).drop_last() == self.entries@.take(i as int));
            if str_eq(self.entries[i].0.as_str(), k) {
                return Some(self.entries[i].1.clone());
            }
        }
        None
    }
}

/// The value of option `k`, or `d` where it was not given.
pub fn get_str(m: &Flags, k: &str, d: &str) -> (r: String)
    ensures
        r@ == value_or(m@, k@, d@),
{
    match m.get(k) {
        Some(v) => v,
        None => d.to_owned(),
    }
}

/// The number that option `k` has, or `d` where it was not given or is no number.
pub fn get_u32(m: &Flags, k: &str, d: u32) -> (r: u32)
    ensures
        r == number_or(m@, k@, d),
{
    match m.get(k) {
        Some(v) => match parse_u32(v.as_str()) {
            Some(n) => n,
            None => d,
        },
        None => d,
    }
}

/// What the command line asks for.
pub enum Command {
    Generate(Flags),
    DecodeFile(String),
    /// A file was to be decoded, but none is named.
    DecodeNoFile,
    /// To listen for frames at this nominal rate.
    Listen(u32),
    Help,
    /// A command that there is not.
    Unknown(String),
}

/// `c` is what the arguments ask for.
pub open spec fn asks_for(args: Seq<Seq<char>>, c: Command) -> bool {
    if args.len() == 0 || args[0] == "-h"@ || args[0] == "--help"@ {
        c is Help
    } else if args[0] == "generate"@ {
        c matches Command::Generate(f) && f@ == with_flags(Map::empty(), args.skip(1))
    } else if args[0] == "decode-file"@ {
        match first_positional(args.skip(1)) {
            Some(path) => c matches Command::DecodeFile(p) && p@ == path,
            None => c is DecodeNoFile,
        }
    } else if args[0] == "listen"@ {
        c == Command::Listen(number_or(with_flags(Map::empty(), args.skip(1)), "fps"@, 30))
    } else {
        c matches Command::Unknown(name) && name@ == args[0]
    }
}

/// Reads the arguments behind the program's name.
pub fn command(args: &[String]) -> (c: Command)
    ensures
        asks_for(texts(args@), c),
{
    proof {
        reveal_strlit("-h");
        reveal_strlit("--help");
        reveal_strlit("generate");
        reveal_strlit("decode-file");
        reveal_strlit("listen");
    }
    if args.len() == 0 {
        return Command::Help;
    }
    let name: &str = args[0].as_str();
    let rest: &[String] = slice_subrange(args, 1, args.len());
    assert(texts(rest@) =~= texts(args@).skip(1));
    if str_eq(name, "generate") {
        assert(name@[0] == 'g');
        Command::Generate(flags(rest))
    } else if str_eq(name, "decode-file") {
        assert(name@[0] == 'd');
        match positional(rest) {
            Some(path) => Command::DecodeFile(path),
            None => Command::DecodeNoFile,
        }
    } else if str_eq(name, "listen") {
        assert(name@[0] == 'l');
        let f: Flags = flags(rest);
        Command::Listen(get_u32(&f, "fps", 30))
    } else if str_eq(name, "-h") || str_eq(name, "--help") {
        Command::Help
    } else {
        Command::Unknown(args[0].clone())
    }
}

/// What there is to generate.
pub struct GenerateRequest {
    pub start: Timecode,
    pub rate: RateSpec,
    pub preroll: u32,
    pub sample_rate: u32,
    pub out: Option<String>,
}

/// Reads the options of the command that generates a file, apart from the length. By default
/// there are 30 frames a second from 01:00:00:00 on, no preroll, and 48000 samples a second.
pub fn generate_request(f: &Flags) -> (r: Result<GenerateRequest, String>)
    ensures
        ({
            let asked = prepared(
                value_or(f@, "start"@, "01:00:00:00"@),
                "--fps"@,
                value_or(f@, "fps"@, "30"@),
            );
            match r {
                Ok(g) => {
                    &&& asked == Ok::<(Timecode, RateSpec), Seq<char>>((g.start, g.rate))
                    &&& g.preroll == number_or(f@, "preroll"@, 0)
                    &&& g.sample_rate == number_or(f@, "rate"@, 48_000)
                    &&& match g.out {
                        Some(path) => f@.contains_key("out"@) && path@ == f@["out"@],
                        None => !f@.contains_key("out"@),
                    }
                },
                Err(m) => asked == Err::<(Timecode, RateSpec), Seq<char>>(m@),
            }
        }),
{
    let start: String = get_str(f, "start", "01:00:00:00");
    let fps: String = get_str(f, "fps", "30");
    match prepare_option(start.as_str(), "--fps", fps.as_str()) {
        Err(m) => Err(m),
        Ok((start, rate)) => Ok(
            GenerateRequest {
                start,
                rate,
                preroll: get_u32(f, "preroll", 0),
                sample_rate: get_u32(f, "rate", 48_000),
                out: f.get("out"),
            },
        ),
    }
}

/// What is said of a file that was generated.
pub open spec fn generated_lines(
    r: GenReport,
    length: Seq<char>,
    preroll: u32,
    sample_rate: u32,
) -> Seq<char> {
    "wrote "@ + r.path@ + "\n  "@ + timecode_text(r.start) + " -> "@ + timecode_text(r.end) + "  ("@
        + length + "s, "@ + rate_label(r.rate) + " fps"@ + (if r.rate.drop {
        " drop"@
    } else {
        ""@
    }) + ", "@ + decimal(sample_rate as nat) + " Hz)\n  "@ + decimal(r.payload_frames as nat)
        + " payload frames (+"@ + decimal(preroll as nat) + " preroll), "@ + decimal(
        r.samples as nat,
    ) + " samples"@
}

/// What is said of a file that was generated, `length` seconds long.
pub fn generated_text(r: &GenReport, length: &str, preroll: u32, sample_rate: u32) -> (text: String)
    requires
        r.rate.real.den > 0,
    ensures
        text@ == generated_lines(*r, length@, preroll, sample_rate),
{
    let start: String = r.start.to_string();
    let end: String = r.end.to_string();
    let label: String = r.rate.label();
    let mut m: String = "wrote ".to_owned();
    m.append(r.path.as_str());
    m.append("\n  ");
    m.append(start.as_str());
    m.append(" -> ");
    m.append(end.as_str());
    m.append("  (");
    m.append(length);
    m.append("s, ");
    m.append(label.as_str());
    m.append(" fps");
    m.append(if r.rate.drop {
        " drop"
    } else {
        ""
    });
    m.append(", ");
    push_decimal(&mut m, sample_rate as u64);
    m.append(" Hz)\n  ");
    push_decimal(&mut m, r.payload_frames as u64);
    m.append(" payload frames (+");
    push_decimal(&mut m, preroll as u64);
    m.append(" preroll), ");
    push_decimal(&mut m, r.samples as u64);
    m.append(" samples");
    m
}

/// What is said of a file that was decoded, before its timecodes are listed.
pub fn decoded_text(path: &str, frames: usize, sample_rate: u32) -> (text: String)
    ensures
        text@ == path@ + ": "@ + decimal(frames as nat) + " frames at "@ + decimal(
            sample_rate as nat,
        ) + " Hz"@,
{
    let mut m: String = path.to_owned();
    m.append(": ");
    push_decimal(&mut m, frames as u64);
    m.append(" frames at ");
    push_decimal(&mut m, sample_rate as u64);
    m.append(" Hz");
    m
}

/// The line for a timecode.
pub open spec fn timecode_line(tc: Timecode) -> Seq<char> {
    "  "@ + timecode_text(tc)
}

/// The lines that list decoded timecodes: all of them up to six, else the first three and the
/// last three, with an ellipsis between.
pub open spec fn listed(frames: Seq<Timecode>) -> Seq<Seq<char>> {
    let lines = frames.map_values(|tc: Timecode| timecode_line(tc));
    if frames.len() <= 6 {
        lines
    } else {
        lines.take(3) + seq!["  ..."@] + lines.skip(frames.len() - 3)
    }
}

/// The line for a timecode.
fn line_of(tc: &Timecode) -> (r: String)
    ensures
        r@ == timecode_line(*tc),
{
    let mut line: String = "  ".to_owned();
    let text: String = tc.to_string();
    line.append(text.as_str());
    line
}

/// The lines that list decoded timecodes.
pub fn listing(frames: &[Timecode]) -> (lines: Vec<String>)
    ensures
        texts(lines@) == listed(frames@),
{
    let mut out: Vec<String> = Vec::new();
    let n: usize = frames.len();
    let ghost lines = frames@.map_values(|tc: Timecode| timecode_line(tc));
    let mut i: usize = 0;
    while i < n
        invariant
            i <= n,
            n == frames.len(),
            lines == frames@.map_values(|tc: Timecode| timecode_line(tc)),
            texts(out@) =~= if n <= 6 || i <= 3 {
                lines.take(i as int)
            } else if i <= n - 3 {
                lines.take(3) + seq!["  ..."@]
            } else {
                lines.take(3) + seq!["  ..."@] + lines.subrange(n - 3, i as int)
            },
        decreases n - i,
    {
        let ghost before = out@;
        if i < 3 || n - i <= 3 {
            out.push(line_of(&frames[i]));
            assert(texts(out@) =~= texts(before).push(lines[i as int]));
        } else if i == 3 {
            out.push("  ...".to_owned());
            assert(texts(out@) =~= texts(before).push("  ..."@));
        }
        i += 1;
    }
    out
}

/// A running display of timecodes, which shows each text once.
pub struct Readout {
    last: String,
}

impl View for Readout {
    type V = Seq<char>;

    closed spec fn view(&self) -> Seq<char> {
        self.last@
    }
}

impl Readout {
    /// A display that has shown nothing yet.
    pub fn new() -> (r: Readout)
        ensures
            r@ == Seq::<char>::empty(),
    {
        Readout { last: String::new() }
    }

    /// The text to show for `tc`, unless it is the one that was shown last.
    pub fn show(&mut self, tc: Timecode) -> (r: Option<String>)
        ensures
            final(self)@ == timecode_text(tc),
            match r {
                Some(text) => old(self)@ != timecode_text(tc) && text@ == timecode_text(tc),
                None => old(self)@ == timecode_text(tc),
            },
    {
        let text: String = tc.to_string();
        if str_eq(text.as_str(), self.last.as_str()) {
            None
        } else {
            self.last = text.clone();
            Some(text)
        }
    }
}

/// An option takes the argument behind it as its value, whatever that looks like, over any value
/// that it had; the arguments behind that are read in the same way.
pub proof fn law_option_takes_the_next_argument(
    m: Map<Seq<char>, Seq<char>>,
    name: Seq<char>,
    value: Seq<char>,
    rest: Seq<Seq<char>>,
)
    ensures
        with_flags(m, seq![seq!['-', '-'] + name, value] + rest) == with_flags(
            m.insert(name, value),
            rest,
        ),
{
    let args = seq![seq!['-', '-'] + name, value] + rest;
    assert(args[0] =~= seq!['-', '-'] + name);
    assert(args[0].skip(2) =~= name);
    assert(args.skip(2) =~= rest);
    assert(args[1] == value);
}

/// An argument that does not start with two hyphens is no option, and is passed over; so is the
/// name of an option with nothing behind it.
pub proof fn law_other_arguments_are_passed_over(
    m: Map<Seq<char>, Seq<char>>,
    arg: Seq<char>,
    rest: Seq<Seq<char>>,
)
    ensures
        with_flags(m, Seq::empty()) == m,
        with_flags(m, seq![arg]) == m,
        arg.len() < 2 || arg[0] != '-' || arg[1] != '-' ==> with_flags(m, seq![arg] + rest)
            == with_flags(m, rest),
{
    assert(seq![arg].skip(1) =~= Seq::<Seq<char>>::empty());
    assert(with_flags(m, Seq::empty()) == m);
    let args = seq![arg] + rest;
    assert(args[0] == arg);
    assert(args.skip(1) =~= rest);
}

/// The positional argument is the first that does not start with two hyphens.
pub proof fn law_first_argument_without_hyphens(args: Seq<Seq<char>>, n: int)
    requires
        0 <= n <= args.len(),
        forall|i: int|
            0 <= i < n ==> (#[trigger] args[i]).len() >= 2 && args[i][0] == '-' && args[i][1] == '-',
        n < args.len() ==> args[n].len() < 2 || args[n][0] != '-' || args[n][1] != '-',
    ensures
        n < args.len() ==> first_positional(args) == Some(args[n]),
        n == args.len() ==> first_positional(args) is None,
    decreases n,
{
    if n > 0 {
        let rest = args.skip(1);
        assert(is_option(args[0]));
        assert forall|i: int| 0 <= i < n - 1 implies (#[trigger] rest[i]).len() >= 2 && rest[i][0]
            == '-' && rest[i][1] == '-' by {
            assert(rest[i] == args[i + 1]);
        }
        law_first_argument_without_hyphens(rest, n - 1);
    }
}

/// The value of an option is the one that was given, or else the default; the number of an option
/// is the one that its value stands for, where it is one up to 4294967295, or else the default.
pub proof fn law_options_have_defaults(
    m: Map<Seq<char>, Seq<char>>,
    k: Seq<char>,
    text: Seq<char>,
    number: u32,
)
    ensures
        m.contains_key(k) ==> value_or(m, k, text) == m[k],
        !m.contains_key(k) ==> value_or(m, k, text) == text && number_or(m, k, number) == number,
        m.contains_key(k) && number_value(m[k]) is None ==> number_or(m, k, number) == number,
        m.contains_key(k) && number_value(m[k]) is Some && number_value(m[k])->0 > 0xffff_ffff
            ==> number_or(m, k, number) == number,
        m.contains_key(k) && number_value(m[k]) is Some && number_value(m[k])->0 <= 0xffff_ffff
            ==> number_or(m, k, number) == number_value(m[k])->0,
{
}

/// The first argument is the command. Without one there is help, as there is with -h and --help.
pub proof fn law_first_argument_is_the_command(args: Seq<Seq<char>>, c: Command)
    requires
        asks_for(args, c),
    ensures
        args.len() == 0 ==> c is Help,
        args.len() > 0 ==> {
            &&& (args[0] == "-h"@ || args[0] == "--help"@) == (c is Help)
            &&& (args[0] == "generate"@) == (c is Generate)
            &&& (args[0] == "decode-file"@) == (c is DecodeFile || c is DecodeNoFile)
            &&& (args[0] == "listen"@) == (c is Listen)
            &&& c matches Command::Unknown(name) ==> name@ == args[0]
            &&& c matches Command::DecodeFile(path) ==> first_positional(args.drop_first()) == Some(
                path@,
            )
            &&& c is DecodeNoFile ==> first_positional(args.drop_first()) is None
            &&& c matches Command::Generate(f) ==> f@ == with_flags(Map::empty(), args.drop_first())
            &&& c matches Command::Listen(fps) ==> fps == number_or(
                with_flags(Map::empty(), args.drop_first()),
                "fps"@,
                30,
            )
        },
{
    reveal_strlit("-h");
    reveal_strlit("--help");
    reveal_strlit("generate");
    reveal_strlit("decode-file");
    reveal_strlit("listen");
    assert("-h"@[0] == '-' && "--help"@[0] == '-' && "generate"@[0] == 'g' && "decode-file"@[0] == 'd'
        && "listen"@[0] == 'l');
    if args.len() > 0 {
        assert(args.skip(1) =~= args.drop_first());
    }
}

/// Up to six timecodes are all listed; of more, the first three and the last three, with a line of
/// dots between.
pub proof fn law_list_shows_the_ends(frames: Seq<Timecode>)
    ensures
        frames.len() <= 6 ==> listed(frames).len() == frames.len() && forall|i: int|
            0 <= i < frames.len() ==> #[trigger] listed(frames)[i] == "  "@ + timecode_text(frames[i]),
        frames.len() > 6 ==> {
            &&& listed(frames).len() == 7
            &&& forall|i: int|
                0 <= i < 3 ==> #[trigger] listed(frames)[i] == "  "@ + timecode_text(frames[i])
            &&& listed(frames)[3] == "  ..."@
            &&& forall|i: int|
                4 <= i < 7 ==> #[trigger] listed(frames)[i] == "  "@ + timecode_text(
                    frames[frames.len() - 7 + i],
                )
        },
{
}

/// What is said of a file that was generated tells where it is, where it starts and ends, and in
/// the end how many samples it has.
#[verifier::spinoff_prover]
#[verifier::rlimit(40)]
pub proof fn law_report_tells_the_file(
    r: GenReport,
    length: Seq<char>,
    preroll: u32,
    sample_rate: u32,
)
    ensures
        ({
            let text = generated_lines(r, length, preroll, sample_rate);
            let n = text.len() as int;
            let p = r.path@.len() as int;
            let a = timecode_text(r.start).len() as int;
            let b = timecode_text(r.end).len() as int;
            let k = decimal(r.samples as nat).len() as int;
            &&& text.subrange(6, 6 + p) == r.path@
            &&& text.subrange(6 + p + 3, 6 + p + 3 + a) == timecode_text(r.start)
            &&& text.subrange(6 + p + 3 + a + 4, 6 + p + 3 + a + 4 + b) == timecode_text(r.end)
            &&& number_value(text.subrange(n - 8 - k, n - 8)) == Some(r.samples as nat)
        }),
{
    reveal_strlit("wrote ");
    reveal_strlit("\n  ");
    reveal_strlit(" -> ");
    reveal_strlit(" samples");
    law_decimal_is_read_back(r.samples as nat);
    let text = generated_lines(r, length, preroll, sample_rate);
    let n = text.len() as int;
    let p = r.path@.len() as int;
    let a = timecode_text(r.start).len() as int;
    let b = timecode_text(r.end).len() as int;
    let k = decimal(r.samples as nat).len() as int;
    assert(text.subrange(6, 6 + p) =~= r.path@);
    assert(text.subrange(6 + p + 3, 6 + p + 3 + a) =~= timecode_text(r.start));
    assert(text.subrange(6 + p + 3 + a + 4, 6 + p + 3 + a + 4 + b) =~= timecode_text(r.end));
    assert(text.subrange(n - 8 - k, n - 8) =~= decimal(r.samples as nat));
}

} // verus!
