//! The settings file: reading it into a `Configuration` and writing one out
//! as canonical text.
//!
//! The file is a small TOML document: top-level `backend` and
//! `bufferSizeSamples`, then optional `[input]` and `[output]` tables with
//! `device`, `suggestedLatencySeconds`, `wasapiExclusiveMode`,
//! `wasapiAutoConvert` and `channels`. Latencies are written as decimal text,
//! so no binary floating point comes between the value and the file.
//!
//! The reader takes one `key = value` pair or table header per line, with
//! comments and blank lines between. Values are basic strings (escapes
//! `\"`, `\\`, `\n`, `\t`, `\r`, `\b`, `\f` and `\u00XX` below 0x80),
//! literal strings, integers, decimals written with a point, and booleans.
//! Other value forms (exponents, underscores, arrays, dates) are read as
//! something no known key accepts.

use vstd::prelude::*;
use crate::config::{Configuration, ConfigView, StreamSettings, StreamView, normalize_spec};
use crate::decimal::{Decimal, abs};
use crate::text::{append_chars, append_str, chars_of, string_of};
use crate::scan::{LineSpec, Line, Scalar, ScalarSpec, lines_of, parse_line, read_line, same_text, split_lines, split_text};

verus! {

pub open spec fn hex_digit(n: nat) -> char {
    seq!['0', '1', '2', '3', '4', '5', '6', '7', '8', '9', 'a', 'b', 'c', 'd', 'e', 'f'][n as int]
}

pub open spec fn digit_char(n: nat) -> char {
    hex_digit(n % 10)
}

/// The decimal digits of `n`, most significant first, without leading zeros.
pub open spec fn digits(n: nat) -> Seq<char>
    decreases n,
{
    if n < 10 {
        seq![digit_char(n)]
    } else {
        digits(n / 10).push(digit_char(n % 10))
    }
}

pub open spec fn is_control(c: char) -> bool {
    (c as u32) < 0x20 || c as u32 == 0x7f
}

/// How one character is written inside a quoted string.
pub open spec fn escape_char(c: char) -> Seq<char> {
    if c == '"' {
        seq!['\\', '"']
    } else if c == '\\' {
        seq!['\\', '\\']
    } else if c == '\n' {
        seq!['\\', 'n']
    } else if c == '\t' {
        seq!['\\', 't']
    } else if c == '\r' {
        seq!['\\', 'r']
    } else if is_control(c) {
        seq!['\\', 'u', '0', '0', hex_digit((c as u32 / 16) as nat), hex_digit((c as u32 % 16) as nat)]
    } else {
        seq![c]
    }
}

pub open spec fn escape(s: Seq<char>) -> Seq<char>
    decreases s.len(),
{
    if s.len() == 0 {
        Seq::empty()
    } else {
        escape(s.drop_last()) + escape_char(s.last())
    }
}

/// A TOML basic string holding `s`.
pub open spec fn quoted(s: Seq<char>) -> Seq<char> {
    seq!['"'] + escape(s) + seq!['"']
}

pub open spec fn zeros(n: nat) -> Seq<char> {
    Seq::new(n, |i: int| '0')
}

/// The decimal digits of `mag`, padded with leading zeros to at least `width`.
pub open spec fn padded_digits(mag: nat, width: nat) -> Seq<char> {
    let ds = digits(mag);
    if ds.len() < width {
        zeros((width - ds.len()) as nat) + ds
    } else {
        ds
    }
}

/// A decimal as text: an optional minus sign, the integer digits and, where
/// the scale is not zero, a point followed by exactly `scale` digits.
pub open spec fn decimal_text(d: Decimal) -> Seq<char> {
    let sign = if d.mantissa < 0 {
        seq!['-']
    } else {
        Seq::empty()
    };
    if d.scale == 0 {
        sign + digits(abs(d.mantissa as int))
    } else {
        let p = padded_digits(abs(d.mantissa as int), d.scale as nat + 1);
        let k = p.len() - d.scale;
        sign + p.take(k) + seq!['.'] + p.skip(k)
    }
}

pub open spec fn bool_text(b: bool) -> Seq<char> {
    if b {
        "true"@
    } else {
        "false"@
    }
}

/// One `key = value` line.
pub open spec fn kv(key: Seq<char>, value: Seq<char>) -> Seq<char> {
    key + " = "@ + value
}

pub open spec fn opt_line(key: Seq<char>, value: Option<Seq<char>>) -> Seq<Seq<char>> {
    match value {
        Some(v) => seq![kv(key, v)],
        None => Seq::empty(),
    }
}

pub open spec fn opt_quoted(s: Option<Seq<char>>) -> Option<Seq<char>> {
    match s {
        Some(t) => Some(quoted(t)),
        None => None,
    }
}

pub open spec fn opt_decimal(d: Option<Decimal>) -> Option<Seq<char>> {
    match d {
        Some(x) => Some(decimal_text(x)),
        None => None,
    }
}

pub open spec fn opt_bool(b: Option<bool>) -> Option<Seq<char>> {
    match b {
        Some(x) => Some(bool_text(x)),
        None => None,
    }
}

pub open spec fn channel_number(v: Option<u8>) -> Option<nat> {
    match v {
        Some(c) => Some(c as nat),
        None => None,
    }
}

pub open spec fn number_of(v: Option<u32>) -> Option<nat> {
    match v {
        Some(n) => Some(n as nat),
        None => None,
    }
}

pub open spec fn opt_number(n: Option<nat>) -> Option<Seq<char>> {
    match n {
        Some(x) => Some(digits(x)),
        None => None,
    }
}

/// The lines of one stream table's keys, in their fixed order.
pub open spec fn stream_lines(s: StreamView) -> Seq<Seq<char>> {
    opt_line("device"@, opt_quoted(s.device)) + opt_line(
        "suggestedLatencySeconds"@,
        opt_decimal(s.suggested_latency_seconds),
    ) + opt_line("wasapiExclusiveMode"@, opt_bool(s.wasapi_exclusive_mode)) + opt_line(
        "wasapiAutoConvert"@,
        opt_bool(s.wasapi_auto_convert),
    ) + opt_line("channels"@, opt_number(channel_number(s.channels)))
}

/// `prior` followed by a table: a blank line if anything comes before it,
/// its header, then its keys. An absent table adds nothing.
pub open spec fn with_section(
    prior: Seq<Seq<char>>,
    header: Seq<char>,
    s: Option<StreamView>,
) -> Seq<Seq<char>> {
    match s {
        None => prior,
        Some(t) => (if prior.len() > 0 {
            prior.push(Seq::empty())
        } else {
            prior
        }) + seq![header] + stream_lines(t),
    }
}

pub open spec fn top_lines(c: ConfigView) -> Seq<Seq<char>> {
    opt_line("backend"@, opt_quoted(c.backend)) + opt_line(
        "bufferSizeSamples"@,
        opt_number(number_of(c.buffer_size_samples)),
    )
}

/// The lines of a configuration's file, in order.
pub open spec fn config_lines(c: ConfigView) -> Seq<Seq<char>> {
    with_section(with_section(top_lines(c), "[input]"@, c.input), "[output]"@, c.output)
}

/// Lines joined by newlines, with none after the last.
pub open spec fn join_lines(ls: Seq<Seq<char>>) -> Seq<char>
    decreases ls.len(),
{
    if ls.len() == 0 {
        Seq::empty()
    } else if ls.len() == 1 {
        ls[0]
    } else {
        join_lines(ls.drop_last()) + seq!['\n'] + ls.last()
    }
}

/// The canonical text of a configuration.
pub open spec fn encode_spec(c: ConfigView) -> Seq<char> {
    join_lines(config_lines(c))
}

fn hex_char(n: u32) -> (r: char)
    requires
        n < 16,
    ensures
        r == hex_digit(n as nat),
{
    let table = vec!['0', '1', '2', '3', '4', '5', '6', '7', '8', '9', 'a', 'b', 'c', 'd', 'e', 'f'];
    assert(table@ == seq!['0', '1', '2', '3', '4', '5', '6', '7', '8', '9', 'a', 'b', 'c', 'd', 'e', 'f']);
    table[n as usize]
}

/// The decimal digits of `n`.
fn digits_of(n: u128) -> (r: Vec<char>)
    ensures
        r@ == digits(n as nat),
    decreases n,
{
    if n < 10 {
        vec![hex_char(n as u32)]
    } else {
        let mut v = digits_of(n / 10);
        v.push(hex_char((n % 10) as u32));
        v
    }
}

fn push_escaped(out: &mut Vec<char>, c: char)
    ensures
        final(out)@ == old(out)@ + escape_char(c),
{
    if c == '"' {
        out.push('\\');
        out.push('"');
    } else if c == '\\' {
        out.push('\\');
        out.push('\\');
    } else if c == '\n' {
        out.push('\\');
        out.push('n');
    } else if c == '\t' {
        out.push('\\');
        out.push('t');
    } else if c == '\r' {
        out.push('\\');
        out.push('r');
    } else if (c as u32) < 0x20 || c as u32 == 0x7f {
        out.push('\\');
        out.push('u');
        out.push('0');
        out.push('0');
        out.push(hex_char(c as u32 / 16));
        out.push(hex_char(c as u32 % 16));
    } else {
        out.push(c);
    }
}

/// Appends `s` as a TOML basic string.
fn push_quoted(out: &mut Vec<char>, s: &String)
    ensures
        final(out)@ == old(out)@ + quoted(s@),
{
    let cs = crate::text::chars_of(s.as_str());
    out.push('"');
    let ghost start = out@;
    let mut i: usize = 0;
    while i < cs.len()
        invariant
            i <= cs@.len(),
            cs@ == s@,
            out@ == start + escape(cs@.take(i as int)),
        decreases cs@.len() - i,
    {
        assert(cs@.take(i + 1).drop_last() == cs@.take(i as int));
        push_escaped(out, cs[i]);
        i = i + 1;
    }
    assert(cs@.take(i as int) == cs@);
    out.push('"');
}

/// The text of a decimal in range.
pub fn decimal_to_text(d: Decimal) -> (r: Vec<char>)
    requires
        d.wf(),
    ensures
        r@ == decimal_text(d),
{
    let mut out: Vec<char> = Vec::new();
    if d.mantissa < 0 {
        out.push('-');
    }
    let mag: u128 = if d.mantissa < 0 {
        (-d.mantissa) as u128
    } else {
        d.mantissa as u128
    };
    assert(mag as nat == abs(d.mantissa as int));
    let ds = digits_of(mag);
    if d.scale == 0 {
        append_chars(&mut out, &ds);
        return out;
    }
    let width: usize = d.scale as usize + 1;
    let mut p: Vec<char> = Vec::new();
    if ds.len() < width {
        let pad = width - ds.len();
        let mut j: usize = 0;
        while j < pad
            invariant
                j <= pad,
                p@ == zeros(j as nat),
            decreases pad - j,
        {
            p.push('0');
            assert(p@ == zeros((j + 1) as nat));
            j = j + 1;
        }
    }
    append_chars(&mut p, &ds);
    assert(p@ == padded_digits(mag as nat, d.scale as nat + 1));
    let k: usize = p.len() - d.scale as usize;
    let ghost sign = out@;
    let mut i: usize = 0;
    while i < k
        invariant
            i <= k <= p@.len(),
            out@ == sign + p@.take(i as int),
        decreases k - i,
    {
        out.push(p[i]);
        assert(p@.take(i + 1) == p@.take(i as int).push(p@[i as int]));
        i = i + 1;
    }
    out.push('.');
    let ghost mid = out@;
    while i < p.len()
        invariant
            k <= i <= p@.len(),
            out@ == mid + p@.subrange(k as int, i as int),
        decreases p@.len() - i,
    {
        out.push(p[i]);
        assert(p@.subrange(k as int, i + 1) == p@.subrange(k as int, i as int).push(p@[i as int]));
        i = i + 1;
    }
    assert(p@.subrange(k as int, p@.len() as int) == p@.skip(k as int));
    out
}

fn kv_line(key: &str, value: &Vec<char>) -> (r: Vec<char>)
    ensures
        r@ == kv(key@, value@),
{
    let mut out: Vec<char> = Vec::new();
    append_str(&mut out, key);
    append_str(&mut out, " = ");
    append_chars(&mut out, value);
    out
}

fn push_line(lines: &mut Vec<Vec<char>>, line: Vec<char>)
    ensures
        lines_of(final(lines)@) == lines_of(old(lines)@).push(line@),
{
    lines.push(line);
    assert(lines_of(lines@) == lines_of(old(lines)@).push(line@));
}

fn push_text_line(lines: &mut Vec<Vec<char>>, key: &str, value: &Option<String>)
    ensures
        lines_of(final(lines)@) == lines_of(old(lines)@) + opt_line(
            key@,
            opt_quoted(crate::config::text_view(*value)),
        ),
{
    match value {
        Some(v) => {
            let mut q: Vec<char> = Vec::new();
            push_quoted(&mut q, v);
            push_line(lines, kv_line(key, &q));
        },
        None => {
            assert(lines_of(lines@) == lines_of(lines@) + Seq::<Seq<char>>::empty());
        },
    }
}

fn push_number_line(lines: &mut Vec<Vec<char>>, key: &str, value: Option<u32>)
    ensures
        lines_of(final(lines)@) == lines_of(old(lines)@) + opt_line(
            key@,
            opt_number(number_of(value)),
        ),
{
    match value {
        Some(n) => {
            let ds = digits_of(n as u128);
            push_line(lines, kv_line(key, &ds));
        },
        None => {
            assert(lines_of(lines@) == lines_of(lines@) + Seq::<Seq<char>>::empty());
        },
    }
}

fn push_bool_line(lines: &mut Vec<Vec<char>>, key: &str, value: Option<bool>)
    ensures
        lines_of(final(lines)@) == lines_of(old(lines)@) + opt_line(key@, opt_bool(value)),
{
    match value {
        Some(b) => {
            let mut t: Vec<char> = Vec::new();
            if b {
                append_str(&mut t, "true");
            } else {
                append_str(&mut t, "false");
            }
            push_line(lines, kv_line(key, &t));
        },
        None => {
            assert(lines_of(lines@) == lines_of(lines@) + Seq::<Seq<char>>::empty());
        },
    }
}

fn push_decimal_line(lines: &mut Vec<Vec<char>>, key: &str, value: Option<Decimal>)
    requires
        crate::config::latency_wf(value),
    ensures
        lines_of(final(lines)@) == lines_of(old(lines)@) + opt_line(key@, opt_decimal(value)),
{
    match value {
        Some(d) => {
            let t = decimal_to_text(d);
            push_line(lines, kv_line(key, &t));
        },
        None => {
            assert(lines_of(lines@) == lines_of(lines@) + Seq::<Seq<char>>::empty());
        },
    }
}

fn push_stream_lines(lines: &mut Vec<Vec<char>>, t: &StreamSettings)
    requires
        t@.wf(),
    ensures
        lines_of(final(lines)@) == lines_of(old(lines)@) + stream_lines(t@),
{
    let ghost l0 = lines_of(lines@);
    push_text_line(lines, "device", &t.device);
    let ghost l1 = lines_of(lines@);
    push_decimal_line(lines, "suggestedLatencySeconds", t.suggested_latency_seconds);
    let ghost l2 = lines_of(lines@);
    push_bool_line(lines, "wasapiExclusiveMode", t.wasapi_exclusive_mode);
    let ghost l3 = lines_of(lines@);
    push_bool_line(lines, "wasapiAutoConvert", t.wasapi_auto_convert);
    let ghost l4 = lines_of(lines@);
    push_number_line(
        lines,
        "channels",
        match t.channels {
            Some(c) => Some(c as u32),
            None => None,
        },
    );
    proof {
        let a = opt_line("device"@, opt_quoted(t@.device));
        let b = opt_line("suggestedLatencySeconds"@, opt_decimal(t@.suggested_latency_seconds));
        let c = opt_line("wasapiExclusiveMode"@, opt_bool(t@.wasapi_exclusive_mode));
        let d = opt_line("wasapiAutoConvert"@, opt_bool(t@.wasapi_auto_convert));
        let e = lines_of(lines@).skip(l4.len() as int);
        assert(lines_of(lines@) == l4 + e);
        assert(l4 == l0 + a + b + c + d);
        assert(stream_lines(t@) == a + b + c + d + e);
        assert(l0 + a + b + c + d + e == l0 + (a + b + c + d + e));
    }
}

fn push_section(lines: &mut Vec<Vec<char>>, header: &str, s: &Option<StreamSettings>)
    requires
        crate::config::stream_wf(crate::config::stream_view(*s)),
    ensures
        lines_of(final(lines)@) == with_section(
            lines_of(old(lines)@),
            header@,
            crate::config::stream_view(*s),
        ),
{
    match s {
        None => {},
        Some(t) => {
            if lines.len() > 0 {
                push_line(lines, Vec::new());
            }
            let mut h: Vec<char> = Vec::new();
            append_str(&mut h, header);
            push_line(lines, h);
            push_stream_lines(lines, t);
        },
    }
}

/// Joins lines with newlines, with none after the last.
fn join(lines: &Vec<Vec<char>>) -> (r: Vec<char>)
    ensures
        r@ == join_lines(lines_of(lines@)),
{
    let mut out: Vec<char> = Vec::new();
    let mut i: usize = 0;
    while i < lines.len()
        invariant
            i <= lines@.len(),
            out@ == join_lines(lines_of(lines@).take(i as int)),
        decreases lines@.len() - i,
    {
        let ghost pre = lines_of(lines@).take(i as int);
        assert(lines_of(lines@).take(i + 1).drop_last() == pre);
        if i > 0 {
            out.push('\n');
        }
        append_chars(&mut out, &lines[i]);
        proof {
            let now = lines_of(lines@).take(i + 1);
            if i == 0 {
                assert(now.len() == 1);
                assert(join_lines(now) == now[0]);
            }
        }
        i = i + 1;
    }
    assert(lines_of(lines@).take(i as int) == lines_of(lines@));
    out
}

/// The canonical text of a configuration, exactly as given (no rounding).
pub fn encode(config: &Configuration) -> (r: String)
    requires
        config@.wf(),
    ensures
        r@ == encode_spec(config@),
{
    let mut lines: Vec<Vec<char>> = Vec::new();
    assert(lines_of(lines@) == Seq::<Seq<char>>::empty());
    push_text_line(&mut lines, "backend", &config.backend);
    push_number_line(&mut lines, "bufferSizeSamples", config.buffer_size_samples);
    assert(lines_of(lines@) == top_lines(config@));
    push_section(&mut lines, "[input]", &config.input);
    push_section(&mut lines, "[output]", &config.output);
    let text = join(&lines);
    string_of(&text)
}

/// The text that is saved for a configuration: its canonical form
/// (latencies rounded to one fractional digit), encoded.
pub fn save_text(config: Configuration) -> (r: String)
    requires
        config@.wf(),
    ensures
        r@ == encode_spec(normalize_spec(config@)),
{
    let normalized = crate::config::normalize_config(config);
    encode(&normalized)
}

/// Why a file could not be read. Each holds the 1-based line number.
#[derive(Clone, Copy, Debug, PartialEq, Eq, Structural)]
pub enum DecodeError {
    /// The line is not a blank line, a comment, a table header or a
    /// `key = value` pair of the accepted forms.
    Syntax(usize),
    /// A known key holds a value of the wrong kind or out of range.
    Schema(usize),
}

/// The table that the following keys belong to.
#[derive(Clone, Copy, Debug, PartialEq, Eq, Structural)]
pub enum Section {
    Top,
    Input,
    Output,
    /// A table that the configuration does not know; its keys are ignored.
    Ignored,
}

pub open spec fn empty_stream() -> StreamView {
    StreamView {
        device: None,
        suggested_latency_seconds: None,
        wasapi_exclusive_mode: None,
        wasapi_auto_convert: None,
        channels: None,
    }
}

pub open spec fn empty_config() -> ConfigView {
    ConfigView { backend: None, buffer_size_samples: None, input: None, output: None }
}

/// A latency as read: a number in range, or absent for anything else.
pub open spec fn latency_of(v: ScalarSpec) -> Option<Decimal> {
    match v {
        ScalarSpec::Int(n) => Some(Decimal { mantissa: n as i128, scale: 0 }),
        ScalarSpec::Dec(m, k) => Some(Decimal { mantissa: m as i128, scale: k as u32 }),
        _ => None,
    }
}

/// A stream table after the pair `key = v`, or `None` where a known key holds
/// the wrong kind of value. An unknown key changes nothing.
pub open spec fn set_stream(s: StreamView, key: Seq<char>, v: ScalarSpec) -> Option<StreamView> {
    if key == "device"@ {
        match v {
            ScalarSpec::Str(t) => Some(StreamView { device: Some(t), ..s }),
            _ => None,
        }
    } else if key == "suggestedLatencySeconds"@ {
        Some(StreamView { suggested_latency_seconds: latency_of(v), ..s })
    } else if key == "wasapiExclusiveMode"@ {
        match v {
            ScalarSpec::Bool(b) => Some(StreamView { wasapi_exclusive_mode: Some(b), ..s }),
            _ => None,
        }
    } else if key == "wasapiAutoConvert"@ {
        match v {
            ScalarSpec::Bool(b) => Some(StreamView { wasapi_auto_convert: Some(b), ..s }),
            _ => None,
        }
    } else if key == "channels"@ {
        match v {
            ScalarSpec::Int(n) => if 0 <= n <= 255 {
                Some(StreamView { channels: Some(n as u8), ..s })
            } else {
                None
            },
            _ => None,
        }
    } else {
        Some(s)
    }
}

/// The configuration after a top-level pair `key = v`.
pub open spec fn set_top(c: ConfigView, key: Seq<char>, v: ScalarSpec) -> Option<ConfigView> {
    if key == "backend"@ {
        match v {
            ScalarSpec::Str(t) => Some(ConfigView { backend: Some(t), ..c }),
            _ => None,
        }
    } else if key == "bufferSizeSamples"@ {
        match v {
            ScalarSpec::Int(n) => if 0 <= n <= u32::MAX {
                Some(ConfigView { buffer_size_samples: Some(n as u32), ..c })
            } else {
                None
            },
            _ => None,
        }
    } else {
        Some(c)
    }
}

/// The configuration after the pair `key = v` in section `sec`.
pub open spec fn apply_pair(sec: Section, c: ConfigView, key: Seq<char>, v: ScalarSpec) -> Option<
    ConfigView,
> {
    match sec {
        Section::Top => set_top(c, key, v),
        Section::Input => match set_stream(open_stream(c.input), key, v) {
            Some(t) => Some(ConfigView { input: Some(t), ..c }),
            None => None,
        },
        Section::Output => match set_stream(open_stream(c.output), key, v) {
            Some(t) => Some(ConfigView { output: Some(t), ..c }),
            None => None,
        },
        Section::Ignored => Some(c),
    }
}

pub open spec fn open_stream(s: Option<StreamView>) -> StreamView {
    match s {
        Some(t) => t,
        None => empty_stream(),
    }
}

/// Reads lines `i..` in section `sec`, having read `c` so far.
pub open spec fn decode_from(lines: Seq<Seq<char>>, i: int, sec: Section, c: ConfigView) -> Result<
    ConfigView,
    DecodeError,
>
    decreases lines.len() - i,
{
    if i < 0 || i >= lines.len() {
        Ok(c)
    } else {
        match parse_line(lines[i]) {
            LineSpec::Blank => decode_from(lines, i + 1, sec, c),
            LineSpec::Bad => Err(DecodeError::Syntax((i + 1) as usize)),
            LineSpec::Header(n) => if n == "input"@ {
                decode_from(
                    lines,
                    i + 1,
                    Section::Input,
                    ConfigView { input: Some(open_stream(c.input)), ..c },
                )
            } else if n == "output"@ {
                decode_from(
                    lines,
                    i + 1,
                    Section::Output,
                    ConfigView { output: Some(open_stream(c.output)), ..c },
                )
            } else {
                decode_from(lines, i + 1, Section::Ignored, c)
            },
            LineSpec::Pair(k, v) => match apply_pair(sec, c, k, v) {
                Some(c2) => decode_from(lines, i + 1, sec, c2),
                None => Err(DecodeError::Schema((i + 1) as usize)),
            },
        }
    }
}

/// The configuration that a file's text holds, or why it holds none.
pub open spec fn decode_spec(text: Seq<char>) -> Result<ConfigView, DecodeError> {
    decode_from(split_lines(text), 0, Section::Top, empty_config())
}

fn latency_of_exec(v: &Scalar) -> (r: Option<Decimal>)
    ensures
        r == latency_of(v@),
{
    match v {
        Scalar::Int(n) => Some(Decimal { mantissa: *n, scale: 0 }),
        Scalar::Dec(m, k) => Some(Decimal { mantissa: *m, scale: *k }),
        _ => None,
    }
}

fn set_stream_exec(s: StreamSettings, key: &Vec<char>, v: Scalar) -> (r: Option<StreamSettings>)
    ensures
        match r {
            Some(t) => set_stream(s@, key@, v@) == Some(t@),
            None => set_stream(s@, key@, v@) is None,
        },
{
    if same_text(key, "device") {
        match v {
            Scalar::Str(t) => Some(StreamSettings { device: Some(string_of(&t)), ..s }),
            _ => None,
        }
    } else if same_text(key, "suggestedLatencySeconds") {
        let d = latency_of_exec(&v);
        Some(StreamSettings { suggested_latency_seconds: d, ..s })
    } else if same_text(key, "wasapiExclusiveMode") {
        match v {
            Scalar::Bool(b) => Some(StreamSettings { wasapi_exclusive_mode: Some(b), ..s }),
            _ => None,
        }
    } else if same_text(key, "wasapiAutoConvert") {
        match v {
            Scalar::Bool(b) => Some(StreamSettings { wasapi_auto_convert: Some(b), ..s }),
            _ => None,
        }
    } else if same_text(key, "channels") {
        match v {
            Scalar::Int(n) => if 0 <= n && n <= 255 {
                Some(StreamSettings { channels: Some(n as u8), ..s })
            } else {
                None
            },
            _ => None,
        }
    } else {
        Some(s)
    }
}

fn set_top_exec(c: Configuration, key: &Vec<char>, v: Scalar) -> (r: Option<Configuration>)
    ensures
        match r {
            Some(t) => set_top(c@, key@, v@) == Some(t@),
            None => set_top(c@, key@, v@) is None,
        },
{
    if same_text(key, "backend") {
        match v {
            Scalar::Str(t) => Some(Configuration { backend: Some(string_of(&t)), ..c }),
            _ => None,
        }
    } else if same_text(key, "bufferSizeSamples") {
        match v {
            Scalar::Int(n) => if 0 <= n && n <= u32::MAX as i128 {
                Some(Configuration { buffer_size_samples: Some(n as u32), ..c })
            } else {
                None
            },
            _ => None,
        }
    } else {
        Some(c)
    }
}

fn new_stream() -> (r: StreamSettings)
    ensures
        r@ == empty_stream(),
{
    StreamSettings {
        device: None,
        suggested_latency_seconds: None,
        wasapi_exclusive_mode: None,
        wasapi_auto_convert: None,
        channels: None,
    }
}

fn open_stream_exec(s: Option<StreamSettings>) -> (r: StreamSettings)
    ensures
        r@ == open_stream(crate::config::stream_view(s)),
{
    match s {
        Some(t) => t,
        None => new_stream(),
    }
}

fn apply_pair_exec(sec: Section, c: Configuration, key: &Vec<char>, v: Scalar) -> (r: Option<
    Configuration,
>)
    ensures
        match r {
            Some(t) => apply_pair(sec, c@, key@, v@) == Some(t@),
            None => apply_pair(sec, c@, key@, v@) is None,
        },
{
    match sec {
        Section::Top => set_top_exec(c, key, v),
        Section::Input => {
            let Configuration { backend, buffer_size_samples, input, output } = c;
            match set_stream_exec(open_stream_exec(input), key, v) {
                Some(t) => Some(Configuration { backend, buffer_size_samples, input: Some(t), output }),
                None => None,
            }
        },
        Section::Output => {
            let Configuration { backend, buffer_size_samples, input, output } = c;
            match set_stream_exec(open_stream_exec(output), key, v) {
                Some(t) => Some(Configuration { backend, buffer_size_samples, input, output: Some(t) }),
                None => None,
            }
        },
        Section::Ignored => Some(c),
    }
}

/// Reads a settings file's text. A line that is not blank, a comment, a
/// table header or a `key = value` pair of the accepted forms fails the whole
/// read with `Syntax`; a known key that holds the wrong kind of value, or a
/// number out of its range, fails it with `Schema`. The latency is the one
/// exception: a value there that is not a decimal in range leaves it absent.
/// Unknown keys and tables are ignored.
pub fn decode(text: &str) -> (r: Result<Configuration, DecodeError>)
    ensures
        match r {
            Ok(c) => decode_spec(text@) == Ok::<ConfigView, DecodeError>(c@) && c@.wf(),
            Err(e) => decode_spec(text@) == Err::<ConfigView, DecodeError>(e),
        },
{
    let chars = chars_of(text);
    let lines = split_text(&chars);
    let mut sec = Section::Top;
    let mut c = Configuration { backend: None, buffer_size_samples: None, input: None, output: None };
    let mut i: usize = 0;
    while i < lines.len()
        invariant
            i <= lines@.len(),
            lines_of(lines@) == split_lines(text@),
            decode_spec(text@) == decode_from(lines_of(lines@), i as int, sec, c@),
            c@.wf(),
        decreases lines@.len() - i,
    {
        assert(lines_of(lines@)[i as int] == lines@[i as int]@);
        let line = read_line(&lines[i]);
        match line {
            Line::Blank => {},
            Line::Bad => {
                return Err(DecodeError::Syntax(i + 1));
            },
            Line::Header(n) => {
                let Configuration { backend, buffer_size_samples, input, output } = c;
                if same_text(&n, "input") {
                    let opened = open_stream_exec(input);
                    c = Configuration { backend, buffer_size_samples, input: Some(opened), output };
                    sec = Section::Input;
                } else if same_text(&n, "output") {
                    let opened = open_stream_exec(output);
                    c = Configuration { backend, buffer_size_samples, input, output: Some(opened) };
                    sec = Section::Output;
                } else {
                    c = Configuration { backend, buffer_size_samples, input, output };
                    sec = Section::Ignored;
                }
            },
            Line::Pair(k, v) => {
                match apply_pair_exec(sec, c, &k, v) {
                    Some(c2) => {
                        c = c2;
                    },
                    None => {
                        return Err(DecodeError::Schema(i + 1));
                    },
                }
            },
        }
        i = i + 1;
    }
    Ok(c)
}

} // verus!
