//! Reading the settings file: lines, keys, table headers and scalar values.

use vstd::prelude::*;
use crate::decimal::MAX_MANTISSA;
use crate::codec::is_control;

verus! {

/// A scalar value as read from the file.
pub enum ScalarSpec {
    Str(Seq<char>),
    /// An integer within the decimal mantissa range.
    Int(int),
    /// `mantissa / 10^scale`, in range, written with a point.
    Dec(int, nat),
    Bool(bool),
    /// A value of another form (exponent, special float, date, out of range).
    Other,
}

/// A number read from the file lies in the decimal range.
pub open spec fn in_range(v: ScalarSpec) -> bool {
    match v {
        ScalarSpec::Int(n) => -MAX_MANTISSA <= n <= MAX_MANTISSA,
        ScalarSpec::Dec(m, k) => -MAX_MANTISSA <= m <= MAX_MANTISSA && k <= 28,
        _ => true,
    }
}

/// One line of the file.
pub enum LineSpec {
    Blank,
    Header(Seq<char>),
    Pair(Seq<char>, ScalarSpec),
    Bad,
}

/// The lines of `t`, split at each newline.
pub open spec fn split_lines(t: Seq<char>) -> Seq<Seq<char>>
    decreases t.len(),
{
    if t.len() == 0 {
        seq![Seq::empty()]
    } else {
        let p = split_lines(t.drop_last());
        if t.last() == '\n' {
            p.push(Seq::empty())
        } else {
            p.update(p.len() - 1, p.last().push(t.last()))
        }
    }
}

pub open spec fn is_ws(c: char) -> bool {
    c == ' ' || c == '\t' || c == '\r'
}

pub open spec fn is_key_char(c: char) -> bool {
    ('a' <= c && c <= 'z') || ('A' <= c && c <= 'Z') || ('0' <= c && c <= '9') || c == '_' || c == '-'
}

pub open spec fn is_digit(c: char) -> bool {
    '0' <= c && c <= '9'
}

pub open spec fn is_token_char(c: char) -> bool {
    is_key_char(c) || c == '+' || c == '.' || c == ':'
}

/// The first position at or after `i` that holds no whitespace.
pub open spec fn skip_ws(l: Seq<char>, i: int) -> int
    decreases l.len() - i,
{
    if 0 <= i < l.len() && is_ws(l[i]) {
        skip_ws(l, i + 1)
    } else {
        i
    }
}

/// The end of the run of key characters that starts at `i`.
pub open spec fn key_end(l: Seq<char>, i: int) -> int
    decreases l.len() - i,
{
    if 0 <= i < l.len() && is_key_char(l[i]) {
        key_end(l, i + 1)
    } else {
        i
    }
}

/// The end of the run of bare-value characters that starts at `i`.
pub open spec fn token_end(l: Seq<char>, i: int) -> int
    decreases l.len() - i,
{
    if 0 <= i < l.len() && is_token_char(l[i]) {
        token_end(l, i + 1)
    } else {
        i
    }
}

pub open spec fn hex_value(c: char) -> int {
    if '0' <= c && c <= '9' {
        c as int - '0' as int
    } else if 'a' <= c && c <= 'f' {
        c as int - 'a' as int + 10
    } else if 'A' <= c && c <= 'F' {
        c as int - 'A' as int + 10
    } else {
        -1
    }
}

/// The character of a `\u00XY` escape at `i` (the position of `u`), where
/// `XY` names a code below 0x80.
pub open spec fn short_unicode(l: Seq<char>, i: int) -> Option<char> {
    if l.len() - i >= 5 && l[i + 1] == '0' && l[i + 2] == '0' && 0 <= hex_value(l[i + 3]) < 8
        && 0 <= hex_value(l[i + 4]) {
        Some(((hex_value(l[i + 3]) * 16 + hex_value(l[i + 4])) as u8) as char)
    } else {
        None
    }
}

/// The character that the escape code `c` stands for.
pub open spec fn simple_escape(c: char) -> Option<char> {
    if c == 'n' {
        Some('\n')
    } else if c == 't' {
        Some('\t')
    } else if c == 'r' {
        Some('\r')
    } else if c == 'b' {
        Some('\x08')
    } else if c == 'f' {
        Some('\x0c')
    } else if c == '"' {
        Some('"')
    } else if c == '\\' {
        Some('\\')
    } else {
        None
    }
}

/// Reads the rest of a basic string from position `i`, having read `acc`:
/// its contents and the position after its closing quote.
pub open spec fn unescape(l: Seq<char>, i: int, acc: Seq<char>) -> Option<(Seq<char>, int)>
    decreases l.len() - i,
{
    if i < 0 || i >= l.len() {
        None
    } else if l[i] == '"' {
        Some((acc, i + 1))
    } else if l[i] == '\\' {
        if i + 1 >= l.len() {
            None
        } else if l[i + 1] == 'u' {
            match short_unicode(l, i + 1) {
                Some(c) => unescape(l, i + 6, acc.push(c)),
                None => None,
            }
        } else {
            match simple_escape(l[i + 1]) {
                Some(c) => unescape(l, i + 2, acc.push(c)),
                None => None,
            }
        }
    } else if is_control(l[i]) && l[i] != '\t' {
        None
    } else {
        unescape(l, i + 1, acc.push(l[i]))
    }
}

/// The position of the closing quote of a literal string whose contents
/// start at `i`.
pub open spec fn literal_end(l: Seq<char>, i: int) -> Option<int>
    decreases l.len() - i,
{
    if i < 0 || i >= l.len() {
        None
    } else if l[i] == '\'' {
        Some(i)
    } else if is_control(l[i]) && l[i] != '\t' {
        None
    } else {
        literal_end(l, i + 1)
    }
}

pub open spec fn all_digits(s: Seq<char>) -> bool {
    forall|i: int| 0 <= i < s.len() ==> is_digit(#[trigger] s[i])
}

/// The number that a run of decimal digits spells.
pub open spec fn digits_value(s: Seq<char>) -> nat
    decreases s.len(),
{
    if s.len() == 0 {
        0
    } else {
        digits_value(s.drop_last()) * 10 + (s.last() as nat - '0' as nat) as nat
    }
}

/// The first position at or after `i` that holds a point, or the length.
pub open spec fn dot_pos(s: Seq<char>, i: int) -> int
    decreases s.len() - i,
{
    if 0 <= i < s.len() && s[i] != '.' {
        dot_pos(s, i + 1)
    } else {
        i
    }
}

pub open spec fn signed(neg: bool, v: nat) -> int {
    if neg {
        -v
    } else {
        v as int
    }
}

/// What a bare value (anything but a string) stands for.
pub open spec fn classify(t: Seq<char>) -> ScalarSpec {
    if t == "true"@ {
        ScalarSpec::Bool(true)
    } else if t == "false"@ {
        ScalarSpec::Bool(false)
    } else {
        let neg = t.len() > 0 && t[0] == '-';
        let body = if t.len() > 0 && (t[0] == '-' || t[0] == '+') {
            t.drop_first()
        } else {
            t
        };
        let d = dot_pos(body, 0);
        if body.len() > 0 && all_digits(body) {
            if digits_value(body) <= MAX_MANTISSA {
                ScalarSpec::Int(signed(neg, digits_value(body)))
            } else {
                ScalarSpec::Other
            }
        } else if 0 < d && d + 1 < body.len() && all_digits(body.take(d)) && all_digits(
            body.skip(d + 1),
        ) {
            let ds = body.take(d) + body.skip(d + 1);
            let scale = body.len() - d - 1;
            if digits_value(ds) <= MAX_MANTISSA && scale <= 28 {
                ScalarSpec::Dec(signed(neg, digits_value(ds)), scale as nat)
            } else {
                ScalarSpec::Other
            }
        } else {
            ScalarSpec::Other
        }
    }
}

/// The value that starts at position `i`, and the position after it.
pub open spec fn value_at(l: Seq<char>, i: int) -> Option<(ScalarSpec, int)> {
    if i < 0 || i >= l.len() {
        None
    } else if l[i] == '"' {
        match unescape(l, i + 1, Seq::empty()) {
            Some((s, j)) => Some((ScalarSpec::Str(s), j)),
            None => None,
        }
    } else if l[i] == '\'' {
        match literal_end(l, i + 1) {
            Some(j) => Some((ScalarSpec::Str(l.subrange(i + 1, j)), j + 1)),
            None => None,
        }
    } else {
        let j = token_end(l, i);
        if j == i {
            None
        } else {
            Some((classify(l.subrange(i, j)), j))
        }
    }
}

/// Nothing but whitespace, or a comment, from position `i` on.
pub open spec fn rest_is_empty(l: Seq<char>, i: int) -> bool {
    let j = skip_ws(l, i);
    j >= l.len() || l[j] == '#'
}

/// What one line of the file holds.
pub open spec fn parse_line(l: Seq<char>) -> LineSpec {
    let i0 = skip_ws(l, 0);
    if i0 >= l.len() || l[i0] == '#' {
        LineSpec::Blank
    } else if l[i0] == '[' {
        let i1 = skip_ws(l, i0 + 1);
        let k = key_end(l, i1);
        let i2 = skip_ws(l, k);
        if k == i1 || i2 >= l.len() || l[i2] != ']' || !rest_is_empty(l, i2 + 1) {
            LineSpec::Bad
        } else {
            LineSpec::Header(l.subrange(i1, k))
        }
    } else {
        let k = key_end(l, i0);
        let i1 = skip_ws(l, k);
        if k == i0 || i1 >= l.len() || l[i1] != '=' {
            LineSpec::Bad
        } else {
            match value_at(l, skip_ws(l, i1 + 1)) {
                Some((v, j)) => if rest_is_empty(l, j) {
                    LineSpec::Pair(l.subrange(i0, k), v)
                } else {
                    LineSpec::Bad
                },
                None => LineSpec::Bad,
            }
        }
    }
}

/// A scalar value as read from the file.
pub enum Scalar {
    Str(Vec<char>),
    Int(i128),
    Dec(i128, u32),
    Bool(bool),
    Other,
}

impl View for Scalar {
    type V = ScalarSpec;

    open spec fn view(&self) -> ScalarSpec {
        match self {
            Scalar::Str(s) => ScalarSpec::Str(s@),
            Scalar::Int(n) => ScalarSpec::Int(*n as int),
            Scalar::Dec(m, k) => ScalarSpec::Dec(*m as int, *k as nat),
            Scalar::Bool(b) => ScalarSpec::Bool(*b),
            Scalar::Other => ScalarSpec::Other,
        }
    }
}

/// One line of the file.
pub enum Line {
    Blank,
    Header(Vec<char>),
    Pair(Vec<char>, Scalar),
    Bad,
}

impl View for Line {
    type V = LineSpec;

    open spec fn view(&self) -> LineSpec {
        match self {
            Line::Blank => LineSpec::Blank,
            Line::Header(n) => LineSpec::Header(n@),
            Line::Pair(k, v) => LineSpec::Pair(k@, v@),
            Line::Bad => LineSpec::Bad,
        }
    }
}

pub open spec fn lines_of(v: Seq<Vec<char>>) -> Seq<Seq<char>> {
    v.map_values(|l: Vec<char>| l@)
}

/// Splits text at each newline.
pub fn split_text(t: &Vec<char>) -> (r: Vec<Vec<char>>)
    ensures
        lines_of(r@) == split_lines(t@),
{
    let mut lines: Vec<Vec<char>> = Vec::new();
    let mut cur: Vec<char> = Vec::new();
    let mut i: usize = 0;
    assert(t@.take(0) == Seq::<char>::empty());
    assert(lines_of(lines@).push(cur@) == seq![Seq::<char>::empty()]);
    while i < t.len()
        invariant
            i <= t@.len(),
            lines_of(lines@).push(cur@) == split_lines(t@.take(i as int)),
        decreases t@.len() - i,
    {
        let ghost before = lines_of(lines@).push(cur@);
        assert(t@.take(i + 1).drop_last() == t@.take(i as int));
        if t[i] == '\n' {
            lines.push(cur);
            cur = Vec::new();
            assert(lines_of(lines@).push(cur@) == before.push(Seq::<char>::empty()));
        } else {
            cur.push(t[i]);
            assert(lines_of(lines@).push(cur@) == before.update(
                before.len() - 1,
                before.last().push(t@[i as int]),
            ));
        }
        i = i + 1;
    }
    assert(t@.take(i as int) == t@);
    lines.push(cur);
    assert(lines_of(lines@) == split_lines(t@));
    lines
}

fn is_ws_char(c: char) -> (r: bool)
    ensures
        r == is_ws(c),
{
    c == ' ' || c == '\t' || c == '\r'
}

fn is_key_char_exec(c: char) -> (r: bool)
    ensures
        r == is_key_char(c),
{
    ('a' <= c && c <= 'z') || ('A' <= c && c <= 'Z') || ('0' <= c && c <= '9') || c == '_' || c
        == '-'
}

fn skip_ws_at(l: &Vec<char>, i: usize) -> (r: usize)
    requires
        i <= l@.len(),
    ensures
        r as int == skip_ws(l@, i as int),
        i <= r <= l@.len(),
{
    let mut j = i;
    while j < l.len() && is_ws_char(l[j])
        invariant
            i <= j <= l@.len(),
            skip_ws(l@, i as int) == skip_ws(l@, j as int),
        decreases l@.len() - j,
    {
        j = j + 1;
    }
    j
}

fn key_end_at(l: &Vec<char>, i: usize) -> (r: usize)
    requires
        i <= l@.len(),
    ensures
        r as int == key_end(l@, i as int),
        i <= r <= l@.len(),
{
    let mut j = i;
    while j < l.len() && is_key_char_exec(l[j])
        invariant
            i <= j <= l@.len(),
            key_end(l@, i as int) == key_end(l@, j as int),
        decreases l@.len() - j,
    {
        j = j + 1;
    }
    j
}

fn token_end_at(l: &Vec<char>, i: usize) -> (r: usize)
    requires
        i <= l@.len(),
    ensures
        r as int == token_end(l@, i as int),
        i <= r <= l@.len(),
{
    let mut j = i;
    while j < l.len() && (is_key_char_exec(l[j]) || l[j] == '+' || l[j] == '.' || l[j] == ':')
        invariant
            i <= j <= l@.len(),
            token_end(l@, i as int) == token_end(l@, j as int),
        decreases l@.len() - j,
    {
        j = j + 1;
    }
    j
}

fn hex_value_of(c: char) -> (r: i32)
    ensures
        r as int == hex_value(c),
{
    if '0' <= c && c <= '9' {
        (c as u32 - '0' as u32) as i32
    } else if 'a' <= c && c <= 'f' {
        (c as u32 - 'a' as u32 + 10) as i32
    } else if 'A' <= c && c <= 'F' {
        (c as u32 - 'A' as u32 + 10) as i32
    } else {
        -1
    }
}

fn short_unicode_at(l: &Vec<char>, i: usize) -> (r: Option<char>)
    requires
        i < l@.len(),
    ensures
        r == short_unicode(l@, i as int),
{
    if l.len() - i >= 5 && l[i + 1] == '0' && l[i + 2] == '0' {
        let hi = hex_value_of(l[i + 3]);
        let lo = hex_value_of(l[i + 4]);
        if 0 <= hi && hi < 8 && 0 <= lo {
            let code: u8 = (hi * 16 + lo) as u8;
            return Some(code as char);
        }
    }
    None
}

fn simple_escape_of(c: char) -> (r: Option<char>)
    ensures
        r == simple_escape(c),
{
    if c == 'n' {
        Some('\n')
    } else if c == 't' {
        Some('\t')
    } else if c == 'r' {
        Some('\r')
    } else if c == 'b' {
        Some('\x08')
    } else if c == 'f' {
        Some('\x0c')
    } else if c == '"' {
        Some('"')
    } else if c == '\\' {
        Some('\\')
    } else {
        None
    }
}

/// Reads a basic string whose opening quote stands just before `i`.
fn unescape_at(l: &Vec<char>, i: usize) -> (r: Option<(Vec<char>, usize)>)
    requires
        i <= l@.len(),
    ensures
        match r {
            Some((s, j)) => unescape(l@, i as int, Seq::empty()) == Some((s@, j as int)) && j
                <= l@.len(),
            None => unescape(l@, i as int, Seq::empty()) is None,
        },
{
    let mut acc: Vec<char> = Vec::new();
    let mut j = i;
    loop
        invariant
            i <= j <= l@.len(),
            unescape(l@, i as int, Seq::empty()) == unescape(l@, j as int, acc@),
        decreases l@.len() - j,
    {
        if j >= l.len() {
            return None;
        }
        let c = l[j];
        if c == '"' {
            return Some((acc, j + 1));
        }
        if c == '\\' {
            if j + 1 >= l.len() {
                return None;
            }
            if l[j + 1] == 'u' {
                match short_unicode_at(l, j + 1) {
                    Some(ch) => {
                        acc.push(ch);
                        j = j + 6;
                    },
                    None => {
                        return None;
                    },
                }
            } else {
                match simple_escape_of(l[j + 1]) {
                    Some(ch) => {
                        acc.push(ch);
                        j = j + 2;
                    },
                    None => {
                        return None;
                    },
                }
            }
        } else if ((c as u32) < 0x20 || c as u32 == 0x7f) && c != '\t' {
            return None;
        } else {
            acc.push(c);
            j = j + 1;
        }
    }
}

/// The characters of `l` from `i` up to `j`.
fn slice_of(l: &Vec<char>, i: usize, j: usize) -> (r: Vec<char>)
    requires
        i <= j <= l@.len(),
    ensures
        r@ == l@.subrange(i as int, j as int),
{
    let mut out: Vec<char> = Vec::new();
    let mut k = i;
    while k < j
        invariant
            i <= k <= j <= l@.len(),
            out@ == l@.subrange(i as int, k as int),
        decreases j - k,
    {
        out.push(l[k]);
        assert(l@.subrange(i as int, k + 1) == l@.subrange(i as int, k as int).push(l@[k as int]));
        k = k + 1;
    }
    out
}

pub(crate) fn same_text(a: &Vec<char>, b: &str) -> (r: bool)
    ensures
        r == (a@ == b@),
{
    let bv = crate::text::chars_of(b);
    if a.len() != bv.len() {
        return false;
    }
    let mut i: usize = 0;
    while i < a.len()
        invariant
            a@.len() == bv@.len(),
            bv@ == b@,
            i <= a@.len(),
            forall|k: int| 0 <= k < i ==> a@[k] == bv@[k],
        decreases a@.len() - i,
    {
        if a[i] != bv[i] {
            return false;
        }
        i = i + 1;
    }
    assert(a@ == bv@);
    true
}

fn all_digits_exec(s: &Vec<char>) -> (r: bool)
    ensures
        r == all_digits(s@),
{
    let mut i: usize = 0;
    while i < s.len()
        invariant
            i <= s@.len(),
            forall|k: int| 0 <= k < i ==> is_digit(#[trigger] s@[k]),
        decreases s@.len() - i,
    {
        if !('0' <= s[i] && s[i] <= '9') {
            return false;
        }
        i = i + 1;
    }
    true
}

/// The number a run of digits spells, where it is within the mantissa range.
fn digits_number(s: &Vec<char>) -> (r: Option<u128>)
    requires
        all_digits(s@),
    ensures
        match r {
            Some(v) => v as int == digits_value(s@) && v <= MAX_MANTISSA,
            None => digits_value(s@) > MAX_MANTISSA,
        },
{
    let mut acc: u128 = 0;
    let mut over = false;
    let mut i: usize = 0;
    assert(s@.take(0) == Seq::<char>::empty());
    while i < s.len()
        invariant
            i <= s@.len(),
            all_digits(s@),
            !over ==> acc as int == digits_value(s@.take(i as int)) && acc <= MAX_MANTISSA,
            over ==> digits_value(s@.take(i as int)) > MAX_MANTISSA,
        decreases s@.len() - i,
    {
        assert(s@.take(i + 1).drop_last() == s@.take(i as int));
        assert(is_digit(s@[i as int]));
        let d: u128 = (s[i] as u32 - '0' as u32) as u128;
        if !over {
            acc = acc * 10 + d;
            if acc > MAX_MANTISSA as u128 {
                over = true;
            }
        }
        i = i + 1;
    }
    assert(s@.take(i as int) == s@);
    if over {
        None
    } else {
        Some(acc)
    }
}

fn dot_pos_exec(s: &Vec<char>) -> (r: usize)
    ensures
        r as int == dot_pos(s@, 0),
        r <= s@.len(),
{
    let mut j: usize = 0;
    while j < s.len() && s[j] != '.'
        invariant
            j <= s@.len(),
            dot_pos(s@, 0) == dot_pos(s@, j as int),
        decreases s@.len() - j,
    {
        j = j + 1;
    }
    j
}

fn signed_exec(neg: bool, v: u128) -> (r: i128)
    requires
        v <= MAX_MANTISSA,
    ensures
        r as int == signed(neg, v as nat),
{
    if neg {
        -(v as i128)
    } else {
        v as i128
    }
}

/// What a bare value stands for.
pub fn classify_token(t: &Vec<char>) -> (r: Scalar)
    ensures
        r@ == classify(t@),
        in_range(r@),
{
    if same_text(t, "true") {
        return Scalar::Bool(true);
    }
    if same_text(t, "false") {
        return Scalar::Bool(false);
    }
    let neg = t.len() > 0 && t[0] == '-';
    let body = if t.len() > 0 && (t[0] == '-' || t[0] == '+') {
        slice_of(t, 1, t.len())
    } else {
        slice_of(t, 0, t.len())
    };
    assert(t@.len() > 0 && (t@[0] == '-' || t@[0] == '+') ==> body@ == t@.drop_first());
    assert(!(t@.len() > 0 && (t@[0] == '-' || t@[0] == '+')) ==> body@ == t@);
    let d = dot_pos_exec(&body);
    if body.len() > 0 && all_digits_exec(&body) {
        match digits_number(&body) {
            Some(v) => Scalar::Int(signed_exec(neg, v)),
            None => Scalar::Other,
        }
    } else if 0 < d && d < body.len() && body.len() - d >= 2 {
        let int_part = slice_of(&body, 0, d);
        let frac_part = slice_of(&body, d + 1, body.len());
        assert(int_part@ == body@.take(d as int));
        assert(frac_part@ == body@.skip(d + 1));
        if all_digits_exec(&int_part) && all_digits_exec(&frac_part) {
            let mut ds = int_part;
            crate::text::append_chars(&mut ds, &frac_part);
            assert(all_digits(ds@)) by {
                assert forall|k: int| 0 <= k < ds@.len() implies is_digit(#[trigger] ds@[k]) by {
                    if k >= d {
                        assert(ds@[k] == frac_part@[k - d]);
                    }
                }
            }
            let scale = body.len() - d - 1;
            match digits_number(&ds) {
                Some(v) => {
                    if scale <= 28 {
                        Scalar::Dec(signed_exec(neg, v), scale as u32)
                    } else {
                        Scalar::Other
                    }
                },
                None => Scalar::Other,
            }
        } else {
            Scalar::Other
        }
    } else {
        Scalar::Other
    }
}

fn literal_end_at(l: &Vec<char>, i: usize) -> (r: Option<usize>)
    requires
        i <= l@.len(),
    ensures
        match r {
            Some(j) => literal_end(l@, i as int) == Some(j as int) && i <= j < l@.len(),
            None => literal_end(l@, i as int) is None,
        },
{
    let mut j = i;
    while j < l.len()
        invariant
            i <= j <= l@.len(),
            literal_end(l@, i as int) == literal_end(l@, j as int),
        decreases l@.len() - j,
    {
        let c = l[j];
        if c == '\'' {
            return Some(j);
        }
        if ((c as u32) < 0x20 || c as u32 == 0x7f) && c != '\t' {
            return None;
        }
        j = j + 1;
    }
    None
}

fn value_at_exec(l: &Vec<char>, i: usize) -> (r: Option<(Scalar, usize)>)
    requires
        i <= l@.len(),
    ensures
        match r {
            Some((v, j)) => value_at(l@, i as int) == Some((v@, j as int)) && j <= l@.len()
                && in_range(v@),
            None => value_at(l@, i as int) is None,
        },
{
    if i >= l.len() {
        return None;
    }
    if l[i] == '"' {
        match unescape_at(l, i + 1) {
            Some((s, j)) => Some((Scalar::Str(s), j)),
            None => None,
        }
    } else if l[i] == '\'' {
        match literal_end_at(l, i + 1) {
            Some(j) => Some((Scalar::Str(slice_of(l, i + 1, j)), j + 1)),
            None => None,
        }
    } else {
        let j = token_end_at(l, i);
        if j == i {
            None
        } else {
            let t = slice_of(l, i, j);
            Some((classify_token(&t), j))
        }
    }
}

fn rest_is_empty_exec(l: &Vec<char>, i: usize) -> (r: bool)
    requires
        i <= l@.len(),
    ensures
        r == rest_is_empty(l@, i as int),
{
    let j = skip_ws_at(l, i);
    j >= l.len() || l[j] == '#'
}

/// Reads one line of the file.
pub fn read_line(l: &Vec<char>) -> (r: Line)
    ensures
        r@ == parse_line(l@),
        r@ is Pair ==> in_range(r@->Pair_1),
{
    let i0 = skip_ws_at(l, 0);
    if i0 >= l.len() || l[i0] == '#' {
        return Line::Blank;
    }
    if l[i0] == '[' {
        let i1 = skip_ws_at(l, i0 + 1);
        let k = key_end_at(l, i1);
        let i2 = skip_ws_at(l, k);
        if k == i1 || i2 >= l.len() || l[i2] != ']' || !rest_is_empty_exec(l, i2 + 1) {
            Line::Bad
        } else {
            Line::Header(slice_of(l, i1, k))
        }
    } else {
        let k = key_end_at(l, i0);
        let i1 = skip_ws_at(l, k);
        if k == i0 || i1 >= l.len() || l[i1] != '=' {
            return Line::Bad;
        }
        let i2 = skip_ws_at(l, i1 + 1);
        match value_at_exec(l, i2) {
            Some((v, j)) => {
                if rest_is_empty_exec(l, j) {
                    Line::Pair(slice_of(l, i0, k), v)
                } else {
                    Line::Bad
                }
            },
            None => Line::Bad,
        }
    }
}

} // verus!
