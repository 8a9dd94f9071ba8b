//! Reading back what was written: the decoder recovers every configuration
//! from its encoding.

use vstd::prelude::*;
use crate::codec::{
    DecodeError, Section, apply_pair, bool_text, channel_number, config_lines, decimal_text,
    decode_from, decode_spec, digit_char, digits, empty_config, empty_stream, encode_spec,
    escape, escape_char, hex_digit, is_control, join_lines, kv, latency_of, number_of, opt_bool,
    opt_decimal, opt_line, opt_number, opt_quoted, padded_digits, quoted, stream_lines,
    top_lines, with_section, zeros,
};
use crate::config::{ConfigView, StreamView, normalize_spec};
use crate::decimal::{Decimal, MAX_MANTISSA, abs};
use crate::scan::{
    LineSpec, ScalarSpec, all_digits, classify, digits_value, dot_pos, hex_value, is_digit,
    is_key_char, is_token_char, is_ws, key_end, parse_line, rest_is_empty, signed, skip_ws,
    split_lines, token_end, unescape, value_at,
};

verus! {

pub open spec fn no_newline(s: Seq<char>) -> bool {
    forall|i: int| 0 <= i < s.len() ==> #[trigger] s[i] != '\n'
}

proof fn lemma_split_extend(a: Seq<char>, b: Seq<char>)
    requires
        no_newline(b),
    ensures
        split_lines(a + b) == split_lines(a).update(
            split_lines(a).len() - 1,
            split_lines(a).last() + b,
        ),
        split_lines(a + b).len() == split_lines(a).len(),
    decreases b.len(),
{
    lemma_split_nonempty(a);
    if b.len() == 0 {
        assert(a + b == a);
        assert(split_lines(a).last() + b == split_lines(a).last());
        assert(split_lines(a).update(split_lines(a).len() - 1, split_lines(a).last())
            == split_lines(a));
    } else {
        let b0 = b.drop_last();
        assert(no_newline(b0)) by {
            assert forall|i: int| 0 <= i < b0.len() implies #[trigger] b0[i] != '\n' by {
                assert(b0[i] == b[i]);
            }
        }
        lemma_split_extend(a, b0);
        assert((a + b).drop_last() == a + b0);
        assert((a + b).last() == b.last());
        assert(b.last() == b[b.len() - 1]);
        let p = split_lines(a + b0);
        assert(p.last() == split_lines(a).last() + b0);
        assert(split_lines(a).last() + b0 + seq![b.last()] == split_lines(a).last() + b);
        assert(b[b.len() - 1] != '\n');
        assert(a + b != Seq::<char>::empty());
        assert(split_lines(a + b) == p.update(p.len() - 1, p.last().push(b.last())));
        let s = split_lines(a);
        assert(p.len() == s.len());
        assert(p.last().push(b.last()) =~= s.last() + b);
        assert(p.update(p.len() - 1, p.last().push(b.last())) =~= s.update(
            s.len() - 1,
            s.last() + b,
        ));
        assert(split_lines(a + b) =~= split_lines(a).update(
            split_lines(a).len() - 1,
            split_lines(a).last() + b,
        ));
    }
}

proof fn lemma_split_nonempty(a: Seq<char>)
    ensures
        split_lines(a).len() >= 1,
    decreases a.len(),
{
    if a.len() > 0 {
        lemma_split_nonempty(a.drop_last());
    }
}

/// Joining lines that hold no newline and splitting the result gives them back.
pub proof fn lemma_split_join(ls: Seq<Seq<char>>)
    requires
        ls.len() >= 1,
        forall|i: int| 0 <= i < ls.len() ==> no_newline(#[trigger] ls[i]),
    ensures
        split_lines(join_lines(ls)) == ls,
    decreases ls.len(),
{
    let e = Seq::<char>::empty();
    if ls.len() == 1 {
        lemma_split_extend(e, ls[0]);
        assert(e + ls[0] == ls[0]);
        assert(split_lines(e) == seq![e]);
        assert(split_lines(ls[0]) =~= ls);
    } else {
        let pre = ls.drop_last();
        assert forall|i: int| 0 <= i < pre.len() implies no_newline(#[trigger] pre[i]) by {
            assert(pre[i] == ls[i]);
        }
        lemma_split_join(pre);
        let a = join_lines(pre) + seq!['\n'];
        assert(a.drop_last() == join_lines(pre));
        assert(split_lines(a) == split_lines(join_lines(pre)).push(e));
        assert(no_newline(ls[ls.len() - 1]));
        lemma_split_extend(a, ls.last());
        assert(e + ls.last() == ls.last());
        assert(split_lines(join_lines(ls)) =~= ls);
    }
}

proof fn lemma_hex_round_trip(k: nat)
    requires
        k < 16,
    ensures
        crate::scan::hex_value(crate::codec::hex_digit(k)) == k,
{
}

proof fn lemma_char_code(c: char)
    requires
        (c as u32) < 0x80,
    ensures
        (((c as u32 / 16) * 16 + c as u32 % 16) as u8) as char == c,
{
}

proof fn lemma_escape_concat(a: Seq<char>, b: Seq<char>)
    ensures
        escape(a + b) == escape(a) + escape(b),
    decreases b.len(),
{
    if b.len() == 0 {
        assert(a + b == a);
        assert(escape(b) == Seq::<char>::empty());
        assert(escape(a) + escape(b) == escape(a));
    } else {
        lemma_escape_concat(a, b.drop_last());
        assert((a + b).drop_last() == a + b.drop_last());
        assert((a + b).last() == b.last());
        assert(escape(a + b) == escape(a + b.drop_last()) + escape_char(b.last()));
        assert(escape(a) + escape(b.drop_last()) + escape_char(b.last()) == escape(a) + escape(
            b,
        ));
    }
}

proof fn lemma_escape_front(s: Seq<char>)
    requires
        s.len() > 0,
    ensures
        escape(s) == escape_char(s[0]) + escape(s.drop_first()),
{
    let h = seq![s[0]];
    assert(s == h + s.drop_first());
    lemma_escape_concat(h, s.drop_first());
    assert(h.drop_last() == Seq::<char>::empty());
    assert(escape(h) == escape(Seq::<char>::empty()) + escape_char(s[0]));
    assert(escape(h) =~= escape_char(s[0]));
}

/// Reading one escaped character gives the character back.
proof fn lemma_unescape_char(l: Seq<char>, i: int, c: char, acc: Seq<char>)
    requires
        0 <= i,
        i + escape_char(c).len() < l.len(),
        l.subrange(i, i + escape_char(c).len()) == escape_char(c),
    ensures
        unescape(l, i, acc) == unescape(l, i + escape_char(c).len(), acc.push(c)),
{
    let e = escape_char(c);
    assert forall|k: int| 0 <= k < e.len() implies l[i + k] == #[trigger] e[k] by {
        assert(l.subrange(i, i + e.len())[k] == l[i + k]);
    }
    if c == '"' || c == '\\' || c == '\n' || c == '\t' || c == '\r' {
        assert(l[i] == '\\');
        assert(l[i + 1] == e[1]);
    } else if is_control(c) {
        assert(l[i] == '\\');
        assert(l[i + 1] == 'u');
        assert(l[i + 2] == '0' && l[i + 3] == '0');
        lemma_hex_round_trip((c as u32 / 16) as nat);
        lemma_hex_round_trip((c as u32 % 16) as nat);
        assert(l[i + 4] == hex_digit((c as u32 / 16) as nat));
        assert(l[i + 5] == hex_digit((c as u32 % 16) as nat));
        lemma_char_code(c);
    } else {
        assert(e == seq![c]);
        assert(e[0] == c);
        assert(l[i + 0] == e[0]);
    }
}

/// Reading an escaped string followed by a closing quote gives the string back.
pub proof fn lemma_unescape_escaped(l: Seq<char>, i: int, s: Seq<char>, acc: Seq<char>)
    requires
        0 <= i,
        i + escape(s).len() < l.len(),
        l.subrange(i, i + escape(s).len()) == escape(s),
        l[i + escape(s).len()] == '"',
    ensures
        unescape(l, i, acc) == Some((acc + s, i + escape(s).len() + 1)),
    decreases s.len(),
{
    if s.len() == 0 {
        assert(escape(s).len() == 0);
        assert(acc + s == acc);
    } else {
        lemma_escape_front(s);
        let e = escape_char(s[0]);
        let rest = s.drop_first();
        assert(l.subrange(i, i + e.len()) == escape(s).subrange(0, e.len() as int));
        assert(escape(s).subrange(0, e.len() as int) == e);
        lemma_unescape_char(l, i, s[0], acc);
        assert(l.subrange(i + e.len(), i + e.len() + escape(rest).len()) == escape(s).subrange(
            e.len() as int,
            escape(s).len() as int,
        ));
        assert(escape(s).subrange(e.len() as int, escape(s).len() as int) == escape(rest));
        lemma_unescape_escaped(l, i + e.len(), rest, acc.push(s[0]));
        assert(acc.push(s[0]) + rest == acc + s);
    }
}

pub open spec fn all_key_chars(s: Seq<char>) -> bool {
    forall|i: int| 0 <= i < s.len() ==> is_key_char(#[trigger] s[i])
}

pub open spec fn all_token_chars(s: Seq<char>) -> bool {
    forall|i: int| 0 <= i < s.len() ==> is_token_char(#[trigger] s[i])
}

proof fn lemma_digit_char(k: nat)
    requires
        k < 10,
    ensures
        is_digit(digit_char(k)),
        digit_char(k) as nat - '0' as nat == k,
{
    assert(k % 10 == k);
}

proof fn lemma_digits(n: nat)
    ensures
        digits(n).len() >= 1,
        all_digits(digits(n)),
        digits_value(digits(n)) == n,
    decreases n,
{
    if n >= 10 {
        lemma_digits(n / 10);
        lemma_digit_char(n % 10);
        let d = digits(n);
        assert(d.drop_last() == digits(n / 10));
        assert(d.last() == digit_char(n % 10));
        assert(digits_value(d) == digits_value(digits(n / 10)) * 10 + (n % 10));
        assert((n / 10) * 10 + n % 10 == n) by (nonlinear_arith);
        assert forall|i: int| 0 <= i < d.len() implies is_digit(#[trigger] d[i]) by {
            if i < d.len() - 1 {
                assert(d[i] == digits(n / 10)[i]);
            }
        }
    } else {
        lemma_digit_char(n);
        let d = digits(n);
        assert(d.drop_last() == Seq::<char>::empty());
        assert(d.last() == digit_char(n));
        assert(digits_value(d.drop_last()) == 0);
        assert(digits_value(d) == digits_value(d.drop_last()) * 10 + (d.last() as nat - '0' as nat) as nat);
        assert forall|i: int| 0 <= i < d.len() implies is_digit(#[trigger] d[i]) by {
            assert(d[i] == digit_char(n));
        }
    }
}

proof fn lemma_zeros_value(a: Seq<char>, b: Seq<char>)
    requires
        forall|i: int| 0 <= i < a.len() ==> #[trigger] a[i] == '0',
    ensures
        digits_value(a + b) == digits_value(b),
    decreases a.len() + b.len(),
{
    if b.len() == 0 {
        assert(a + b == a);
        if a.len() > 0 {
            assert forall|i: int| 0 <= i < a.drop_last().len() implies #[trigger] a.drop_last()[i]
                == '0' by {
                assert(a.drop_last()[i] == a[i]);
            }
            lemma_zeros_value(a.drop_last(), b);
            assert(a.drop_last() + b == a.drop_last());
            assert(a.last() == a[a.len() - 1]);
        }
    } else {
        lemma_zeros_value(a, b.drop_last());
        assert((a + b).drop_last() == a + b.drop_last());
        assert((a + b).last() == b.last());
    }
}

proof fn lemma_dot_pos_run(s: Seq<char>, i: int, k: int)
    requires
        0 <= i <= k < s.len(),
        s[k] == '.',
        forall|j: int| i <= j < k ==> #[trigger] s[j] != '.',
    ensures
        dot_pos(s, i) == k,
    decreases k - i,
{
    if i < k {
        lemma_dot_pos_run(s, i + 1, k);
    }
}

proof fn lemma_key_end_run(l: Seq<char>, i: int, j: int)
    requires
        0 <= i <= j <= l.len(),
        forall|k: int| i <= k < j ==> is_key_char(#[trigger] l[k]),
        j == l.len() || !is_key_char(l[j]),
    ensures
        key_end(l, i) == j,
    decreases j - i,
{
    if i < j {
        lemma_key_end_run(l, i + 1, j);
    }
}

proof fn lemma_token_end_run(l: Seq<char>, i: int)
    requires
        0 <= i <= l.len(),
        forall|k: int| i <= k < l.len() ==> is_token_char(#[trigger] l[k]),
    ensures
        token_end(l, i) == l.len(),
    decreases l.len() - i,
{
    if i < l.len() {
        lemma_token_end_run(l, i + 1);
    }
}

/// What the text of a decimal in range reads back as.
pub open spec fn decimal_scalar(d: Decimal) -> ScalarSpec {
    if d.scale == 0 {
        ScalarSpec::Int(d.mantissa as int)
    } else {
        ScalarSpec::Dec(d.mantissa as int, d.scale as nat)
    }
}

proof fn lemma_not_bool(t: Seq<char>)
    requires
        t.len() > 0,
        is_digit(t[t.len() - 1]),
    ensures
        t != "true"@,
        t != "false"@,
{
    reveal_strlit("true");
    reveal_strlit("false");
    assert("true"@[3] == 'e');
    assert("false"@[4] == 'e');
}

proof fn lemma_padded(mag: nat, w: nat)
    ensures
        padded_digits(mag, w).len() >= w,
        padded_digits(mag, w).len() >= 1,
        all_digits(padded_digits(mag, w)),
        digits_value(padded_digits(mag, w)) == mag,
{
    lemma_digits(mag);
    let ds = digits(mag);
    let p = padded_digits(mag, w);
    if ds.len() < w {
        let z = zeros((w - ds.len()) as nat);
        assert(p == z + ds);
        assert forall|i: int| 0 <= i < p.len() implies is_digit(#[trigger] p[i]) by {
            if i >= z.len() {
                assert(p[i] == ds[i - z.len()]);
            }
        }
        lemma_zeros_value(z, ds);
    }
}

proof fn lemma_classify_integer(d: Decimal)
    requires
        d.wf(),
        d.scale == 0,
    ensures
        classify(decimal_text(d)) == decimal_scalar(d),
        decimal_text(d).len() > 0,
        all_token_chars(decimal_text(d)),
        decimal_text(d)[0] != '"',
{
    let mag = abs(d.mantissa as int);
    let neg = d.mantissa < 0;
    let sign = if neg {
        seq!['-']
    } else {
        Seq::<char>::empty()
    };
    lemma_digits(mag);
    let body = digits(mag);
    let t = decimal_text(d);
    assert(t == sign + body);
    assert(is_digit(body[0]));
    assert(t.len() > 0 && (t[0] == '-' || t[0] == '+') ==> t.drop_first() == body);
    assert(!(t.len() > 0 && (t[0] == '-' || t[0] == '+')) ==> t == body);
    assert(t[t.len() - 1] == body[body.len() - 1]);
    lemma_not_bool(t);
    assert(signed(neg, mag) == d.mantissa);
    assert forall|i: int| 0 <= i < t.len() implies is_token_char(#[trigger] t[i]) by {
        if !neg || i > 0 {
            assert(t[i] == body[i - sign.len()]);
            assert(is_digit(body[i - sign.len()]));
        }
    }
}

proof fn lemma_classify_fraction(d: Decimal)
    requires
        d.wf(),
        d.scale > 0,
    ensures
        classify(decimal_text(d)) == decimal_scalar(d),
        decimal_text(d).len() > 0,
        all_token_chars(decimal_text(d)),
        decimal_text(d)[0] != '"',
{
    let mag = abs(d.mantissa as int);
    let neg = d.mantissa < 0;
    let sign = if neg {
        seq!['-']
    } else {
        Seq::<char>::empty()
    };
    let w = d.scale as nat + 1;
    let p = padded_digits(mag, w);
    lemma_padded(mag, w);
    let k = p.len() - d.scale;
    let body = p.take(k) + seq!['.'] + p.skip(k);
    let t = decimal_text(d);
    assert(t == sign + body);
    assert(t.len() > 0 && (t[0] == '-' || t[0] == '+') ==> t.drop_first() == body) by {
        assert(is_digit(p[0]));
        assert(body[0] == p[0]);
    }
    assert(!(t.len() > 0 && (t[0] == '-' || t[0] == '+')) ==> t == body);
    assert(body[k] == '.');
    assert forall|j: int| 0 <= j < k implies #[trigger] body[j] != '.' by {
        assert(body[j] == p[j]);
        assert(is_digit(p[j]));
    }
    lemma_dot_pos_run(body, 0, k);
    assert(!is_digit(body[k]));
    assert(!all_digits(body));
    assert(body.take(k) == p.take(k));
    assert(body.skip(k + 1) == p.skip(k));
    assert(p.take(k) + p.skip(k) == p);
    assert forall|j: int| 0 <= j < p.take(k).len() implies is_digit(#[trigger] p.take(k)[j]) by {
        assert(p.take(k)[j] == p[j]);
    }
    assert forall|j: int| 0 <= j < p.skip(k).len() implies is_digit(#[trigger] p.skip(k)[j]) by {
        assert(p.skip(k)[j] == p[j + k]);
    }
    assert(t[t.len() - 1] == p[p.len() - 1]);
    lemma_not_bool(t);
    assert(signed(neg, mag) == d.mantissa);
    lemma_fraction_tokens(d);
}

proof fn lemma_fraction_tokens(d: Decimal)
    requires
        d.wf(),
        d.scale > 0,
    ensures
        all_token_chars(decimal_text(d)),
{
    let mag = abs(d.mantissa as int);
    let neg = d.mantissa < 0;
    let sign = if neg {
        seq!['-']
    } else {
        Seq::<char>::empty()
    };
    let w = d.scale as nat + 1;
    let p = padded_digits(mag, w);
    lemma_padded(mag, w);
    let k = p.len() - d.scale;
    let body = p.take(k) + seq!['.'] + p.skip(k);
    let t = decimal_text(d);
    assert(t == sign + body);
    assert forall|i: int| 0 <= i < t.len() implies is_token_char(#[trigger] t[i]) by {
        if !neg || i > 0 {
            let j = i - sign.len();
            assert(t[i] == body[j]);
            if j < k {
                assert(body[j] == p[j]);
            } else if j > k {
                assert(body[j] == p[j - 1]);
            }
        }
    }
}

proof fn lemma_classify_decimal(d: Decimal)
    requires
        d.wf(),
    ensures
        classify(decimal_text(d)) == decimal_scalar(d),
        decimal_text(d).len() > 0,
        all_token_chars(decimal_text(d)),
        decimal_text(d)[0] != '"',
{
    if d.scale == 0 {
        lemma_classify_integer(d);
    } else {
        lemma_classify_fraction(d);
    }
}

/// The common part of reading `key = value`: the key, then the value at `n + 3`.
proof fn lemma_pair_prefix(key: Seq<char>, v: Seq<char>)
    requires
        key.len() > 0,
        all_key_chars(key),
        v.len() > 0,
        !is_ws(v[0]),
    ensures
        ({
            let l = kv(key, v);
            let n = key.len() as int;
            &&& skip_ws(l, 0) == 0
            &&& l[0] != '#' && l[0] != '['
            &&& key_end(l, 0) == n
            &&& skip_ws(l, n) == n + 1
            &&& l[n + 1] == '='
            &&& skip_ws(l, n + 2) == n + 3
            &&& l.subrange(0, n) == key
            &&& l.subrange(n + 3, l.len() as int) == v
            &&& l.len() == n + 3 + v.len()
        }),
{
    reveal_strlit(" = ");
    let l = kv(key, v);
    let n = key.len() as int;
    assert(is_key_char(key[0]));
    assert(l[0] == key[0]);
    assert forall|k: int| 0 <= k < n implies is_key_char(#[trigger] l[k]) by {
        assert(l[k] == key[k]);
    }
    assert(l[n] == ' ');
    assert(l[n + 1] == '=');
    assert(l[n + 2] == ' ');
    assert(l[n + 3] == v[0]);
    lemma_key_end_run(l, 0, n);
    assert(skip_ws(l, n + 1) == n + 1);
    assert(skip_ws(l, n + 3) == n + 3);
    assert(l.subrange(0, n) == key);
    assert(l.subrange(n + 3, l.len() as int) == v);
}

/// A `key = value` line with a bare value reads back as that key and value.
pub proof fn lemma_parse_token_pair(key: Seq<char>, v: Seq<char>)
    requires
        key.len() > 0,
        all_key_chars(key),
        v.len() > 0,
        all_token_chars(v),
        v[0] != '"',
    ensures
        parse_line(kv(key, v)) == LineSpec::Pair(key, classify(v)),
{
    assert(is_token_char(v[0]));
    lemma_pair_prefix(key, v);
    let l = kv(key, v);
    let n = key.len() as int;
    assert forall|k: int| n + 3 <= k < l.len() implies is_token_char(#[trigger] l[k]) by {
        assert(l[k] == l.subrange(n + 3, l.len() as int)[k - n - 3]);
    }
    lemma_token_end_run(l, n + 3);
    assert(l[n + 3] == v[0]);
    assert(value_at(l, n + 3) == Some((classify(v), l.len() as int)));
    assert(rest_is_empty(l, l.len() as int));
}

/// A `key = "text"` line reads back as that key and text.
#[verifier::rlimit(40)]
pub proof fn lemma_parse_string_pair(key: Seq<char>, s: Seq<char>)
    requires
        key.len() > 0,
        all_key_chars(key),
    ensures
        parse_line(kv(key, quoted(s))) == LineSpec::Pair(key, ScalarSpec::Str(s)),
{
    let v = quoted(s);
    assert(v[0] == '"');
    lemma_pair_prefix(key, v);
    let l = kv(key, v);
    let n = key.len() as int;
    let e = escape(s);
    assert(v == seq!['"'] + e + seq!['"']);
    assert(l.subrange(n + 4, n + 4 + e.len()) == e) by {
        assert forall|k: int| 0 <= k < e.len() implies #[trigger] l.subrange(
            n + 4,
            n + 4 + e.len(),
        )[k] == e[k] by {
            assert(l[n + 4 + k] == l.subrange(n + 3, l.len() as int)[k + 1]);
            assert(v[k + 1] == e[k]);
        }
    }
    assert(l[n + 4 + e.len()] == l.subrange(n + 3, l.len() as int)[e.len() + 1 as int]);
    lemma_unescape_escaped(l, n + 4, s, Seq::empty());
    assert(Seq::<char>::empty() + s == s);
    assert(l[n + 3] == v[0]);
    assert(value_at(l, n + 3) == Some((ScalarSpec::Str(s), l.len() as int)));
    assert(rest_is_empty(l, l.len() as int));
}

proof fn lemma_key_literals()
    ensures
        all_key_chars("backend"@) && "backend"@.len() == 7,
        all_key_chars("bufferSizeSamples"@) && "bufferSizeSamples"@.len() == 17,
        all_key_chars("device"@) && "device"@.len() == 6,
        all_key_chars("suggestedLatencySeconds"@) && "suggestedLatencySeconds"@.len() == 23,
        all_key_chars("wasapiExclusiveMode"@) && "wasapiExclusiveMode"@.len() == 19,
        all_key_chars("wasapiAutoConvert"@) && "wasapiAutoConvert"@.len() == 17,
        all_key_chars("channels"@) && "channels"@.len() == 8,
        all_key_chars("input"@) && "input"@.len() == 5,
        all_key_chars("output"@) && "output"@.len() == 6,
{
    reveal_strlit("backend");
    reveal_strlit("bufferSizeSamples");
    reveal_strlit("device");
    reveal_strlit("suggestedLatencySeconds");
    reveal_strlit("wasapiExclusiveMode");
    reveal_strlit("wasapiAutoConvert");
    reveal_strlit("channels");
    reveal_strlit("input");
    reveal_strlit("output");
}

proof fn lemma_classify_number(n: nat)
    requires
        n <= MAX_MANTISSA,
    ensures
        classify(digits(n)) == ScalarSpec::Int(n as int),
        digits(n).len() > 0,
        all_token_chars(digits(n)),
        digits(n)[0] != '"',
{
    lemma_digits(n);
    let t = digits(n);
    assert(is_digit(t[0]));
    assert(is_digit(t[t.len() - 1]));
    lemma_not_bool(t);
    assert forall|i: int| 0 <= i < t.len() implies is_token_char(#[trigger] t[i]) by {
        assert(is_digit(t[i]));
    }
}

proof fn lemma_bool_text(b: bool)
    ensures
        classify(bool_text(b)) == ScalarSpec::Bool(b),
        bool_text(b).len() > 0,
        all_token_chars(bool_text(b)),
        bool_text(b)[0] != '"',
{
    reveal_strlit("true");
    reveal_strlit("false");
    assert("true"@.len() == 4 && "false"@.len() == 5);
    assert("true"@ != "false"@);
    let t = bool_text(b);
    assert forall|i: int| 0 <= i < t.len() implies is_token_char(#[trigger] t[i]) by {
        if b {
            assert(t[i] == "true"@[i]);
        } else {
            assert(t[i] == "false"@[i]);
        }
    }
}

proof fn lemma_header(name: Seq<char>, h: Seq<char>)
    requires
        name.len() > 0,
        all_key_chars(name),
        h == seq!['['] + name + seq![']'],
    ensures
        parse_line(h) == LineSpec::Header(name),
{
    let n = name.len() as int;
    assert forall|k: int| 1 <= k < n + 1 implies is_key_char(#[trigger] h[k]) by {
        assert(h[k] == name[k - 1]);
    }
    assert(h[n + 1] == ']');
    assert(is_key_char(h[1]));
    lemma_key_end_run(h, 1, n + 1);
    assert(skip_ws(h, 1) == 1);
    assert(skip_ws(h, n + 1) == n + 1);
    assert(rest_is_empty(h, n + 2));
    assert(h.subrange(1, n + 1) == name);
}

proof fn lemma_headers()
    ensures
        parse_line("[input]"@) == LineSpec::Header("input"@),
        parse_line("[output]"@) == LineSpec::Header("output"@),
{
    lemma_key_literals();
    reveal_strlit("[input]");
    reveal_strlit("[output]");
    reveal_strlit("input");
    reveal_strlit("output");
    assert("[input]"@ =~= seq!['['] + "input"@ + seq![']']);
    assert("[output]"@ =~= seq!['['] + "output"@ + seq![']']);
    lemma_header("input"@, "[input]"@);
    lemma_header("output"@, "[output]"@);
}

/// The stream table that section `sec` is filling.
pub open spec fn current(sec: Section, c: ConfigView) -> Option<StreamView> {
    match sec {
        Section::Input => c.input,
        Section::Output => c.output,
        _ => None,
    }
}

pub open spec fn with_stream(sec: Section, c: ConfigView, t: StreamView) -> ConfigView {
    match sec {
        Section::Input => ConfigView { input: Some(t), ..c },
        Section::Output => ConfigView { output: Some(t), ..c },
        _ => c,
    }
}

proof fn lemma_pair_step(
    l: Seq<Seq<char>>,
    j: int,
    sec: Section,
    c: ConfigView,
    key: Seq<char>,
    v: ScalarSpec,
    c2: ConfigView,
)
    requires
        0 <= j < l.len(),
        parse_line(l[j]) == LineSpec::Pair(key, v),
        apply_pair(sec, c, key, v) == Some(c2),
    ensures
        decode_from(l, j, sec, c) == decode_from(l, j + 1, sec, c2),
{
}

proof fn lemma_latency_scalar(x: Decimal)
    requires
        x.wf(),
    ensures
        latency_of(decimal_scalar(x)) == Some(x),
{
}

proof fn lemma_line_at(l: Seq<Seq<char>>, i: int, segs: Seq<Seq<char>>, off: int)
    requires
        0 <= i,
        0 <= off < segs.len(),
        i + segs.len() <= l.len(),
        l.subrange(i, i + segs.len()) == segs,
    ensures
        l[i + off] == segs[off],
{
    assert(l.subrange(i, i + segs.len())[off] == l[i + off]);
}

proof fn lemma_step_device(l: Seq<Seq<char>>, j: int, sec: Section, c0: ConfigView, t: StreamView, v: Option<Seq<char>>)
    requires
        sec == Section::Input || sec == Section::Output,
        current(sec, c0) is Some,
        0 <= j,
        j + opt_line("device"@, opt_quoted(v)).len() <= l.len(),
        l.subrange(j, j + opt_line("device"@, opt_quoted(v)).len()) == opt_line("device"@, opt_quoted(v)),
        v is None ==> t.device is None,
    ensures
        decode_from(l, j, sec, with_stream(sec, c0, t)) == decode_from(
            l,
            j + opt_line("device"@, opt_quoted(v)).len(),
            sec,
            with_stream(sec, c0, StreamView { device: v, ..t }),
        ),
{
    lemma_key_literals();
    if let Some(dv) = v {
        let seg = opt_line("device"@, opt_quoted(v));
        lemma_line_at(l, j, seg, 0);
        lemma_parse_string_pair("device"@, dv);
        lemma_pair_step(l, j, sec, with_stream(sec, c0, t), "device"@, ScalarSpec::Str(dv), with_stream(sec, c0, StreamView { device: v, ..t }));
    } else {
        assert(StreamView { device: v, ..t } == t);
    }
}

proof fn lemma_step_latency(l: Seq<Seq<char>>, j: int, sec: Section, c0: ConfigView, t: StreamView, v: Option<Decimal>)
    requires
        sec == Section::Input || sec == Section::Output,
        0 <= j,
        crate::config::latency_wf(v),
        j + opt_line("suggestedLatencySeconds"@, opt_decimal(v)).len() <= l.len(),
        l.subrange(j, j + opt_line("suggestedLatencySeconds"@, opt_decimal(v)).len()) == opt_line("suggestedLatencySeconds"@, opt_decimal(v)),
        v is None ==> t.suggested_latency_seconds is None,
    ensures
        decode_from(l, j, sec, with_stream(sec, c0, t)) == decode_from(
            l,
            j + opt_line("suggestedLatencySeconds"@, opt_decimal(v)).len(),
            sec,
            with_stream(sec, c0, StreamView { suggested_latency_seconds: v, ..t }),
        ),
{
    lemma_key_literals();
    if let Some(x) = v {
        let seg = opt_line("suggestedLatencySeconds"@, opt_decimal(v));
        lemma_line_at(l, j, seg, 0);
        lemma_classify_decimal(x);
        lemma_parse_token_pair("suggestedLatencySeconds"@, decimal_text(x));
        lemma_latency_scalar(x);
        lemma_pair_step(l, j, sec, with_stream(sec, c0, t), "suggestedLatencySeconds"@, decimal_scalar(x), with_stream(sec, c0, StreamView { suggested_latency_seconds: v, ..t }));
    } else {
        assert(StreamView { suggested_latency_seconds: v, ..t } == t);
    }
}

proof fn lemma_step_exclusive(l: Seq<Seq<char>>, j: int, sec: Section, c0: ConfigView, t: StreamView, v: Option<bool>)
    requires
        sec == Section::Input || sec == Section::Output,
        0 <= j,
        j + opt_line("wasapiExclusiveMode"@, opt_bool(v)).len() <= l.len(),
        l.subrange(j, j + opt_line("wasapiExclusiveMode"@, opt_bool(v)).len()) == opt_line("wasapiExclusiveMode"@, opt_bool(v)),
        v is None ==> t.wasapi_exclusive_mode is None,
    ensures
        decode_from(l, j, sec, with_stream(sec, c0, t)) == decode_from(
            l,
            j + opt_line("wasapiExclusiveMode"@, opt_bool(v)).len(),
            sec,
            with_stream(sec, c0, StreamView { wasapi_exclusive_mode: v, ..t }),
        ),
{
    lemma_key_literals();
    if let Some(x) = v {
        let seg = opt_line("wasapiExclusiveMode"@, opt_bool(v));
        lemma_line_at(l, j, seg, 0);
        lemma_bool_text(x);
        lemma_parse_token_pair("wasapiExclusiveMode"@, bool_text(x));
        lemma_pair_step(l, j, sec, with_stream(sec, c0, t), "wasapiExclusiveMode"@, ScalarSpec::Bool(x), with_stream(sec, c0, StreamView { wasapi_exclusive_mode: v, ..t }));
    } else {
        assert(StreamView { wasapi_exclusive_mode: v, ..t } == t);
    }
}

proof fn lemma_step_auto_convert(l: Seq<Seq<char>>, j: int, sec: Section, c0: ConfigView, t: StreamView, v: Option<bool>)
    requires
        sec == Section::Input || sec == Section::Output,
        0 <= j,
        j + opt_line("wasapiAutoConvert"@, opt_bool(v)).len() <= l.len(),
        l.subrange(j, j + opt_line("wasapiAutoConvert"@, opt_bool(v)).len()) == opt_line("wasapiAutoConvert"@, opt_bool(v)),
        v is None ==> t.wasapi_auto_convert is None,
    ensures
        decode_from(l, j, sec, with_stream(sec, c0, t)) == decode_from(
            l,
            j + opt_line("wasapiAutoConvert"@, opt_bool(v)).len(),
            sec,
            with_stream(sec, c0, StreamView { wasapi_auto_convert: v, ..t }),
        ),
{
    lemma_key_literals();
    if let Some(x) = v {
        let seg = opt_line("wasapiAutoConvert"@, opt_bool(v));
        lemma_line_at(l, j, seg, 0);
        lemma_bool_text(x);
        lemma_parse_token_pair("wasapiAutoConvert"@, bool_text(x));
        lemma_pair_step(l, j, sec, with_stream(sec, c0, t), "wasapiAutoConvert"@, ScalarSpec::Bool(x), with_stream(sec, c0, StreamView { wasapi_auto_convert: v, ..t }));
    } else {
        assert(StreamView { wasapi_auto_convert: v, ..t } == t);
    }
}

proof fn lemma_step_channels(l: Seq<Seq<char>>, j: int, sec: Section, c0: ConfigView, t: StreamView, v: Option<u8>)
    requires
        sec == Section::Input || sec == Section::Output,
        0 <= j,
        j + opt_line("channels"@, opt_number(channel_number(v))).len() <= l.len(),
        l.subrange(j, j + opt_line("channels"@, opt_number(channel_number(v))).len()) == opt_line("channels"@, opt_number(channel_number(v))),
        v is None ==> t.channels is None,
    ensures
        decode_from(l, j, sec, with_stream(sec, c0, t)) == decode_from(
            l,
            j + opt_line("channels"@, opt_number(channel_number(v))).len(),
            sec,
            with_stream(sec, c0, StreamView { channels: v, ..t }),
        ),
{
    lemma_key_literals();
    if let Some(x) = v {
        let seg = opt_line("channels"@, opt_number(channel_number(v)));
        lemma_line_at(l, j, seg, 0);
        lemma_classify_number(x as nat);
        lemma_parse_token_pair("channels"@, digits(x as nat));
        lemma_pair_step(l, j, sec, with_stream(sec, c0, t), "channels"@, ScalarSpec::Int(x as int), with_stream(sec, c0, StreamView { channels: v, ..t }));
    } else {
        assert(StreamView { channels: v, ..t } == t);
    }
}

proof fn lemma_sub_segment(l: Seq<Seq<char>>, i: int, whole: Seq<Seq<char>>, off: int, seg: Seq<Seq<char>>)
    requires
        0 <= i,
        0 <= off,
        off + seg.len() <= whole.len(),
        i + whole.len() <= l.len(),
        l.subrange(i, i + whole.len()) == whole,
        whole.subrange(off, off + seg.len()) == seg,
    ensures
        l.subrange(i + off, i + off + seg.len()) == seg,
{
    assert forall|k: int| 0 <= k < seg.len() implies #[trigger] l.subrange(i + off, i + off + seg.len())[k] == seg[k] by {
        assert(l.subrange(i, i + whole.len())[off + k] == l[i + off + k]);
        assert(whole.subrange(off, off + seg.len())[k] == whole[off + k]);
    }
    assert(l.subrange(i + off, i + off + seg.len()) =~= seg);
}

/// Reading the keys of a stream table, written into a fresh table, fills it
/// with exactly the stream's settings.
#[verifier::rlimit(80)]
proof fn lemma_stream_lines(l: Seq<Seq<char>>, i: int, sec: Section, c0: ConfigView, s: StreamView)
    requires
        sec == Section::Input || sec == Section::Output,
        current(sec, c0) == Some(empty_stream()),
        s.wf(),
        0 <= i,
        i + stream_lines(s).len() <= l.len(),
        l.subrange(i, i + stream_lines(s).len()) == stream_lines(s),
    ensures
        decode_from(l, i, sec, c0) == decode_from(
            l,
            i + stream_lines(s).len(),
            sec,
            with_stream(sec, c0, s),
        ),
{
    let a = opt_line("device"@, opt_quoted(s.device));
    let b = opt_line("suggestedLatencySeconds"@, opt_decimal(s.suggested_latency_seconds));
    let cc = opt_line("wasapiExclusiveMode"@, opt_bool(s.wasapi_exclusive_mode));
    let d = opt_line("wasapiAutoConvert"@, opt_bool(s.wasapi_auto_convert));
    let e = opt_line("channels"@, opt_number(channel_number(s.channels)));
    let sl = stream_lines(s);
    assert(sl =~= a + b + cc + d + e);
    let o1 = a.len() as int;
    let o2 = o1 + b.len();
    let o3 = o2 + cc.len();
    let o4 = o3 + d.len();
    assert(sl.subrange(0, o1) =~= a);
    assert(sl.subrange(o1, o2) =~= b);
    assert(sl.subrange(o2, o3) =~= cc);
    assert(sl.subrange(o3, o4) =~= d);
    assert(sl.subrange(o4, sl.len() as int) =~= e);
    lemma_sub_segment(l, i, sl, 0, a);
    lemma_sub_segment(l, i, sl, o1, b);
    lemma_sub_segment(l, i, sl, o2, cc);
    lemma_sub_segment(l, i, sl, o3, d);
    lemma_sub_segment(l, i, sl, o4, e);
    let t0 = empty_stream();
    let t1 = StreamView { device: s.device, ..t0 };
    let t2 = StreamView { suggested_latency_seconds: s.suggested_latency_seconds, ..t1 };
    let t3 = StreamView { wasapi_exclusive_mode: s.wasapi_exclusive_mode, ..t2 };
    let t4 = StreamView { wasapi_auto_convert: s.wasapi_auto_convert, ..t3 };
    let t5 = StreamView { channels: s.channels, ..t4 };
    assert(t5 == s);
    assert(with_stream(sec, c0, t0) == c0);
    lemma_step_device(l, i, sec, c0, t0, s.device);
    lemma_step_latency(l, i + o1, sec, c0, t1, s.suggested_latency_seconds);
    lemma_step_exclusive(l, i + o2, sec, c0, t2, s.wasapi_exclusive_mode);
    lemma_step_auto_convert(l, i + o3, sec, c0, t3, s.wasapi_auto_convert);
    lemma_step_channels(l, i + o4, sec, c0, t4, s.channels);
}

pub open spec fn lines_ok(ls: Seq<Seq<char>>) -> bool {
    forall|i: int| 0 <= i < ls.len() ==> no_newline(#[trigger] ls[i])
}

proof fn lemma_concat_ok(a: Seq<Seq<char>>, b: Seq<Seq<char>>)
    requires
        lines_ok(a),
        lines_ok(b),
    ensures
        lines_ok(a + b),
{
    assert forall|i: int| 0 <= i < (a + b).len() implies no_newline(#[trigger] (a + b)[i]) by {
        if i < a.len() {
            assert((a + b)[i] == a[i]);
        } else {
            assert((a + b)[i] == b[i - a.len()]);
        }
    }
}

proof fn lemma_escape_no_newline(s: Seq<char>)
    ensures
        no_newline(escape(s)),
    decreases s.len(),
{
    if s.len() > 0 {
        lemma_escape_no_newline(s.drop_last());
        let a = escape(s.drop_last());
        let e = escape_char(s.last());
        assert(no_newline(e)) by {
            let c = s.last();
            if is_control(c) && !(c == '"' || c == '\\' || c == '\n' || c == '\t' || c == '\r') {
                lemma_hex_round_trip((c as u32 / 16) as nat);
                lemma_hex_round_trip((c as u32 % 16) as nat);
            }
        }
        assert forall|i: int| 0 <= i < (a + e).len() implies #[trigger] (a + e)[i] != '\n' by {
            if i < a.len() {
                assert((a + e)[i] == a[i]);
            } else {
                assert((a + e)[i] == e[i - a.len()]);
            }
        }
    }
}

proof fn lemma_kv_no_newline(key: Seq<char>, v: Seq<char>)
    requires
        all_key_chars(key),
        no_newline(v),
    ensures
        no_newline(kv(key, v)),
{
    reveal_strlit(" = ");
    let l = kv(key, v);
    assert forall|i: int| 0 <= i < l.len() implies #[trigger] l[i] != '\n' by {
        if i < key.len() {
            assert(l[i] == key[i]);
            assert(is_key_char(key[i]));
        } else if i >= key.len() + 3 {
            assert(l[i] == v[i - key.len() - 3]);
        }
    }
}

proof fn lemma_token_no_newline(v: Seq<char>)
    requires
        all_token_chars(v),
    ensures
        no_newline(v),
{
    assert forall|i: int| 0 <= i < v.len() implies #[trigger] v[i] != '\n' by {
        assert(is_token_char(v[i]));
    }
}

proof fn lemma_quoted_no_newline(s: Seq<char>)
    ensures
        no_newline(quoted(s)),
{
    lemma_escape_no_newline(s);
    let q = quoted(s);
    let e = escape(s);
    assert forall|i: int| 0 <= i < q.len() implies #[trigger] q[i] != '\n' by {
        if 0 < i < q.len() - 1 {
            assert(q[i] == e[i - 1]);
        }
    }
}

proof fn lemma_stream_lines_ok(s: StreamView)
    requires
        s.wf(),
    ensures
        lines_ok(stream_lines(s)),
{
    lemma_key_literals();
    let a = opt_line("device"@, opt_quoted(s.device));
    let b = opt_line("suggestedLatencySeconds"@, opt_decimal(s.suggested_latency_seconds));
    let cc = opt_line("wasapiExclusiveMode"@, opt_bool(s.wasapi_exclusive_mode));
    let d = opt_line("wasapiAutoConvert"@, opt_bool(s.wasapi_auto_convert));
    let e = opt_line("channels"@, opt_number(channel_number(s.channels)));
    if let Some(x) = s.device {
        lemma_quoted_no_newline(x);
        lemma_kv_no_newline("device"@, quoted(x));
    }
    if let Some(x) = s.suggested_latency_seconds {
        lemma_classify_decimal(x);
        lemma_token_no_newline(decimal_text(x));
        lemma_kv_no_newline("suggestedLatencySeconds"@, decimal_text(x));
    }
    if let Some(x) = s.wasapi_exclusive_mode {
        lemma_bool_text(x);
        lemma_token_no_newline(bool_text(x));
        lemma_kv_no_newline("wasapiExclusiveMode"@, bool_text(x));
    }
    if let Some(x) = s.wasapi_auto_convert {
        lemma_bool_text(x);
        lemma_token_no_newline(bool_text(x));
        lemma_kv_no_newline("wasapiAutoConvert"@, bool_text(x));
    }
    if let Some(x) = s.channels {
        lemma_classify_number(x as nat);
        lemma_token_no_newline(digits(x as nat));
        lemma_kv_no_newline("channels"@, digits(x as nat));
    }
    assert(lines_ok(a) && lines_ok(b) && lines_ok(cc) && lines_ok(d) && lines_ok(e));
    lemma_concat_ok(a, b);
    lemma_concat_ok(a + b, cc);
    lemma_concat_ok(a + b + cc, d);
    lemma_concat_ok(a + b + cc + d, e);
}

proof fn lemma_top_lines_ok(c: ConfigView)
    ensures
        lines_ok(top_lines(c)),
{
    lemma_key_literals();
    let a = opt_line("backend"@, opt_quoted(c.backend));
    let b = opt_line("bufferSizeSamples"@, opt_number(number_of(c.buffer_size_samples)));
    if let Some(x) = c.backend {
        lemma_quoted_no_newline(x);
        lemma_kv_no_newline("backend"@, quoted(x));
    }
    if let Some(x) = c.buffer_size_samples {
        lemma_classify_number(x as nat);
        lemma_token_no_newline(digits(x as nat));
        lemma_kv_no_newline("bufferSizeSamples"@, digits(x as nat));
    }
    lemma_concat_ok(a, b);
}

proof fn lemma_section_ok(prior: Seq<Seq<char>>, header: Seq<char>, s: Option<StreamView>)
    requires
        lines_ok(prior),
        no_newline(header),
        crate::config::stream_wf(s),
    ensures
        lines_ok(with_section(prior, header, s)),
{
    if let Some(t) = s {
        let p = if prior.len() > 0 {
            prior.push(Seq::empty())
        } else {
            prior
        };
        assert(lines_ok(p)) by {
            assert forall|i: int| 0 <= i < p.len() implies no_newline(#[trigger] p[i]) by {
                if i < prior.len() {
                    assert(p[i] == prior[i]);
                }
            }
        }
        lemma_stream_lines_ok(t);
        assert(lines_ok(seq![header]));
        lemma_concat_ok(p, seq![header]);
        lemma_concat_ok(p + seq![header], stream_lines(t));
    }
}

proof fn lemma_config_lines_ok(c: ConfigView)
    requires
        c.wf(),
    ensures
        lines_ok(config_lines(c)),
{
    reveal_strlit("[input]");
    reveal_strlit("[output]");
    lemma_top_lines_ok(c);
    lemma_section_ok(top_lines(c), "[input]"@, c.input);
    lemma_section_ok(with_section(top_lines(c), "[input]"@, c.input), "[output]"@, c.output);
}

proof fn lemma_top(l: Seq<Seq<char>>, c: ConfigView)
    requires
        top_lines(c).len() <= l.len(),
        l.subrange(0, top_lines(c).len() as int) == top_lines(c),
    ensures
        decode_from(l, 0, Section::Top, empty_config()) == decode_from(
            l,
            top_lines(c).len() as int,
            Section::Top,
            ConfigView { input: None, output: None, ..c },
        ),
{
    lemma_key_literals();
    let a = opt_line("backend"@, opt_quoted(c.backend));
    let b = opt_line("bufferSizeSamples"@, opt_number(number_of(c.buffer_size_samples)));
    let t = top_lines(c);
    assert(t =~= a + b);
    let c0 = empty_config();
    let c1 = ConfigView { backend: c.backend, ..c0 };
    let c2 = ConfigView { buffer_size_samples: c.buffer_size_samples, ..c1 };
    assert(c2 == ConfigView { input: None, output: None, ..c });
    if let Some(x) = c.backend {
        lemma_line_at(l, 0, t, 0);
        lemma_parse_string_pair("backend"@, x);
        lemma_pair_step(l, 0, Section::Top, c0, "backend"@, ScalarSpec::Str(x), c1);
    } else {
        assert(c1 == c0);
    }
    if let Some(x) = c.buffer_size_samples {
        lemma_line_at(l, 0, t, a.len() as int);
        assert(t[a.len() as int] == b[0]);
        lemma_classify_number(x as nat);
        lemma_parse_token_pair("bufferSizeSamples"@, digits(x as nat));
        lemma_pair_step(
            l,
            a.len() as int,
            Section::Top,
            c1,
            "bufferSizeSamples"@,
            ScalarSpec::Int(x as int),
            c2,
        );
    } else {
        assert(c2 == c1);
    }
}

proof fn lemma_blank_line()
    ensures
        parse_line(Seq::<char>::empty()) == LineSpec::Blank,
{
}

/// Reading a table written after `prior`: the blank line and header, then
/// its keys, leave that table filled with the stream's settings.
proof fn lemma_section(
    l: Seq<Seq<char>>,
    prior: Seq<Seq<char>>,
    header: Seq<char>,
    sec: Section,
    any: Section,
    c0: ConfigView,
    s: StreamView,
)
    requires
        (sec == Section::Input && header == "[input]"@) || (sec == Section::Output && header
            == "[output]"@),
        current(sec, c0) is None,
        s.wf(),
        with_section(prior, header, Some(s)).len() <= l.len(),
        l.subrange(0, with_section(prior, header, Some(s)).len() as int) == with_section(
            prior,
            header,
            Some(s),
        ),
    ensures
        decode_from(l, prior.len() as int, any, c0) == decode_from(
            l,
            with_section(prior, header, Some(s)).len() as int,
            sec,
            with_stream(sec, c0, s),
        ),
{
    lemma_headers();
    lemma_key_literals();
    let w = with_section(prior, header, Some(s));
    let p = if prior.len() > 0 {
        prior.push(Seq::empty())
    } else {
        prior
    };
    let h = p.len() as int;
    assert(w == p + seq![header] + stream_lines(s));
    if prior.len() > 0 {
        lemma_line_at(l, 0, w, prior.len() as int);
        assert(w[prior.len() as int] == Seq::<char>::empty());
        lemma_blank_line();
        assert(decode_from(l, prior.len() as int, any, c0) == decode_from(l, h, any, c0));
    }
    lemma_line_at(l, 0, w, h);
    assert(w[h] == header);
    let c1 = with_stream(sec, c0, empty_stream());
    assert("input"@ != "output"@);
    assert(decode_from(l, h, any, c0) == decode_from(l, h + 1, sec, c1));
    let sl = stream_lines(s);
    assert(w.subrange(h + 1, w.len() as int) =~= sl);
    lemma_sub_segment(l, 0, w, h + 1, sl);
    lemma_stream_lines(l, h + 1, sec, c1, s);
    assert(with_stream(sec, c1, s) == with_stream(sec, c0, s));
}

proof fn lemma_prefix(l: Seq<Seq<char>>, a: Seq<Seq<char>>)
    requires
        a.len() <= l.len(),
        a.is_prefix_of(l),
    ensures
        l.subrange(0, a.len() as int) == a,
{
    assert(l.subrange(0, a.len() as int) =~= a);
}

proof fn lemma_section_prefix(prior: Seq<Seq<char>>, header: Seq<char>, s: Option<StreamView>)
    ensures
        prior.is_prefix_of(with_section(prior, header, s)),
{
    if let Some(t) = s {
        let w = with_section(prior, header, s);
        assert forall|i: int| 0 <= i < prior.len() implies prior[i] == w[i] by {
            if prior.len() > 0 {
                assert(prior.push(Seq::empty())[i] == prior[i]);
            }
        }
    }
}

/// Decoding the encoding of a configuration gives that configuration back,
/// for every configuration whose latencies are in range.
pub proof fn lemma_decode_encode(c: ConfigView)
    requires
        c.wf(),
    ensures
        decode_spec(encode_spec(c)) == Ok::<ConfigView, DecodeError>(c),
{
    reveal_strlit("[input]");
    reveal_strlit("[output]");
    let t = top_lines(c);
    let l1 = with_section(t, "[input]"@, c.input);
    let l = with_section(l1, "[output]"@, c.output);
    assert(l == config_lines(c));
    lemma_config_lines_ok(c);
    lemma_section_prefix(t, "[input]"@, c.input);
    lemma_section_prefix(l1, "[output]"@, c.output);
    if l.len() == 0 {
        assert(t.len() == 0);
        assert(c.backend is None && c.buffer_size_samples is None);
        assert(c.input is None && c.output is None);
        assert(c == empty_config());
        let e = Seq::<char>::empty();
        assert(join_lines(l) == e);
        assert(split_lines(e) == seq![e]);
        lemma_blank_line();
        assert(decode_from(seq![e], 0, Section::Top, empty_config()) == decode_from(
            seq![e],
            1,
            Section::Top,
            empty_config(),
        ));
    } else {
        lemma_split_join(l);
        assert(split_lines(encode_spec(c)) == l);
        lemma_prefix(l1, t);
        lemma_prefix(l, l1);
        assert(l.subrange(0, t.len() as int) =~= t);
        lemma_top(l, c);
        let ct = ConfigView { input: None, output: None, ..c };
        let ci = ConfigView { output: None, ..c };
        let sec1 = if c.input is Some {
            Section::Input
        } else {
            Section::Top
        };
        match c.input {
            Some(s) => {
                lemma_section(l, t, "[input]"@, Section::Input, Section::Top, ct, s);
                assert(with_stream(Section::Input, ct, s) == ci);
            },
            None => {
                assert(l1 == t);
                assert(ct == ci);
            },
        }
        assert(decode_from(l, 0, Section::Top, empty_config()) == decode_from(
            l,
            l1.len() as int,
            sec1,
            ci,
        ));
        match c.output {
            Some(s) => {
                assert(l.subrange(0, l.len() as int) =~= l);
                lemma_section(l, l1, "[output]"@, Section::Output, sec1, ci, s);
                assert(with_stream(Section::Output, ci, s) == c);
                assert(decode_from(l, l.len() as int, Section::Output, c) == Ok::<
                    ConfigView,
                    DecodeError,
                >(c));
            },
            None => {
                assert(l == l1);
                assert(ci == c);
                assert(decode_from(l, l.len() as int, sec1, c) == Ok::<ConfigView, DecodeError>(c));
            },
        }
    }
}

/// What is saved reads back as exactly the canonical form of the
/// configuration: decoding the encoding of the normalised configuration gives
/// the normalised configuration, and normalising it again changes nothing.
pub proof fn lemma_round_trip(c: ConfigView)
    requires
        c.wf(),
    ensures
        decode_spec(encode_spec(normalize_spec(c))) == Ok::<ConfigView, DecodeError>(
            normalize_spec(c),
        ),
        normalize_spec(normalize_spec(c)) == normalize_spec(c),
{
    lemma_normalized_wf(c);
    lemma_decode_encode(normalize_spec(c));
    crate::config::lemma_normalize_idempotent(c);
}

proof fn lemma_normalized_wf(c: ConfigView)
    requires
        c.wf(),
    ensures
        normalize_spec(c).wf(),
{
    if let Some(t) = c.input {
        if let Some(x) = t.suggested_latency_seconds {
            crate::decimal::lemma_rounded_in_range(x.mantissa as int, x.scale as nat, 1);
        }
    }
    if let Some(t) = c.output {
        if let Some(x) = t.suggested_latency_seconds {
            crate::decimal::lemma_rounded_in_range(x.mantissa as int, x.scale as nat, 1);
        }
    }
}

pub open spec fn no_input_header(ls: Seq<Seq<char>>) -> bool {
    forall|i: int| 0 <= i < ls.len() ==> #[trigger] ls[i] != "[input]"@
}

proof fn lemma_concat_no_header(a: Seq<Seq<char>>, b: Seq<Seq<char>>)
    requires
        no_input_header(a),
        no_input_header(b),
    ensures
        no_input_header(a + b),
{
    assert forall|i: int| 0 <= i < (a + b).len() implies #[trigger] (a + b)[i] != "[input]"@ by {
        if i < a.len() {
            assert((a + b)[i] == a[i]);
        } else {
            assert((a + b)[i] == b[i - a.len()]);
        }
    }
}

proof fn lemma_opt_line_no_header(key: Seq<char>, v: Option<Seq<char>>)
    requires
        key.len() > 0,
        all_key_chars(key),
    ensures
        no_input_header(opt_line(key, v)),
{
    reveal_strlit("[input]");
    if let Some(x) = v {
        assert(kv(key, x)[0] == key[0]);
        assert(is_key_char(key[0]));
        assert("[input]"@[0] == '[');
        assert(opt_line(key, v)[0] != "[input]"@);
    }
}

proof fn lemma_stream_no_header(s: StreamView)
    ensures
        no_input_header(stream_lines(s)),
{
    lemma_key_literals();
    let a = opt_line("device"@, opt_quoted(s.device));
    let b = opt_line("suggestedLatencySeconds"@, opt_decimal(s.suggested_latency_seconds));
    let cc = opt_line("wasapiExclusiveMode"@, opt_bool(s.wasapi_exclusive_mode));
    let d = opt_line("wasapiAutoConvert"@, opt_bool(s.wasapi_auto_convert));
    let e = opt_line("channels"@, opt_number(channel_number(s.channels)));
    lemma_opt_line_no_header("device"@, opt_quoted(s.device));
    lemma_opt_line_no_header("suggestedLatencySeconds"@, opt_decimal(s.suggested_latency_seconds));
    lemma_opt_line_no_header("wasapiExclusiveMode"@, opt_bool(s.wasapi_exclusive_mode));
    lemma_opt_line_no_header("wasapiAutoConvert"@, opt_bool(s.wasapi_auto_convert));
    lemma_opt_line_no_header("channels"@, opt_number(channel_number(s.channels)));
    lemma_concat_no_header(a, b);
    lemma_concat_no_header(a + b, cc);
    lemma_concat_no_header(a + b + cc, d);
    lemma_concat_no_header(a + b + cc + d, e);
}

/// A configuration without an input table is written with no `[input]`
/// header line, and reads back without an input table.
pub proof fn lemma_absent_input_omitted(c: ConfigView)
    requires
        c.wf(),
        c.input is None,
    ensures
        forall|i: int|
            0 <= i < split_lines(encode_spec(c)).len() ==> #[trigger] split_lines(
                encode_spec(c),
            )[i] != "[input]"@,
        decode_spec(encode_spec(c)) is Ok,
        decode_spec(encode_spec(c))->Ok_0.input is None,
{
    reveal_strlit("[input]");
    reveal_strlit("[output]");
    lemma_decode_encode(c);
    lemma_key_literals();
    let t = top_lines(c);
    let l = config_lines(c);
    lemma_opt_line_no_header("backend"@, opt_quoted(c.backend));
    lemma_opt_line_no_header("bufferSizeSamples"@, opt_number(number_of(c.buffer_size_samples)));
    lemma_concat_no_header(
        opt_line("backend"@, opt_quoted(c.backend)),
        opt_line("bufferSizeSamples"@, opt_number(number_of(c.buffer_size_samples))),
    );
    assert(no_input_header(t));
    assert(with_section(t, "[input]"@, c.input) == t);
    if let Some(s) = c.output {
        let p = if t.len() > 0 {
            t.push(Seq::empty())
        } else {
            t
        };
        assert(no_input_header(p)) by {
            assert forall|i: int| 0 <= i < p.len() implies #[trigger] p[i] != "[input]"@ by {
                if i < t.len() {
                    assert(p[i] == t[i]);
                }
            }
        }
        assert(no_input_header(seq!["[output]"@]));
        lemma_stream_no_header(s);
        lemma_concat_no_header(p, seq!["[output]"@]);
        lemma_concat_no_header(p + seq!["[output]"@], stream_lines(s));
    }
    assert(no_input_header(l));
    if l.len() == 0 {
        let e = Seq::<char>::empty();
        assert(encode_spec(c) == e);
        assert(split_lines(e) == seq![e]);
    } else {
        lemma_config_lines_ok(c);
        lemma_split_join(l);
    }
}

} // verus!
