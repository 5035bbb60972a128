//! The wire format of the forwarder: one self-contained JSON object per
//! datagram, `{"id":<string>,"state":{"tag":"Idle"|"Valid"|"Error"
//! [,"message":<string>]},"timestamp":{"secs":<u64>,"nanos":<u32>}}`.
//!
//! The encoding is stated as a spec function, the executable encoder is
//! proved to produce exactly it, and a decoder — the model of a conformant
//! receiver — is proved to reproduce every encoded update exactly.

use vstd::prelude::*;

use crate::state::{State, StateView};
use crate::tracked_data::{TrackedData, TrackedDataView, Timestamp};

verus! {

// ---------------------------------------------------------------------------
// The encoding, as mathematics.
// ---------------------------------------------------------------------------

pub open spec fn digit_of(d: nat) -> char {
    if d == 0 {
        '0'
    } else if d == 1 {
        '1'
    } else if d == 2 {
        '2'
    } else if d == 3 {
        '3'
    } else if d == 4 {
        '4'
    } else if d == 5 {
        '5'
    } else if d == 6 {
        '6'
    } else if d == 7 {
        '7'
    } else if d == 8 {
        '8'
    } else {
        '9'
    }
}

/// The usual decimal digits of `n`, most significant first, no leading zeros
/// (a single `'0'` for zero).
pub open spec fn dec_digits(n: nat) -> Seq<char>
    decreases n,
{
    if n < 10 {
        seq![digit_of(n)]
    } else {
        dec_digits(n / 10).push(digit_of(n % 10))
    }
}

/// How one character appears inside a JSON string: quote and backslash are
/// escaped with a backslash, every other character stands as itself.
pub open spec fn esc_char(c: char) -> Seq<char> {
    if c == '"' {
        seq!['\\', '"']
    } else if c == '\\' {
        seq!['\\', '\\']
    } else {
        seq![c]
    }
}

/// The body of a JSON string holding exactly the characters of `s`.
pub open spec fn json_escape(s: Seq<char>) -> Seq<char>
    decreases s.len(),
{
    if s.len() == 0 {
        Seq::empty()
    } else {
        esc_char(s[0]) + json_escape(s.skip(1))
    }
}

pub open spec fn lit_obj_open() -> Seq<char> {
    seq!['{', '"', 'i', 'd', '"', ':', '"']
}

pub open spec fn lit_state_open() -> Seq<char> {
    seq![',', '"', 's', 't', 'a', 't', 'e', '"', ':', '{', '"', 't', 'a', 'g', '"', ':', '"']
}

pub open spec fn lit_idle_tag() -> Seq<char> {
    seq!['I', 'd', 'l', 'e', '"', '}']
}

pub open spec fn lit_valid_tag() -> Seq<char> {
    seq!['V', 'a', 'l', 'i', 'd', '"', '}']
}

pub open spec fn lit_error_tag() -> Seq<char> {
    seq!['E', 'r', 'r', 'o', 'r', '"', ',', '"', 'm', 'e', 's', 's', 'a', 'g', 'e', '"', ':', '"']
}

pub open spec fn lit_timestamp_open() -> Seq<char> {
    seq![
        ',', '"', 't', 'i', 'm', 'e', 's', 't', 'a', 'm', 'p', '"', ':', '{', '"', 's', 'e',
        'c', 's', '"', ':',
    ]
}

pub open spec fn lit_nanos_open() -> Seq<char> {
    seq![',', '"', 'n', 'a', 'n', 'o', 's', '"', ':']
}

pub open spec fn lit_obj_close() -> Seq<char> {
    seq!['}', '}']
}

/// The state object without its opening `{"tag":"`, which `lit_state_open`
/// carries: the tag name, the closing quote, for errors the message string,
/// and the closing brace.
pub open spec fn spec_encode_state(s: StateView) -> Seq<char> {
    match s {
        StateView::Idle => lit_idle_tag(),
        StateView::Valid => lit_valid_tag(),
        StateView::Error(m) => lit_error_tag() + json_escape(m) + seq!['"', '}'],
    }
}

/// The complete datagram payload for one update.
pub open spec fn spec_encode(d: TrackedDataView) -> Seq<char> {
    lit_obj_open() + json_escape(d.id) + seq!['"'] + lit_state_open() + spec_encode_state(d.state)
        + lit_timestamp_open() + dec_digits(d.timestamp.secs as nat) + lit_nanos_open()
        + dec_digits(d.timestamp.nanos as nat) + lit_obj_close()
}

// ---------------------------------------------------------------------------
// The executable encoder.
// ---------------------------------------------------------------------------

fn digit_char(d: u64) -> (c: char)
    requires
        d < 10,
    ensures
        c == digit_of(d as nat),
{
    if d == 0 {
        '0'
    } else if d == 1 {
        '1'
    } else if d == 2 {
        '2'
    } else if d == 3 {
        '3'
    } else if d == 4 {
        '4'
    } else if d == 5 {
        '5'
    } else if d == 6 {
        '6'
    } else if d == 7 {
        '7'
    } else if d == 8 {
        '8'
    } else {
        '9'
    }
}

/// Appends the decimal digits of `n`.
fn push_u64(n: u64, out: &mut Vec<char>)
    ensures
        final(out)@ == old(out)@ + dec_digits(n as nat),
    decreases n,
{
    if n < 10 {
        out.push(digit_char(n));
        assert(out@ =~= old(out)@ + dec_digits(n as nat));
    } else {
        push_u64(n / 10, out);
        out.push(digit_char(n % 10));
        assert(out@ =~= old(out)@ + dec_digits(n as nat));
    }
}

/// Appends the characters of the literal `lit` unchanged.
fn push_lit(lit: &str, out: &mut Vec<char>)
    ensures
        final(out)@ == old(out)@ + lit@,
{
    let ghost orig = out@;
    let len = lit.unicode_len();
    let mut i: usize = 0;
    while i < len
        invariant
            len == lit@.len(),
            i <= len,
            out@ == orig + lit@.take(i as int),
        decreases len - i,
    {
        out.push(lit.get_char(i));
        assert(out@ =~= orig + lit@.take(i + 1));
        i = i + 1;
    }
    assert(out@ =~= orig + lit@);
}

proof fn lemma_json_escape_concat(a: Seq<char>, b: Seq<char>)
    ensures
        json_escape(a + b) == json_escape(a) + json_escape(b),
    decreases a.len(),
{
    if a.len() == 0 {
        assert(a + b =~= b);
        assert(Seq::<char>::empty() + json_escape(b) =~= json_escape(b));
    } else {
        assert((a + b).skip(1) =~= a.skip(1) + b);
        lemma_json_escape_concat(a.skip(1), b);
        assert(esc_char(a[0]) + (json_escape(a.skip(1)) + json_escape(b)) =~= (esc_char(a[0])
            + json_escape(a.skip(1))) + json_escape(b));
    }
}

proof fn lemma_json_escape_snoc(s: Seq<char>, i: int)
    requires
        0 <= i < s.len(),
    ensures
        json_escape(s.take(i + 1)) == json_escape(s.take(i)) + esc_char(s[i]),
{
    assert(s.take(i + 1) =~= s.take(i) + seq![s[i]]);
    lemma_json_escape_concat(s.take(i), seq![s[i]]);
    assert(seq![s[i]].skip(1) =~= Seq::<char>::empty());
    assert(json_escape(Seq::<char>::empty()) == Seq::<char>::empty());
    assert(json_escape(seq![s[i]]) == esc_char(s[i]) + json_escape(seq![s[i]].skip(1)));
    assert(esc_char(s[i]) + Seq::<char>::empty() =~= esc_char(s[i]));
}

/// Appends the JSON-string body for `s`, escaping quote and backslash.
fn push_escaped(s: &str, out: &mut Vec<char>)
    ensures
        final(out)@ == old(out)@ + json_escape(s@),
{
    let ghost orig = out@;
    let len = s.unicode_len();
    let mut i: usize = 0;
    while i < len
        invariant
            len == s@.len(),
            i <= len,
            out@ == orig + json_escape(s@.take(i as int)),
        decreases len - i,
    {
        let c = s.get_char(i);
        if c == '"' {
            out.push('\\');
            out.push('"');
        } else if c == '\\' {
            out.push('\\');
            out.push('\\');
        } else {
            out.push(c);
        }
        proof {
            lemma_json_escape_snoc(s@, i as int);
            assert(out@ =~= orig + json_escape(s@.take(i + 1)));
        }
        i = i + 1;
    }
    assert(s@.take(len as int) =~= s@);
}

/// Relies on `String`'s `FromIterator<char>` implementation: collecting the
/// characters of a vector yields the string of exactly those characters in
/// order.
#[verifier::external_body]
fn chars_to_string(chars: Vec<char>) -> (s: String)
    ensures
        s@ == chars@,
{
    chars.into_iter().collect()
}

/// Encodes one update as the datagram payload the forwarder emits.
pub fn serialize_tracked_data(data: &TrackedData) -> (s: String)
    ensures
        s@ == spec_encode(data@),
{
    let mut out: Vec<char> = Vec::new();
    push_lit("{\"id\":\"", &mut out);
    push_escaped(data.id.as_str(), &mut out);
    push_lit("\",\"state\":{\"tag\":\"", &mut out);
    match &data.state {
        State::Idle => push_lit("Idle\"}", &mut out),
        State::Valid => push_lit("Valid\"}", &mut out),
        State::Error(m) => {
            push_lit("Error\",\"message\":\"", &mut out);
            push_escaped(m.as_str(), &mut out);
            push_lit("\"}", &mut out);
        },
    }
    push_lit(",\"timestamp\":{\"secs\":", &mut out);
    push_u64(data.timestamp.secs, &mut out);
    push_lit(",\"nanos\":", &mut out);
    push_u64(data.timestamp.nanos as u64, &mut out);
    push_lit("}}", &mut out);
    proof {
        reveal_strlit("{\"id\":\"");
        reveal_strlit("\",\"state\":{\"tag\":\"");
        reveal_strlit("Idle\"}");
        reveal_strlit("Valid\"}");
        reveal_strlit("Error\",\"message\":\"");
        reveal_strlit("\"}");
        reveal_strlit(",\"timestamp\":{\"secs\":");
        reveal_strlit(",\"nanos\":");
        reveal_strlit("}}");
        assert(out@ =~= spec_encode(data@));
    }
    chars_to_string(out)
}


// ---------------------------------------------------------------------------
// The decoder: what a conformant receiver computes from a datagram.
// ---------------------------------------------------------------------------

pub open spec fn is_digit(c: char) -> bool {
    c == '0' || c == '1' || c == '2' || c == '3' || c == '4' || c == '5' || c == '6' || c == '7'
        || c == '8' || c == '9'
}

pub open spec fn digit_val(c: char) -> nat {
    if c == '0' {
        0
    } else if c == '1' {
        1
    } else if c == '2' {
        2
    } else if c == '3' {
        3
    } else if c == '4' {
        4
    } else if c == '5' {
        5
    } else if c == '6' {
        6
    } else if c == '7' {
        7
    } else if c == '8' {
        8
    } else {
        9
    }
}

/// Strips the exact literal `lit` from the front of `s`.
pub open spec fn take_lit(s: Seq<char>, lit: Seq<char>) -> Option<Seq<char>> {
    if lit.is_prefix_of(s) {
        Some(s.skip(lit.len() as int))
    } else {
        None
    }
}

/// Reads a JSON string body up to and including its closing quote,
/// undoing the quote and backslash escapes; yields the content and what
/// follows the closing quote.
pub open spec fn parse_jstring(s: Seq<char>) -> Option<(Seq<char>, Seq<char>)>
    decreases s.len(),
{
    if s.len() == 0 {
        None
    } else if s[0] == '"' {
        Some((Seq::empty(), s.skip(1)))
    } else if s[0] == '\\' {
        if s.len() >= 2 && (s[1] == '"' || s[1] == '\\') {
            match parse_jstring(s.skip(2)) {
                Some((t, r)) => Some((seq![s[1]] + t, r)),
                None => None,
            }
        } else {
            None
        }
    } else {
        match parse_jstring(s.skip(1)) {
            Some((t, r)) => Some((seq![s[0]] + t, r)),
            None => None,
        }
    }
}

/// Consumes the leading decimal digits of `s`, folding them onto `acc`.
pub open spec fn parse_digits(s: Seq<char>, acc: nat) -> (nat, Seq<char>)
    decreases s.len(),
{
    if s.len() > 0 && is_digit(s[0]) {
        parse_digits(s.skip(1), acc * 10 + digit_val(s[0]))
    } else {
        (acc, s)
    }
}

/// Reads a nonempty run of decimal digits as a `u64`.
pub open spec fn parse_u64(s: Seq<char>) -> Option<(u64, Seq<char>)> {
    if s.len() > 0 && is_digit(s[0]) {
        let (v, r) = parse_digits(s, 0);
        if v <= u64::MAX {
            Some((v as u64, r))
        } else {
            None
        }
    } else {
        None
    }
}

/// Reads the tail of a state object, `lit_state_open` already consumed:
/// the tag, for errors the message string, and the closing brace.
pub open spec fn parse_state(s: Seq<char>) -> Option<(StateView, Seq<char>)> {
    match take_lit(s, lit_idle_tag()) {
        Some(r) => Some((StateView::Idle, r)),
        None => match take_lit(s, lit_valid_tag()) {
            Some(r) => Some((StateView::Valid, r)),
            None => match take_lit(s, lit_error_tag()) {
                Some(r1) => match parse_jstring(r1) {
                    Some((m, r2)) => match take_lit(r2, seq!['}']) {
                        Some(r3) => Some((StateView::Error(m), r3)),
                        None => None,
                    },
                    None => None,
                },
                None => None,
            },
        },
    }
}

/// What a conformant receiver makes of one datagram payload: the update it
/// carries, or nothing if the payload is not exactly one encoded update.
pub open spec fn spec_decode(s: Seq<char>) -> Option<TrackedDataView> {
    match take_lit(s, lit_obj_open()) {
        Some(s1) => match parse_jstring(s1) {
            Some((id, s2)) => match take_lit(s2, lit_state_open()) {
                Some(s3) => match parse_state(s3) {
                    Some((state, s4)) => match take_lit(s4, lit_timestamp_open()) {
                        Some(s5) => match parse_u64(s5) {
                            Some((secs, s6)) => match take_lit(s6, lit_nanos_open()) {
                                Some(s7) => match parse_u64(s7) {
                                    Some((nanos, s8)) => if nanos <= u32::MAX
                                        && s8 =~= lit_obj_close() {
                                        Some(TrackedDataView {
                                            id,
                                            state,
                                            timestamp: Timestamp {
                                                secs,
                                                nanos: nanos as u32,
                                            },
                                        })
                                    } else {
                                        None
                                    },
                                    None => None,
                                },
                                None => None,
                            },
                            None => None,
                        },
                        None => None,
                    },
                    None => None,
                },
                None => None,
            },
            None => None,
        },
        None => None,
    }
}

// ---------------------------------------------------------------------------
// The round trip: decoding an encoded update gives the update back.
// ---------------------------------------------------------------------------

proof fn lemma_take_lit(lit: Seq<char>, rest: Seq<char>)
    ensures
        take_lit(lit + rest, lit) == Some(rest),
{
    assert(lit =~= (lit + rest).subrange(0, lit.len() as int));
    assert((lit + rest).skip(lit.len() as int) =~= rest);
}

proof fn lemma_take_lit_mismatch(s: Seq<char>, lit: Seq<char>)
    requires
        s.len() > 0,
        lit.len() > 0,
        s[0] != lit[0],
    ensures
        take_lit(s, lit) is None,
{
    if lit.is_prefix_of(s) {
        assert(lit[0] == s.subrange(0, lit.len() as int)[0]);
    }
}

proof fn lemma_parse_jstring_escape(t: Seq<char>, rest: Seq<char>)
    ensures
        parse_jstring(json_escape(t) + (seq!['"'] + rest)) == Some((t, rest)),
    decreases t.len(),
{
    let s = json_escape(t) + (seq!['"'] + rest);
    if t.len() == 0 {
        assert(s =~= seq!['"'] + rest);
        assert(s[0] == '"');
        assert(s.skip(1) =~= rest);
        assert(Seq::<char>::empty() =~= t);
    } else {
        let c = t[0];
        lemma_parse_jstring_escape(t.skip(1), rest);
        if c == '"' || c == '\\' {
            assert(s[0] == '\\');
            assert(s[1] == c);
            assert(s.len() >= 2);
            assert(s.skip(2) =~= json_escape(t.skip(1)) + (seq!['"'] + rest));
            assert(seq![s[1]] + t.skip(1) =~= t);
        } else {
            assert(s[0] == c);
            assert(s[0] != '"' && s[0] != '\\');
            assert(s.skip(1) =~= json_escape(t.skip(1)) + (seq!['"'] + rest));
            assert(seq![s[0]] + t.skip(1) =~= t);
        }
    }
}

pub open spec fn pow10(k: nat) -> nat
    decreases k,
{
    if k == 0 {
        1
    } else {
        10 * pow10((k - 1) as nat)
    }
}

proof fn lemma_dec_digits_are_digits(n: nat)
    ensures
        dec_digits(n).len() >= 1,
        forall|i: int| 0 <= i < dec_digits(n).len() ==> is_digit(#[trigger] dec_digits(n)[i]),
    decreases n,
{
    if n >= 10 {
        lemma_dec_digits_are_digits(n / 10);
        assert(forall|i: int| 0 <= i < dec_digits(n / 10).len()
            ==> dec_digits(n)[i] == dec_digits(n / 10)[i]);
        assert(dec_digits(n).last() == digit_of(n % 10));
    }
}

proof fn lemma_parse_digits_dec(n: nat, rest: Seq<char>, acc: nat)
    ensures
        parse_digits(dec_digits(n) + rest, acc) == parse_digits(
            rest,
            acc * pow10(dec_digits(n).len()) + n,
        ),
    decreases n,
{
    let s = dec_digits(n) + rest;
    if n < 10 {
        assert(s[0] == digit_of(n));
        assert(is_digit(digit_of(n)) && digit_val(digit_of(n)) == n);
        assert(s.skip(1) =~= rest);
        assert(pow10(0) == 1);
        assert(pow10(1) == 10);
    } else {
        let q = n / 10;
        let r = n % 10;
        assert(n == 10 * q + r) by {
            vstd::arithmetic::div_mod::lemma_fundamental_div_mod(n as int, 10);
        };
        let mid = seq![digit_of(r)] + rest;
        assert(dec_digits(n) + rest =~= dec_digits(q) + mid);
        lemma_parse_digits_dec(q, mid, acc);
        assert(mid[0] == digit_of(r));
        assert(r < 10);
        assert(is_digit(digit_of(r)) && digit_val(digit_of(r)) == r);
        assert(mid.skip(1) =~= rest);
        let lq = dec_digits(q).len();
        assert(dec_digits(n).len() == lq + 1);
        assert(pow10(lq + 1) == 10 * pow10(lq));
        let a2 = acc * pow10(lq) + q;
        assert(parse_digits(mid, a2) == parse_digits(rest, a2 * 10 + r));
        assert(a2 * 10 + r == acc * pow10(lq + 1) + n) by (nonlinear_arith)
            requires
                a2 == acc * pow10(lq) + q,
                n == 10 * q + r,
                pow10(lq + 1) == 10 * pow10(lq),
        ;
    }
}

proof fn lemma_parse_u64_dec(n: u64, rest: Seq<char>)
    requires
        rest.len() == 0 || !is_digit(rest[0]),
    ensures
        parse_u64(dec_digits(n as nat) + rest) == Some((n, rest)),
{
    lemma_dec_digits_are_digits(n as nat);
    let s = dec_digits(n as nat) + rest;
    assert(s[0] == dec_digits(n as nat)[0]);
    assert(is_digit(s[0]));
    lemma_parse_digits_dec(n as nat, rest, 0);
    assert(0 * pow10(dec_digits(n as nat).len()) + n as nat == n as nat);
    assert(parse_digits(rest, n as nat) == (n as nat, rest));
}

proof fn lemma_parse_state_encode(sv: StateView, rest: Seq<char>)
    ensures
        parse_state(spec_encode_state(sv) + rest) == Some((sv, rest)),
{
    let s = spec_encode_state(sv) + rest;
    match sv {
        StateView::Idle => {
            lemma_take_lit(lit_idle_tag(), rest);
        },
        StateView::Valid => {
            assert(s[0] == 'V');
            lemma_take_lit_mismatch(s, lit_idle_tag());
            lemma_take_lit(lit_valid_tag(), rest);
        },
        StateView::Error(m) => {
            assert(s[0] == 'E');
            lemma_take_lit_mismatch(s, lit_idle_tag());
            lemma_take_lit_mismatch(s, lit_valid_tag());
            let r2 = seq!['}'] + rest;
            let r1 = json_escape(m) + (seq!['"'] + r2);
            assert(s =~= lit_error_tag() + r1);
            lemma_take_lit(lit_error_tag(), r1);
            lemma_parse_jstring_escape(m, r2);
            lemma_take_lit(seq!['}'], rest);
        },
    }
}

/// Law: the round trip. Any update, encoded by the forwarder and decoded by
/// a conformant receiver, reproduces the identifier, the state — variant and
/// message — and the timestamp exactly.
pub proof fn lemma_encode_decode(d: TrackedDataView)
    ensures
        spec_decode(spec_encode(d)) == Some(d),
{
    let enc = spec_encode(d);
    let id_part = json_escape(d.id);
    let st_part = spec_encode_state(d.state);
    let secs_part = dec_digits(d.timestamp.secs as nat);
    let nanos_part = dec_digits(d.timestamp.nanos as nat);

    let s8 = lit_obj_close();
    let s7 = nanos_part + s8;
    let s6 = lit_nanos_open() + s7;
    let s5 = secs_part + s6;
    let s4 = lit_timestamp_open() + s5;
    let s3 = st_part + s4;
    let s2 = lit_state_open() + s3;
    let s1 = id_part + (seq!['"'] + s2);

    assert(enc =~= lit_obj_open() + s1);
    lemma_take_lit(lit_obj_open(), s1);
    lemma_parse_jstring_escape(d.id, s2);
    lemma_take_lit(lit_state_open(), s3);
    lemma_parse_state_encode(d.state, s4);
    lemma_take_lit(lit_timestamp_open(), s5);
    assert(s6[0] == ',');
    lemma_parse_u64_dec(d.timestamp.secs, s6);
    lemma_take_lit(lit_nanos_open(), s7);
    assert(s8[0] == '}');
    lemma_parse_u64_dec(d.timestamp.nanos as u64, s8);
    assert(d.timestamp.nanos as u64 <= u32::MAX);
    assert((d.timestamp.nanos as u64) as u32 == d.timestamp.nanos);
    assert(Timestamp {
        secs: d.timestamp.secs,
        nanos: (d.timestamp.nanos as u64) as u32,
    } == d.timestamp);
}


// ---------------------------------------------------------------------------
// The executable decoder.
// ---------------------------------------------------------------------------

fn is_digit_char(c: char) -> (b: bool)
    ensures
        b == is_digit(c),
{
    c == '0' || c == '1' || c == '2' || c == '3' || c == '4' || c == '5' || c == '6' || c == '7'
        || c == '8' || c == '9'
}

fn digit_val_char(c: char) -> (d: u64)
    requires
        is_digit(c),
    ensures
        d == digit_val(c),
        d < 10,
{
    if c == '0' {
        0
    } else if c == '1' {
        1
    } else if c == '2' {
        2
    } else if c == '3' {
        3
    } else if c == '4' {
        4
    } else if c == '5' {
        5
    } else if c == '6' {
        6
    } else if c == '7' {
        7
    } else if c == '8' {
        8
    } else {
        9
    }
}

fn str_chars(s: &str) -> (v: Vec<char>)
    ensures
        v@ == s@,
{
    let len = s.unicode_len();
    let mut v: Vec<char> = Vec::new();
    let mut i: usize = 0;
    while i < len
        invariant
            len == s@.len(),
            i <= len,
            v@ == s@.take(i as int),
        decreases len - i,
    {
        v.push(s.get_char(i));
        assert(v@ =~= s@.take(i + 1));
        i = i + 1;
    }
    assert(v@ =~= s@);
    v
}

/// Consumes the literal `lit` at position `i`, yielding the position after it.
fn match_lit(v: &Vec<char>, i: usize, lit: &str) -> (r: Option<usize>)
    requires
        i <= v@.len(),
    ensures
        match r {
            Some(j) => i <= j <= v@.len() && take_lit(v@.skip(i as int), lit@) == Some(
                v@.skip(j as int),
            ),
            None => take_lit(v@.skip(i as int), lit@) is None,
        },
{
    let ghost s = v@.skip(i as int);
    assert(s.len() == v@.len() - i);
    let n = lit.unicode_len();
    if v.len() - i < n {
        return None;
    }
    let mut k: usize = 0;
    while k < n
        invariant
            k <= n,
            n == lit@.len(),
            i + n <= v@.len(),
            v@.len() <= usize::MAX,
            forall|m: int| 0 <= m < k ==> lit@[m] == v@[i + m],
        decreases n - k,
    {
        if lit.get_char(k) != v[i + k] {
            proof {
                if lit@.is_prefix_of(v@.skip(i as int)) {
                    assert(lit@[k as int] == v@.skip(i as int).subrange(0, n as int)[k as int]);
                    assert(v@.skip(i as int)[k as int] == v@[i + k]);
                }
            }
            return None;
        }
        k = k + 1;
    }
    proof {
        assert(lit@ =~= v@.skip(i as int).subrange(0, n as int));
        assert(v@.skip(i as int).skip(n as int) =~= v@.skip((i + n) as int));
    }
    Some(i + n)
}

/// Reads a JSON string body at position `i`, appending the unescaped content
/// to `out`; yields the position after the closing quote.
fn parse_jstring_at(v: &Vec<char>, i: usize, out: &mut Vec<char>) -> (r: Option<usize>)
    requires
        i <= v@.len(),
    ensures
        match r {
            Some(j) => i <= j <= v@.len() && (parse_jstring(v@.skip(i as int)) matches Some(p)
                && final(out)@ == old(out)@ + p.0 && p.1 == v@.skip(j as int)),
            None => parse_jstring(v@.skip(i as int)) is None,
        },
    decreases v@.len() - i,
{
    let ghost s = v@.skip(i as int);
    if i == v.len() {
        assert(s.len() == 0);
        return None;
    }
    assert(s[0] == v@[i as int]);
    let c = v[i];
    if c == '"' {
        assert(s.skip(1) =~= v@.skip(i + 1));
        assert(out@ + Seq::<char>::empty() =~= out@);
        Some(i + 1)
    } else if c == '\\' {
        if i + 1 < v.len() {
            assert(s.len() >= 2 && s[1] == v@[i + 1]);
            let c2 = v[i + 1];
            if c2 == '"' || c2 == '\\' {
                out.push(c2);
                let ghost mid = out@;
                let rec = parse_jstring_at(v, i + 2, out);
                match rec {
                    Some(j) => {
                        proof {
                            assert(s.skip(2) =~= v@.skip(i as int + 2));
                            let p = parse_jstring(v@.skip(i as int + 2))->Some_0;
                            assert(out@ == mid + p.0);
                            assert(out@ =~= old(out)@ + (seq![s[1]] + p.0));
                        }
                        Some(j)
                    },
                    None => {
                        proof {
                            assert(s.skip(2) =~= v@.skip(i as int + 2));
                        }
                        None
                    },
                }
            } else {
                None
            }
        } else {
            assert(s.len() == 1);
            None
        }
    } else {
        out.push(c);
        let ghost mid = out@;
        let rec = parse_jstring_at(v, i + 1, out);
        match rec {
            Some(j) => {
                proof {
                    assert(s.skip(1) =~= v@.skip(i as int + 1));
                    let p = parse_jstring(v@.skip(i as int + 1))->Some_0;
                    assert(out@ == mid + p.0);
                    assert(out@ =~= old(out)@ + (seq![s[0]] + p.0));
                }
                Some(j)
            },
            None => {
                proof {
                    assert(s.skip(1) =~= v@.skip(i as int + 1));
                }
                None
            },
        }
    }
}

proof fn lemma_parse_digits_ge_acc(s: Seq<char>, acc: nat)
    ensures
        parse_digits(s, acc).0 >= acc,
    decreases s.len(),
{
    if s.len() > 0 && is_digit(s[0]) {
        lemma_parse_digits_ge_acc(s.skip(1), acc * 10 + digit_val(s[0]));
    }
}

/// Reads a nonempty run of decimal digits at position `i` as a `u64`.
fn parse_u64_at(v: &Vec<char>, i: usize) -> (r: Option<(u64, usize)>)
    requires
        i <= v@.len(),
    ensures
        match r {
            Some(p) => i <= p.1 <= v@.len() && parse_u64(v@.skip(i as int)) == Some(
                (p.0, v@.skip(p.1 as int)),
            ),
            None => parse_u64(v@.skip(i as int)) is None,
        },
{
    let ghost s = v@.skip(i as int);
    if i == v.len() {
        assert(s.len() == 0);
        return None;
    }
    assert(s[0] == v@[i as int]);
    if !is_digit_char(v[i]) {
        return None;
    }
    let mut acc: u64 = 0;
    let mut j: usize = i;
    loop
        invariant
            i <= j <= v@.len(),
            i < v@.len(),
            is_digit(v@[i as int]),
            parse_digits(v@.skip(i as int), 0) == parse_digits(v@.skip(j as int), acc as nat),
        ensures
            i <= j <= v@.len(),
            parse_digits(v@.skip(i as int), 0) == parse_digits(v@.skip(j as int), acc as nat),
            j == v@.len() || !is_digit(v@[j as int]),
        decreases v@.len() - j,
    {
        if j == v.len() {
            break;
        }
        proof {
            assert(v@.skip(j as int)[0] == v@[j as int]);
        }
        let c = v[j];
        if !is_digit_char(c) {
            break;
        }
        let d = digit_val_char(c);
        proof {
            assert(v@.skip(j as int).skip(1) =~= v@.skip(j as int + 1));
        }
        let next = match acc.checked_mul(10) {
            Some(m) => m.checked_add(d),
            None => None,
        };
        match next {
            Some(n2) => {
                acc = n2;
                j = j + 1;
            },
            None => {
                proof {
                    let big = (acc * 10 + d) as nat;
                    assert(parse_digits(v@.skip(j as int), acc as nat) == parse_digits(
                        v@.skip(j as int + 1),
                        big,
                    ));
                    lemma_parse_digits_ge_acc(v@.skip(j as int + 1), big);
                    assert(parse_digits(v@.skip(i as int), 0).0 > u64::MAX);
                }
                return None;
            },
        }
    }
    proof {
        if j < v@.len() {
            assert(v@.skip(j as int)[0] == v@[j as int]);
        }
        assert(parse_digits(v@.skip(j as int), acc as nat) == (acc as nat, v@.skip(j as int)));
    }
    Some((acc, j))
}

/// Reads the tail of a state object at position `i`: the tag, for errors the
/// message string, and the closing brace.
fn parse_state_at(v: &Vec<char>, i: usize) -> (r: Option<(State, usize)>)
    requires
        i <= v@.len(),
    ensures
        match r {
            Some(p) => i <= p.1 <= v@.len() && parse_state(v@.skip(i as int)) == Some(
                (p.0@, v@.skip(p.1 as int)),
            ),
            None => parse_state(v@.skip(i as int)) is None,
        },
{
    proof {
        reveal_strlit("Idle\"}");
        reveal_strlit("Valid\"}");
        reveal_strlit("Error\",\"message\":\"");
        reveal_strlit("}");
        assert("Idle\"}"@ =~= lit_idle_tag());
        assert("Valid\"}"@ =~= lit_valid_tag());
        assert("Error\",\"message\":\""@ =~= lit_error_tag());
        assert("}"@ =~= seq!['}']);
    }
    match match_lit(v, i, "Idle\"}") {
        Some(j) => Some((State::Idle, j)),
        None => match match_lit(v, i, "Valid\"}") {
            Some(j) => Some((State::Valid, j)),
            None => match match_lit(v, i, "Error\",\"message\":\"") {
                Some(j1) => {
                    let mut msg: Vec<char> = Vec::new();
                    match parse_jstring_at(v, j1, &mut msg) {
                        Some(j2) => match match_lit(v, j2, "}") {
                            Some(j3) => {
                                let message = chars_to_string(msg);
                                Some((State::Error(message), j3))
                            },
                            None => None,
                        },
                        None => None,
                    }
                },
                None => None,
            },
        },
    }
}

/// Decodes one datagram payload back into the update it carries — the model
/// of a conformant receiver. Returns `None` on anything that is not exactly
/// one encoded update.
pub fn deserialize_tracked_data(s: &str) -> (r: Option<TrackedData>)
    ensures
        match r {
            Some(d) => spec_decode(s@) == Some(d@),
            None => spec_decode(s@) is None,
        },
{
    proof {
        reveal_strlit("{\"id\":\"");
        reveal_strlit(",\"state\":{\"tag\":\"");
        reveal_strlit(",\"timestamp\":{\"secs\":");
        reveal_strlit(",\"nanos\":");
        reveal_strlit("}}");
        assert("{\"id\":\""@ =~= lit_obj_open());
        assert(",\"state\":{\"tag\":\""@ =~= lit_state_open());
        assert(",\"timestamp\":{\"secs\":"@ =~= lit_timestamp_open());
        assert(",\"nanos\":"@ =~= lit_nanos_open());
        assert("}}"@ =~= lit_obj_close());
    }
    let v = str_chars(s);
    proof {
        assert(v@.skip(0) =~= s@);
    }
    let j1 = match match_lit(&v, 0, "{\"id\":\"") {
        Some(j) => j,
        None => {
            return None;
        },
    };
    let mut id_chars: Vec<char> = Vec::new();
    let j2 = match parse_jstring_at(&v, j1, &mut id_chars) {
        Some(j) => j,
        None => {
            return None;
        },
    };
    let j3 = match match_lit(&v, j2, ",\"state\":{\"tag\":\"") {
        Some(j) => j,
        None => {
            return None;
        },
    };
    let (state, j4) = match parse_state_at(&v, j3) {
        Some(p) => p,
        None => {
            return None;
        },
    };
    let j5 = match match_lit(&v, j4, ",\"timestamp\":{\"secs\":") {
        Some(j) => j,
        None => {
            return None;
        },
    };
    let (secs, j6) = match parse_u64_at(&v, j5) {
        Some(p) => p,
        None => {
            return None;
        },
    };
    let j7 = match match_lit(&v, j6, ",\"nanos\":") {
        Some(j) => j,
        None => {
            return None;
        },
    };
    let (nanos, j8) = match parse_u64_at(&v, j7) {
        Some(p) => p,
        None => {
            return None;
        },
    };
    let ghost s8 = v@.skip(j8 as int);
    if nanos > u32::MAX as u64 {
        return None;
    }
    match match_lit(&v, j8, "}}") {
        Some(j9) => {
            if j9 != v.len() {
                proof {
                    assert(v@.skip(j9 as int).len() > 0);
                    assert(s8.len() > lit_obj_close().len());
                    assert(!(s8 =~= lit_obj_close()));
                }
                return None;
            }
            proof {
                assert(v@.skip(j9 as int).len() == 0);
                assert(s8.subrange(0, lit_obj_close().len() as int) =~= lit_obj_close());
                assert(s8.len() == lit_obj_close().len());
                assert(s8 =~= lit_obj_close());
            }
            let id = chars_to_string(id_chars);
            Some(TrackedData { id, state, timestamp: Timestamp { secs, nanos: nanos as u32 } })
        },
        None => {
            proof {
                if s8 =~= lit_obj_close() {
                    assert(lit_obj_close().is_prefix_of(s8));
                }
            }
            None
        },
    }
}

} // verus!
