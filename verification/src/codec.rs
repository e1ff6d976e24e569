//! The persisted form of [`AppConfig`]: one JSON object holding the four
//! percentage fields in a fixed order, written without whitespace. The
//! encoder emits exactly that canonical text; the decoder accepts exactly
//! the canonical records of valid configurations and rejects everything
//! else, so a load from a damaged record falls back to the defaults instead
//! of producing an unchecked value.

use vstd::prelude::*;
use vstd::string::StrSliceExecFns;
use vstd::string::StringExecFns;
use crate::config::AppConfig;

verus! {

/// The decimal digit standing for `d`, for `0 <= d <= 9`.
pub open spec fn digit_char(d: int) -> char {
    if d == 0 {
        '0'
    } else if d == 1 {
        '1'
    } else if d == 2 {
        '2'
    } else if d == 3 {
        '3'
    } else if d == 4 {
        '4'
    } else if d == 5 {
        '5'
    } else if d == 6 {
        '6'
    } else if d == 7 {
        '7'
    } else if d == 8 {
        '8'
    } else {
        '9'
    }
}

pub open spec fn is_digit(c: char) -> bool {
    ||| c == '0'
    ||| c == '1'
    ||| c == '2'
    ||| c == '3'
    ||| c == '4'
    ||| c == '5'
    ||| c == '6'
    ||| c == '7'
    ||| c == '8'
    ||| c == '9'
}

/// The value a digit stands for; meaningful only when `is_digit(c)`.
pub open spec fn digit_val(c: char) -> u8 {
    if c == '0' {
        0
    } else if c == '1' {
        1
    } else if c == '2' {
        2
    } else if c == '3' {
        3
    } else if c == '4' {
        4
    } else if c == '5' {
        5
    } else if c == '6' {
        6
    } else if c == '7' {
        7
    } else if c == '8' {
        8
    } else {
        9
    }
}

/// The shortest decimal representation of `n`: one to three digits, with no
/// leading zero.
pub open spec fn dec_rep(n: u8) -> Seq<char> {
    if n < 10 {
        seq![digit_char(n as int)]
    } else if n < 100 {
        seq![digit_char(n as int / 10), digit_char(n as int % 10)]
    } else {
        seq![
            digit_char(n as int / 100),
            digit_char((n as int / 10) % 10),
            digit_char(n as int % 10),
        ]
    }
}

/// The canonical persisted record of `c`.
pub open spec fn encoded(c: AppConfig) -> Seq<char> {
    "{\"popup_chance_min\":"@ + dec_rep(c.popup_chance_min) + ",\"popup_chance_max\":"@ + dec_rep(
        c.popup_chance_max,
    ) + ",\"popup_opacity_min\":"@ + dec_rep(c.popup_opacity_min) + ",\"popup_opacity_max\":"@
        + dec_rep(c.popup_opacity_max) + "}"@
}

/// What loading reads out of a text: the unique valid configuration whose
/// canonical record the text is, if there is one.
pub open spec fn decoded(s: Seq<char>) -> Option<AppConfig> {
    if exists|c: AppConfig| c.valid() && #[trigger] encoded(c) == s {
        Some(choose|c: AppConfig| c.valid() && #[trigger] encoded(c) == s)
    } else {
        None
    }
}

proof fn lemma_dec_rep_digits(n: u8)
    ensures
        1 <= dec_rep(n).len() <= 3,
        forall|k: int| 0 <= k < dec_rep(n).len() ==> is_digit(#[trigger] dec_rep(n)[k]),
        dec_rep(n)[0] == '0' ==> n == 0,
{
    if n < 10 {
    } else if n < 100 {
        assert(1 <= n as int / 10 <= 9);
        assert(0 <= n as int % 10 <= 9);
    } else {
        assert(1 <= n as int / 100 <= 2);
        assert(0 <= (n as int / 10) % 10 <= 9);
        assert(0 <= n as int % 10 <= 9);
    }
}

proof fn lemma_dec_rep_injective(n: u8, m: u8)
    requires
        dec_rep(n) == dec_rep(m),
    ensures
        n == m,
{
    assert(dec_rep(n).len() == dec_rep(m).len());
    assert(dec_rep(n)[0] == dec_rep(m)[0]);
    if n < 10 {
        assert(dec_rep(m).len() == 1);
        assert(m < 10);
        assert(dec_rep(n)[0] == digit_char(n as int));
        assert(dec_rep(m)[0] == digit_char(m as int));
        assert(digit_char(n as int) == digit_char(m as int));
        assert(n == m);
    } else if n < 100 {
        assert(dec_rep(m).len() == 2);
        assert(10 <= m < 100);
        assert(dec_rep(n)[1] == dec_rep(m)[1]);
        assert(n as int / 10 == m as int / 10);
        assert(n as int % 10 == m as int % 10);
        vstd::arithmetic::div_mod::lemma_fundamental_div_mod(n as int, 10);
        vstd::arithmetic::div_mod::lemma_fundamental_div_mod(m as int, 10);
        assert(n == m);
    } else {
        assert(dec_rep(m).len() == 3);
        assert(100 <= m);
        assert(dec_rep(n)[1] == dec_rep(m)[1]);
        assert(dec_rep(n)[2] == dec_rep(m)[2]);
        assert(n as int / 100 == m as int / 100);
        assert((n as int / 10) % 10 == (m as int / 10) % 10);
        assert(n as int % 10 == m as int % 10);
        vstd::arithmetic::div_mod::lemma_fundamental_div_mod(n as int, 10);
        vstd::arithmetic::div_mod::lemma_fundamental_div_mod(m as int, 10);
        vstd::arithmetic::div_mod::lemma_fundamental_div_mod(n as int / 10, 10);
        vstd::arithmetic::div_mod::lemma_fundamental_div_mod(m as int / 10, 10);
        assert(n as int / 10 / 10 == n as int / 100) by (nonlinear_arith);
        assert(m as int / 10 / 10 == m as int / 100) by (nonlinear_arith);
        assert(n == m);
    }
}

/// The single decimal digit `d`, as text.
fn digit_str(d: u8) -> (r: &'static str)
    requires
        d < 10,
    ensures
        r@ == seq![digit_char(d as int)],
{
    proof {
        reveal_strlit("0");
        reveal_strlit("1");
        reveal_strlit("2");
        reveal_strlit("3");
        reveal_strlit("4");
        reveal_strlit("5");
        reveal_strlit("6");
        reveal_strlit("7");
        reveal_strlit("8");
        reveal_strlit("9");
    }
    let r = match d {
        0 => "0",
        1 => "1",
        2 => "2",
        3 => "3",
        4 => "4",
        5 => "5",
        6 => "6",
        7 => "7",
        8 => "8",
        _ => "9",
    };
    proof {
        assert(r@ =~= seq![digit_char(d as int)]);
    }
    r
}

/// Appends the shortest decimal form of `n`.
fn push_num(out: &mut String, n: u8)
    ensures
        final(out)@ == old(out)@ + dec_rep(n),
{
    if n >= 100 {
        out.append(digit_str(n / 100));
        out.append(digit_str((n / 10) % 10));
        out.append(digit_str(n % 10));
        proof {
            assert(out@ =~= old(out)@ + dec_rep(n));
        }
    } else if n >= 10 {
        out.append(digit_str(n / 10));
        out.append(digit_str(n % 10));
        proof {
            assert(out@ =~= old(out)@ + dec_rep(n));
        }
    } else {
        out.append(digit_str(n));
    }
}

/// `s` carries the canonical decimal form of `n` at position `i`, and the
/// number ends there: the next character, if any, is not a digit.
pub open spec fn canonical_num_at(s: Seq<char>, i: int, n: u8) -> bool {
    &&& 0 <= i
    &&& i + dec_rep(n).len() <= s.len()
    &&& s.subrange(i, i + dec_rep(n).len()) == dec_rep(n)
    &&& (i + dec_rep(n).len() == s.len() || !is_digit(s[i + dec_rep(n).len()]))
}

proof fn lemma_canonical_chars(s: Seq<char>, i: int, n: u8)
    requires
        canonical_num_at(s, i, n),
    ensures
        forall|k: int| 0 <= k < dec_rep(n).len() ==> s[i + k] == #[trigger] dec_rep(n)[k],
{
    assert forall|k: int| 0 <= k < dec_rep(n).len() implies s[i + k] == #[trigger] dec_rep(n)[k] by {
        assert(s.subrange(i, i + dec_rep(n).len())[k] == s[i + k]);
    }
}

/// At one position of one text, at most one number reads back canonically.
proof fn lemma_canonical_num_unique(s: Seq<char>, i: int, n: u8, m: u8)
    requires
        canonical_num_at(s, i, n),
        canonical_num_at(s, i, m),
    ensures
        n == m,
{
    lemma_dec_rep_digits(n);
    lemma_dec_rep_digits(m);
    lemma_canonical_chars(s, i, n);
    lemma_canonical_chars(s, i, m);
    let ln = dec_rep(n).len() as int;
    let lm = dec_rep(m).len() as int;
    if ln < lm {
        assert(s[i + ln] == dec_rep(m)[ln]);
        assert(is_digit(s[i + ln]));
        assert(false);
    } else if lm < ln {
        assert(s[i + lm] == dec_rep(n)[lm]);
        assert(is_digit(s[i + lm]));
        assert(false);
    } else {
        assert(dec_rep(n) =~= dec_rep(m));
        lemma_dec_rep_injective(n, m);
    }
}

fn is_digit_char(c: char) -> (r: bool)
    ensures
        r == is_digit(c),
{
    c == '0' || c == '1' || c == '2' || c == '3' || c == '4' || c == '5' || c == '6' || c == '7'
        || c == '8' || c == '9'
}

fn digit_value(c: char) -> (d: u8)
    requires
        is_digit(c),
    ensures
        d == digit_val(c),
        d < 10,
        digit_char(d as int) == c,
{
    if c == '0' {
        0
    } else if c == '1' {
        1
    } else if c == '2' {
        2
    } else if c == '3' {
        3
    } else if c == '4' {
        4
    } else if c == '5' {
        5
    } else if c == '6' {
        6
    } else if c == '7' {
        7
    } else if c == '8' {
        8
    } else {
        9
    }
}

/// Whether `s` holds exactly the text `lit` starting at position `i`.
fn match_lit(s: &str, i: usize, lit: &str) -> (r: bool)
    requires
        i <= s@.len(),
    ensures
        r <==> (i + lit@.len() <= s@.len() && s@.subrange(i as int, i + lit@.len()) == lit@),
{
    let n = s.unicode_len();
    let ll = lit.unicode_len();
    if ll > n - i {
        return false;
    }
    let mut j: usize = 0;
    while j < ll
        invariant
            i + ll <= n,
            n == s@.len(),
            ll == lit@.len(),
            j <= ll,
            forall|k: int| 0 <= k < j ==> s@[i + k] == lit@[k],
        decreases ll - j,
    {
        if s.get_char(i + j) != lit.get_char(j) {
            proof {
                if s@.subrange(i as int, i + ll) == lit@ {
                    assert(s@.subrange(i as int, i + ll)[j as int] == s@[i + j]);
                    assert(false);
                }
            }
            return false;
        }
        j += 1;
    }
    proof {
        assert(s@.subrange(i as int, i + ll) =~= lit@);
    }
    true
}

/// Reads the canonical decimal number that starts at position `i`, if one
/// does: its value and the position just past it. `None` exactly when no
/// number reads back canonically there.
fn parse_num(s: &str, i: usize) -> (r: Option<(u8, usize)>)
    requires
        i <= s@.len(),
    ensures
        match r {
            Some(pair) => {
                &&& canonical_num_at(s@, i as int, pair.0)
                &&& pair.1 == i + dec_rep(pair.0).len()
                &&& i < pair.1 <= s@.len()
            },
            None => forall|n: u8| !canonical_num_at(s@, i as int, n),
        },
{
    let n_len = s.unicode_len();
    if i == n_len {
        proof {
            assert forall|n: u8| !canonical_num_at(s@, i as int, n) by {
                lemma_dec_rep_digits(n);
            }
        }
        return None;
    }
    let c0 = s.get_char(i);
    if !is_digit_char(c0) {
        proof {
            assert forall|n: u8| !canonical_num_at(s@, i as int, n) by {
                if canonical_num_at(s@, i as int, n) {
                    lemma_dec_rep_digits(n);
                    lemma_canonical_chars(s@, i as int, n);
                    assert(s@[i as int] == dec_rep(n)[0]);
                    assert(false);
                }
            }
        }
        return None;
    }
    let d0 = digit_value(c0);
    if i + 1 == n_len || !is_digit_char(s.get_char(i + 1)) {
        proof {
            assert(s@.subrange(i as int, i + 1) =~= seq![digit_char(d0 as int)]);
            assert(canonical_num_at(s@, i as int, d0));
        }
        return Some((d0, i + 1));
    }
    // at least two digits from position i on
    if d0 == 0 {
        proof {
            assert forall|n: u8| !canonical_num_at(s@, i as int, n) by {
                if canonical_num_at(s@, i as int, n) {
                    lemma_dec_rep_digits(n);
                    lemma_canonical_chars(s@, i as int, n);
                    if n == 0 {
                        assert(i + 1 == s@.len() || !is_digit(s@[i + 1]));
                        assert(false);
                    } else {
                        assert(s@[i as int] == dec_rep(n)[0]);
                        assert(dec_rep(n)[0] == '0' ==> n == 0);
                        assert(false);
                    }
                }
            }
        }
        return None;
    }
    let c1 = s.get_char(i + 1);
    let d1 = digit_value(c1);
    if i + 2 == n_len || !is_digit_char(s.get_char(i + 2)) {
        let val = d0 * 10 + d1;
        proof {
            assert(10 <= val <= 99);
            assert(val as int / 10 == d0 as int && val as int % 10 == d1 as int) by (nonlinear_arith)
                requires
                    1 <= d0 <= 9,
                    0 <= d1 <= 9,
                    val == d0 * 10 + d1,
            ;
            assert(s@.subrange(i as int, i + 2) =~= seq![
                digit_char(val as int / 10),
                digit_char(val as int % 10),
            ]);
            assert(canonical_num_at(s@, i as int, val));
        }
        return Some((val, i + 2));
    }
    // at least three digits from position i on
    let c2 = s.get_char(i + 2);
    let d2 = digit_value(c2);
    if i + 3 < n_len && is_digit_char(s.get_char(i + 3)) {
        proof {
            assert forall|n: u8| !canonical_num_at(s@, i as int, n) by {
                if canonical_num_at(s@, i as int, n) {
                    lemma_dec_rep_digits(n);
                    let l = dec_rep(n).len() as int;
                    assert(is_digit(s@[i + l]));
                    assert(false);
                }
            }
        }
        return None;
    }
    let big: u32 = (d0 as u32) * 100 + (d1 as u32) * 10 + (d2 as u32);
    if big > 255 {
        proof {
            assert forall|n: u8| !canonical_num_at(s@, i as int, n) by {
                if canonical_num_at(s@, i as int, n) {
                    lemma_dec_rep_digits(n);
                    lemma_canonical_chars(s@, i as int, n);
                    let l = dec_rep(n).len() as int;
                    if l < 3 {
                        assert(is_digit(s@[i + l]));
                        assert(false);
                    } else {
                        assert(n >= 100);
                        assert(digit_char(n as int / 100) == c0);
                        assert(digit_char((n as int / 10) % 10) == c1);
                        assert(digit_char(n as int % 10) == c2);
                        assert(n as int / 100 == d0 as int);
                        assert((n as int / 10) % 10 == d1 as int);
                        assert(n as int % 10 == d2 as int);
                        assert(n as int == 100 * (d0 as int) + 10 * (d1 as int) + d2 as int) by {
                            assert(n as int / 10 == 10 * (n as int / 100) + (n as int / 10) % 10);
                            assert(n as int == 10 * (n as int / 10) + n as int % 10);
                        }
                        assert(false);
                    }
                }
            }
        }
        return None;
    }
    let val = big as u8;
    proof {
        assert(100 <= val);
        assert(val as int / 100 == d0 as int && (val as int / 10) % 10 == d1 as int && val as int
            % 10 == d2 as int) by (nonlinear_arith)
            requires
                1 <= d0 <= 9,
                0 <= d1 <= 9,
                0 <= d2 <= 9,
                val == d0 * 100 + d1 * 10 + d2,
        ;
        assert(s@.subrange(i as int, i + 3) =~= seq![
            digit_char(val as int / 100),
            digit_char((val as int / 10) % 10),
            digit_char(val as int % 10),
        ]);
        assert(canonical_num_at(s@, i as int, val));
    }
    Some((val, i + 3))
}

/// Position of the second number inside `encoded(c)`.
spec fn pos_b(c: AppConfig) -> int {
    40 + dec_rep(c.popup_chance_min).len() as int
}

/// Position of the third number inside `encoded(c)`.
spec fn pos_o1(c: AppConfig) -> int {
    pos_b(c) + dec_rep(c.popup_chance_max).len() as int + 21
}

/// Position of the fourth number inside `encoded(c)`.
spec fn pos_o2(c: AppConfig) -> int {
    pos_o1(c) + dec_rep(c.popup_opacity_min).len() as int + 21
}

spec fn enc_len(c: AppConfig) -> int {
    pos_o2(c) + dec_rep(c.popup_opacity_max).len() as int + 1
}

/// Where each piece of a canonical record stands.
proof fn lemma_encoded_structure(c: AppConfig)
    ensures
        encoded(c).len() == enc_len(c),
        encoded(c).subrange(0, 20) == "{\"popup_chance_min\":"@,
        canonical_num_at(encoded(c), 20, c.popup_chance_min),
        encoded(c).subrange(pos_b(c) - 20, pos_b(c)) == ",\"popup_chance_max\":"@,
        canonical_num_at(encoded(c), pos_b(c), c.popup_chance_max),
        encoded(c).subrange(pos_o1(c) - 21, pos_o1(c)) == ",\"popup_opacity_min\":"@,
        canonical_num_at(encoded(c), pos_o1(c), c.popup_opacity_min),
        encoded(c).subrange(pos_o2(c) - 21, pos_o2(c)) == ",\"popup_opacity_max\":"@,
        canonical_num_at(encoded(c), pos_o2(c), c.popup_opacity_max),
        encoded(c).subrange(enc_len(c) - 1, enc_len(c)) == "}"@,
{
    reveal_strlit("{\"popup_chance_min\":");
    reveal_strlit(",\"popup_chance_max\":");
    reveal_strlit(",\"popup_opacity_min\":");
    reveal_strlit(",\"popup_opacity_max\":");
    reveal_strlit("}");
    lemma_dec_rep_digits(c.popup_chance_min);
    lemma_dec_rep_digits(c.popup_chance_max);
    lemma_dec_rep_digits(c.popup_opacity_min);
    lemma_dec_rep_digits(c.popup_opacity_max);
    let s = encoded(c);
    let da = dec_rep(c.popup_chance_min);
    let db = dec_rep(c.popup_chance_max);
    let do1 = dec_rep(c.popup_opacity_min);
    let do2 = dec_rep(c.popup_opacity_max);
    assert(s.len() == enc_len(c));
    assert(s.subrange(0, 20) =~= "{\"popup_chance_min\":"@);
    assert(s.subrange(20, 20 + da.len() as int) =~= da);
    assert(s[pos_b(c) - 20] == ',');
    assert(canonical_num_at(s, 20, c.popup_chance_min));
    assert(s.subrange(pos_b(c) - 20, pos_b(c)) =~= ",\"popup_chance_max\":"@);
    assert(s.subrange(pos_b(c), pos_b(c) + db.len() as int) =~= db);
    assert(s[pos_o1(c) - 21] == ',');
    assert(canonical_num_at(s, pos_b(c), c.popup_chance_max));
    assert(s.subrange(pos_o1(c) - 21, pos_o1(c)) =~= ",\"popup_opacity_min\":"@);
    assert(s.subrange(pos_o1(c), pos_o1(c) + do1.len() as int) =~= do1);
    assert(s[pos_o2(c) - 21] == ',');
    assert(canonical_num_at(s, pos_o1(c), c.popup_opacity_min));
    assert(s.subrange(pos_o2(c) - 21, pos_o2(c)) =~= ",\"popup_opacity_max\":"@);
    assert(s.subrange(pos_o2(c), pos_o2(c) + do2.len() as int) =~= do2);
    assert(s[enc_len(c) - 1] == '}');
    assert(canonical_num_at(s, pos_o2(c), c.popup_opacity_max));
    assert(s.subrange(enc_len(c) - 1, enc_len(c)) =~= "}"@);
}

/// No two configurations share a canonical record.
proof fn lemma_encoded_injective(x: AppConfig, y: AppConfig)
    requires
        encoded(x) == encoded(y),
    ensures
        x == y,
{
    lemma_encoded_structure(x);
    lemma_encoded_structure(y);
    let s = encoded(x);
    lemma_canonical_num_unique(s, 20, x.popup_chance_min, y.popup_chance_min);
    assert(pos_b(x) == pos_b(y));
    lemma_canonical_num_unique(s, pos_b(x), x.popup_chance_max, y.popup_chance_max);
    assert(pos_o1(x) == pos_o1(y));
    lemma_canonical_num_unique(s, pos_o1(x), x.popup_opacity_min, y.popup_opacity_min);
    assert(pos_o2(x) == pos_o2(y));
    lemma_canonical_num_unique(s, pos_o2(x), x.popup_opacity_max, y.popup_opacity_max);
}

proof fn lemma_decoded_none(s: Seq<char>)
    requires
        forall|c: AppConfig| c.valid() ==> #[trigger] encoded(c) != s,
    ensures
        decoded(s) is None,
{
    if decoded(s) is Some {
        let w = choose|c: AppConfig| c.valid() && #[trigger] encoded(c) == s;
        assert(w.valid() && encoded(w) == s);
        assert(false);
    }
}

proof fn lemma_decoded_some(s: Seq<char>, c: AppConfig)
    requires
        c.valid(),
        encoded(c) == s,
    ensures
        decoded(s) == Some(c),
{
    assert(exists|x: AppConfig| x.valid() && #[trigger] encoded(x) == s);
    let w = choose|x: AppConfig| x.valid() && #[trigger] encoded(x) == s;
    assert(w.valid() && encoded(w) == s);
    lemma_encoded_injective(w, c);
}

/// Round trip: the record the encoder writes for a valid configuration reads
/// back as exactly that configuration.
pub proof fn lemma_round_trip(c: AppConfig)
    requires
        c.valid(),
    ensures
        decoded(encoded(c)) == Some(c),
{
    lemma_decoded_some(encoded(c), c);
}

proof fn lemma_split3(s: Seq<char>, a: int, b: int, c: int)
    requires
        0 <= a <= b <= c <= s.len(),
    ensures
        s.subrange(a, c) == s.subrange(a, b) + s.subrange(b, c),
{
    assert(s.subrange(a, c) =~= s.subrange(a, b) + s.subrange(b, c));
}

/// Writes the canonical persisted record of `c`.
pub fn encode_config(c: &AppConfig) -> (text: String)
    ensures
        text@ == encoded(*c),
{
    let mut out: String = "{\"popup_chance_min\":".to_owned();
    push_num(&mut out, c.popup_chance_min);
    out.append(",\"popup_chance_max\":");
    push_num(&mut out, c.popup_chance_max);
    out.append(",\"popup_opacity_min\":");
    push_num(&mut out, c.popup_opacity_min);
    out.append(",\"popup_opacity_max\":");
    push_num(&mut out, c.popup_opacity_max);
    out.append("}");
    out
}

/// Reads a persisted record back. Accepts exactly the canonical records of
/// valid configurations: anything else — other spellings, other field
/// orders, out-of-range or unordered bounds, damaged text — yields `None`.
pub fn decode_config(s: &str) -> (parsed: Option<AppConfig>)
    ensures
        parsed == decoded(s@),
        parsed matches Some(c) ==> c.valid() && s@ == encoded(c),
{
    proof {
        reveal_strlit("{\"popup_chance_min\":");
        reveal_strlit(",\"popup_chance_max\":");
        reveal_strlit(",\"popup_opacity_min\":");
        reveal_strlit(",\"popup_opacity_max\":");
        reveal_strlit("}");
    }
    let n_len = s.unicode_len();
    if !match_lit(s, 0, "{\"popup_chance_min\":") {
        proof {
            assert forall|c: AppConfig| c.valid() implies #[trigger] encoded(c) != s@ by {
                if encoded(c) == s@ {
                    lemma_encoded_structure(c);
                    assert(false);
                }
            }
            lemma_decoded_none(s@);
        }
        return None;
    }
    let pr1 = match parse_num(s, 20) {
        Some(pair) => pair,
        None => {
            proof {
                assert forall|c: AppConfig| c.valid() implies #[trigger] encoded(c) != s@ by {
                    if encoded(c) == s@ {
                        lemma_encoded_structure(c);
                        assert(canonical_num_at(s@, 20, c.popup_chance_min));
                        assert(false);
                    }
                }
                lemma_decoded_none(s@);
            }
            return None;
        },
    };
    let a = pr1.0;
    let j1 = pr1.1;
    if !match_lit(s, j1, ",\"popup_chance_max\":") {
        proof {
            assert forall|c: AppConfig| c.valid() implies #[trigger] encoded(c) != s@ by {
                if encoded(c) == s@ {
                    lemma_encoded_structure(c);
                    lemma_canonical_num_unique(s@, 20, a, c.popup_chance_min);
                    assert(false);
                }
            }
            lemma_decoded_none(s@);
        }
        return None;
    }
    let pr2 = match parse_num(s, j1 + 20) {
        Some(pair) => pair,
        None => {
            proof {
                assert forall|c: AppConfig| c.valid() implies #[trigger] encoded(c) != s@ by {
                    if encoded(c) == s@ {
                        lemma_encoded_structure(c);
                        lemma_canonical_num_unique(s@, 20, a, c.popup_chance_min);
                        assert(canonical_num_at(s@, pos_b(c), c.popup_chance_max));
                        assert(false);
                    }
                }
                lemma_decoded_none(s@);
            }
            return None;
        },
    };
    let b = pr2.0;
    let j2 = pr2.1;
    if !match_lit(s, j2, ",\"popup_opacity_min\":") {
        proof {
            assert forall|c: AppConfig| c.valid() implies #[trigger] encoded(c) != s@ by {
                if encoded(c) == s@ {
                    lemma_encoded_structure(c);
                    lemma_canonical_num_unique(s@, 20, a, c.popup_chance_min);
                    lemma_canonical_num_unique(s@, pos_b(c), b, c.popup_chance_max);
                    assert(false);
                }
            }
            lemma_decoded_none(s@);
        }
        return None;
    }
    let pr3 = match parse_num(s, j2 + 21) {
        Some(pair) => pair,
        None => {
            proof {
                assert forall|c: AppConfig| c.valid() implies #[trigger] encoded(c) != s@ by {
                    if encoded(c) == s@ {
                        lemma_encoded_structure(c);
                        lemma_canonical_num_unique(s@, 20, a, c.popup_chance_min);
                        lemma_canonical_num_unique(s@, pos_b(c), b, c.popup_chance_max);
                        assert(canonical_num_at(s@, pos_o1(c), c.popup_opacity_min));
                        assert(false);
                    }
                }
                lemma_decoded_none(s@);
            }
            return None;
        },
    };
    let o1 = pr3.0;
    let j3 = pr3.1;
    if !match_lit(s, j3, ",\"popup_opacity_max\":") {
        proof {
            assert forall|c: AppConfig| c.valid() implies #[trigger] encoded(c) != s@ by {
                if encoded(c) == s@ {
                    lemma_encoded_structure(c);
                    lemma_canonical_num_unique(s@, 20, a, c.popup_chance_min);
                    lemma_canonical_num_unique(s@, pos_b(c), b, c.popup_chance_max);
                    lemma_canonical_num_unique(s@, pos_o1(c), o1, c.popup_opacity_min);
                    assert(false);
                }
            }
            lemma_decoded_none(s@);
        }
        return None;
    }
    let pr4 = match parse_num(s, j3 + 21) {
        Some(pair) => pair,
        None => {
            proof {
                assert forall|c: AppConfig| c.valid() implies #[trigger] encoded(c) != s@ by {
                    if encoded(c) == s@ {
                        lemma_encoded_structure(c);
                        lemma_canonical_num_unique(s@, 20, a, c.popup_chance_min);
                        lemma_canonical_num_unique(s@, pos_b(c), b, c.popup_chance_max);
                        lemma_canonical_num_unique(s@, pos_o1(c), o1, c.popup_opacity_min);
                        assert(canonical_num_at(s@, pos_o2(c), c.popup_opacity_max));
                        assert(false);
                    }
                }
                lemma_decoded_none(s@);
            }
            return None;
        },
    };
    let o2 = pr4.0;
    let j4 = pr4.1;
    if !match_lit(s, j4, "}") || j4 + 1 != n_len {
        proof {
            assert forall|c: AppConfig| c.valid() implies #[trigger] encoded(c) != s@ by {
                if encoded(c) == s@ {
                    lemma_encoded_structure(c);
                    lemma_canonical_num_unique(s@, 20, a, c.popup_chance_min);
                    lemma_canonical_num_unique(s@, pos_b(c), b, c.popup_chance_max);
                    lemma_canonical_num_unique(s@, pos_o1(c), o1, c.popup_opacity_min);
                    lemma_canonical_num_unique(s@, pos_o2(c), o2, c.popup_opacity_max);
                    assert(s@.subrange(j4 as int, j4 + 1) == "}"@);
                    assert(j4 + 1 == s@.len());
                    assert(false);
                }
            }
            lemma_decoded_none(s@);
        }
        return None;
    }
    let cfg = AppConfig {
        popup_chance_min: a,
        popup_chance_max: b,
        popup_opacity_min: o1,
        popup_opacity_max: o2,
    };
    if !cfg.is_valid() {
        proof {
            assert forall|c: AppConfig| c.valid() implies #[trigger] encoded(c) != s@ by {
                if encoded(c) == s@ {
                    lemma_encoded_structure(c);
                    lemma_canonical_num_unique(s@, 20, a, c.popup_chance_min);
                    lemma_canonical_num_unique(s@, pos_b(c), b, c.popup_chance_max);
                    lemma_canonical_num_unique(s@, pos_o1(c), o1, c.popup_opacity_min);
                    lemma_canonical_num_unique(s@, pos_o2(c), o2, c.popup_opacity_max);
                    assert(c == cfg);
                    assert(false);
                }
            }
            lemma_decoded_none(s@);
        }
        return None;
    }
    proof {
        lemma_split3(s@, 0, 20, j1 as int);
        lemma_split3(s@, 0, j1 as int, j1 + 20);
        lemma_split3(s@, 0, j1 + 20, j2 as int);
        lemma_split3(s@, 0, j2 as int, j2 + 21);
        lemma_split3(s@, 0, j2 + 21, j3 as int);
        lemma_split3(s@, 0, j3 as int, j3 + 21);
        lemma_split3(s@, 0, j3 + 21, j4 as int);
        lemma_split3(s@, 0, j4 as int, j4 + 1);
        assert(s@.subrange(20, j1 as int) == dec_rep(a));
        assert(s@.subrange(j1 + 20, j2 as int) == dec_rep(b));
        assert(s@.subrange(j2 + 21, j3 as int) == dec_rep(o1));
        assert(s@.subrange(j3 + 21, j4 as int) == dec_rep(o2));
        assert(s@ =~= s@.subrange(0, j4 + 1));
        assert(s@ == encoded(cfg));
        lemma_decoded_some(s@, cfg);
    }
    Some(cfg)
}

/// The configuration a load yields: the decoded record where the text is a
/// valid canonical record, and the documented defaults where there is no
/// text (no persisted record) or the text does not read back.
pub fn load_or_default(text: Option<&str>) -> (cfg: AppConfig)
    ensures
        cfg.valid(),
        match text {
            Some(t) => cfg == (match decoded(t@) {
                Some(c) => c,
                None => AppConfig::default_config(),
            }),
            None => cfg == AppConfig::default_config(),
        },
{
    match text {
        Some(t) => {
            match decode_config(t) {
                Some(c) => c,
                None => AppConfig::new(),
            }
        },
        None => AppConfig::new(),
    }
}

} // verus!
