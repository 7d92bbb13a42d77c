//! The textual building blocks of the snapshot format: JSON string
//! escaping, quoted-string parsing, literal matching and number parsing,
//! each with a proof that parsing undoes emission.

use vstd::prelude::*;

use crate::strs::{
    dec_digits, dec_value, digit_of, digit_val, is_digit_char, is_digit_x, push_char,
};

verus! {

pub open spec fn is_hex_digit_char(c: char) -> bool {
    (48 <= c as u32 && c as u32 <= 57) || (97 <= c as u32 && c as u32 <= 102)
}

pub open spec fn hex_val(c: char) -> int {
    if 48 <= c as u32 && c as u32 <= 57 {
        c as u32 - 48
    } else {
        c as u32 - 87
    }
}

/// The hex digit for a value below 16, lower case.
pub open spec fn hex_digit_char(d: int) -> char {
    if d < 10 {
        ((48 + d) as u8) as char
    } else {
        ((87 + d) as u8) as char
    }
}

/// How one character is written inside a JSON string: quotes and
/// backslashes are escaped, control characters take the `\u00XX` form,
/// everything else stands as itself.
pub open spec fn esc_char(c: char) -> Seq<char> {
    if c == '"' {
        seq!['\\', '"']
    } else if c == '\\' {
        seq!['\\', '\\']
    } else if (c as u32) < 32 {
        seq!['\\', 'u', '0', '0', hex_digit_char(c as u32 as int / 16), hex_digit_char(c as u32 as int % 16)]
    } else {
        seq![c]
    }
}

/// A text escaped for embedding in a JSON string.
pub open spec fn esc(s: Seq<char>) -> Seq<char>
    decreases s.len(),
{
    if s.len() == 0 {
        Seq::<char>::empty()
    } else {
        esc_char(s[0]) + esc(s.drop_first())
    }
}

pub proof fn lemma_esc_app(a: Seq<char>, b: Seq<char>)
    ensures
        esc(a + b) == esc(a) + esc(b),
    decreases a.len(),
{
    if a.len() == 0 {
        assert(a + b =~= b);
        assert(esc(a) + esc(b) =~= esc(b));
    } else {
        assert((a + b).drop_first() =~= a.drop_first() + b);
        lemma_esc_app(a.drop_first(), b);
        assert((a + b)[0] == a[0]);
        assert(esc(a + b) =~= esc(a) + esc(b));
    }
}

/// Appends the escaped form of `s` to `out`.
pub fn emit_escaped(out: &mut String, s: &str)
    ensures
        final(out)@ == old(out)@ + esc(s@),
{
    let n: usize = s.unicode_len();
    let mut i: usize = 0;
    proof {
        assert(esc(s@.subrange(0, 0)) =~= Seq::<char>::empty());
        assert(out@ =~= out@ + esc(s@.subrange(0, 0)));
    }
    while i < n
        invariant
            n == s@.len(),
            0 <= i <= n,
            out@ == old(out)@ + esc(s@.subrange(0, i as int)),
        decreases n - i,
    {
        let c = s.get_char(i);
        if c == '"' {
            out.append("\\\"");
            proof {
                reveal_strlit("\\\"");
            }
        } else if c == '\\' {
            out.append("\\\\");
            proof {
                reveal_strlit("\\\\");
            }
        } else if (c as u32) < 32 {
            out.append("\\u00");
            let code: u32 = c as u32;
            let h1: u32 = code / 16;
            let h2: u32 = code % 16;
            let d1: char = if h1 < 10 {
                ((48 + h1) as u8) as char
            } else {
                ((87 + h1) as u8) as char
            };
            let d2: char = if h2 < 10 {
                ((48 + h2) as u8) as char
            } else {
                ((87 + h2) as u8) as char
            };
            push_char(out, d1);
            push_char(out, d2);
            proof {
                reveal_strlit("\\u00");
            }
        } else {
            push_char(out, c);
        }
        proof {
            assert(s@.subrange(0, i + 1) =~= s@.subrange(0, i as int) + seq![s@[i as int]]);
            lemma_esc_app(s@.subrange(0, i as int), seq![s@[i as int]]);
            assert(esc(seq![s@[i as int]]) =~= esc_char(s@[i as int])) by {
                let one = seq![s@[i as int]];
                assert(one.drop_first() =~= Seq::<char>::empty());
                assert(esc(one.drop_first()) == Seq::<char>::empty());
                assert(esc(one) == esc_char(one[0]) + esc(one.drop_first()));
                assert(esc_char(s@[i as int]) + Seq::<char>::empty() =~= esc_char(
                    s@[i as int],
                ));
            }
            assert(out@ =~= old(out)@ + esc(s@.subrange(0, i + 1)));
        }
        i = i + 1;
    }
    proof {
        assert(s@.subrange(0, n as int) =~= s@);
    }
}

/// What parsing a JSON string body from position `i` yields: the decoded
/// text and the position just past the closing quote.
pub open spec fn parse_jstring_at(s: Seq<char>, i: int) -> Option<(int, Seq<char>)>
    decreases s.len() - i,
{
    if i < 0 || i >= s.len() {
        None
    } else if s[i] == '"' {
        Some((i + 1, Seq::<char>::empty()))
    } else if s[i] == '\\' {
        if i + 1 >= s.len() {
            None
        } else if s[i + 1] == '"' || s[i + 1] == '\\' {
            match parse_jstring_at(s, i + 2) {
                None => None,
                Some((j, t)) => Some((j, seq![s[i + 1]] + t)),
            }
        } else if s[i + 1] == 'u' {
            if i + 5 >= s.len() {
                None
            } else if s[i + 2] == '0' && s[i + 3] == '0' && is_hex_digit_char(s[i + 4])
                && is_hex_digit_char(s[i + 5]) {
                match parse_jstring_at(s, i + 6) {
                    None => None,
                    Some((j, t)) => Some(
                        (j, seq![((hex_val(s[i + 4]) * 16 + hex_val(s[i + 5])) as u8) as char] + t),
                    ),
                }
            } else {
                None
            }
        } else {
            None
        }
    } else {
        match parse_jstring_at(s, i + 1) {
            None => None,
            Some((j, t)) => Some((j, seq![s[i]] + t)),
        }
    }
}

pub proof fn lemma_parse_jstring_advances(s: Seq<char>, i: int)
    ensures
        match parse_jstring_at(s, i) {
            None => true,
            Some((j, t)) => i < j <= s.len(),
        },
    decreases s.len() - i,
{
    if 0 <= i < s.len() {
        if s[i] == '\\' {
            if i + 1 < s.len() {
                if s[i + 1] == '"' || s[i + 1] == '\\' {
                    lemma_parse_jstring_advances(s, i + 2);
                } else if s[i + 1] == 'u' {
                    if i + 5 < s.len() {
                        lemma_parse_jstring_advances(s, i + 6);
                    }
                }
            }
        } else if s[i] != '"' {
            lemma_parse_jstring_advances(s, i + 1);
        }
    }
}

/// Parses a JSON string body starting at `i`, returning the decoded
/// text and the position just past the closing quote.
pub fn parse_jstring(s: &str, n: usize, i0: usize) -> (r: Option<(usize, String)>)
    requires
        n == s@.len(),
        i0 <= n,
    ensures
        match r {
            None => parse_jstring_at(s@, i0 as int) is None,
            Some(p) => parse_jstring_at(s@, i0 as int) == Some((p.0 as int, p.1@)) && i0 < p.0
                <= n,
        },
{
    let mut i: usize = i0;
    let mut out = String::new();
    loop
        invariant
            n == s@.len(),
            i0 <= i <= n,
            match parse_jstring_at(s@, i as int) {
                None => parse_jstring_at(s@, i0 as int) is None,
                Some(p) => parse_jstring_at(s@, i0 as int) == Some((p.0, out@ + p.1)),
            },
        decreases n - i,
    {
        if i >= n {
            return None;
        }
        let c = s.get_char(i);
        if c == '"' {
            proof {
                assert(parse_jstring_at(s@, i as int) == Some(
                    (i + 1 as int, Seq::<char>::empty()),
                ));
                assert(out@ + Seq::<char>::empty() =~= out@);
            }
            return Some((i + 1, out));
        } else if c == '\\' {
            if i + 1 >= n {
                return None;
            }
            let e = s.get_char(i + 1);
            if e == '"' || e == '\\' {
                push_char(&mut out, e);
                proof {
                    if let Some((j, t)) = parse_jstring_at(s@, i + 2) {
                        assert(out@ + t =~= old_out_concat(out@, s@[i + 1 as int], t));
                    }
                }
                i = i + 2;
            } else if e == 'u' {
                if n - i <= 5 {
                    return None;
                }
                let c2 = s.get_char(i + 2);
                let c3 = s.get_char(i + 3);
                let h1 = s.get_char(i + 4);
                let h2 = s.get_char(i + 5);
                let h1_ok: bool = (48 <= h1 as u32 && h1 as u32 <= 57) || (97 <= h1 as u32 && h1
                    as u32 <= 102);
                let h2_ok: bool = (48 <= h2 as u32 && h2 as u32 <= 57) || (97 <= h2 as u32 && h2
                    as u32 <= 102);
                if c2 == '0' && c3 == '0' && h1_ok && h2_ok {
                    let v1: u32 = if 48 <= h1 as u32 && h1 as u32 <= 57 {
                        h1 as u32 - 48
                    } else {
                        h1 as u32 - 87
                    };
                    let v2: u32 = if 48 <= h2 as u32 && h2 as u32 <= 57 {
                        h2 as u32 - 48
                    } else {
                        h2 as u32 - 87
                    };
                    let decoded: char = ((v1 * 16 + v2) as u8) as char;
                    push_char(&mut out, decoded);
                    proof {
                        if let Some((j, t)) = parse_jstring_at(s@, i + 6) {
                            assert(out@ + t =~= old_out_concat(out@, decoded, t));
                        }
                    }
                    i = i + 6;
                } else {
                    return None;
                }
            } else {
                return None;
            }
        } else {
            push_char(&mut out, c);
            proof {
                if let Some((j, t)) = parse_jstring_at(s@, i + 1) {
                    assert(out@ + t =~= old_out_concat(out@, s@[i as int], t));
                }
            }
            i = i + 1;
        }
    }
}

/// The concatenation `prefix[..len-1] + [c] + t`: the shape an
/// accumulator takes after pushing one decoded character.
spec fn old_out_concat(pushed: Seq<char>, c: char, t: Seq<char>) -> Seq<char> {
    pushed.drop_last() + (seq![c] + t)
}

/// Parsing reads back exactly what escaping wrote: at a position holding
/// the escaped text followed by the closing quote, the parser returns the
/// unescaped text and stops just past the quote.
pub proof fn lemma_parse_escaped(s: Seq<char>, i: int, t: Seq<char>)
    requires
        0 <= i,
        i + esc(t).len() + 1 <= s.len(),
        s.subrange(i, i + esc(t).len() + 1) == esc(t).push('"'),
    ensures
        parse_jstring_at(s, i) == Some((i + esc(t).len() + 1, t)),
    decreases t.len(),
{
    let e = esc(t);
    let sub = s.subrange(i, i + e.len() + 1);
    assert forall|k: int| 0 <= k < e.len() implies s[i + k] == e[k] by {
        assert(sub[k] == s[i + k]);
        assert(e.push('"')[k] == e[k]);
    }
    assert(s[i + e.len()] == '"') by {
        assert(sub[e.len() as int] == s[i + e.len()]);
        assert(e.push('"')[e.len() as int] == '"');
    }
    if t.len() == 0 {
        assert(e.len() == 0);
        assert(s[i] == '"');
    } else {
        let c = t[0];
        let rest = t.drop_first();
        let er = esc(rest);
        let ec = esc_char(c);
        assert(e == ec + er);
        assert forall|k: int| 0 <= k < ec.len() implies s[i + k] == ec[k] by {
            assert((ec + er)[k] == ec[k]);
        }
        let i2 = i + ec.len();
        assert(s.subrange(i2, i2 + er.len() + 1) =~= er.push('"')) by {
            assert forall|k: int| 0 <= k < er.len() + 1 implies s.subrange(
                i2,
                i2 + er.len() + 1,
            )[k] == er.push('"')[k] by {
                assert(s.subrange(i2, i2 + er.len() + 1)[k] == s[i2 + k]);
                if k < er.len() {
                    assert(e[ec.len() + k] == er[k]);
                    assert(s[i + (ec.len() + k)] == e[ec.len() + k]);
                    assert(er.push('"')[k] == er[k]);
                } else {
                    assert(i2 + k == i + e.len());
                    assert(er.push('"')[k] == '"');
                }
            }
        }
        lemma_parse_escaped(s, i2, rest);
        assert(parse_jstring_at(s, i2) == Some((i2 + er.len() + 1, rest)));
        assert(i2 + er.len() + 1 == i + e.len() + 1);
        if c == '"' {
            assert(s[i] == ec[0] && s[i + 1] == ec[1]);
            assert(s[i] == '\\' && s[i + 1] == '"');
            assert(seq![s[i + 1]] + rest =~= t);
        } else if c == '\\' {
            assert(s[i] == ec[0] && s[i + 1] == ec[1]);
            assert(s[i] == '\\' && s[i + 1] == '\\');
            assert(seq![s[i + 1]] + rest =~= t);
        } else if (c as u32) < 32 {
            assert(s[i] == ec[0] && s[i + 1] == ec[1] && s[i + 2] == ec[2] && s[i + 3] == ec[3]
                && s[i + 4] == ec[4] && s[i + 5] == ec[5]);
            assert(s[i] == '\\' && s[i + 1] == 'u' && s[i + 2] == '0' && s[i + 3] == '0');
            assert(s[i + 4] == hex_digit_char(c as u32 as int / 16));
            assert(s[i + 5] == hex_digit_char(c as u32 as int % 16));
            assert(is_hex_digit_char(s[i + 4]));
            assert(is_hex_digit_char(s[i + 5]));
            assert(hex_val(s[i + 4]) == c as u32 as int / 16);
            assert(hex_val(s[i + 5]) == c as u32 as int % 16);
            assert((c as u32 / 16) * 16 + (c as u32 % 16) == c as u32) by {
                vstd::arithmetic::div_mod::lemma_fundamental_div_mod(c as u32 as int, 16);
            }
            vstd::utf8::char_u32_cast(c, c as u32);
            assert((c as u32) as char == c);
            assert(((hex_val(s[i + 4]) * 16 + hex_val(s[i + 5])) as u8) as char == c);
            assert(seq![((hex_val(s[i + 4]) * 16 + hex_val(s[i + 5])) as u8) as char] + rest
                =~= t);
        } else {
            assert(s[i] == ec[0]);
            assert(s[i] == c);
            assert(c != '"' && c != '\\');
            assert(seq![s[i]] + rest =~= t);
        }
    }
}

/// Where the digit run from `i` ends.
pub open spec fn digit_run_end(s: Seq<char>, i: int) -> int
    decreases s.len() - i,
{
    if 0 <= i < s.len() && is_digit_char(s[i]) {
        digit_run_end(s, i + 1)
    } else {
        i
    }
}

/// What parsing an unsigned number from position `i` yields.
pub open spec fn parse_u64_at(s: Seq<char>, i: int) -> Option<(int, u64)> {
    let j = digit_run_end(s, i);
    if j == i {
        None
    } else if dec_value(s.subrange(i, j)) > u64::MAX {
        None
    } else {
        Some((j, dec_value(s.subrange(i, j)) as u64))
    }
}

pub proof fn lemma_digit_run_end(s: Seq<char>, i: int, j: int)
    requires
        0 <= i <= j <= s.len(),
        forall|k: int| i <= k < j ==> is_digit_char(s[k]),
        j == s.len() || !is_digit_char(s[j]),
    ensures
        digit_run_end(s, i) == j,
    decreases j - i,
{
    if i < j {
        lemma_digit_run_end(s, i + 1, j);
    }
}

pub proof fn lemma_digit_run_in_bounds(s: Seq<char>, i: int)
    requires
        0 <= i <= s.len(),
    ensures
        i <= digit_run_end(s, i) <= s.len(),
        forall|k: int| i <= k < digit_run_end(s, i) ==> is_digit_char(s[k]),
        digit_run_end(s, i) == s.len() || !is_digit_char(s[digit_run_end(s, i)]),
    decreases s.len() - i,
{
    if i < s.len() && is_digit_char(s[i]) {
        lemma_digit_run_in_bounds(s, i + 1);
    }
}

pub proof fn lemma_parse_u64_advances(s: Seq<char>, i: int)
    requires
        0 <= i <= s.len(),
    ensures
        match parse_u64_at(s, i) {
            None => true,
            Some((j, v)) => i < j <= s.len(),
        },
{
    lemma_digit_run_in_bounds(s, i);
}

/// Parses an unsigned decimal number starting at `i0`.
pub fn parse_u64(s: &str, n: usize, i0: usize) -> (r: Option<(usize, u64)>)
    requires
        n == s@.len(),
        i0 <= n,
    ensures
        match r {
            None => parse_u64_at(s@, i0 as int) is None,
            Some(p) => parse_u64_at(s@, i0 as int) == Some((p.0 as int, p.1)) && i0 < p.0 <= n,
        },
{
    let mut j: usize = i0;
    while j < n && is_digit_x(s.get_char(j))
        invariant
            n == s@.len(),
            i0 <= j <= n,
            forall|k: int| i0 <= k < j ==> is_digit_char(s@[k]),
        decreases n - j,
    {
        j = j + 1;
    }
    proof {
        lemma_digit_run_end(s@, i0 as int, j as int);
    }
    if j == i0 {
        return None;
    }
    let ghost run = s@.subrange(i0 as int, j as int);
    let mut v: u64 = 0;
    let mut k: usize = i0;
    proof {
        assert(s@.subrange(i0 as int, i0 as int) =~= Seq::<char>::empty());
    }
    while k < j
        invariant
            n == s@.len(),
            i0 <= k <= j <= n,
            i0 < j,
            run == s@.subrange(i0 as int, j as int),
            digit_run_end(s@, i0 as int) == j,
            forall|q: int| i0 <= q < j ==> is_digit_char(s@[q]),
            v == dec_value(s@.subrange(i0 as int, k as int)),
        decreases j - k,
    {
        let c = s.get_char(k);
        let d: u64 = digit_of(c);
        proof {
            assert(s@.subrange(i0 as int, k + 1).drop_last() =~= s@.subrange(
                i0 as int,
                k as int,
            ));
            assert(s@.subrange(i0 as int, k + 1).last() == s@[k as int]);
            vstd::arithmetic::div_mod::lemma_fundamental_div_mod(
                u64::MAX - d,
                10,
            );
        }
        if v > (u64::MAX - d) / 10 {
            proof {
                assert(dec_value(s@.subrange(i0 as int, k + 1)) > u64::MAX);
                assert forall|q: int| 0 <= q < run.len() implies is_digit_char(
                    #[trigger] run[q],
                ) by {
                    assert(run[q] == s@[i0 + q]);
                }
                crate::strs::lemma_dec_value_prefix(run, k + 1 - i0);
                assert(run.subrange(0, k + 1 - i0) =~= s@.subrange(i0 as int, k + 1));
                assert(dec_value(run) > u64::MAX);
            }
            return None;
        }
        v = v * 10 + d;
        k = k + 1;
    }
    proof {
        assert(s@.subrange(i0 as int, k as int) =~= run);
        crate::strs::lemma_dec_value_nonneg(run);
    }
    Some((j, v))
}

/// Parsing reads back exactly the canonical digits of a number when they
/// are followed by a non-digit.
pub proof fn lemma_parse_number(s: Seq<char>, i: int, m: u64)
    requires
        0 <= i,
        i + dec_digits(m as nat).len() <= s.len(),
        s.subrange(i, i + dec_digits(m as nat).len()) == dec_digits(m as nat),
        i + dec_digits(m as nat).len() == s.len() || !is_digit_char(
            s[i + dec_digits(m as nat).len()],
        ),
    ensures
        parse_u64_at(s, i) == Some((i + dec_digits(m as nat).len(), m)),
{
    let w = dec_digits(m as nat);
    crate::strs::lemma_dec_digits_props(m as nat);
    assert forall|k: int| i <= k < i + w.len() implies is_digit_char(s[k]) by {
        assert(s.subrange(i, i + w.len())[k - i] == s[k]);
        assert(is_digit_char(w[k - i]));
    }
    lemma_digit_run_end(s, i, i + w.len());
    assert(s.subrange(i, i + w.len()) == w);
    assert(dec_value(s.subrange(i, i + w.len())) == m);
}

/// Whether the text has `lit` at position `i`.
pub open spec fn lit_at(s: Seq<char>, i: int, lit: Seq<char>) -> bool {
    0 <= i && i + lit.len() <= s.len() && s.subrange(i, i + lit.len()) == lit
}

/// Matches a fixed literal at position `i0`, returning the position just
/// past it.
pub fn parse_lit(s: &str, n: usize, i0: usize, lit: &str) -> (r: Option<usize>)
    requires
        n == s@.len(),
        i0 <= n,
    ensures
        match r {
            None => !lit_at(s@, i0 as int, lit@),
            Some(j) => lit_at(s@, i0 as int, lit@) && j == i0 + lit@.len() && j <= n,
        },
{
    let m: usize = lit.unicode_len();
    if m > n - i0 {
        proof {
            assert(!lit_at(s@, i0 as int, lit@));
        }
        return None;
    }
    let mut k: usize = 0;
    while k < m
        invariant
            n == s@.len(),
            m == lit@.len(),
            i0 + m <= n,
            0 <= k <= m,
            forall|q: int| 0 <= q < k ==> s@[i0 + q] == lit@[q],
        decreases m - k,
    {
        if s.get_char(i0 + k) != lit.get_char(k) {
            proof {
                assert(s@.subrange(i0 as int, i0 + m) != lit@) by {
                    assert(s@.subrange(i0 as int, i0 + m)[k as int] == s@[i0 + k]);
                }
            }
            return None;
        }
        k = k + 1;
    }
    proof {
        assert(s@.subrange(i0 as int, i0 + m) =~= lit@);
    }
    Some(i0 + m)
}

} // verus!
