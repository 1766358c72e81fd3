//! Decimal text: rendering unsigned numbers as digit strings and parsing
//! digit strings back, with exact character-level specifications.

use vstd::prelude::*;

verus! {

/// The character for one decimal digit value.
pub open spec fn digit_char(d: int) -> char {
    if d == 0 {
        '0'
    } else if d == 1 {
        '1'
    } else if d == 2 {
        '2'
    } else if d == 3 {
        '3'
    } else if d == 4 {
        '4'
    } else if d == 5 {
        '5'
    } else if d == 6 {
        '6'
    } else if d == 7 {
        '7'
    } else if d == 8 {
        '8'
    } else {
        '9'
    }
}

pub open spec fn is_digit(c: char) -> bool {
    c == '0' || c == '1' || c == '2' || c == '3' || c == '4' || c == '5' || c == '6' || c == '7'
        || c == '8' || c == '9'
}

/// Numeric value of one decimal digit character.
pub open spec fn digit_val(c: char) -> int {
    if c == '0' {
        0
    } else if c == '1' {
        1
    } else if c == '2' {
        2
    } else if c == '3' {
        3
    } else if c == '4' {
        4
    } else if c == '5' {
        5
    } else if c == '6' {
        6
    } else if c == '7' {
        7
    } else if c == '8' {
        8
    } else {
        9
    }
}

/// The standard decimal rendering of `n`, most significant digit first,
/// with no leading zeros (except for `n == 0` itself).
pub open spec fn spec_digits(n: nat) -> Seq<char>
    decreases n,
{
    if n < 10 {
        seq![digit_char(n as int)]
    } else {
        spec_digits(n / 10).push(digit_char((n % 10) as int))
    }
}

pub open spec fn all_digits(s: Seq<char>) -> bool {
    forall|i: int| 0 <= i < s.len() ==> is_digit(#[trigger] s[i])
}

/// The number denoted by a digit string, most significant digit first.
pub open spec fn dec_val(s: Seq<char>) -> int
    decreases s.len(),
{
    if s.len() == 0 {
        0
    } else {
        dec_val(s.drop_last()) * 10 + digit_val(s.last())
    }
}

pub proof fn lemma_dec_val_nonneg(s: Seq<char>)
    ensures
        dec_val(s) >= 0,
    decreases s.len(),
{
    if s.len() > 0 {
        lemma_dec_val_nonneg(s.drop_last());
    }
}

/// Extending a digit string to the right never decreases its value.
pub proof fn lemma_dec_val_prefix(s: Seq<char>, i: int)
    requires
        0 <= i <= s.len(),
    ensures
        dec_val(s.take(i)) <= dec_val(s),
    decreases s.len() - i,
{
    if i < s.len() {
        lemma_dec_val_prefix(s, i + 1);
        let t = s.take(i + 1);
        assert(t.drop_last() =~= s.take(i));
        assert(dec_val(t) == dec_val(s.take(i)) * 10 + digit_val(t.last()));
        lemma_dec_val_nonneg(s.take(i));
    } else {
        assert(s.take(i) =~= s);
    }
}

fn digit_str(d: u64) -> (s: &'static str)
    requires
        d < 10,
    ensures
        s@ =~= seq![digit_char(d as int)],
{
    proof {
        reveal_strlit("0");
        reveal_strlit("1");
        reveal_strlit("2");
        reveal_strlit("3");
        reveal_strlit("4");
        reveal_strlit("5");
        reveal_strlit("6");
        reveal_strlit("7");
        reveal_strlit("8");
        reveal_strlit("9");
    }
    if d == 0 {
        "0"
    } else if d == 1 {
        "1"
    } else if d == 2 {
        "2"
    } else if d == 3 {
        "3"
    } else if d == 4 {
        "4"
    } else if d == 5 {
        "5"
    } else if d == 6 {
        "6"
    } else if d == 7 {
        "7"
    } else if d == 8 {
        "8"
    } else {
        "9"
    }
}

/// Appends the decimal rendering of `n` to `out`.
pub fn push_digits(n: u64, out: &mut String)
    ensures
        final(out)@ == old(out)@ + spec_digits(n as nat),
    decreases n,
{
    if n < 10 {
        out.append(digit_str(n));
    } else {
        push_digits(n / 10, out);
        out.append(digit_str(n % 10));
        proof {
            assert(out@ =~= old(out)@ + spec_digits(n as nat));
        }
    }
}

/// The lowest `w` decimal digits of `n`, zero-padded to exactly `w`
/// characters.
pub open spec fn spec_padded(n: nat, w: nat) -> Seq<char>
    decreases w,
{
    if w == 0 {
        Seq::empty()
    } else {
        spec_padded(n / 10, (w - 1) as nat).push(digit_char((n % 10) as int))
    }
}

/// Appends the zero-padded `w`-digit rendering of `n` to `out`.
pub fn push_padded(n: u64, w: u64, out: &mut String)
    ensures
        final(out)@ == old(out)@ + spec_padded(n as nat, w as nat),
    decreases w,
{
    if w == 0 {
        proof {
            assert(out@ =~= old(out)@ + spec_padded(n as nat, 0));
        }
    } else {
        push_padded(n / 10, w - 1, out);
        out.append(digit_str(n % 10));
        proof {
            assert(out@ =~= old(out)@ + spec_padded(n as nat, w as nat));
        }
    }
}

pub open spec fn pow10(k: nat) -> int
    decreases k,
{
    if k == 0 {
        1
    } else {
        10 * pow10((k - 1) as nat)
    }
}

/// Position of the first `.`, or -1.
pub open spec fn dot_index(s: Seq<char>) -> int
    decreases s.len(),
{
    if s.len() == 0 {
        -1
    } else if s[0] == '.' {
        0
    } else {
        let r = dot_index(s.skip(1));
        if r == -1 {
            -1
        } else {
            r + 1
        }
    }
}

pub proof fn lemma_dot_index(s: Seq<char>)
    ensures
        dot_index(s) == -1 ==> forall|i: int| 0 <= i < s.len() ==> s[i] != '.',
        dot_index(s) != -1 ==> 0 <= dot_index(s) < s.len() && s[dot_index(s)] == '.' && forall|
            i: int,
        | 0 <= i < dot_index(s) ==> s[i] != '.',
    decreases s.len(),
{
    if s.len() > 0 && s[0] != '.' {
        lemma_dot_index(s.skip(1));
        let r = dot_index(s.skip(1));
        if r == -1 {
            assert forall|i: int| 0 <= i < s.len() implies s[i] != '.' by {
                if i > 0 {
                    assert(s.skip(1)[i - 1] == s[i]);
                }
            }
        } else {
            assert(s.skip(1)[r] == s[r + 1]);
            assert forall|i: int| 0 <= i < r + 1 implies s[i] != '.' by {
                if i > 0 {
                    assert(s.skip(1)[i - 1] == s[i]);
                }
            }
        }
    }
}

/// The value of a digit character, when it is one.
fn digit_of(c: char) -> (r: Option<u64>)
    ensures
        match r {
            Some(d) => is_digit(c) && d == digit_val(c) && d < 10,
            None => !is_digit(c),
        },
{
    if c == '0' {
        Some(0)
    } else if c == '1' {
        Some(1)
    } else if c == '2' {
        Some(2)
    } else if c == '3' {
        Some(3)
    } else if c == '4' {
        Some(4)
    } else if c == '5' {
        Some(5)
    } else if c == '6' {
        Some(6)
    } else if c == '7' {
        Some(7)
    } else if c == '8' {
        Some(8)
    } else if c == '9' {
        Some(9)
    } else {
        None
    }
}

/// A digit string as an unsigned number, exactly when every character is
/// a digit and the value fits.
pub open spec fn spec_parse_u64(s: Seq<char>) -> Option<u64> {
    if s.len() > 0 && all_digits(s) && dec_val(s) <= u64::MAX {
        Some(dec_val(s) as u64)
    } else {
        None
    }
}

/// Parses a plain decimal digit string.
pub fn parse_u64(s: &str) -> (r: Option<u64>)
    ensures
        r == spec_parse_u64(s@),
{
    let n = s.unicode_len();
    if n == 0 {
        return None;
    }
    let mut acc: u64 = 0;
    let mut k: usize = 0;
    proof {
        assert(s@.take(0) =~= Seq::<char>::empty());
    }
    while k < n
        invariant
            k <= n,
            n == s@.len(),
            acc == dec_val(s@.take(k as int)),
            all_digits(s@.take(k as int)),
        decreases n - k,
    {
        let ghost pre = s@.take(k as int);
        proof {
            assert(s@.take(k as int + 1).drop_last() =~= pre);
            assert(s@.take(k as int + 1).last() == s@[k as int]);
        }
        match digit_of(s.get_char(k)) {
            None => {
                assert(!is_digit(s@[k as int]));
                assert(s@.take(k as int + 1)[k as int] == s@[k as int]);
                return None;
            },
            Some(d) => {
                let step = match acc.checked_mul(10) {
                    Some(t) => t.checked_add(d),
                    None => None,
                };
                match step {
                    Some(v) => {
                        acc = v;
                    },
                    None => {
                        proof {
                            assert(dec_val(s@.take(k as int + 1)) > u64::MAX);
                            lemma_dec_val_prefix(s@, k as int + 1);
                            assert(s@.take(s@.len() as int) =~= s@);
                        }
                        return None;
                    },
                }
            },
        }
        k += 1;
    }
    proof {
        assert(s@.take(n as int) =~= s@);
    }
    Some(acc)
}

/// Greatest whole-unit magnitude accepted by the fixed-point parser.
pub const MAX_WHOLE_UNITS: i64 = 9_000_000_000_000;

/// The micro-units of a fraction digit string, truncated past six
/// digits.
pub open spec fn spec_frac_micros(f: Seq<char>) -> int {
    if f.len() <= 6 {
        dec_val(f) * pow10((6 - f.len()) as nat)
    } else {
        dec_val(f.take(6))
    }
}

/// A decimal string (optional sign, optional fraction) in fixed-point
/// micro-units: `None` on an empty body, a stray character, or a whole
/// part beyond `MAX_WHOLE_UNITS`.
pub open spec fn spec_parse_micros(s: Seq<char>) -> Option<i64> {
    let neg = s.len() > 0 && s[0] == '-';
    let b = if neg {
        s.skip(1)
    } else {
        s
    };
    let di = dot_index(b);
    let ip = if di == -1 {
        b
    } else {
        b.take(di)
    };
    let fp = if di == -1 {
        Seq::<char>::empty()
    } else {
        b.skip(di + 1)
    };
    if ip.len() + fp.len() > 0 && all_digits(ip) && all_digits(fp) && dec_val(ip)
        <= MAX_WHOLE_UNITS {
        let mag = dec_val(ip) * 1000000 + spec_frac_micros(fp);
        if neg {
            Some((-mag) as i64)
        } else {
            Some(mag as i64)
        }
    } else {
        None
    }
}

/// Any digit string's value stays below one followed by `len` zeros.
pub proof fn lemma_dec_val_bound(s: Seq<char>)
    ensures
        0 <= dec_val(s) < pow10(s.len() as nat),
    decreases s.len(),
{
    if s.len() > 0 {
        lemma_dec_val_bound(s.drop_last());
    }
}

proof fn lemma_pow10_vals()
    ensures
        pow10(0) == 1,
        pow10(1) == 10,
        pow10(2) == 100,
        pow10(3) == 1000,
        pow10(4) == 10000,
        pow10(5) == 100000,
        pow10(6) == 1000000,
{
    reveal_with_fuel(pow10, 8);
}

/// Parses a decimal string (optional sign and fraction) into fixed-point
/// micro-units.
pub fn parse_micros(s: &str) -> (r: Option<i64>)
    ensures
        r == spec_parse_micros(s@),
{
    let n = s.unicode_len();
    let neg = n > 0 && s.get_char(0) == '-';
    let start: usize = if neg {
        1
    } else {
        0
    };
    let ghost b: Seq<char> = if neg {
        s@.skip(1)
    } else {
        s@
    };
    proof {
        assert(b.len() == n - start);
        assert forall|i: int| 0 <= i < b.len() implies b[i] == s@[i + start as int] by {}
        lemma_pow10_vals();
    }
    let mut j: usize = start;
    while j < n && s.get_char(j) != '.'
        invariant
            start <= j <= n,
            n == s@.len(),
            forall|k: int| start <= k < j ==> s@[k] != '.',
        decreases n - j,
    {
        j += 1;
    }
    let dotpos = j;
    let ghost di = dot_index(b);
    proof {
        lemma_dot_index(b);
        if dotpos == n {
            if di != -1 {
                assert(b[di] == '.');
                assert(s@[di + start as int] == '.');
            }
            assert(di == -1);
        } else {
            assert(s@[dotpos as int] == '.');
            assert(b[dotpos - start as int] == '.');
            assert(di != -1);
            if di < dotpos - start as int {
                assert(b[di] == '.');
                assert(s@[di + start as int] == '.');
            }
            if di > dotpos - start as int {
                assert(b[dotpos - start as int] != '.');
            }
            assert(di == dotpos - start as int);
        }
    }
    let ghost ip: Seq<char> = if di == -1 {
        b
    } else {
        b.take(di)
    };
    let ghost fp: Seq<char> = if di == -1 {
        Seq::<char>::empty()
    } else {
        b.skip(di + 1)
    };
    proof {
        assert(ip.len() == dotpos - start);
        assert forall|i: int| 0 <= i < ip.len() implies ip[i] == s@[i + start as int] by {}
        if di != -1 {
            assert(fp.len() == n - dotpos - 1);
            assert forall|i: int| 0 <= i < fp.len() implies fp[i] == s@[i + dotpos as int
                + 1] by {}
        }
    }
    let iplen = dotpos - start;
    let fplen: usize = if dotpos < n {
        n - dotpos - 1
    } else {
        0
    };
    if iplen + fplen == 0 {
        return None;
    }
    let mut acc: i64 = 0;
    let mut k: usize = start;
    proof {
        assert(ip.take(0) =~= Seq::<char>::empty());
    }
    while k < dotpos
        invariant
            start <= k <= dotpos,
            dotpos <= n,
            n == s@.len(),
            neg == (s@.len() > 0 && s@[0] == '-'),
            start == if neg {
                1int
            } else {
                0int
            },
            b == if neg {
                s@.skip(1)
            } else {
                s@
            },
            di == dot_index(b),
            ip == if di == -1 {
                b
            } else {
                b.take(di)
            },
            fp == if di == -1 {
                Seq::<char>::empty()
            } else {
                b.skip(di + 1)
            },
            ip.len() == dotpos - start,
            forall|i: int| 0 <= i < ip.len() ==> ip[i] == s@[i + start as int],
            acc == dec_val(ip.take(k - start as int)),
            all_digits(ip.take(k - start as int)),
            0 <= acc <= MAX_WHOLE_UNITS,
        decreases dotpos - k,
    {
        let ghost pre = ip.take(k - start as int);
        proof {
            assert(ip.take(k - start as int + 1).drop_last() =~= pre);
            assert(ip.take(k - start as int + 1).last() == ip[k - start as int]);
            assert(ip[k - start as int] == s@[k as int]);
        }
        match digit_of(s.get_char(k)) {
            None => {
                proof {
                    assert(!is_digit(ip[k - start as int]));
                }
                return None;
            },
            Some(d) => {
                let acc2: i64 = acc * 10 + d as i64;
                if acc2 > MAX_WHOLE_UNITS {
                    proof {
                        assert(dec_val(ip.take(k - start as int + 1)) > MAX_WHOLE_UNITS);
                        lemma_dec_val_prefix(ip, k - start as int + 1);
                    }
                    return None;
                }
                acc = acc2;
            },
        }
        k += 1;
    }
    proof {
        assert(ip.take(dotpos - start as int) =~= ip);
    }
    let mut fmic: i64 = 0;
    let mut cnt: u64 = 0;
    if dotpos < n {
        let mut k2: usize = dotpos + 1;
        proof {
            assert(fp.take(0) =~= Seq::<char>::empty());
            lemma_dec_val_bound(fp.take(0));
        }
        while k2 < n
            invariant
                dotpos + 1 <= k2 <= n,
                n == s@.len(),
                neg == (s@.len() > 0 && s@[0] == '-'),
                start == if neg {
                    1int
                } else {
                    0int
                },
                b == if neg {
                    s@.skip(1)
                } else {
                    s@
                },
                di == dot_index(b),
                ip == if di == -1 {
                    b
                } else {
                    b.take(di)
                },
                fp == if di == -1 {
                    Seq::<char>::empty()
                } else {
                    b.skip(di + 1)
                },
                di == dotpos - start,
                0 <= di,
                fp.len() == n - dotpos - 1,
                forall|i: int| 0 <= i < fp.len() ==> fp[i] == s@[i + dotpos as int + 1],
                cnt == if k2 - dotpos - 1 <= 6 {
                    (k2 - dotpos - 1) as int
                } else {
                    6int
                },
                all_digits(fp.take(k2 - dotpos as int - 1)),
                fmic == dec_val(fp.take(cnt as int)),
                0 <= fmic < pow10(cnt as nat),
                cnt <= 6,
            decreases n - k2,
        {
            let ghost fpre = fp.take(k2 - dotpos as int - 1);
            proof {
                assert(fp.take(k2 - dotpos as int).drop_last() =~= fpre);
                assert(fp.take(k2 - dotpos as int).last() == fp[k2 - dotpos as int - 1]);
                assert(fp[k2 - dotpos as int - 1] == s@[k2 as int]);
                lemma_pow10_vals();
            }
            match digit_of(s.get_char(k2)) {
                None => {
                    proof {
                        assert(!is_digit(fp[k2 - dotpos as int - 1]));
                    }
                    return None;
                },
                Some(d) => {
                    if cnt < 6 {
                        proof {
                            assert(fp.take(cnt as int + 1).drop_last() =~= fp.take(cnt as int));
                            assert(fp.take(cnt as int + 1).last() == fp[cnt as int]);
                        }
                        fmic = fmic * 10 + d as i64;
                        cnt += 1;
                    }
                },
            }
            k2 += 1;
        }
        proof {
            assert(fp.take(fp.len() as int) =~= fp);
        }
        if fplen < 6 {
            proof {
                lemma_pow10_vals();
                assert(cnt == fplen);
                assert(fmic == dec_val(fp));
                lemma_dec_val_bound(fp);
            }
            if fplen == 0 {
                fmic = fmic * 1000000;
            } else if fplen == 1 {
                fmic = fmic * 100000;
            } else if fplen == 2 {
                fmic = fmic * 10000;
            } else if fplen == 3 {
                fmic = fmic * 1000;
            } else if fplen == 4 {
                fmic = fmic * 100;
            } else {
                fmic = fmic * 10;
            }
        }
        proof {
            lemma_pow10_vals();
            assert(fmic == spec_frac_micros(fp));
            assert(0 <= fmic <= 999999);
        }
    } else {
        proof {
            lemma_pow10_vals();
            assert(fp =~= Seq::<char>::empty());
            assert(fmic == spec_frac_micros(fp));
        }
    }
    let mag: i64 = acc * 1000000 + fmic;
    if neg {
        Some(-mag)
    } else {
        Some(mag)
    }
}

/// Strips trailing zero digits from a fixed-width fraction, keeping at
/// least one digit.
pub open spec fn strip_zeros(f: nat, w: nat) -> (nat, nat)
    decreases w,
{
    if w <= 1 || f % 10 != 0 {
        (f, w)
    } else {
        strip_zeros(f / 10, (w - 1) as nat)
    }
}

/// The decimal rendering of a fixed-point micro-unit value: a sign, the
/// whole part, and the fraction with trailing zeros removed (absent when
/// zero).
pub open spec fn spec_num_string(micros: int) -> Seq<char> {
    let mag = if micros < 0 {
        -micros
    } else {
        micros
    };
    let sign: Seq<char> = if micros < 0 {
        seq!['-']
    } else {
        Seq::empty()
    };
    let ip = (mag / 1000000) as nat;
    let f = (mag % 1000000) as nat;
    if f == 0 {
        sign + spec_digits(ip)
    } else {
        let fw = strip_zeros(f, 6);
        sign + spec_digits(ip) + seq!['.'] + spec_padded(fw.0, fw.1)
    }
}

/// Renders a fixed-point micro-unit value as decimal text.
pub fn render_micros(m: i64) -> (s: String)
    ensures
        s@ == spec_num_string(m as int),
{
    let mut out = String::new();
    let mag: u64 = if m < 0 {
        proof {
            reveal_strlit("-");
        }
        out.append("-");
        (-(m + 1)) as u64 + 1
    } else {
        m as u64
    };
    proof {
        assert(mag == if m < 0 {
            -(m as int)
        } else {
            m as int
        });
    }
    let ip = mag / 1000000;
    let f = mag % 1000000;
    push_digits(ip, &mut out);
    if f != 0 {
        proof {
            reveal_strlit(".");
        }
        out.append(".");
        let mut ff: u64 = f;
        let mut w: u64 = 6;
        while w > 1 && ff % 10 == 0
            invariant
                1 <= w <= 6,
                ff < 1000000,
                strip_zeros(f as nat, 6) == strip_zeros(ff as nat, w as nat),
            decreases w,
        {
            ff = ff / 10;
            w -= 1;
        }
        push_padded(ff, w, &mut out);
        proof {
            assert(strip_zeros(ff as nat, w as nat) == (ff as nat, w as nat));
            assert(out@ =~= spec_num_string(m as int));
        }
    } else {
        proof {
            assert(out@ =~= spec_num_string(m as int));
        }
    }
    out
}

/// The decimal rendering of `n` as a fresh string.
pub fn u64_string(n: u64) -> (s: String)
    ensures
        s@ == spec_digits(n as nat),
{
    let mut out = String::new();
    push_digits(n, &mut out);
    proof {
        assert(out@ =~= spec_digits(n as nat));
    }
    out
}

} // verus!
