use vstd::prelude::*;
use vstd::string::StrSliceExecFns;

verus! {

/// The character for one decimal digit value.
pub open spec fn digit_char(d: int) -> char {
    if d == 0 {
        '0'
    } else if d == 1 {
        '1'
    } else if d == 2 {
        '2'
    } else if d == 3 {
        '3'
    } else if d == 4 {
        '4'
    } else if d == 5 {
        '5'
    } else if d == 6 {
        '6'
    } else if d == 7 {
        '7'
    } else if d == 8 {
        '8'
    } else {
        '9'
    }
}

/// Decimal text of a natural number, most significant digit first.
pub open spec fn dec_of(n: nat) -> Seq<char>
    decreases n,
{
    if n < 10 {
        seq![digit_char(n as int)]
    } else {
        dec_of(n / 10) + seq![digit_char((n % 10) as int)]
    }
}

fn digit_char_exec(d: u64) -> (c: char)
    requires
        d < 10,
    ensures
        c == digit_char(d as int),
{
    if d == 0 {
        '0'
    } else if d == 1 {
        '1'
    } else if d == 2 {
        '2'
    } else if d == 3 {
        '3'
    } else if d == 4 {
        '4'
    } else if d == 5 {
        '5'
    } else if d == 6 {
        '6'
    } else if d == 7 {
        '7'
    } else if d == 8 {
        '8'
    } else {
        '9'
    }
}

/// Appends the decimal text of `n` to `out`.
pub fn push_dec(out: &mut Vec<char>, n: u64)
    ensures
        final(out)@ == old(out)@ + dec_of(n as nat),
    decreases n,
{
    if n < 10 {
        out.push(digit_char_exec(n));
        assert(out@ =~= old(out)@ + dec_of(n as nat));
    } else {
        assert(n / 10 < n) by (nonlinear_arith)
            requires
                n >= 10,
        ;
        push_dec(out, n / 10);
        out.push(digit_char_exec(n % 10));
        assert(out@ =~= old(out)@ + dec_of(n as nat));
    }
}

/// A decimal digit.
pub open spec fn is_digit(c: char) -> bool {
    '0' <= c && c <= '9'
}

/// Numeric value of one decimal digit character.
pub open spec fn digit_val(c: char) -> int {
    c as int - '0' as int
}

/// A non-empty run of decimal digits.
pub open spec fn is_digits(s: Seq<char>) -> bool {
    s.len() > 0 && forall|i: int| 0 <= i < s.len() ==> is_digit(#[trigger] s[i])
}

/// Value of a digit string, most significant digit first.
pub open spec fn dec_val(s: Seq<char>) -> int
    decreases s.len(),
{
    if s.len() == 0 {
        0
    } else {
        dec_val(s.drop_last()) * 10 + digit_val(s.last())
    }
}

pub open spec fn pow10(k: nat) -> int
    decreases k,
{
    if k == 0 {
        1
    } else {
        10 * pow10((k - 1) as nat)
    }
}

proof fn lemma_pow10_pos(k: nat)
    ensures
        pow10(k) >= 1,
    decreases k,
{
    if k > 0 {
        lemma_pow10_pos((k - 1) as nat);
    }
}

proof fn lemma_pow10_mono(a: nat, b: nat)
    requires
        a <= b,
    ensures
        pow10(a) <= pow10(b),
    decreases b,
{
    lemma_pow10_pos(a);
    if a < b {
        lemma_pow10_mono(a, (b - 1) as nat);
    }
}

proof fn lemma_dec_val_bound(s: Seq<char>)
    requires
        forall|i: int| 0 <= i < s.len() ==> is_digit(#[trigger] s[i]),
    ensures
        0 <= dec_val(s) < pow10(s.len()),
    decreases s.len(),
{
    if s.len() > 0 {
        lemma_dec_val_bound(s.drop_last());
    }
}

/// `s` decomposes as an optional minus sign, an integer digit run,
/// and, when `fp` is non-empty, a dot followed by the fraction digits.
pub open spec fn parses_as(s: Seq<char>, neg: bool, ip: Seq<char>, fp: Seq<char>) -> bool {
    &&& s == (if neg {
        seq!['-']
    } else {
        Seq::<char>::empty()
    }) + ip + (if fp.len() > 0 {
        seq!['.'] + fp
    } else {
        Seq::<char>::empty()
    })
    &&& is_digits(ip)
    &&& (fp.len() > 0 ==> is_digits(fp))
}

/// Plain decimal number text, as the inference backend prints one:
/// no exponent, and an integer part of at most thirteen digits so
/// that its fixed-point value fits the machine word.
pub open spec fn plain_decimal(s: Seq<char>) -> bool {
    exists|neg: bool, ip: Seq<char>, fp: Seq<char>|
        parses_as(s, neg, ip, fp) && ip.len() <= 13
}

/// Contribution of the fraction digits, truncated to thousandths.
pub open spec fn frac_milli(fp: Seq<char>) -> int {
    100 * fdig(fp, 0) + 10 * fdig(fp, 1) + fdig(fp, 2)
}

pub open spec fn fdig(fp: Seq<char>, i: int) -> int {
    if i < fp.len() {
        digit_val(fp[i])
    } else {
        0
    }
}

/// Value of a plain decimal text in thousandths, truncated towards zero.
pub open spec fn milli_val(s: Seq<char>) -> int {
    let (neg, ip, fp) = choose|neg: bool, ip: Seq<char>, fp: Seq<char>| parses_as(s, neg, ip, fp);
    (if neg {
        -1
    } else {
        1
    }) * (dec_val(ip) * 1000 + frac_milli(fp))
}

/// A decimal text decomposes in exactly one way.
proof fn lemma_parts_unique(
    s: Seq<char>,
    neg1: bool,
    ip1: Seq<char>,
    fp1: Seq<char>,
    neg2: bool,
    ip2: Seq<char>,
    fp2: Seq<char>,
)
    requires
        parses_as(s, neg1, ip1, fp1),
        parses_as(s, neg2, ip2, fp2),
    ensures
        neg1 == neg2,
        ip1 == ip2,
        fp1 == fp2,
{
    assert(neg1 ==> s[0] == '-');
    assert(!neg1 ==> is_digit(s[0]));
    assert(neg2 ==> s[0] == '-');
    assert(!neg2 ==> is_digit(s[0]));
    assert(neg1 == neg2);
    let k: int = if neg1 {
        1
    } else {
        0
    };
    let u = s.skip(k);
    assert(u =~= ip1 + (if fp1.len() > 0 {
        seq!['.'] + fp1
    } else {
        Seq::<char>::empty()
    }));
    assert(u =~= ip2 + (if fp2.len() > 0 {
        seq!['.'] + fp2
    } else {
        Seq::<char>::empty()
    }));
    if ip1.len() < ip2.len() {
        assert(is_digit(ip2[ip1.len() as int]));
        assert(u[ip1.len() as int] == ip2[ip1.len() as int]);
        if fp1.len() > 0 {
            assert(u[ip1.len() as int] == '.');
        } else {
            assert(u.len() == ip1.len());
        }
        assert(false);
    }
    if ip2.len() < ip1.len() {
        assert(is_digit(ip1[ip2.len() as int]));
        assert(u[ip2.len() as int] == ip1[ip2.len() as int]);
        if fp2.len() > 0 {
            assert(u[ip2.len() as int] == '.');
        } else {
            assert(u.len() == ip2.len());
        }
        assert(false);
    }
    assert forall|i: int| 0 <= i < ip1.len() implies ip1[i] == ip2[i] by {
        assert(u[i] == ip1[i]);
        assert(u[i] == ip2[i]);
    }
    assert(ip1 =~= ip2);
    if fp1.len() > 0 && fp2.len() == 0 {
        assert(u.len() == ip2.len());
        assert(false);
    }
    if fp2.len() > 0 && fp1.len() == 0 {
        assert(u.len() == ip1.len());
        assert(false);
    }
    if fp1.len() > 0 && fp2.len() > 0 {
        assert(fp1 =~= u.skip(ip1.len() + 1 as int));
        assert(fp2 =~= u.skip(ip1.len() + 1 as int));
    }
}

/// Any decomposition of `s` agrees with a left-to-right scan that saw
/// digits up to `i` and stopped there.
proof fn lemma_scan_parts(s: Seq<char>, neg: bool, ip: Seq<char>, fp: Seq<char>, i: int)
    requires
        parses_as(s, neg, ip, fp),
        ({
            let start: int = if s[0] == '-' {
                1
            } else {
                0
            };
            &&& start <= i <= s.len()
            &&& (forall|k: int| start <= k < i ==> is_digit(#[trigger] s[k]))
            &&& (i < s.len() ==> !is_digit(s[i]))
        }),
    ensures
        neg == (s[0] == '-'),
        ip == s.subrange(
            if s[0] == '-' {
                1int
            } else {
                0int
            },
            i,
        ),
        i < s.len() ==> s[i] == '.' && fp == s.skip(i + 1) && fp.len() > 0,
        i == s.len() ==> fp.len() == 0,
{
    assert(!is_digit('-'));
    assert(!is_digit('.'));
    if neg {
        assert(s[0] == '-');
    } else {
        assert(s[0] == ip[0]);
        assert(is_digit(s[0]));
    }
    let start: int = if s[0] == '-' {
        1
    } else {
        0
    };
    let u = s.skip(start);
    assert(u =~= ip + (if fp.len() > 0 {
        seq!['.'] + fp
    } else {
        Seq::<char>::empty()
    }));
    let run: int = i - start;
    if ip.len() < run {
        assert(is_digit(s[start + ip.len()]));
        if fp.len() > 0 {
            assert(u[ip.len() as int] == '.');
            assert(u[ip.len() as int] == s[start + ip.len()]);
        } else {
            assert(u.len() == ip.len());
            assert(s.len() == start + ip.len());
        }
        assert(false);
    }
    if ip.len() > run {
        if i < s.len() {
            assert(u[run] == ip[run]);
            assert(is_digit(ip[run]));
            assert(u[run] == s[i]);
            assert(false);
        } else {
            assert(u.len() == s.len() - start);
            assert(ip.len() <= u.len());
            assert(false);
        }
    }
    assert(ip.len() == run);
    assert forall|k: int| 0 <= k < run implies ip[k] == s[start + k] by {
        assert(u[k] == ip[k]);
    }
    assert(ip =~= s.subrange(start, i));
    if i < s.len() {
        if fp.len() == 0 {
            assert(u.len() == ip.len());
            assert(s.len() == start + run);
            assert(false);
        }
        assert(u[run] == '.');
        assert(s[i] == '.');
        assert(fp =~= u.skip(run + 1));
        assert(fp =~= s.skip(i + 1));
    } else {
        if fp.len() > 0 {
            assert(u.len() == ip.len() + 1 + fp.len());
            assert(false);
        }
    }
}

/// The value of a decimal text follows from any decomposition of it.
proof fn lemma_milli_val(s: Seq<char>, neg: bool, ip: Seq<char>, fp: Seq<char>)
    requires
        parses_as(s, neg, ip, fp),
    ensures
        milli_val(s) == (if neg {
            -1
        } else {
            1
        }) * (dec_val(ip) * 1000 + frac_milli(fp)),
        ip.len() <= 13 ==> plain_decimal(s),
{
    assert(exists|n2: bool, i2: Seq<char>, f2: Seq<char>| parses_as(s, n2, i2, f2));
    let (n2, i2, f2) = choose|n2: bool, i2: Seq<char>, f2: Seq<char>| parses_as(s, n2, i2, f2);
    lemma_parts_unique(s, n2, i2, f2, neg, ip, fp);
}

fn is_digit_exec(c: char) -> (r: bool)
    ensures
        r == is_digit(c),
{
    '0' <= c && c <= '9'
}

fn digit_val_exec(c: char) -> (r: u64)
    requires
        is_digit(c),
    ensures
        r as int == digit_val(c),
        r < 10,
{
    (c as u32 - '0' as u32) as u64
}

proof fn lemma_pow10_13()
    ensures
        pow10(13) == 10000000000000,
{
    assert(pow10(0) == 1);
    assert(pow10(1) == 10);
    assert(pow10(2) == 100);
    assert(pow10(3) == 1000);
    assert(pow10(4) == 10000);
    assert(pow10(5) == 100000);
    assert(pow10(6) == 1000000);
    assert(pow10(7) == 10000000);
    assert(pow10(8) == 100000000);
    assert(pow10(9) == 1000000000);
    assert(pow10(10) == 10000000000);
    assert(pow10(11) == 100000000000);
    assert(pow10(12) == 1000000000000);
    assert(pow10(13) == 10000000000000);
}

/// Parses plain decimal text into thousandths, truncated towards zero.
/// Rejects anything else: empty text, exponents, a lone sign, a
/// trailing dot, or an integer part of more than thirteen digits.
pub fn parse_milli(v: &Vec<char>) -> (r: Option<i64>)
    ensures
        match r {
            Some(m) => plain_decimal(v@) && m as int == milli_val(v@),
            None => !plain_decimal(v@),
        },
{
    let n = v.len();
    if n == 0 {
        return None;
    }
    let neg = v[0] == '-';
    let start: usize = if neg {
        1
    } else {
        0
    };
    let mut i = start;
    let mut acc: u64 = 0;
    proof {
        lemma_pow10_13();
    }
    while i < n && is_digit_exec(v[i])
        invariant
            start <= i <= n,
            n == v@.len(),
            n > 0,
            neg == (v@[0] == '-'),
            start == (if v@[0] == '-' {
                1int
            } else {
                0int
            }),
            i - start <= 13,
            forall|k: int| start <= k < i ==> is_digit(#[trigger] v@[k]),
            acc as int == dec_val(v@.subrange(start as int, i as int)),
            acc < 10000000000000,
            pow10(13) == 10000000000000,
        decreases n - i,
    {
        if i - start >= 13 {
            proof {
                if plain_decimal(v@) {
                    let (neg2, ip, fp) = choose|neg2: bool, ip: Seq<char>, fp: Seq<char>|
                        parses_as(v@, neg2, ip, fp) && ip.len() <= 13;
                    let u = v@.skip(start as int);
                    assert(u =~= ip + (if fp.len() > 0 {
                        seq!['.'] + fp
                    } else {
                        Seq::<char>::empty()
                    }));
                    if ip.len() < 14 {
                        if fp.len() > 0 {
                            assert(u[ip.len() as int] == '.');
                            assert(is_digit(v@[start + ip.len()]));
                        } else {
                            assert(v@.len() == start + ip.len());
                            assert(is_digit(v@[start + ip.len() - 1]));
                        }
                    }
                    assert(false);
                }
            }
            return None;
        }
        let ghost prefix = v@.subrange(start as int, i as int);
        acc = acc * 10 + digit_val_exec(v[i]);
        i = i + 1;
        proof {
            let cur = v@.subrange(start as int, i as int);
            assert(cur.drop_last() =~= prefix);
            assert(cur.last() == v@[i - 1]);
            lemma_dec_val_bound(cur);
            lemma_pow10_mono(cur.len(), 13);
        }
    }
    let ghost run = v@.subrange(start as int, i as int);
    if i == start {
        proof {
            if plain_decimal(v@) {
                let (neg2, ip, fp) = choose|neg2: bool, ip: Seq<char>, fp: Seq<char>|
                    parses_as(v@, neg2, ip, fp) && ip.len() <= 13;
                lemma_scan_parts(v@, neg2, ip, fp, i as int);
                assert(ip.len() == 0);
            }
        }
        return None;
    }
    if i == n {
        let milli: u64 = acc * 1000;
        let r: i64 = if neg {
            -(milli as i64)
        } else {
            milli as i64
        };
        proof {
            assert(v@ =~= (if neg {
                seq!['-']
            } else {
                Seq::<char>::empty()
            }) + run + Seq::<char>::empty());
            assert(parses_as(v@, neg, run, Seq::<char>::empty()));
            lemma_milli_val(v@, neg, run, Seq::<char>::empty());
        }
        return Some(r);
    }
    if v[i] != '.' {
        proof {
            if plain_decimal(v@) {
                let (neg2, ip, fp) = choose|neg2: bool, ip: Seq<char>, fp: Seq<char>|
                    parses_as(v@, neg2, ip, fp) && ip.len() <= 13;
                lemma_scan_parts(v@, neg2, ip, fp, i as int);
            }
        }
        return None;
    }
    if i + 1 >= n {
        proof {
            if plain_decimal(v@) {
                let (neg2, ip, fp) = choose|neg2: bool, ip: Seq<char>, fp: Seq<char>|
                    parses_as(v@, neg2, ip, fp) && ip.len() <= 13;
                lemma_scan_parts(v@, neg2, ip, fp, i as int);
                assert(fp =~= v@.skip(i as int + 1));
                assert(fp.len() == 0);
            }
        }
        return None;
    }
    let mut j = i + 1;
    while j < n
        invariant
            i + 1 <= j <= n,
            n == v@.len(),
            n > 0,
            neg == (v@[0] == '-'),
            start == (if v@[0] == '-' {
                1int
            } else {
                0int
            }),
            start <= i < n,
            i - start <= 13,
            v@[i as int] == '.',
            forall|k: int| start <= k < i ==> is_digit(#[trigger] v@[k]),
            forall|k: int| i + 1 <= k < j ==> is_digit(#[trigger] v@[k]),
            acc as int == dec_val(v@.subrange(start as int, i as int)),
            acc < 10000000000000,
        decreases n - j,
    {
        if !is_digit_exec(v[j]) {
            proof {
                if plain_decimal(v@) {
                    let (neg2, ip, fp) = choose|neg2: bool, ip: Seq<char>, fp: Seq<char>|
                        parses_as(v@, neg2, ip, fp) && ip.len() <= 13;
                    lemma_scan_parts(v@, neg2, ip, fp, i as int);
                    assert(fp == v@.skip(i as int + 1));
                    assert(fp[j - i - 1] == v@[j as int]);
                    assert(is_digit(fp[j - i - 1]));
                }
            }
            return None;
        }
        j = j + 1;
    }
    let ghost fp = v@.skip(i as int + 1);
    let f1 = digit_val_exec(v[i + 1]);
    let f2 = if i + 2 < n {
        digit_val_exec(v[i + 2])
    } else {
        0
    };
    let f3 = if i + 3 < n {
        digit_val_exec(v[i + 3])
    } else {
        0
    };
    let milli: u64 = acc * 1000 + f1 * 100 + f2 * 10 + f3;
    let r: i64 = if neg {
        -(milli as i64)
    } else {
        milli as i64
    };
    proof {
        assert(fp.len() > 0);
        assert(forall|k: int| 0 <= k < fp.len() ==> is_digit(#[trigger] fp[k]));
        assert(v@ =~= (if neg {
            seq!['-']
        } else {
            Seq::<char>::empty()
        }) + run + (seq!['.'] + fp));
        assert(parses_as(v@, neg, run, fp));
        assert(fdig(fp, 0) == digit_val(v@[i + 1]));
        assert(f1 as int == fdig(fp, 0));
        assert(f2 as int == fdig(fp, 1));
        assert(f3 as int == fdig(fp, 2));
        lemma_milli_val(v@, neg, run, fp);
    }
    Some(r)
}

/// The characters of a string, in order.
pub fn chars_of(s: &str) -> (r: Vec<char>)
    ensures
        r@ == s@,
{
    let n = s.unicode_len();
    let mut r: Vec<char> = Vec::new();
    let mut i: usize = 0;
    while i < n
        invariant
            i <= n,
            n == s@.len(),
            r@ == s@.take(i as int),
        decreases n - i,
    {
        r.push(s.get_char(i));
        i = i + 1;
        assert(r@ =~= s@.take(i as int));
    }
    assert(r@ =~= s@);
    r
}

/// Relies on String's FromIterator over char: collecting an iterator
/// of characters yields exactly those characters, in order.
#[verifier::external_body]
pub fn string_from_chars(v: &Vec<char>) -> (r: String)
    ensures
        r@ == v@,
{
    v.iter().collect()
}

/// Backend output with a trailing comma before a closing bracket
/// removed, wherever a comma directly precedes a newline and a `]`
/// or `}`; some backends emit such near-JSON and it is normalized
/// before parsing.
pub open spec fn cleaned(s: Seq<char>) -> Seq<char>
    decreases s.len(),
{
    if s.len() == 0 {
        s
    } else if s.len() >= 3 && s[0] == ',' && s[1] == '\n' && (s[2] == ']' || s[2] == '}') {
        cleaned(s.skip(1))
    } else {
        seq![s[0]] + cleaned(s.skip(1))
    }
}

proof fn lemma_skip_step(s: Seq<char>, i: int)
    requires
        0 <= i < s.len(),
    ensures
        s.skip(i).skip(1) == s.skip(i + 1),
        s.skip(i)[0] == s[i],
        s.skip(i).len() == s.len() - i,
{
    assert(s.skip(i).skip(1) =~= s.skip(i + 1));
}

fn clean_chars(v: &Vec<char>) -> (r: Vec<char>)
    ensures
        r@ == cleaned(v@),
{
    let n = v.len();
    let mut out: Vec<char> = Vec::new();
    let mut i: usize = 0;
    assert(v@.skip(0) =~= v@);
    while i < n
        invariant
            i <= n,
            n == v@.len(),
            cleaned(v@) == out@ + cleaned(v@.skip(i as int)),
        decreases n - i,
    {
        proof {
            lemma_skip_step(v@, i as int);
        }
        let ghost tail = v@.skip(i as int);
        if n - i >= 3 && v[i] == ',' && v[i + 1] == '\n' && (v[i + 2] == ']' || v[i + 2] == '}') {
            proof {
                assert(tail[1] == v@[i + 1]);
                assert(tail[2] == v@[i + 2]);
                assert(cleaned(tail) == cleaned(v@.skip(i as int + 1)));
            }
        } else {
            out.push(v[i]);
            proof {
                if tail.len() >= 3 {
                    assert(tail[1] == v@[i + 1]);
                    assert(tail[2] == v@[i + 2]);
                }
                assert(cleaned(tail) == seq![tail[0]] + cleaned(tail.skip(1)));
                assert(out@ + cleaned(v@.skip(i as int + 1)) =~= cleaned(v@));
            }
        }
        i = i + 1;
    }
    assert(v@.skip(n as int) =~= Seq::<char>::empty());
    assert(out@ =~= cleaned(v@));
    out
}

/// Normalizes raw backend output before parsing: removes trailing
/// commas that would otherwise make the response unreadable.
pub fn clean_raw_output(s: &str) -> (r: String)
    ensures
        r@ == cleaned(s@),
{
    let v = chars_of(s);
    let c = clean_chars(&v);
    string_from_chars(&c)
}

/// Text of exactly three fraction digits of a thousandths value.
pub open spec fn frac3(f: int) -> Seq<char> {
    seq![digit_char(f / 100), digit_char((f / 10) % 10), digit_char(f % 10)]
}

/// Decimal rendering of a fixed-point thousandths value, always with
/// three fraction digits.
pub open spec fn milli_text(v: int) -> Seq<char> {
    if v < 0 {
        seq!['-'] + dec_of(((-v) / 1000) as nat) + seq!['.'] + frac3((-v) % 1000)
    } else {
        dec_of((v / 1000) as nat) + seq!['.'] + frac3(v % 1000)
    }
}

/// Appends the decimal rendering of a thousandths value.
pub fn push_milli(out: &mut Vec<char>, v: i64)
    ensures
        final(out)@ == old(out)@ + milli_text(v as int),
{
    let m: u64 = if v >= 0 {
        v as u64
    } else {
        ((-(v + 1)) as u64) + 1
    };
    proof {
        assert(m as int == (if v >= 0 {
            v as int
        } else {
            -(v as int)
        }));
    }
    if v < 0 {
        out.push('-');
    }
    push_dec(out, m / 1000);
    out.push('.');
    let f = m % 1000;
    out.push(digit_char_exec(f / 100));
    out.push(digit_char_exec((f / 10) % 10));
    out.push(digit_char_exec(f % 10));
    assert(out@ =~= old(out)@ + milli_text(v as int));
}

/// The character for one hexadecimal digit value.
pub open spec fn hex_char(d: int) -> char {
    if d < 10 {
        digit_char(d)
    } else if d == 10 {
        'a'
    } else if d == 11 {
        'b'
    } else if d == 12 {
        'c'
    } else if d == 13 {
        'd'
    } else if d == 14 {
        'e'
    } else {
        'f'
    }
}

fn hex_char_exec(d: u32) -> (c: char)
    requires
        d < 16,
    ensures
        c == hex_char(d as int),
{
    if d < 10 {
        digit_char_exec(d as u64)
    } else if d == 10 {
        'a'
    } else if d == 11 {
        'b'
    } else if d == 12 {
        'c'
    } else if d == 13 {
        'd'
    } else if d == 14 {
        'e'
    } else {
        'f'
    }
}

/// JSON escaping of one character: quote and backslash get a
/// backslash, other control characters a `\u00..` form.
pub open spec fn esc_char(c: char) -> Seq<char> {
    if c == '"' {
        seq!['\\', '"']
    } else if c == '\\' {
        seq!['\\', '\\']
    } else if (c as int) < 32 {
        seq!['\\', 'u', '0', '0', hex_char((c as int) / 16), hex_char((c as int) % 16)]
    } else {
        seq![c]
    }
}

/// JSON escaping of a whole string body.
pub open spec fn escaped(s: Seq<char>) -> Seq<char>
    decreases s.len(),
{
    if s.len() == 0 {
        Seq::<char>::empty()
    } else {
        esc_char(s[0]) + escaped(s.skip(1))
    }
}

/// Appends the JSON-escaped body of `s`.
pub fn push_escaped(out: &mut Vec<char>, s: &str)
    ensures
        final(out)@ == old(out)@ + escaped(s@),
{
    let n = s.unicode_len();
    let mut i: usize = 0;
    assert(s@.skip(0) =~= s@);
    while i < n
        invariant
            i <= n,
            n == s@.len(),
            out@ + escaped(s@.skip(i as int)) == old(out)@ + escaped(s@),
        decreases n - i,
    {
        proof {
            lemma_skip_step(s@, i as int);
        }
        let ghost tail = s@.skip(i as int);
        let c = s.get_char(i);
        if c == '"' {
            out.push('\\');
            out.push('"');
        } else if c == '\\' {
            out.push('\\');
            out.push('\\');
        } else if (c as u32) < 32 {
            out.push('\\');
            out.push('u');
            out.push('0');
            out.push('0');
            out.push(hex_char_exec((c as u32) / 16));
            out.push(hex_char_exec((c as u32) % 16));
        } else {
            out.push(c);
        }
        i = i + 1;
        proof {
            assert(escaped(tail) == esc_char(c) + escaped(s@.skip(i as int)));
            assert(out@ + escaped(s@.skip(i as int)) =~= old(out)@ + escaped(s@));
        }
    }
    assert(s@.skip(n as int) =~= Seq::<char>::empty());
    assert(out@ =~= old(out)@ + escaped(s@));
}

} // verus!
