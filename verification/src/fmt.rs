use vstd::prelude::*;
use crate::data::{DateParts, TimeParts, TimestampParts};

verus! {

broadcast use vstd::std_specs::vec::group_vec_axioms, vstd::seq::group_seq_axioms;

/// ASCII bytes read as characters, one for one.
pub open spec fn chars_of(bs: Seq<u8>) -> Seq<char> {
    bs.map_values(|b: u8| b as char)
}

/// The decimal digits of `n`, most significant first, no sign, no padding.
pub open spec fn dec_nat(n: nat) -> Seq<u8>
    decreases n,
{
    if n < 10 {
        seq![(0x30 + n) as u8]
    } else {
        dec_nat(n / 10).push((0x30 + n % 10) as u8)
    }
}

/// The decimal digits of `n`, left-padded with zeros to at least `w` digits.
pub open spec fn dec_pad(n: nat, w: nat) -> Seq<u8> {
    let d = dec_nat(n);
    if d.len() >= w {
        d
    } else {
        Seq::new((w - d.len()) as nat, |i: int| 0x30u8) + d
    }
}

/// The lowercase hexadecimal digit of a value below 16.
pub open spec fn hex_digit(d: nat) -> u8 {
    if d < 10 {
        (0x30 + d) as u8
    } else {
        (0x57 + d) as u8
    }
}

/// Two lowercase hexadecimal digits of one byte.
pub open spec fn hex_pair(b: u8) -> Seq<u8> {
    seq![hex_digit((b / 16) as nat), hex_digit((b % 16) as nat)]
}

/// A calendar year as the canonical date format writes it: four zero-padded
/// digits, and an explicit sign with at least four digits outside 0..=9999.
pub open spec fn year_bytes(y: int) -> Seq<u8> {
    if 0 <= y <= 9999 {
        dec_pad(y as nat, 4)
    } else if y > 9999 {
        seq![0x2bu8] + dec_pad(y as nat, 4)
    } else {
        seq![0x2du8] + dec_pad((-y) as nat, 4)
    }
}

/// The canonical calendar-date text: year, month and day separated by `-`.
pub open spec fn date_bytes(d: DateParts) -> Seq<u8> {
    year_bytes(d.year as int) + seq![0x2du8] + dec_pad(d.month as nat, 2) + seq![0x2du8] + dec_pad(
        d.day as nat,
        2,
    )
}

/// The fractional-second suffix: empty for zero, three digits for whole
/// milliseconds, six digits otherwise.
pub open spec fn frac_bytes(micro: nat) -> Seq<u8> {
    if micro == 0 {
        Seq::empty()
    } else if micro % 1000 == 0 {
        seq![0x2eu8] + dec_pad(micro / 1000, 3)
    } else {
        seq![0x2eu8] + dec_pad(micro, 6)
    }
}

/// The canonical time-of-day text: `HH:MM:SS` and the fractional suffix.
pub open spec fn time_bytes(t: TimeParts) -> Seq<u8> {
    dec_pad(t.hour as nat, 2) + seq![0x3au8] + dec_pad(t.minute as nat, 2) + seq![0x3au8]
        + dec_pad(t.second as nat, 2) + frac_bytes(t.micro as nat)
}

/// A fixed offset as `+HH:MM` or `-HH:MM`.
pub open spec fn offset_bytes(minutes: int) -> Seq<u8> {
    let sign: u8 = if minutes < 0 {
        0x2d
    } else {
        0x2b
    };
    let m = if minutes < 0 {
        -minutes
    } else {
        minutes
    };
    seq![sign] + dec_pad((m / 60) as nat, 2) + seq![0x3au8] + dec_pad((m % 60) as nat, 2)
}

/// The canonical timestamp text: date, `T`, time, explicit offset.
pub open spec fn timestamp_bytes(ts: TimestampParts) -> Seq<u8> {
    date_bytes(ts.date) + seq![0x54u8] + time_bytes(ts.time) + offset_bytes(
        ts.offset_minutes as int,
    )
}

/// The canonical hyphenated lowercase text of a 16-byte unique identifier.
pub open spec fn uuid_bytes(bs: Seq<u8>) -> Seq<u8>
    recommends
        bs.len() == 16,
{
    hex_pair(bs[0]) + hex_pair(bs[1]) + hex_pair(bs[2]) + hex_pair(bs[3]) + seq![0x2du8]
        + hex_pair(bs[4]) + hex_pair(bs[5]) + seq![0x2du8] + hex_pair(bs[6]) + hex_pair(bs[7])
        + seq![0x2du8] + hex_pair(bs[8]) + hex_pair(bs[9]) + seq![0x2du8] + hex_pair(bs[10])
        + hex_pair(bs[11]) + hex_pair(bs[12]) + hex_pair(bs[13]) + hex_pair(bs[14]) + hex_pair(
        bs[15],
    )
}

/// A duration of `t` total microseconds written in the ISO-8601 style the
/// calendar crate writes it: sign, `P`, `0D` for zero, else `T`, whole
/// seconds, a fractional part with trailing zeros trimmed, and `S`.
pub open spec fn duration_bytes(t: int) -> Seq<u8> {
    let a = if t < 0 {
        -t
    } else {
        t
    };
    let sign: Seq<u8> = if t < 0 {
        seq![0x2du8]
    } else {
        Seq::empty()
    };
    if t == 0 {
        sign + seq![0x50u8, 0x30u8, 0x44u8]
    } else {
        sign + seq![0x50u8, 0x54u8] + dec_nat((a / 1000000) as nat) + micro_frac_bytes(
            (a % 1000000) as nat,
        ) + seq![0x53u8]
    }
}

/// The fractional part of a duration: nine fractional digits (the
/// microseconds and three trailing zeros) with all trailing zeros removed,
/// empty when the microseconds are zero.
pub open spec fn micro_frac_bytes(micro: nat) -> Seq<u8> {
    if micro == 0 {
        Seq::empty()
    } else {
        seq![0x2eu8] + trim_zeros(dec_pad(micro, 6))
    }
}

/// `s` with every trailing `0` digit removed.
pub open spec fn trim_zeros(s: Seq<u8>) -> Seq<u8>
    decreases s,
{
    if s.len() > 0 && s.last() == 0x30u8 {
        trim_zeros(s.drop_last())
    } else {
        s
    }
}

/// Relies on `String::from_utf8`: ASCII bytes are valid UTF-8 and decode to
/// the identical sequence of characters.
#[verifier::external_body]
pub(crate) fn ascii_to_string(bytes: Vec<u8>) -> (r: String)
    requires
        forall|i: int| 0 <= i < bytes@.len() ==> bytes@[i] < 0x80,
    ensures
        r@ == chars_of(bytes@),
{
    String::from_utf8(bytes).unwrap_or_default()
}

pub open spec fn all_ascii(bs: Seq<u8>) -> bool {
    forall|i: int| 0 <= i < bs.len() ==> bs[i] < 0x80
}

proof fn lemma_dec_nat_ascii(n: nat)
    ensures
        all_ascii(dec_nat(n)),
        dec_nat(n).len() >= 1,
    decreases n,
{
    if n >= 10 {
        lemma_dec_nat_ascii(n / 10);
    }
}

proof fn lemma_dec_pad_ascii(n: nat, w: nat)
    ensures
        all_ascii(dec_pad(n, w)),
        dec_pad(n, w).len() >= w,
        dec_pad(n, w).len() >= 1 || w == 0,
{
    lemma_dec_nat_ascii(n);
}

/// Append the decimal digits of `n`.
pub fn push_dec_u64(out: &mut Vec<u8>, n: u64)
    ensures
        final(out)@ == old(out)@ + dec_nat(n as nat),
    decreases n,
{
    if n < 10 {
        out.push(0x30 + (n as u8));
        assert(out@ =~= old(out)@ + dec_nat(n as nat));
    } else {
        let q = n / 10;
        let r = (n % 10) as u8;
        push_dec_u64(out, q);
        out.push(0x30 + r);
        assert(out@ =~= old(out)@ + dec_nat(n as nat));
    }
}

/// The number of digits `dec_nat` writes.
proof fn lemma_dec_nat_len(n: nat, w: nat)
    requires
        n < pow10(w),
    ensures
        dec_nat(n).len() <= w || w == 0,
    decreases w,
{
    if w > 0 && n >= 10 {
        lemma_dec_nat_len(n / 10, (w - 1) as nat);
    }
}

pub open spec fn pow10(w: nat) -> nat
    decreases w,
{
    if w == 0 {
        1
    } else {
        10 * pow10((w - 1) as nat)
    }
}

proof fn lemma_dec_nat_len_lower(n: nat, w: nat)
    requires
        n >= pow10(w),
    ensures
        dec_nat(n).len() >= w + 1,
    decreases w,
{
    reveal_with_fuel(pow10, 2);
    if w > 0 {
        lemma_dec_nat_len_lower(n / 10, (w - 1) as nat);
    }
}

proof fn lemma_ascii_concat(a: Seq<u8>, b: Seq<u8>)
    requires
        all_ascii(a),
        all_ascii(b),
    ensures
        all_ascii(a + b),
{
    assert forall|i: int| 0 <= i < (a + b).len() implies (a + b)[i] < 0x80 by {
        if i < a.len() {
            assert((a + b)[i] == a[i]);
        } else {
            assert((a + b)[i] == b[i - a.len()]);
        }
    }
}

/// Append the decimal digits of `n`, zero-padded on the left to `w` digits.
/// The bound keeps the result at exactly `w` digits.
pub fn push_pad_u64(out: &mut Vec<u8>, n: u64, w: u64)
    requires
        1 <= w <= 6,
        n < pow10(w as nat),
    ensures
        final(out)@ == old(out)@ + dec_pad(n as nat, w as nat),
        dec_pad(n as nat, w as nat).len() == w,
{
    proof {
        lemma_dec_nat_len(n as nat, w as nat);
        lemma_dec_nat_ascii(n as nat);
        reveal_with_fuel(pow10, 7);
    }
    // count the digits of n
    let mut digits: u64 = 1;
    let mut m: u64 = n;
    while m >= 10
        invariant
            1 <= digits <= 6,
            dec_nat(n as nat).len() <= 6,
            dec_nat(n as nat).len() == dec_nat(m as nat).len() + digits - 1,
        decreases m,
    {
        proof {
            lemma_dec_nat_ascii((m / 10) as nat);
        }
        m = m / 10;
        digits = digits + 1;
    }
    assert(dec_nat(m as nat).len() == 1);
    let mut pad: u64 = 0;
    while pad + digits < w
        invariant
            digits + pad <= w,
            dec_nat(n as nat).len() == digits,
            out@ == old(out)@ + Seq::new(pad as nat, |i: int| 0x30u8),
        decreases w - pad - digits,
    {
        out.push(0x30);
        proof {
            assert(out@ =~= old(out)@ + Seq::new((pad + 1) as nat, |i: int| 0x30u8));
        }
        pad = pad + 1;
    }
    push_dec_u64(out, n);
    proof {
        if dec_nat(n as nat).len() >= w {
            assert(out@ =~= old(out)@ + dec_pad(n as nat, w as nat));
        } else {
            assert(out@ =~= old(out)@ + dec_pad(n as nat, w as nat));
        }
    }
}

/// Append the year as the canonical date format writes it.
fn push_year(out: &mut Vec<u8>, y: i32)
    requires
        -262144 <= y <= 262143,
    ensures
        final(out)@ == old(out)@ + year_bytes(y as int),
        all_ascii(year_bytes(y as int)),
{
    proof {
        reveal_with_fuel(pow10, 7);
    }
    if 0 <= y && y <= 9999 {
        push_pad_u64(out, y as u64, 4);
        proof {
            lemma_dec_pad_ascii(y as nat, 4);
        }
    } else if y > 9999 {
        out.push(0x2b);
        let ghost mid = out@;
        push_dec_u64(out, y as u64);
        proof {
            lemma_dec_nat_len_lower(y as nat, 4);
            assert(dec_pad(y as nat, 4) == dec_nat(y as nat));
            lemma_dec_nat_ascii(y as nat);
            assert(out@ =~= old(out)@ + year_bytes(y as int));
            lemma_ascii_concat(seq![0x2bu8], dec_pad(y as nat, 4));
        }
    } else {
        out.push(0x2d);
        let m: u32 = (-(y as i64)) as u32;
        let ghost mid = out@;
        if m <= 9999 {
            push_pad_u64(out, m as u64, 4);
        } else {
            push_dec_u64(out, m as u64);
            proof {
                lemma_dec_nat_len_lower(m as nat, 4);
                assert(dec_pad(m as nat, 4) == dec_nat(m as nat));
            }
        }
        proof {
            lemma_dec_pad_ascii(m as nat, 4);
            assert(out@ =~= old(out)@ + year_bytes(y as int));
            lemma_ascii_concat(seq![0x2du8], dec_pad(m as nat, 4));
        }
    }
}

/// Append the canonical calendar-date text.
fn push_date(out: &mut Vec<u8>, d: &DateParts)
    requires
        d.wf(),
    ensures
        final(out)@ == old(out)@ + date_bytes(*d),
        all_ascii(date_bytes(*d)),
{
    proof {
        reveal_with_fuel(pow10, 3);
        lemma_dec_pad_ascii(d.month as nat, 2);
        lemma_dec_pad_ascii(d.day as nat, 2);
    }
    push_year(out, d.year);
    out.push(0x2d);
    push_pad_u64(out, d.month as u64, 2);
    out.push(0x2d);
    push_pad_u64(out, d.day as u64, 2);
    proof {
        assert(out@ =~= old(out)@ + date_bytes(*d));
        lemma_ascii_concat(year_bytes(d.year as int), seq![0x2du8]);
        lemma_ascii_concat(year_bytes(d.year as int) + seq![0x2du8], dec_pad(d.month as nat, 2));
        lemma_ascii_concat(
            year_bytes(d.year as int) + seq![0x2du8] + dec_pad(d.month as nat, 2),
            seq![0x2du8],
        );
        lemma_ascii_concat(
            year_bytes(d.year as int) + seq![0x2du8] + dec_pad(d.month as nat, 2) + seq![0x2du8],
            dec_pad(d.day as nat, 2),
        );
    }
}

/// Append the canonical time-of-day text.
fn push_time(out: &mut Vec<u8>, t: &TimeParts)
    requires
        t.wf(),
    ensures
        final(out)@ == old(out)@ + time_bytes(*t),
        all_ascii(time_bytes(*t)),
{
    proof {
        reveal_with_fuel(pow10, 7);
        lemma_dec_pad_ascii(t.hour as nat, 2);
        lemma_dec_pad_ascii(t.minute as nat, 2);
        lemma_dec_pad_ascii(t.second as nat, 2);
        lemma_dec_pad_ascii((t.micro / 1000) as nat, 3);
        lemma_dec_pad_ascii(t.micro as nat, 6);
    }
    push_pad_u64(out, t.hour as u64, 2);
    out.push(0x3a);
    push_pad_u64(out, t.minute as u64, 2);
    out.push(0x3a);
    push_pad_u64(out, t.second as u64, 2);
    if t.micro == 0 {
    } else if t.micro % 1000 == 0 {
        out.push(0x2e);
        push_pad_u64(out, (t.micro / 1000) as u64, 3);
    } else {
        out.push(0x2e);
        push_pad_u64(out, t.micro as u64, 6);
    }
    proof {
        assert(out@ =~= old(out)@ + time_bytes(*t));
        assert(all_ascii(time_bytes(*t))) by {
            assert forall|i: int| 0 <= i < time_bytes(*t).len() implies time_bytes(*t)[i]
                < 0x80 by {
                assert(time_bytes(*t) == out@.subrange(
                    old(out)@.len() as int,
                    out@.len() as int,
                ));
            }
        }
    }
}

/// Append a fixed offset as sign, hours and minutes.
fn push_offset(out: &mut Vec<u8>, minutes: i32)
    requires
        -1080 <= minutes <= 1080,
    ensures
        final(out)@ == old(out)@ + offset_bytes(minutes as int),
        all_ascii(offset_bytes(minutes as int)),
{
    proof {
        reveal_with_fuel(pow10, 3);
    }
    let m: u32 = if minutes < 0 {
        out.push(0x2d);
        (-minutes) as u32
    } else {
        out.push(0x2b);
        minutes as u32
    };
    push_pad_u64(out, (m / 60) as u64, 2);
    out.push(0x3a);
    push_pad_u64(out, (m % 60) as u64, 2);
    proof {
        lemma_dec_pad_ascii((m / 60) as nat, 2);
        lemma_dec_pad_ascii((m % 60) as nat, 2);
        assert(out@ =~= old(out)@ + offset_bytes(minutes as int));
        assert(all_ascii(offset_bytes(minutes as int))) by {
            assert forall|i: int| 0 <= i < offset_bytes(minutes as int).len() implies offset_bytes(
                minutes as int,
            )[i] < 0x80 by {
                assert(offset_bytes(minutes as int) == out@.subrange(
                    old(out)@.len() as int,
                    out@.len() as int,
                ));
            }
        }
    }
}

/// The canonical calendar-date text of a date.
pub fn format_date(d: &DateParts) -> (r: String)
    requires
        d.wf(),
    ensures
        r@ == chars_of(date_bytes(*d)),
{
    let mut out: Vec<u8> = Vec::new();
    push_date(&mut out, d);
    ascii_to_string(out)
}

/// The canonical time-of-day text of a time.
pub fn format_time(t: &TimeParts) -> (r: String)
    requires
        t.wf(),
    ensures
        r@ == chars_of(time_bytes(*t)),
{
    let mut out: Vec<u8> = Vec::new();
    push_time(&mut out, t);
    ascii_to_string(out)
}

/// The canonical timestamp text with its explicit offset.
pub fn format_timestamp(ts: &TimestampParts) -> (r: String)
    requires
        ts.wf(),
    ensures
        r@ == chars_of(timestamp_bytes(*ts)),
{
    let mut out: Vec<u8> = Vec::new();
    push_date(&mut out, &ts.date);
    out.push(0x54);
    push_time(&mut out, &ts.time);
    push_offset(&mut out, ts.offset_minutes);
    proof {
        assert(out@ =~= timestamp_bytes(*ts));
        lemma_ascii_concat(date_bytes(ts.date), seq![0x54u8]);
        lemma_ascii_concat(date_bytes(ts.date) + seq![0x54u8], time_bytes(ts.time));
        lemma_ascii_concat(
            date_bytes(ts.date) + seq![0x54u8] + time_bytes(ts.time),
            offset_bytes(ts.offset_minutes as int),
        );
    }
    ascii_to_string(out)
}

/// Append two lowercase hexadecimal digits.
fn push_hex(out: &mut Vec<u8>, b: u8)
    ensures
        final(out)@ == old(out)@ + hex_pair(b),
{
    let hi = b / 16;
    let lo = b % 16;
    out.push(if hi < 10 { 0x30 + hi } else { 0x57 + hi });
    out.push(if lo < 10 { 0x30 + lo } else { 0x57 + lo });
    assert(out@ =~= old(out)@ + hex_pair(b));
}

/// The canonical hyphenated lowercase text of a 16-byte unique identifier.
pub fn format_uuid(bs: &Vec<u8>) -> (r: String)
    requires
        bs@.len() == 16,
    ensures
        r@ == chars_of(uuid_bytes(bs@)),
{
    let mut out: Vec<u8> = Vec::new();
    let mut i: usize = 0;
    while i < 16
        invariant
            i <= 16,
            bs@.len() == 16,
            out@.len() == 2 * i + (if i > 10 { 4int } else if i > 8 { 3int } else if i > 6 {
                2int
            } else if i > 4 {
                1int
            } else {
                0int
            }),
            all_ascii(out@),
            out@ == uuid_prefix(bs@, i as int),
        decreases 16 - i,
    {
        if i == 4 || i == 6 || i == 8 || i == 10 {
            out.push(0x2d);
        }
        let b = bs[i];
        push_hex(&mut out, b);
        proof {
            assert(out@ =~= uuid_prefix(bs@, i + 1));
        }
        i = i + 1;
    }
    proof {
        reveal_with_fuel(uuid_prefix, 17);
        assert(uuid_prefix(bs@, 16) =~= uuid_bytes(bs@));
    }
    ascii_to_string(out)
}

/// The first `i` bytes of an identifier written in hexadecimal, with the
/// hyphens that precede them.
pub open spec fn uuid_prefix(bs: Seq<u8>, i: int) -> Seq<u8>
    decreases i,
{
    if i <= 0 {
        Seq::empty()
    } else {
        let sep: Seq<u8> = if i - 1 == 4 || i - 1 == 6 || i - 1 == 8 || i - 1 == 10 {
            seq![0x2du8]
        } else {
            Seq::empty()
        };
        uuid_prefix(bs, i - 1) + sep + hex_pair(bs[i - 1])
    }
}

proof fn lemma_trim_pad_step(m: nat, w: nat)
    requires
        m > 0,
        m % 10 == 0,
        2 <= w,
        m < pow10(w),
    ensures
        trim_zeros(dec_pad(m, w)) == trim_zeros(dec_pad(m / 10, (w - 1) as nat)),
{
    lemma_dec_nat_len(m, w);
    lemma_dec_nat_ascii(m / 10);
    assert(dec_nat(m) == dec_nat(m / 10).push(0x30u8));
    assert(dec_pad(m, w) =~= dec_pad(m / 10, (w - 1) as nat).push(0x30u8));
    assert(dec_pad(m, w).drop_last() =~= dec_pad(m / 10, (w - 1) as nat));
}

proof fn lemma_trim_pad_stop(m: nat, w: nat)
    requires
        m % 10 != 0,
        1 <= w,
    ensures
        trim_zeros(dec_pad(m, w)) == dec_pad(m, w),
{
    assert(dec_nat(m).last() == (0x30 + m % 10) as u8);
    assert(dec_pad(m, w).last() == (0x30 + m % 10) as u8);
}

/// The total length of an interval in microseconds, months deliberately
/// ignored: a lossy but documented conversion.
pub open spec fn interval_micros(days: int, microseconds: int) -> int {
    days * 86400000000 + microseconds
}

/// The duration text of an interval's day and microsecond components.
pub fn format_duration(days: i32, microseconds: i64) -> (r: String)
    ensures
        r@ == chars_of(duration_bytes(interval_micros(days as int, microseconds as int))),
{
    proof {
        reveal_with_fuel(pow10, 7);
    }
    proof {
        vstd::arithmetic::mul::lemma_mul_inequality(days as int, 0x7fffffff, 86400000000);
        vstd::arithmetic::mul::lemma_mul_inequality(-0x80000000, days as int, 86400000000);
        assert((days as int) * 86400000000 <= 0x7fffffff * 86400000000);
        assert((-0x80000000) * 86400000000 <= (days as int) * 86400000000);
        assert(0x7fffffff * 86400000000 == 185542587100800000000);
        assert((-0x80000000) * 86400000000 == -185542587187200000000);
    }
    let t: i128 = (days as i128) * 86400000000 + (microseconds as i128);
    let mut out: Vec<u8> = Vec::new();
    let a128: u128 = if t < 0 {
        out.push(0x2d);
        (-t) as u128
    } else {
        t as u128
    };
    let s: u64 = (a128 / 1000000) as u64;
    let micro_part: u64 = (a128 % 1000000) as u64;
    let ghost a: int = if t < 0 {
        -(t as int)
    } else {
        t as int
    };
    proof {
        assert(s == a / 1000000);
        assert(micro_part == a % 1000000);
    }
    if s == 0 && micro_part == 0 {
        out.push(0x50);
        out.push(0x30);
        out.push(0x44);
        proof {
            assert(out@ =~= duration_bytes(interval_micros(days as int, microseconds as int)));
        }
    } else {
        out.push(0x50);
        out.push(0x54);
        push_dec_u64(&mut out, s);
        let micro = micro_part;
        if micro > 0 {
            out.push(0x2e);
            let mut m: u64 = micro;
            let mut w: u64 = 6;
            while m % 10 == 0
                invariant
                    1 <= w <= 6,
                    0 < m < pow10(w as nat),
                    trim_zeros(dec_pad((a % 1000000) as nat, 6)) == trim_zeros(
                        dec_pad(m as nat, w as nat),
                    ),
                decreases w,
            {
                proof {
                    reveal_with_fuel(pow10, 7);
                    if w < 2 {
                        assert(m < 10);
                        assert(m == 0);
                    }
                    lemma_trim_pad_step(m as nat, w as nat);
                }
                m = m / 10;
                w = w - 1;
            }
            proof {
                lemma_trim_pad_stop(m as nat, w as nat);
                reveal_with_fuel(pow10, 7);
            }
            push_pad_u64(&mut out, m, w);
        }
        out.push(0x53);
        proof {
            assert(out@ =~= duration_bytes(interval_micros(days as int, microseconds as int)));
        }
    }
    proof {
        lemma_duration_ascii(interval_micros(days as int, microseconds as int));
    }
    ascii_to_string(out)
}

proof fn lemma_trim_ascii(s: Seq<u8>)
    requires
        all_ascii(s),
    ensures
        all_ascii(trim_zeros(s)),
    decreases s,
{
    if s.len() > 0 && s.last() == 0x30u8 {
        assert(all_ascii(s.drop_last())) by {
            assert(forall|i: int|
                0 <= i < s.drop_last().len() ==> s.drop_last()[i] == s[i] && s[i] < 0x80);
        }
        lemma_trim_ascii(s.drop_last());
    }
}

proof fn lemma_duration_ascii(t: int)
    ensures
        all_ascii(duration_bytes(t)),
{
    let a = if t < 0 {
        -t
    } else {
        t
    };
    if a >= 0 {
        lemma_dec_nat_ascii((a / 1000000) as nat);
        lemma_dec_pad_ascii((a % 1000000) as nat, 6);
        lemma_trim_ascii(dec_pad((a % 1000000) as nat, 6));
    }
    assert forall|i: int| 0 <= i < duration_bytes(t).len() implies duration_bytes(t)[i] < 0x80 by {
        let s = duration_bytes(t);
        let sign: Seq<u8> = if t < 0 {
            seq![0x2du8]
        } else {
            Seq::empty()
        };
        if t == 0 {
        } else {
            let body = seq![0x50u8, 0x54u8] + dec_nat((a / 1000000) as nat) + micro_frac_bytes(
                (a % 1000000) as nat,
            ) + seq![0x53u8];
            assert(s == sign + body);
        }
    }
}

} // verus!
