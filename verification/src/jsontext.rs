use vstd::prelude::*;
use crate::error::FormatIssue;
use crate::value::{doc_entries_model, doc_list_model, DocModel, DocValue};
use vstd::utf8::{decode_utf8, encode_scalar, valid_utf8};

verus! {

broadcast use vstd::std_specs::vec::group_vec_axioms, vstd::seq::group_seq_axioms;

// ---------------------------------------------------------------------------
// The grammar, as specification functions.  `json_doc` is the meaning of a
// document payload: these functions are the reference the executable parser
// is proved against.
// ---------------------------------------------------------------------------

pub open spec fn is_ws(c: u8) -> bool {
    c == 0x20 || c == 0x09 || c == 0x0a || c == 0x0d
}

pub open spec fn is_digit(c: u8) -> bool {
    0x30 <= c <= 0x39
}

pub open spec fn is_hex(c: u8) -> bool {
    is_digit(c) || 0x41 <= c <= 0x46 || 0x61 <= c <= 0x66
}

pub open spec fn hex_val(c: u8) -> int {
    if is_digit(c) {
        c - 0x30
    } else if 0x41 <= c <= 0x46 {
        c - 0x41 + 10
    } else {
        c - 0x61 + 10
    }
}

/// The first position at or after `i` that holds no whitespace.
pub open spec fn skip_ws(s: Seq<u8>, i: int) -> int
    decreases s.len() - i,
{
    if 0 <= i < s.len() && is_ws(s[i]) {
        skip_ws(s, i + 1)
    } else {
        i
    }
}

/// The first position at or after `i` that holds no decimal digit.
pub open spec fn digits_end(s: Seq<u8>, i: int) -> int
    decreases s.len() - i,
{
    if 0 <= i < s.len() && is_digit(s[i]) {
        digits_end(s, i + 1)
    } else {
        i
    }
}

/// The value of the digit run `s[i..j]`.
pub open spec fn digits_val(s: Seq<u8>, i: int, j: int) -> int
    decreases j - i,
{
    if j <= i {
        0
    } else {
        digits_val(s, i, j - 1) * 10 + (s[j - 1] - 0x30)
    }
}

/// The value of the four hexadecimal digits at `i`.
pub open spec fn hex4_val(s: Seq<u8>, i: int) -> int {
    hex_val(s[i]) * 4096 + hex_val(s[i + 1]) * 256 + hex_val(s[i + 2]) * 16 + hex_val(s[i + 3])
}

pub open spec fn hex4_ok(s: Seq<u8>, i: int) -> bool {
    i + 4 <= s.len() && is_hex(s[i]) && is_hex(s[i + 1]) && is_hex(s[i + 2]) && is_hex(s[i + 3])
}

/// The content bytes of a string literal whose opening quote stands just
/// before `i`, and the position just after its closing quote.  Escapes are
/// resolved; an escaped code point is re-encoded as UTF-8.
pub open spec fn json_string_bytes(s: Seq<u8>, i: int) -> Result<(Seq<u8>, int), FormatIssue>
    decreases s.len() - i,
{
    if i < 0 || i >= s.len() {
        Err(FormatIssue::Syntax)
    } else {
        let c = s[i];
        if c == 0x22 {
            Ok((Seq::empty(), i + 1))
        } else if c == 0x5c {
            if i + 1 >= s.len() {
                Err(FormatIssue::Syntax)
            } else {
                let e = s[i + 1];
                if e == 0x75 {
                    if !hex4_ok(s, i + 2) {
                        Err(FormatIssue::Syntax)
                    } else {
                        let v = hex4_val(s, i + 2);
                        if 0xd800 <= v <= 0xdbff {
                            if i + 8 <= s.len() && s[i + 6] == 0x5c && s[i + 7] == 0x75 && hex4_ok(
                                s,
                                i + 8,
                            ) && 0xdc00 <= hex4_val(s, i + 8) <= 0xdfff {
                                let w = hex4_val(s, i + 8);
                                let scalar = 0x10000 + (v - 0xd800) * 0x400 + (w - 0xdc00);
                                match json_string_bytes(s, i + 12) {
                                    Ok(p) => Ok((encode_scalar(scalar as u32) + p.0, p.1)),
                                    Err(err) => Err(err),
                                }
                            } else {
                                Err(FormatIssue::Syntax)
                            }
                        } else if 0xdc00 <= v <= 0xdfff {
                            Err(FormatIssue::Syntax)
                        } else {
                            match json_string_bytes(s, i + 6) {
                                Ok(p) => Ok((encode_scalar(v as u32) + p.0, p.1)),
                                Err(err) => Err(err),
                            }
                        }
                    }
                } else {
                    let b: int = if e == 0x22 {
                        0x22
                    } else if e == 0x5c {
                        0x5c
                    } else if e == 0x2f {
                        0x2f
                    } else if e == 0x62 {
                        0x08
                    } else if e == 0x66 {
                        0x0c
                    } else if e == 0x6e {
                        0x0a
                    } else if e == 0x72 {
                        0x0d
                    } else if e == 0x74 {
                        0x09
                    } else {
                        -1
                    };
                    if b < 0 {
                        Err(FormatIssue::Syntax)
                    } else {
                        match json_string_bytes(s, i + 2) {
                            Ok(p) => Ok((seq![b as u8] + p.0, p.1)),
                            Err(err) => Err(err),
                        }
                    }
                }
            }
        } else if c < 0x20 {
            Err(FormatIssue::Syntax)
        } else {
            match json_string_bytes(s, i + 1) {
                Ok(p) => Ok((seq![c] + p.0, p.1)),
                Err(err) => Err(err),
            }
        }
    }
}

/// The characters of a string literal: its content bytes decoded as UTF-8.
pub open spec fn json_string_at(s: Seq<u8>, i: int) -> Result<(Seq<char>, int), FormatIssue> {
    match json_string_bytes(s, i) {
        Ok(p) => if valid_utf8(p.0) {
            Ok((decode_utf8(p.0), p.1))
        } else {
            Err(FormatIssue::InvalidUtf8)
        },
        Err(e) => Err(e),
    }
}

/// The end of a number literal that starts at `i`, after its integer part,
/// optional fraction and optional exponent; and whether it stayed integral.
pub open spec fn number_end(s: Seq<u8>, i: int) -> Result<(int, bool), FormatIssue> {
    let ds = if i < s.len() && s[i] == 0x2d {
        i + 1
    } else {
        i
    };
    if ds >= s.len() || !is_digit(s[ds]) {
        Err(FormatIssue::Syntax)
    } else {
        let ie = digits_end(s, ds);
        if s[ds] == 0x30 && ie > ds + 1 {
            Err(FormatIssue::Syntax)
        } else {
            let fe = if ie < s.len() && s[ie] == 0x2e {
                let fstart = ie + 1;
                let fend = digits_end(s, fstart);
                if fend == fstart {
                    -1
                } else {
                    fend
                }
            } else {
                ie
            };
            if fe < 0 {
                Err(FormatIssue::Syntax)
            } else {
                let ee = if fe < s.len() && (s[fe] == 0x65 || s[fe] == 0x45) {
                    let es0 = fe + 1;
                    let es = if es0 < s.len() && (s[es0] == 0x2b || s[es0] == 0x2d) {
                        es0 + 1
                    } else {
                        es0
                    };
                    let eend = digits_end(s, es);
                    if eend == es {
                        -1
                    } else {
                        eend
                    }
                } else {
                    fe
                };
                if ee < 0 {
                    Err(FormatIssue::Syntax)
                } else {
                    Ok((ee, ee == ie))
                }
            }
        }
    }
}

/// The value of a number literal at `i`: an integer when it fits one of the
/// 64-bit forms, else its literal text.
pub open spec fn json_number_at(s: Seq<u8>, i: int) -> Result<(DocModel, int), FormatIssue> {
    let neg = i < s.len() && s[i] == 0x2d;
    let ds = if neg {
        i + 1
    } else {
        i
    };
    match number_end(s, i) {
        Err(e) => Err(e),
        Ok((end, integral)) => {
            let lit = crate::fmt::chars_of(s.subrange(i, end));
            if !integral {
                Ok((DocModel::NumLit(lit), end))
            } else {
                let mag = digits_val(s, ds, digits_end(s, ds));
                if neg {
                    if mag <= 0x8000000000000000 {
                        Ok((DocModel::Int((-mag) as i64), end))
                    } else {
                        Ok((DocModel::NumLit(lit), end))
                    }
                } else {
                    if mag <= 0x7fffffffffffffff {
                        Ok((DocModel::Int(mag as i64), end))
                    } else if mag <= 0xffffffffffffffff {
                        Ok((DocModel::UInt(mag as u64), end))
                    } else {
                        Ok((DocModel::NumLit(lit), end))
                    }
                }
            }
        },
    }
}

/// The value that starts at or after `i` (leading whitespace skipped), and
/// the position just after it.
pub open spec fn json_value_at(s: Seq<u8>, i: int, fuel: nat) -> Result<
    (DocModel, int),
    FormatIssue,
>
    decreases fuel,
{
    if fuel == 0 {
        Err(FormatIssue::Syntax)
    } else {
        let j = skip_ws(s, i);
        if j >= s.len() {
            Err(FormatIssue::Syntax)
        } else {
            let c = s[j];
            if c == 0x6e {
                if j + 4 <= s.len() && s[j + 1] == 0x75 && s[j + 2] == 0x6c && s[j + 3] == 0x6c {
                    Ok((DocModel::Null, j + 4))
                } else {
                    Err(FormatIssue::Syntax)
                }
            } else if c == 0x74 {
                if j + 4 <= s.len() && s[j + 1] == 0x72 && s[j + 2] == 0x75 && s[j + 3] == 0x65 {
                    Ok((DocModel::Bool(true), j + 4))
                } else {
                    Err(FormatIssue::Syntax)
                }
            } else if c == 0x66 {
                if j + 5 <= s.len() && s[j + 1] == 0x61 && s[j + 2] == 0x6c && s[j + 3] == 0x73
                    && s[j + 4] == 0x65 {
                    Ok((DocModel::Bool(false), j + 5))
                } else {
                    Err(FormatIssue::Syntax)
                }
            } else if c == 0x22 {
                match json_string_at(s, j + 1) {
                    Ok(p) => Ok((DocModel::Text(p.0), p.1)),
                    Err(e) => Err(e),
                }
            } else if c == 0x5b {
                let k = skip_ws(s, j + 1);
                if k < s.len() && s[k] == 0x5d {
                    Ok((DocModel::Items(Seq::empty()), k + 1))
                } else {
                    match json_items_at(s, j + 1, (fuel - 1) as nat) {
                        Ok(p) => Ok((DocModel::Items(p.0), p.1)),
                        Err(e) => Err(e),
                    }
                }
            } else if c == 0x7b {
                let k = skip_ws(s, j + 1);
                if k < s.len() && s[k] == 0x7d {
                    Ok((DocModel::Entries(Seq::empty()), k + 1))
                } else {
                    match json_entries_at(s, j + 1, (fuel - 1) as nat) {
                        Ok(p) => Ok((DocModel::Entries(p.0), p.1)),
                        Err(e) => Err(e),
                    }
                }
            } else if c == 0x2d || is_digit(c) {
                json_number_at(s, j)
            } else {
                Err(FormatIssue::Syntax)
            }
        }
    }
}

/// One or more comma-separated elements and the closing bracket.
pub open spec fn json_items_at(s: Seq<u8>, i: int, fuel: nat) -> Result<
    (Seq<DocModel>, int),
    FormatIssue,
>
    decreases fuel,
{
    if fuel == 0 {
        Err(FormatIssue::Syntax)
    } else {
        match json_value_at(s, i, (fuel - 1) as nat) {
            Err(e) => Err(e),
            Ok((v, j)) => {
                let k = skip_ws(s, j);
                if k < s.len() && s[k] == 0x2c {
                    match json_items_at(s, k + 1, (fuel - 1) as nat) {
                        Ok(p) => Ok((seq![v] + p.0, p.1)),
                        Err(e) => Err(e),
                    }
                } else if k < s.len() && s[k] == 0x5d {
                    Ok((seq![v], k + 1))
                } else {
                    Err(FormatIssue::Syntax)
                }
            },
        }
    }
}

/// One or more key-value entries and the closing brace.
pub open spec fn json_entries_at(s: Seq<u8>, i: int, fuel: nat) -> Result<
    (Seq<(Seq<char>, DocModel)>, int),
    FormatIssue,
>
    decreases fuel,
{
    if fuel == 0 {
        Err(FormatIssue::Syntax)
    } else {
        let j = skip_ws(s, i);
        if j >= s.len() || s[j] != 0x22 {
            Err(FormatIssue::Syntax)
        } else {
            match json_string_at(s, j + 1) {
                Err(e) => Err(e),
                Ok((key, j2)) => {
                    let j3 = skip_ws(s, j2);
                    if j3 >= s.len() || s[j3] != 0x3a {
                        Err(FormatIssue::Syntax)
                    } else {
                        match json_value_at(s, j3 + 1, (fuel - 1) as nat) {
                            Err(e) => Err(e),
                            Ok((v, j4)) => {
                                let k = skip_ws(s, j4);
                                if k < s.len() && s[k] == 0x2c {
                                    match json_entries_at(s, k + 1, (fuel - 1) as nat) {
                                        Ok(p) => Ok((seq![(key, v)] + p.0, p.1)),
                                        Err(e) => Err(e),
                                    }
                                } else if k < s.len() && s[k] == 0x7d {
                                    Ok((seq![(key, v)], k + 1))
                                } else {
                                    Err(FormatIssue::Syntax)
                                }
                            },
                        }
                    }
                },
            }
        }
    }
}

/// The meaning of a whole document payload: one value, with nothing but
/// whitespace around it.
pub open spec fn json_doc(s: Seq<u8>) -> Result<DocModel, FormatIssue> {
    match json_value_at(s, 0, (2 * s.len() + 1) as nat) {
        Err(e) => Err(e),
        Ok((v, j)) => if skip_ws(s, j) == s.len() {
            Ok(v)
        } else {
            Err(FormatIssue::Syntax)
        },
    }
}

// ---------------------------------------------------------------------------
// The executable parser, proved equal to the grammar above.
// ---------------------------------------------------------------------------

/// Relies on `String::from_utf8`: it succeeds exactly on valid UTF-8 input
/// and returns the characters the bytes encode.
#[verifier::external_body]
pub(crate) fn utf8_to_string(bytes: Vec<u8>) -> (r: Option<String>)
    ensures
        match r {
            Option::Some(s) => valid_utf8(bytes@) && s@ == decode_utf8(bytes@),
            Option::None => !valid_utf8(bytes@),
        },
{
    match String::from_utf8(bytes) {
        Ok(s) => Some(s),
        Err(_) => None,
    }
}

fn e_skip_ws(s: &Vec<u8>, i: usize) -> (r: usize)
    requires
        i <= s@.len(),
    ensures
        r == skip_ws(s@, i as int),
        i <= r <= s@.len(),
{
    let mut j = i;
    while j < s.len() && (s[j] == 0x20 || s[j] == 0x09 || s[j] == 0x0a || s[j] == 0x0d)
        invariant
            i <= j <= s@.len(),
            skip_ws(s@, i as int) == skip_ws(s@, j as int),
        decreases s@.len() - j,
    {
        j = j + 1;
    }
    j
}

fn hex_digit_val(c: u8) -> (r: Option<u8>)
    ensures
        match r {
            Option::Some(d) => is_hex(c) && d == hex_val(c) && d <= 15,
            Option::None => !is_hex(c),
        },
{
    if 0x30 <= c && c <= 0x39 {
        Some(c - 0x30)
    } else if 0x41 <= c && c <= 0x46 {
        Some(c - 0x41 + 10)
    } else if 0x61 <= c && c <= 0x66 {
        Some(c - 0x61 + 10)
    } else {
        None
    }
}

fn hex4_at(s: &Vec<u8>, i: usize) -> (r: Option<u32>)
    requires
        i <= s@.len(),
    ensures
        match r {
            Option::Some(v) => hex4_ok(s@, i as int) && v == hex4_val(s@, i as int) && v <= 0xffff,
            Option::None => !hex4_ok(s@, i as int),
        },
{
    if s.len() - i < 4 {
        return None;
    }
    let d0 = match hex_digit_val(s[i]) {
        Some(d) => d,
        None => {
            return None;
        },
    };
    let d1 = match hex_digit_val(s[i + 1]) {
        Some(d) => d,
        None => {
            return None;
        },
    };
    let d2 = match hex_digit_val(s[i + 2]) {
        Some(d) => d,
        None => {
            return None;
        },
    };
    let d3 = match hex_digit_val(s[i + 3]) {
        Some(d) => d,
        None => {
            return None;
        },
    };
    Some((d0 as u32) * 4096 + (d1 as u32) * 256 + (d2 as u32) * 16 + (d3 as u32))
}

/// Append the UTF-8 encoding of a scalar value.
fn push_scalar(out: &mut Vec<u8>, scalar: u32)
    requires
        vstd::utf8::is_scalar(scalar),
    ensures
        final(out)@ == old(out)@ + encode_scalar(scalar),
{
    if scalar <= 0x7f {
        out.push((scalar & 0x7f) as u8);
        assert(out@ =~= old(out)@ + encode_scalar(scalar));
    } else if scalar <= 0x7ff {
        proof {
            assert((scalar >> 6) & 0x1f <= 0x1f && scalar & 0x3f <= 0x3f) by (bit_vector);
        }
        out.push(0xc0 | ((scalar >> 6) & 0x1f) as u8);
        out.push(0x80 | (scalar & 0x3f) as u8);
        assert(out@ =~= old(out)@ + encode_scalar(scalar));
    } else if scalar <= 0xffff {
        proof {
            assert((scalar >> 12) & 0xf <= 0xf && (scalar >> 6) & 0x3f <= 0x3f && scalar & 0x3f
                <= 0x3f) by (bit_vector);
        }
        out.push(0xe0 | ((scalar >> 12) & 0xf) as u8);
        out.push(0x80 | ((scalar >> 6) & 0x3f) as u8);
        out.push(0x80 | (scalar & 0x3f) as u8);
        assert(out@ =~= old(out)@ + encode_scalar(scalar));
    } else {
        proof {
            assert((scalar >> 18) & 0x7 <= 0x7 && (scalar >> 12) & 0x3f <= 0x3f && (scalar >> 6)
                & 0x3f <= 0x3f && scalar & 0x3f <= 0x3f) by (bit_vector);
        }
        out.push(0xf0 | ((scalar >> 18) & 0x7) as u8);
        out.push(0x80 | ((scalar >> 12) & 0x3f) as u8);
        out.push(0x80 | ((scalar >> 6) & 0x3f) as u8);
        out.push(0x80 | (scalar & 0x3f) as u8);
        assert(out@ =~= old(out)@ + encode_scalar(scalar));
    }
}

/// The content bytes of a string literal and the position after its
/// closing quote.
fn p_string_bytes(s: &Vec<u8>, i: usize) -> (r: Result<(Vec<u8>, usize), FormatIssue>)
    requires
        i <= s@.len(),
    ensures
        match (r, json_string_bytes(s@, i as int)) {
            (Result::Ok((bs, j)), Result::Ok(p)) => bs@ == p.0 && j == p.1 && i < j <= s@.len(),
            (Result::Err(a), Result::Err(b)) => a == b,
            _ => false,
        },
    decreases s@.len() - i,
{
    if i >= s.len() {
        return Err(FormatIssue::Syntax);
    }
    let c = s[i];
    if c == 0x22 {
        Ok((Vec::new(), i + 1))
    } else if c == 0x5c {
        if i + 1 >= s.len() {
            return Err(FormatIssue::Syntax);
        }
        let e = s[i + 1];
        if e == 0x75 {
            match hex4_at(s, i + 2) {
                None => Err(FormatIssue::Syntax),
                Some(v) => {
                    if 0xd800 <= v && v <= 0xdbff {
                        let pair_ok: bool = s.len() - i >= 8 && s[i + 6] == 0x5c && s[i + 7]
                            == 0x75;
                        if !pair_ok {
                            return Err(FormatIssue::Syntax);
                        }
                        match hex4_at(s, i + 8) {
                            None => Err(FormatIssue::Syntax),
                            Some(w) => {
                                if !(0xdc00 <= w && w <= 0xdfff) {
                                    return Err(FormatIssue::Syntax);
                                }
                                let scalar: u32 = 0x10000 + (v - 0xd800) * 0x400 + (w - 0xdc00);
                                match p_string_bytes(s, i + 12) {
                                    Err(err) => Err(err),
                                    Ok((rest, end)) => {
                                        let mut head: Vec<u8> = Vec::new();
                                        push_scalar(&mut head, scalar);
                                        let mut rest = rest;
                                        head.append(&mut rest);
                                        Ok((head, end))
                                    },
                                }
                            },
                        }
                    } else if 0xdc00 <= v && v <= 0xdfff {
                        Err(FormatIssue::Syntax)
                    } else {
                        proof {
                            assert(vstd::utf8::is_scalar(v));
                        }
                        match p_string_bytes(s, i + 6) {
                            Err(err) => Err(err),
                            Ok((rest, end)) => {
                                let mut head: Vec<u8> = Vec::new();
                                push_scalar(&mut head, v);
                                let mut rest = rest;
                                head.append(&mut rest);
                                Ok((head, end))
                            },
                        }
                    }
                },
            }
        } else {
            let b: u8 = if e == 0x22 {
                0x22
            } else if e == 0x5c {
                0x5c
            } else if e == 0x2f {
                0x2f
            } else if e == 0x62 {
                0x08
            } else if e == 0x66 {
                0x0c
            } else if e == 0x6e {
                0x0a
            } else if e == 0x72 {
                0x0d
            } else if e == 0x74 {
                0x09
            } else {
                return Err(FormatIssue::Syntax);
            };
            match p_string_bytes(s, i + 2) {
                Err(err) => Err(err),
                Ok((mut rest, end)) => {
                    rest.insert(0, b);
                    proof {
                        assert(rest@ =~= seq![b] + rest@.subrange(1, rest@.len() as int));
                    }
                    Ok((rest, end))
                },
            }
        }
    } else if c < 0x20 {
        Err(FormatIssue::Syntax)
    } else {
        match p_string_bytes(s, i + 1) {
            Err(err) => Err(err),
            Ok((mut rest, end)) => {
                rest.insert(0, c);
                proof {
                    assert(rest@ =~= seq![c] + rest@.subrange(1, rest@.len() as int));
                }
                Ok((rest, end))
            },
        }
    }
}

/// A string literal decoded to characters.
fn p_string(s: &Vec<u8>, i: usize) -> (r: Result<(String, usize), FormatIssue>)
    requires
        i <= s@.len(),
    ensures
        match (r, json_string_at(s@, i as int)) {
            (Result::Ok((st, j)), Result::Ok(p)) => st@ == p.0 && j == p.1 && i < j <= s@.len(),
            (Result::Err(a), Result::Err(b)) => a == b,
            _ => false,
        },
{
    match p_string_bytes(s, i) {
        Err(e) => Err(e),
        Ok((bytes, end)) => match utf8_to_string(bytes) {
            Some(st) => Ok((st, end)),
            None => Err(FormatIssue::InvalidUtf8),
        },
    }
}

/// A number literal: one of the 64-bit integer forms when it fits, else
/// its exact text.
fn p_number(s: &Vec<u8>, i: usize) -> (r: Result<(DocValue, usize), FormatIssue>)
    requires
        i <= s@.len(),
    ensures
        match (r, json_number_at(s@, i as int)) {
            (Result::Ok((v, j)), Result::Ok(p)) => v.model() == p.0 && j == p.1 && i < j
                <= s@.len(),
            (Result::Err(a), Result::Err(b)) => a == b,
            _ => false,
        },
{
    let len = s.len();
    let mut lit: Vec<u8> = Vec::new();
    let neg = i < len && s[i] == 0x2d;
    let ds = if neg {
        lit.push(0x2d);
        i + 1
    } else {
        i
    };
    if ds >= len || !(0x30 <= s[ds] && s[ds] <= 0x39) {
        return Err(FormatIssue::Syntax);
    }
    // integer digits, with their value while it fits
    let mut cur = ds;
    let mut acc: u64 = 0;
    let mut ovf = false;
    while cur < len && 0x30 <= s[cur] && s[cur] <= 0x39
        invariant
            i <= ds <= cur <= len == s@.len(),
            digits_end(s@, ds as int) == digits_end(s@, cur as int),
            lit@ == s@.subrange(i as int, cur as int),
            crate::fmt::all_ascii(lit@),
            !ovf ==> acc == digits_val(s@, ds as int, cur as int),
            ovf ==> digits_val(s@, ds as int, cur as int) > 0xffffffffffffffff,
        decreases len - cur,
    {
        let d = s[cur] - 0x30;
        proof {
            assert(digits_val(s@, ds as int, cur + 1) == digits_val(s@, ds as int, cur as int) * 10
                + d);
            if ovf {
                assert(digits_val(s@, ds as int, cur as int) * 10 >= digits_val(
                    s@,
                    ds as int,
                    cur as int,
                ));
            }
        }
        if !ovf {
            match acc.checked_mul(10) {
                Some(m) => match m.checked_add(d as u64) {
                    Some(n) => {
                        acc = n;
                    },
                    None => {
                        ovf = true;
                    },
                },
                None => {
                    ovf = true;
                },
            }
        }
        lit.push(s[cur]);
        proof {
            assert(lit@ =~= s@.subrange(i as int, cur + 1));
        }
        cur = cur + 1;
    }
    let ie = cur;
    if s[ds] == 0x30 && ie > ds + 1 {
        return Err(FormatIssue::Syntax);
    }
    let mut integral = true;
    if cur < len && s[cur] == 0x2e {
        lit.push(s[cur]);
        proof {
            assert(lit@ =~= s@.subrange(i as int, cur + 1));
        }
        cur = cur + 1;
        let fs = cur;
        while cur < len && 0x30 <= s[cur] && s[cur] <= 0x39
            invariant
                i <= fs <= cur <= len == s@.len(),
                digits_end(s@, fs as int) == digits_end(s@, cur as int),
                lit@ == s@.subrange(i as int, cur as int),
                crate::fmt::all_ascii(lit@),
            decreases len - cur,
        {
            lit.push(s[cur]);
            proof {
                assert(lit@ =~= s@.subrange(i as int, cur + 1));
            }
            cur = cur + 1;
        }
        if cur == fs {
            return Err(FormatIssue::Syntax);
        }
        integral = false;
    }
    if cur < len && (s[cur] == 0x65 || s[cur] == 0x45) {
        lit.push(s[cur]);
        proof {
            assert(lit@ =~= s@.subrange(i as int, cur + 1));
        }
        cur = cur + 1;
        if cur < len && (s[cur] == 0x2b || s[cur] == 0x2d) {
            lit.push(s[cur]);
            proof {
                assert(lit@ =~= s@.subrange(i as int, cur + 1));
            }
            cur = cur + 1;
        }
        let es = cur;
        while cur < len && 0x30 <= s[cur] && s[cur] <= 0x39
            invariant
                i <= es <= cur <= len == s@.len(),
                digits_end(s@, es as int) == digits_end(s@, cur as int),
                lit@ == s@.subrange(i as int, cur as int),
                crate::fmt::all_ascii(lit@),
            decreases len - cur,
        {
            lit.push(s[cur]);
            proof {
                assert(lit@ =~= s@.subrange(i as int, cur + 1));
            }
            cur = cur + 1;
        }
        if cur == es {
            return Err(FormatIssue::Syntax);
        }
        integral = false;
    }
    let end = cur;
    proof {
        assert(number_end(s@, i as int) == Ok::<_, FormatIssue>((end as int, integral)));
    }
    if !integral {
        Ok((DocValue::NumLit(crate::fmt::ascii_to_string(lit)), end))
    } else if neg {
        if !ovf && acc <= 0x8000000000000000 {
            let v: i64 = if acc == 0x8000000000000000 {
                i64::MIN
            } else {
                -(acc as i64)
            };
            Ok((DocValue::Int(v), end))
        } else {
            Ok((DocValue::NumLit(crate::fmt::ascii_to_string(lit)), end))
        }
    } else {
        if !ovf && acc <= 0x7fffffffffffffff {
            Ok((DocValue::Int(acc as i64), end))
        } else if !ovf {
            Ok((DocValue::UInt(acc), end))
        } else {
            Ok((DocValue::NumLit(crate::fmt::ascii_to_string(lit)), end))
        }
    }
}

/// One document value, leading whitespace skipped.
fn p_value(s: &Vec<u8>, i: usize, Ghost(fuel): Ghost<nat>) -> (r: Result<
    (DocValue, usize),
    FormatIssue,
>)
    requires
        i <= s@.len(),
        fuel >= 2 * (s@.len() - i) + 1,
    ensures
        match (r, json_value_at(s@, i as int, fuel)) {
            (Result::Ok((v, j)), Result::Ok(p)) => v.model() == p.0 && j == p.1 && i < j
                <= s@.len(),
            (Result::Err(a), Result::Err(b)) => a == b,
            _ => false,
        },
    decreases s@.len() - i, 0int,
{
    let len = s.len();
    let j = e_skip_ws(s, i);
    if j >= len {
        return Err(FormatIssue::Syntax);
    }
    let c = s[j];
    if c == 0x6e {
        if len - j >= 4 && s[j + 1] == 0x75 && s[j + 2] == 0x6c && s[j + 3] == 0x6c {
            Ok((DocValue::Null, j + 4))
        } else {
            Err(FormatIssue::Syntax)
        }
    } else if c == 0x74 {
        if len - j >= 4 && s[j + 1] == 0x72 && s[j + 2] == 0x75 && s[j + 3] == 0x65 {
            Ok((DocValue::Bool(true), j + 4))
        } else {
            Err(FormatIssue::Syntax)
        }
    } else if c == 0x66 {
        if len - j >= 5 && s[j + 1] == 0x61 && s[j + 2] == 0x6c && s[j + 3] == 0x73 && s[j + 4]
            == 0x65 {
            Ok((DocValue::Bool(false), j + 5))
        } else {
            Err(FormatIssue::Syntax)
        }
    } else if c == 0x22 {
        match p_string(s, j + 1) {
            Ok((st, end)) => Ok((DocValue::Text(st), end)),
            Err(e) => Err(e),
        }
    } else if c == 0x5b {
        let k = e_skip_ws(s, j + 1);
        if k < len && s[k] == 0x5d {
            Ok((DocValue::Items(Vec::new()), k + 1))
        } else {
            match p_items(s, j + 1, Ghost((fuel - 1) as nat)) {
                Ok((items, end)) => Ok((DocValue::Items(items), end)),
                Err(e) => Err(e),
            }
        }
    } else if c == 0x7b {
        let k = e_skip_ws(s, j + 1);
        if k < len && s[k] == 0x7d {
            Ok((DocValue::Entries(Vec::new()), k + 1))
        } else {
            match p_entries(s, j + 1, Ghost((fuel - 1) as nat)) {
                Ok((entries, end)) => Ok((DocValue::Entries(entries), end)),
                Err(e) => Err(e),
            }
        }
    } else if c == 0x2d || (0x30 <= c && c <= 0x39) {
        p_number(s, j)
    } else {
        Err(FormatIssue::Syntax)
    }
}

/// One or more comma-separated elements and the closing bracket.
fn p_items(s: &Vec<u8>, i: usize, Ghost(fuel): Ghost<nat>) -> (r: Result<
    (Vec<DocValue>, usize),
    FormatIssue,
>)
    requires
        i <= s@.len(),
        fuel >= 2 * (s@.len() - i) + 2,
    ensures
        match (r, json_items_at(s@, i as int, fuel)) {
            (Result::Ok((vs, j)), Result::Ok(p)) => doc_list_model(vs@) == p.0 && j == p.1 && i < j
                <= s@.len(),
            (Result::Err(a), Result::Err(b)) => a == b,
            _ => false,
        },
    decreases s@.len() - i, 1int,
{
    let len = s.len();
    match p_value(s, i, Ghost((fuel - 1) as nat)) {
        Err(e) => Err(e),
        Ok((v, j)) => {
            let k = e_skip_ws(s, j);
            if k < len && s[k] == 0x2c {
                match p_items(s, k + 1, Ghost((fuel - 1) as nat)) {
                    Err(e) => Err(e),
                    Ok((mut rest, m)) => {
                        let ghost pre = rest@;
                        rest.insert(0, v);
                        proof {
                            assert(rest@.subrange(1, rest@.len() as int) =~= pre);
                            assert(doc_list_model(rest@) =~= seq![v.model()] + doc_list_model(
                                pre,
                            ));
                        }
                        Ok((rest, m))
                    },
                }
            } else if k < len && s[k] == 0x5d {
                let mut one: Vec<DocValue> = Vec::new();
                one.push(v);
                proof {
                    assert(one@.subrange(1, 1) =~= Seq::<DocValue>::empty());
                    assert(doc_list_model(one@.subrange(1, 1)) =~= Seq::<DocModel>::empty());
                    assert(doc_list_model(one@) =~= seq![v.model()]);
                }
                Ok((one, k + 1))
            } else {
                Err(FormatIssue::Syntax)
            }
        },
    }
}

/// One or more key-value entries and the closing brace.
fn p_entries(s: &Vec<u8>, i: usize, Ghost(fuel): Ghost<nat>) -> (r: Result<
    (Vec<(String, DocValue)>, usize),
    FormatIssue,
>)
    requires
        i <= s@.len(),
        fuel >= 2 * (s@.len() - i) + 2,
    ensures
        match (r, json_entries_at(s@, i as int, fuel)) {
            (Result::Ok((es, j)), Result::Ok(p)) => doc_entries_model(es@) == p.0 && j == p.1 && i
                < j <= s@.len(),
            (Result::Err(a), Result::Err(b)) => a == b,
            _ => false,
        },
    decreases s@.len() - i, 1int,
{
    let len = s.len();
    let j = e_skip_ws(s, i);
    if j >= len || s[j] != 0x22 {
        return Err(FormatIssue::Syntax);
    }
    match p_string(s, j + 1) {
        Err(e) => Err(e),
        Ok((key, j2)) => {
            let j3 = e_skip_ws(s, j2);
            if j3 >= len || s[j3] != 0x3a {
                return Err(FormatIssue::Syntax);
            }
            match p_value(s, j3 + 1, Ghost((fuel - 1) as nat)) {
                Err(e) => Err(e),
                Ok((v, j4)) => {
                    let k = e_skip_ws(s, j4);
                    if k < len && s[k] == 0x2c {
                        match p_entries(s, k + 1, Ghost((fuel - 1) as nat)) {
                            Err(e) => Err(e),
                            Ok((mut rest, m)) => {
                                let ghost pre = rest@;
                                rest.insert(0, (key, v));
                                proof {
                                    assert(rest@.subrange(1, rest@.len() as int) =~= pre);
                                    assert(doc_entries_model(rest@) =~= seq![(key@, v.model())]
                                        + doc_entries_model(pre));
                                }
                                Ok((rest, m))
                            },
                        }
                    } else if k < len && s[k] == 0x7d {
                        let mut one: Vec<(String, DocValue)> = Vec::new();
                        one.push((key, v));
                        proof {
                            assert(one@.subrange(1, 1) =~= Seq::<(String, DocValue)>::empty());
                            assert(doc_entries_model(one@.subrange(1, 1)) =~= Seq::<
                                (Seq<char>, DocModel),
                            >::empty());
                            assert(doc_entries_model(one@) =~= seq![(key@, v.model())]);
                        }
                        Ok((one, k + 1))
                    } else {
                        Err(FormatIssue::Syntax)
                    }
                },
            }
        },
    }
}

/// Parse a whole document payload.
pub fn parse_json(s: &Vec<u8>) -> (r: Result<DocValue, FormatIssue>)
    ensures
        match (r, json_doc(s@)) {
            (Result::Ok(v), Result::Ok(m)) => v.model() == m,
            (Result::Err(a), Result::Err(b)) => a == b,
            _ => false,
        },
{
    match p_value(s, 0, Ghost((2 * s@.len() + 1) as nat)) {
        Err(e) => Err(e),
        Ok((v, j)) => {
            let k = e_skip_ws(s, j);
            if k == s.len() {
                Ok(v)
            } else {
                Err(FormatIssue::Syntax)
            }
        },
    }
}

} // verus!
