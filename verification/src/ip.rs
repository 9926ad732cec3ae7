//! The identity resolver: parsing and canonical re-serialization of textual
//! IPv4 and IPv6 addresses.
//!
//! A client identity arrives as the value of a forwarded-IP header.  The
//! resolver accepts the standard textual forms — dotted-quad IPv4 without
//! leading zeros, and IPv6 as colon-separated hexadecimal groups with an
//! optional `::` gap and an optional embedded dotted quad in the final
//! position — and re-serializes every address into one canonical encoding:
//! the dotted quad for IPv4, and the full eight lowercase hexadecimal groups
//! without leading zeros for IPv6.  The canonical encoding is stable: parsing
//! a canonical string yields the address it was printed from, so repeated
//! round-trips never change it.

use vstd::prelude::*;

verus! {

// ---------------------------------------------------------------------------
// Characters and digits
// ---------------------------------------------------------------------------

/// `c` is a decimal digit.
pub open spec fn is_digit(c: char) -> bool {
    48 <= c as int && c as int <= 57  // '0' ..= '9'
}

/// Numeric value of a decimal digit.
pub open spec fn digit_val(c: char) -> int {
    c as int - 48
}

/// Value denoted by a sequence of decimal digits, most significant first.
pub open spec fn dec_value(s: Seq<char>) -> int
    decreases s.len(),
{
    if s.len() == 0 {
        0
    } else {
        dec_value(s.drop_last()) * 10 + digit_val(s.last())
    }
}

/// Every character of `s` is a decimal digit.
pub open spec fn all_digits(s: Seq<char>) -> bool {
    forall|j: int| 0 <= j < s.len() ==> is_digit(s[j])
}

/// The digit character for a value between 0 and 9.
pub open spec fn digit_char(d: int) -> char {
    if d == 0 { '0' }
    else if d == 1 { '1' }
    else if d == 2 { '2' }
    else if d == 3 { '3' }
    else if d == 4 { '4' }
    else if d == 5 { '5' }
    else if d == 6 { '6' }
    else if d == 7 { '7' }
    else if d == 8 { '8' }
    else { '9' }
}

/// Canonical decimal text of a nonnegative number: no leading zeros.
pub open spec fn dec_text(n: int) -> Seq<char>
    decreases n,
{
    if n <= 9 {
        seq![digit_char(n)]
    } else {
        dec_text(n / 10).push(digit_char(n % 10))
    }
}

/// The canonical decimal text of an octet value is a well-formed octet text
/// denoting that value.
pub proof fn lemma_dec_text_octet(n: int)
    requires
        0 <= n <= 255,
    ensures
        all_digits(dec_text(n)),
        1 <= dec_text(n).len() <= 3,
        n <= 9 ==> dec_text(n).len() == 1,
        n <= 99 ==> dec_text(n).len() <= 2,
        dec_value(dec_text(n)) == n,
        n >= 10 ==> dec_text(n)[0] != '0',
        is_octet_text(dec_text(n)),
    decreases n,
{
    if n <= 9 {
        assert(dec_text(n) =~= seq![digit_char(n)]);
        assert(dec_value(seq![digit_char(n)].drop_last()) == 0) by {
            assert(seq![digit_char(n)].drop_last() =~= Seq::<char>::empty());
        }
    } else {
        let q = n / 10;
        let r = n % 10;
        lemma_dec_text_octet(q);
        assert(dec_text(q).push(digit_char(r)).drop_last() =~= dec_text(q));
        assert(dec_text(n)[0] == dec_text(q)[0]);
        if q <= 9 {
            assert(dec_text(q)[0] == digit_char(q));
        }
    }
}

// ---------------------------------------------------------------------------
// Finding a separator
// ---------------------------------------------------------------------------

/// Index of the first occurrence of `c` in `s`, or -1 if `c` does not occur.
pub open spec fn find_char(s: Seq<char>, c: char) -> int
    decreases s.len(),
{
    if s.len() == 0 {
        -1
    } else if s[0] == c {
        0
    } else if find_char(s.drop_first(), c) == -1 {
        -1
    } else {
        find_char(s.drop_first(), c) + 1
    }
}

/// A found occurrence lies inside the sequence.
pub proof fn lemma_find_char_range(s: Seq<char>, c: char)
    ensures
        find_char(s, c) >= 0 ==> find_char(s, c) < s.len(),
    decreases s.len(),
{
    if s.len() > 0 && s[0] != c {
        lemma_find_char_range(s.drop_first(), c);
    }
}

/// If `c` occurs first at `i`, then `find_char` returns `i`.
pub proof fn lemma_find_char_at(s: Seq<char>, c: char, i: int)
    requires
        0 <= i < s.len(),
        s[i] == c,
        forall|j: int| 0 <= j < i ==> s[j] != c,
    ensures
        find_char(s, c) == i,
    decreases s.len(),
{
    if i > 0 {
        assert(forall|j: int| 0 <= j < s.drop_first().len() ==> s.drop_first()[j] == s[j + 1]);
        lemma_find_char_at(s.drop_first(), c, i - 1);
    }
}

/// If `c` does not occur in `s`, then `find_char` returns -1.
pub proof fn lemma_find_char_none(s: Seq<char>, c: char)
    requires
        forall|j: int| 0 <= j < s.len() ==> s[j] != c,
    ensures
        find_char(s, c) == -1,
    decreases s.len(),
{
    if s.len() > 0 {
        assert(forall|j: int| 0 <= j < s.drop_first().len() ==> s.drop_first()[j] == s[j + 1]);
        lemma_find_char_none(s.drop_first(), c);
    }
}

/// First occurrence of `c` in `s`, as executable code.
pub fn find_in_str(s: &str, c: char) -> (r: Option<usize>)
    ensures
        match r {
            Some(i) => i == find_char(s@, c) && i < s@.len(),
            None => find_char(s@, c) == -1,
        },
{
    let n = s.unicode_len();
    let mut i: usize = 0;
    while i < n
        invariant
            i <= n,
            n == s@.len(),
            forall|j: int| 0 <= j < i ==> s@[j] != c,
        decreases n - i,
    {
        if s.get_char(i) == c {
            proof {
                lemma_find_char_at(s@, c, i as int);
            }
            return Some(i);
        }
        i = i + 1;
    }
    proof {
        lemma_find_char_none(s@, c);
    }
    None
}

// ---------------------------------------------------------------------------
// IPv4
// ---------------------------------------------------------------------------

/// An IPv4 address: four octets.
#[derive(Clone, Copy, Debug, PartialEq, Eq, Hash, Structural)]
pub struct Ipv4 {
    pub o0: u8,
    pub o1: u8,
    pub o2: u8,
    pub o3: u8,
}

/// `s` is a well-formed octet text: one to three decimal digits, no leading
/// zero, value at most 255.
pub open spec fn is_octet_text(s: Seq<char>) -> bool {
    &&& 1 <= s.len() <= 3
    &&& all_digits(s)
    &&& (s.len() > 1 ==> s[0] != '0')
    &&& dec_value(s) <= 255
}

/// The octet a well-formed octet text denotes.
pub open spec fn parse_octet(s: Seq<char>) -> Option<u8> {
    if is_octet_text(s) {
        Some(dec_value(s) as u8)
    } else {
        None
    }
}

/// The IPv4 address a dotted-quad text denotes, if it is well formed.
pub open spec fn spec_parse_ipv4(s: Seq<char>) -> Option<Ipv4> {
    let i1 = find_char(s, '.');
    if i1 < 0 {
        None
    } else {
        let p0 = s.subrange(0, i1);
        let r1 = s.subrange(i1 + 1, s.len() as int);
        let i2 = find_char(r1, '.');
        if i2 < 0 {
            None
        } else {
            let p1 = r1.subrange(0, i2);
            let r2 = r1.subrange(i2 + 1, r1.len() as int);
            let i3 = find_char(r2, '.');
            if i3 < 0 {
                None
            } else {
                let p2 = r2.subrange(0, i3);
                let p3 = r2.subrange(i3 + 1, r2.len() as int);
                match (parse_octet(p0), parse_octet(p1), parse_octet(p2), parse_octet(p3)) {
                    (Some(o0), Some(o1), Some(o2), Some(o3)) => Some(Ipv4 { o0, o1, o2, o3 }),
                    _ => None,
                }
            }
        }
    }
}

/// The canonical dotted-quad text of an IPv4 address.
pub open spec fn ipv4_text(a: Ipv4) -> Seq<char> {
    dec_text(a.o0 as int) + seq!['.'] + dec_text(a.o1 as int) + seq!['.'] + dec_text(a.o2 as int)
        + seq!['.'] + dec_text(a.o3 as int)
}

/// Parses one octet of a dotted quad.
fn parse_octet_str(s: &str) -> (r: Option<u8>)
    ensures
        r == parse_octet(s@),
{
    let n = s.unicode_len();
    if n < 1 || n > 3 {
        return None;
    }
    if n > 1 && s.get_char(0) == '0' {
        return None;
    }
    let mut val: u16 = 0;
    let mut i: usize = 0;
    while i < n
        invariant
            i <= n,
            n == s@.len(),
            n <= 3,
            val == dec_value(s@.subrange(0, i as int)),
            i == 0 ==> val == 0,
            i == 1 ==> val <= 9,
            i == 2 ==> val <= 99,
            i == 3 ==> val <= 999,
            all_digits(s@.subrange(0, i as int)),
        decreases n - i,
    {
        let c = s.get_char(i);
        let code = c as u32;
        if code < 48 || code > 57 {
            proof {
                assert(!is_digit(s@[i as int]));
                assert(!all_digits(s@));
            }
            return None;
        }
        proof {
            assert(s@.subrange(0, i as int + 1).drop_last() =~= s@.subrange(0, i as int));
            assert(s@.subrange(0, i as int + 1).last() == s@[i as int]);
        }
        val = val * 10 + ((code - 48) as u16);
        i = i + 1;
    }
    proof {
        assert(s@.subrange(0, n as int) =~= s@);
    }
    if val > 255 {
        return None;
    }
    Some(val as u8)
}

/// Parses a dotted-quad IPv4 text.
pub fn parse_ipv4(s: &str) -> (r: Option<Ipv4>)
    ensures
        r == spec_parse_ipv4(s@),
{
    let n = s.unicode_len();
    let i1 = match find_in_str(s, '.') {
        Some(i) => i,
        None => {
            return None;
        },
    };
    let rest1 = s.substring_char(i1 + 1, n);
    let n1 = rest1.unicode_len();
    let i2 = match find_in_str(rest1, '.') {
        Some(i) => i,
        None => {
            return None;
        },
    };
    let rest2 = rest1.substring_char(i2 + 1, n1);
    let n2 = rest2.unicode_len();
    let i3 = match find_in_str(rest2, '.') {
        Some(i) => i,
        None => {
            return None;
        },
    };
    let p0 = s.substring_char(0, i1);
    let p1 = rest1.substring_char(0, i2);
    let p2 = rest2.substring_char(0, i3);
    let p3 = rest2.substring_char(i3 + 1, n2);
    let o0 = match parse_octet_str(p0) {
        Some(v) => v,
        None => {
            return None;
        },
    };
    let o1 = match parse_octet_str(p1) {
        Some(v) => v,
        None => {
            return None;
        },
    };
    let o2 = match parse_octet_str(p2) {
        Some(v) => v,
        None => {
            return None;
        },
    };
    let o3 = match parse_octet_str(p3) {
        Some(v) => v,
        None => {
            return None;
        },
    };
    Some(Ipv4 { o0, o1, o2, o3 })
}

/// The digit character of a value below ten, as a string.
fn digit_str(d: u8) -> (r: &'static str)
    requires
        d <= 9,
    ensures
        r@ =~= seq![digit_char(d as int)],
{
    proof {
        reveal_strlit("0");
        reveal_strlit("1");
        reveal_strlit("2");
        reveal_strlit("3");
        reveal_strlit("4");
        reveal_strlit("5");
        reveal_strlit("6");
        reveal_strlit("7");
        reveal_strlit("8");
        reveal_strlit("9");
    }
    match d {
        0 => "0",
        1 => "1",
        2 => "2",
        3 => "3",
        4 => "4",
        5 => "5",
        6 => "6",
        7 => "7",
        8 => "8",
        _ => "9",
    }
}

/// Appends the canonical decimal text of `n` to `out`.
fn push_u8_dec(out: &mut String, n: u8)
    ensures
        final(out)@ == old(out)@ + dec_text(n as int),
    decreases n,
{
    if n <= 9 {
        out.append(digit_str(n));
    } else {
        push_u8_dec(out, n / 10);
        out.append(digit_str(n % 10));
        proof {
            assert(dec_text(n as int / 10).push(digit_char(n as int % 10)) =~= dec_text(
                n as int / 10,
            ) + seq![digit_char(n as int % 10)]);
            assert(old(out)@ + dec_text(n as int) =~= old(out)@ + dec_text(n as int / 10) + seq![
                digit_char(n as int % 10),
            ]);
        }
    }
}

/// The canonical dotted-quad string of an IPv4 address.
pub fn ipv4_string(a: &Ipv4) -> (r: String)
    ensures
        r@ == ipv4_text(*a),
{
    let mut out = String::new();
    push_u8_dec(&mut out, a.o0);
    out.append(".");
    push_u8_dec(&mut out, a.o1);
    out.append(".");
    push_u8_dec(&mut out, a.o2);
    out.append(".");
    push_u8_dec(&mut out, a.o3);
    proof {
        reveal_strlit(".");
        assert(out@ =~= ipv4_text(*a));
    }
    out
}

/// Parsing the canonical text of an IPv4 address yields that address back:
/// the dotted quad round-trips.
pub proof fn lemma_parse_ipv4_text(a: Ipv4)
    ensures
        spec_parse_ipv4(ipv4_text(a)) == Some(a),
{
    let t0 = dec_text(a.o0 as int);
    let t1 = dec_text(a.o1 as int);
    let t2 = dec_text(a.o2 as int);
    let t3 = dec_text(a.o3 as int);
    lemma_dec_text_octet(a.o0 as int);
    lemma_dec_text_octet(a.o1 as int);
    lemma_dec_text_octet(a.o2 as int);
    lemma_dec_text_octet(a.o3 as int);
    let s = ipv4_text(a);
    assert(s[t0.len() as int] == '.');
    lemma_find_char_at(s, '.', t0.len() as int);
    assert(s.subrange(0, t0.len() as int) =~= t0);
    let r1 = s.subrange(t0.len() as int + 1, s.len() as int);
    assert(r1 =~= t1 + seq!['.'] + t2 + seq!['.'] + t3);
    assert(r1[t1.len() as int] == '.');
    lemma_find_char_at(r1, '.', t1.len() as int);
    assert(r1.subrange(0, t1.len() as int) =~= t1);
    let r2 = r1.subrange(t1.len() as int + 1, r1.len() as int);
    assert(r2 =~= t2 + seq!['.'] + t3);
    assert(r2[t2.len() as int] == '.');
    lemma_find_char_at(r2, '.', t2.len() as int);
    assert(r2.subrange(0, t2.len() as int) =~= t2);
    assert(r2.subrange(t2.len() as int + 1, r2.len() as int) =~= t3);
}

// ---------------------------------------------------------------------------
// Hexadecimal groups
// ---------------------------------------------------------------------------

/// `c` is a hexadecimal digit, in either case.
pub open spec fn is_hex_digit(c: char) -> bool {
    ||| 48 <= c as int && c as int <= 57  // '0' ..= '9'
    ||| 97 <= c as int && c as int <= 102  // 'a' ..= 'f'
    ||| 65 <= c as int && c as int <= 70  // 'A' ..= 'F'
}

/// Numeric value of a hexadecimal digit.
pub open spec fn hex_val(c: char) -> int {
    if is_digit(c) {
        c as int - 48
    } else if 97 <= c as int {
        c as int - 87
    } else {
        c as int - 55
    }
}

/// Value denoted by a sequence of hexadecimal digits, most significant first.
pub open spec fn hex_value(s: Seq<char>) -> int
    decreases s.len(),
{
    if s.len() == 0 {
        0
    } else {
        hex_value(s.drop_last()) * 16 + hex_val(s.last())
    }
}

/// Every character of `s` is a hexadecimal digit.
pub open spec fn all_hex(s: Seq<char>) -> bool {
    forall|j: int| 0 <= j < s.len() ==> is_hex_digit(s[j])
}

/// `s` is a well-formed address group: one to four hexadecimal digits
/// (leading zeros and either case are accepted on input).
pub open spec fn is_hex_group(s: Seq<char>) -> bool {
    1 <= s.len() <= 4 && all_hex(s)
}

/// The lowercase hexadecimal digit character for a value below sixteen.
pub open spec fn hex_digit_char(d: int) -> char {
    if d <= 9 {
        digit_char(d)
    } else if d == 10 { 'a' }
    else if d == 11 { 'b' }
    else if d == 12 { 'c' }
    else if d == 13 { 'd' }
    else if d == 14 { 'e' }
    else { 'f' }
}

/// Canonical hexadecimal text of a nonnegative number: lowercase, no leading
/// zeros.
pub open spec fn hex_text(n: int) -> Seq<char>
    decreases n,
{
    if n <= 15 {
        seq![hex_digit_char(n)]
    } else {
        hex_text(n / 16).push(hex_digit_char(n % 16))
    }
}

/// The canonical hexadecimal text of a 16-bit value is a well-formed group
/// denoting that value.
pub proof fn lemma_hex_text_group(n: int)
    requires
        0 <= n <= 65535,
    ensures
        all_hex(hex_text(n)),
        1 <= hex_text(n).len() <= 4,
        hex_value(hex_text(n)) == n,
        is_hex_group(hex_text(n)),
        n <= 15 ==> hex_text(n).len() == 1,
        n <= 255 ==> hex_text(n).len() <= 2,
        n <= 4095 ==> hex_text(n).len() <= 3,
    decreases n,
{
    if n <= 15 {
        assert(hex_value(seq![hex_digit_char(n)].drop_last()) == 0) by {
            assert(seq![hex_digit_char(n)].drop_last() =~= Seq::<char>::empty());
        }
    } else {
        lemma_hex_text_group(n / 16);
        assert(hex_text(n / 16).push(hex_digit_char(n % 16)).drop_last() =~= hex_text(n / 16));
    }
}

// ---------------------------------------------------------------------------
// IPv6
// ---------------------------------------------------------------------------

/// An IPv6 address: eight 16-bit groups.
#[derive(Clone, Copy, Debug, PartialEq, Eq, Hash, Structural)]
pub struct Ipv6 {
    pub g0: u16,
    pub g1: u16,
    pub g2: u16,
    pub g3: u16,
    pub g4: u16,
    pub g5: u16,
    pub g6: u16,
    pub g7: u16,
}

/// The group values a list of colon-separated pieces denotes: each piece is a
/// hexadecimal group, except that the final piece may be a dotted quad, which
/// stands for the last two groups.  A piece list never contains an empty
/// piece, so any text with a `::` gap fails here.
pub open spec fn parse_piece_list(s: Seq<char>) -> Option<Seq<u16>>
    decreases s.len(),
    via parse_piece_list_dec
{
    let i = find_char(s, ':');
    if i < 0 {
        if is_hex_group(s) {
            Some(seq![hex_value(s) as u16])
        } else {
            match spec_parse_ipv4(s) {
                Some(a) => Some(
                    seq![
                        ((a.o0 as int) * 256 + (a.o1 as int)) as u16,
                        ((a.o2 as int) * 256 + (a.o3 as int)) as u16,
                    ],
                ),
                None => None,
            }
        }
    } else {
        let head = s.subrange(0, i);
        let tail = s.subrange(i + 1, s.len() as int);
        if is_hex_group(head) {
            match parse_piece_list(tail) {
                Some(r) => Some(seq![hex_value(head) as u16] + r),
                None => None,
            }
        } else {
            None
        }
    }
}

#[via_fn]
proof fn parse_piece_list_dec(s: Seq<char>) {
    lemma_find_char_range(s, ':');
}

/// Index of the first `::` in `s`, or -1 if none occurs.
pub open spec fn find_gap(s: Seq<char>) -> int
    decreases s.len(),
{
    if s.len() < 2 {
        -1
    } else if s[0] == ':' && s[1] == ':' {
        0
    } else if find_gap(s.drop_first()) == -1 {
        -1
    } else {
        find_gap(s.drop_first()) + 1
    }
}

/// If a `::` occurs first at `i`, then `find_gap` returns `i`.
pub proof fn lemma_find_gap_at(s: Seq<char>, i: int)
    requires
        0 <= i,
        i + 2 <= s.len(),
        s[i] == ':' && s[i + 1] == ':',
        forall|j: int| 0 <= j < i ==> !(#[trigger] s[j] == ':' && s[j + 1] == ':'),
    ensures
        find_gap(s) == i,
    decreases s.len(),
{
    if i > 0 {
        assert(forall|j: int| 0 <= j < s.drop_first().len() ==> s.drop_first()[j] == s[j + 1]);
        lemma_find_gap_at(s.drop_first(), i - 1);
    }
}

/// If no `::` occurs in `s`, then `find_gap` returns -1.
pub proof fn lemma_find_gap_none(s: Seq<char>)
    requires
        forall|j: int| 0 <= j && j + 1 < s.len() ==> !(#[trigger] s[j] == ':' && s[j + 1] == ':'),
    ensures
        find_gap(s) == -1,
    decreases s.len(),
{
    if s.len() >= 2 {
        assert(forall|j: int| 0 <= j < s.drop_first().len() ==> s.drop_first()[j] == s[j + 1]);
        lemma_find_gap_none(s.drop_first());
    }
}

/// The eight groups denoted by the pieces around a `::` gap: the gap stands
/// for as many zero groups as are needed to reach eight.
pub open spec fn gap_fill(left: Seq<u16>, right: Seq<u16>) -> Seq<u16> {
    left + Seq::new((8 - left.len() - right.len()) as nat, |k: int| 0u16) + right
}

/// The address with the given group values (the first eight are used).
pub open spec fn ipv6_from_groups(gs: Seq<u16>) -> Ipv6
    recommends
        gs.len() == 8,
{
    Ipv6 {
        g0: gs[0],
        g1: gs[1],
        g2: gs[2],
        g3: gs[3],
        g4: gs[4],
        g5: gs[5],
        g6: gs[6],
        g7: gs[7],
    }
}

/// The IPv6 address a text denotes, if it is well formed: either eight
/// colon-separated pieces, or pieces around a single `::` gap covering at
/// least one zero group.  A dotted quad may stand in the final position for
/// the last two groups; it may not appear before a gap.
pub open spec fn spec_parse_ipv6(s: Seq<char>) -> Option<Ipv6> {
    let d = find_gap(s);
    if d < 0 {
        match parse_piece_list(s) {
            Some(gs) => if gs.len() == 8 {
                Some(ipv6_from_groups(gs))
            } else {
                None
            },
            None => None,
        }
    } else {
        let left = s.subrange(0, d);
        let right = s.subrange(d + 2, s.len() as int);
        if find_char(left, '.') >= 0 {
            None
        } else {
            let lgs = if left.len() == 0 {
                Some(Seq::<u16>::empty())
            } else {
                parse_piece_list(left)
            };
            let rgs = if right.len() == 0 {
                Some(Seq::<u16>::empty())
            } else {
                parse_piece_list(right)
            };
            match (lgs, rgs) {
                (Some(l), Some(r)) => if l.len() + r.len() <= 7 {
                    Some(ipv6_from_groups(gap_fill(l, r)))
                } else {
                    None
                },
                _ => None,
            }
        }
    }
}

/// The canonical text of a list of groups: lowercase hexadecimal without
/// leading zeros, joined by single colons.
pub open spec fn groups_text(gs: Seq<u16>) -> Seq<char>
    decreases gs.len(),
{
    if gs.len() == 0 {
        Seq::empty()
    } else if gs.len() == 1 {
        hex_text(gs[0] as int)
    } else {
        hex_text(gs[0] as int) + seq![':'] + groups_text(gs.drop_first())
    }
}

/// The groups of an address, in order.
pub open spec fn ipv6_groups(a: Ipv6) -> Seq<u16> {
    seq![a.g0, a.g1, a.g2, a.g3, a.g4, a.g5, a.g6, a.g7]
}

/// The canonical text of an IPv6 address: all eight groups written out.
/// One fixed encoding is used for every address, so re-serialization is
/// stable; no `::` abbreviation is emitted.
pub open spec fn ipv6_text(a: Ipv6) -> Seq<char> {
    groups_text(ipv6_groups(a))
}

/// Parses one hexadecimal group.
fn parse_hex_group_str(s: &str) -> (r: Option<u16>)
    ensures
        is_hex_group(s@) ==> r == Some((hex_value(s@) as u16)),
        !is_hex_group(s@) ==> r is None,
{
    let n = s.unicode_len();
    if n < 1 || n > 4 {
        return None;
    }
    let mut val: u32 = 0;
    let mut i: usize = 0;
    while i < n
        invariant
            i <= n,
            n == s@.len(),
            n <= 4,
            val == hex_value(s@.subrange(0, i as int)),
            i == 0 ==> val == 0,
            i == 1 ==> val < 16,
            i == 2 ==> val < 256,
            i == 3 ==> val < 4096,
            i == 4 ==> val < 65536,
            all_hex(s@.subrange(0, i as int)),
        decreases n - i,
    {
        let c = s.get_char(i);
        let code = c as u32;
        let d: u32 = if 48 <= code && code <= 57 {
            code - 48
        } else if 97 <= code && code <= 102 {
            code - 87
        } else if 65 <= code && code <= 70 {
            code - 55
        } else {
            proof {
                assert(!is_hex_digit(s@[i as int]));
                assert(!all_hex(s@));
            }
            return None;
        };
        proof {
            assert(s@.subrange(0, i as int + 1).drop_last() =~= s@.subrange(0, i as int));
            assert(s@.subrange(0, i as int + 1).last() == s@[i as int]);
        }
        val = val * 16 + d;
        i = i + 1;
    }
    proof {
        assert(s@.subrange(0, n as int) =~= s@);
    }
    Some(val as u16)
}

/// First `::` in `s`, as executable code.
fn find_gap_str(s: &str) -> (r: Option<usize>)
    ensures
        match r {
            Some(i) => i == find_gap(s@) && i + 2 <= s@.len(),
            None => find_gap(s@) == -1,
        },
{
    let n = s.unicode_len();
    if n < 2 {
        proof {
            lemma_find_gap_none(s@);
        }
        return None;
    }
    let mut i: usize = 0;
    while i + 1 < n
        invariant
            n == s@.len(),
            i + 1 <= n,
            forall|j: int| 0 <= j < i ==> !(#[trigger] s@[j] == ':' && s@[j + 1] == ':'),
        decreases n - i,
    {
        if s.get_char(i) == ':' && s.get_char(i + 1) == ':' {
            proof {
                lemma_find_gap_at(s@, i as int);
            }
            return Some(i);
        }
        i = i + 1;
    }
    proof {
        lemma_find_gap_none(s@);
    }
    None
}

/// Parses a list of colon-separated pieces.
fn parse_piece_list_str(s: &str) -> (r: Option<Vec<u16>>)
    ensures
        match r {
            Some(v) => parse_piece_list(s@) == Some(v@),
            None => parse_piece_list(s@) is None,
        },
    decreases s@.len(),
{
    let n = s.unicode_len();
    match find_in_str(s, ':') {
        None => {
            match parse_hex_group_str(s) {
                Some(v) => Some(vec![v]),
                None => {
                    match parse_ipv4(s) {
                        Some(a) => {
                            let hi: u16 = (a.o0 as u16) * 256 + (a.o1 as u16);
                            let lo: u16 = (a.o2 as u16) * 256 + (a.o3 as u16);
                            Some(vec![hi, lo])
                        },
                        None => None,
                    }
                },
            }
        },
        Some(i) => {
            let head = s.substring_char(0, i);
            let tail = s.substring_char(i + 1, n);
            match parse_hex_group_str(head) {
                Some(v) => {
                    match parse_piece_list_str(tail) {
                        Some(mut rest) => {
                            let mut out: Vec<u16> = vec![v];
                            out.append(&mut rest);
                            proof {
                                assert(out@ =~= seq![hex_value(s@.subrange(0, i as int)) as u16]
                                    + parse_piece_list(s@.subrange(i as int + 1, s@.len() as int)).unwrap());
                            }
                            Some(out)
                        },
                        None => None,
                    }
                },
                None => None,
            }
        },
    }
}

/// Parses an IPv6 text.
pub fn parse_ipv6(s: &str) -> (r: Option<Ipv6>)
    ensures
        r == spec_parse_ipv6(s@),
{
    let n = s.unicode_len();
    match find_gap_str(s) {
        None => {
            match parse_piece_list_str(s) {
                Some(gs) => {
                    if gs.len() == 8 {
                        Some(
                            Ipv6 {
                                g0: gs[0],
                                g1: gs[1],
                                g2: gs[2],
                                g3: gs[3],
                                g4: gs[4],
                                g5: gs[5],
                                g6: gs[6],
                                g7: gs[7],
                            },
                        )
                    } else {
                        None
                    }
                },
                None => None,
            }
        },
        Some(d) => {
            let left = s.substring_char(0, d);
            let right = s.substring_char(d + 2, n);
            match find_in_str(left, '.') {
                Some(_) => None,
                None => {
                    let lgs = if left.unicode_len() == 0 {
                        Some(Vec::<u16>::new())
                    } else {
                        parse_piece_list_str(left)
                    };
                    let rgs = if right.unicode_len() == 0 {
                        Some(Vec::<u16>::new())
                    } else {
                        parse_piece_list_str(right)
                    };
                    match (lgs, rgs) {
                        (Some(l), Some(rg)) => {
                            if l.len() <= 7 && rg.len() <= 7 - l.len() {
                                let mut groups: Vec<u16> = Vec::new();
                                let mut k: usize = 0;
                                while k < l.len()
                                    invariant
                                        k <= l.len(),
                                        groups@ =~= l@.subrange(0, k as int),
                                    decreases l.len() - k,
                                {
                                    groups.push(l[k]);
                                    k = k + 1;
                                }
                                let zeros = 8 - l.len() - rg.len();
                                let mut z: usize = 0;
                                while z < zeros
                                    invariant
                                        z <= zeros,
                                        zeros == 8 - l@.len() - rg@.len(),
                                        groups@ =~= l@ + Seq::new(z as nat, |q: int| 0u16),
                                    decreases zeros - z,
                                {
                                    groups.push(0);
                                    z = z + 1;
                                }
                                let mut k2: usize = 0;
                                while k2 < rg.len()
                                    invariant
                                        k2 <= rg.len(),
                                        zeros == 8 - l@.len() - rg@.len(),
                                        groups@ =~= l@ + Seq::new(zeros as nat, |q: int| 0u16)
                                            + rg@.subrange(0, k2 as int),
                                    decreases rg.len() - k2,
                                {
                                    groups.push(rg[k2]);
                                    k2 = k2 + 1;
                                }
                                proof {
                                    assert(groups@ =~= gap_fill(l@, rg@));
                                }
                                Some(
                                    Ipv6 {
                                        g0: groups[0],
                                        g1: groups[1],
                                        g2: groups[2],
                                        g3: groups[3],
                                        g4: groups[4],
                                        g5: groups[5],
                                        g6: groups[6],
                                        g7: groups[7],
                                    },
                                )
                            } else {
                                None
                            }
                        },
                        _ => None,
                    }
                },
            }
        },
    }
}

/// The lowercase hexadecimal digit character of a value below sixteen, as a
/// string.
fn hex_digit_str(d: u16) -> (r: &'static str)
    requires
        d <= 15,
    ensures
        r@ =~= seq![hex_digit_char(d as int)],
{
    proof {
        reveal_strlit("a");
        reveal_strlit("b");
        reveal_strlit("c");
        reveal_strlit("d");
        reveal_strlit("e");
        reveal_strlit("f");
    }
    if d <= 9 {
        digit_str(d as u8)
    } else {
        match d {
            10 => "a",
            11 => "b",
            12 => "c",
            13 => "d",
            14 => "e",
            _ => "f",
        }
    }
}

/// Appends the canonical hexadecimal text of `n` to `out`.
fn push_u16_hex(out: &mut String, n: u16)
    ensures
        final(out)@ == old(out)@ + hex_text(n as int),
    decreases n,
{
    if n <= 15 {
        out.append(hex_digit_str(n));
    } else {
        push_u16_hex(out, n / 16);
        out.append(hex_digit_str(n % 16));
        proof {
            assert(hex_text(n as int / 16).push(hex_digit_char(n as int % 16)) =~= hex_text(
                n as int / 16,
            ) + seq![hex_digit_char(n as int % 16)]);
            assert(old(out)@ + hex_text(n as int) =~= old(out)@ + hex_text(n as int / 16) + seq![
                hex_digit_char(n as int % 16),
            ]);
        }
    }
}

/// The canonical string of an IPv6 address: all eight groups, lowercase.
pub fn ipv6_string(a: &Ipv6) -> (r: String)
    ensures
        r@ == ipv6_text(*a),
{
    let mut out = String::new();
    push_u16_hex(&mut out, a.g0);
    out.append(":");
    push_u16_hex(&mut out, a.g1);
    out.append(":");
    push_u16_hex(&mut out, a.g2);
    out.append(":");
    push_u16_hex(&mut out, a.g3);
    out.append(":");
    push_u16_hex(&mut out, a.g4);
    out.append(":");
    push_u16_hex(&mut out, a.g5);
    out.append(":");
    push_u16_hex(&mut out, a.g6);
    out.append(":");
    push_u16_hex(&mut out, a.g7);
    proof {
        reveal_strlit(":");
        lemma_groups_text_unrolled(*a);
        assert(out@ =~= ipv6_text(*a));
    }
    out
}

/// The canonical text of eight groups, written out without the recursion.
#[verifier::rlimit(50)]
proof fn lemma_groups_text_unrolled(a: Ipv6)
    ensures
        ipv6_text(a) == hex_text(a.g0 as int) + seq![':'] + hex_text(a.g1 as int) + seq![':']
            + hex_text(a.g2 as int) + seq![':'] + hex_text(a.g3 as int) + seq![':'] + hex_text(
            a.g4 as int,
        ) + seq![':'] + hex_text(a.g5 as int) + seq![':'] + hex_text(a.g6 as int) + seq![':']
            + hex_text(a.g7 as int),
{
    let s7 = seq![a.g7];
    let s6 = seq![a.g6, a.g7];
    let s5 = seq![a.g5, a.g6, a.g7];
    let s4 = seq![a.g4, a.g5, a.g6, a.g7];
    let s3 = seq![a.g3, a.g4, a.g5, a.g6, a.g7];
    let s2 = seq![a.g2, a.g3, a.g4, a.g5, a.g6, a.g7];
    let s1 = seq![a.g1, a.g2, a.g3, a.g4, a.g5, a.g6, a.g7];
    let s0 = ipv6_groups(a);
    assert(s0.drop_first() =~= s1);
    assert(s1.drop_first() =~= s2);
    assert(s2.drop_first() =~= s3);
    assert(s3.drop_first() =~= s4);
    assert(s4.drop_first() =~= s5);
    assert(s5.drop_first() =~= s6);
    assert(s6.drop_first() =~= s7);
    let t7 = hex_text(a.g7 as int);
    let t6 = hex_text(a.g6 as int) + seq![':'] + t7;
    let t5 = hex_text(a.g5 as int) + seq![':'] + t6;
    let t4 = hex_text(a.g4 as int) + seq![':'] + t5;
    let t3 = hex_text(a.g3 as int) + seq![':'] + t4;
    let t2 = hex_text(a.g2 as int) + seq![':'] + t3;
    let t1 = hex_text(a.g1 as int) + seq![':'] + t2;
    let t0 = hex_text(a.g0 as int) + seq![':'] + t1;
    assert(groups_text(s7) == t7);
    assert(groups_text(s6) == t6);
    assert(groups_text(s5) == t5);
    assert(groups_text(s4) == t4);
    assert(groups_text(s3) == t3);
    assert(groups_text(s2) == t2);
    assert(groups_text(s1) == t1);
    assert(ipv6_text(a) == t0);
    assert(t0 =~= hex_text(a.g0 as int) + seq![':'] + hex_text(a.g1 as int) + seq![':']
        + hex_text(a.g2 as int) + seq![':'] + hex_text(a.g3 as int) + seq![':'] + hex_text(
        a.g4 as int,
    ) + seq![':'] + hex_text(a.g5 as int) + seq![':'] + hex_text(a.g6 as int) + seq![':']
        + hex_text(a.g7 as int));
}

/// A piece list parses the canonical text of any group list back to the very
/// groups it was printed from.
pub proof fn lemma_parse_groups_text(gs: Seq<u16>)
    requires
        1 <= gs.len(),
    ensures
        parse_piece_list(groups_text(gs)) == Some(gs),
    decreases gs.len(),
{
    let t = groups_text(gs);
    lemma_hex_text_group(gs[0] as int);
    let h = hex_text(gs[0] as int);
    if gs.len() == 1 {
        assert(t == h);
        assert(forall|j: int| 0 <= j < t.len() ==> #[trigger] t[j] != ':') by {
            assert(forall|j: int| 0 <= j < h.len() ==> is_hex_digit(#[trigger] h[j]));
        }
        lemma_find_char_none(t, ':');
        assert(seq![hex_value(t) as u16] =~= gs);
    } else {
        let rest = groups_text(gs.drop_first());
        assert(forall|j: int| 0 <= j < h.len() ==> #[trigger] t[j] == h[j]);
        assert(t[h.len() as int] == ':');
        assert(forall|j: int| 0 <= j < h.len() ==> #[trigger] t[j] != ':') by {
            assert(forall|j: int| 0 <= j < h.len() ==> is_hex_digit(#[trigger] h[j]));
        }
        lemma_find_char_at(t, ':', h.len() as int);
        assert(t.subrange(0, h.len() as int) =~= h);
        assert(t.subrange(h.len() as int + 1, t.len() as int) =~= rest);
        lemma_parse_groups_text(gs.drop_first());
        assert(seq![hex_value(h) as u16] + gs.drop_first() =~= gs);
    }
}

/// Shape of canonical group text: it opens with a hexadecimal digit, every
/// character is a hexadecimal digit or a colon, and no two colons are
/// adjacent.
pub proof fn lemma_groups_text_shape(gs: Seq<u16>)
    requires
        1 <= gs.len(),
    ensures
        groups_text(gs).len() >= 1,
        is_hex_digit(groups_text(gs)[0]),
        forall|j: int|
            0 <= j < groups_text(gs).len() ==> (is_hex_digit(#[trigger] groups_text(gs)[j])
                || groups_text(gs)[j] == ':'),
        forall|j: int|
            0 <= j && j + 1 < groups_text(gs).len() ==> !(#[trigger] groups_text(gs)[j] == ':'
                && groups_text(gs)[j + 1] == ':'),
    decreases gs.len(),
{
    let t = groups_text(gs);
    lemma_hex_text_group(gs[0] as int);
    let h = hex_text(gs[0] as int);
    if gs.len() == 1 {
        assert(t == h);
        assert(forall|j: int| 0 <= j < h.len() ==> is_hex_digit(#[trigger] h[j]));
    } else {
        lemma_groups_text_shape(gs.drop_first());
        let rest = groups_text(gs.drop_first());
        assert(forall|j: int| 0 <= j < h.len() ==> #[trigger] t[j] == h[j]);
        assert(t[h.len() as int] == ':');
        assert(forall|j: int|
            h.len() + 1 <= j < t.len() ==> #[trigger] t[j] == rest[j - h.len() - 1]);
        assert(forall|j: int| 0 <= j < h.len() ==> is_hex_digit(#[trigger] h[j]));
        assert forall|j: int| 0 <= j && j + 1 < t.len() implies !(#[trigger] t[j] == ':' && t[j
            + 1] == ':') by {
            if j < h.len() {
                assert(is_hex_digit(t[j]));
            } else if j == h.len() {
                assert(t[j + 1] == rest[0]);
                assert(is_hex_digit(rest[0]));
            } else {
                assert(t[j] == rest[j - h.len() - 1]);
                assert(t[j + 1] == rest[j - h.len()]);
            }
        }
    }
}

/// Parsing the canonical text of an IPv6 address yields that address back,
/// and the canonical text never reads as an IPv4 address.
pub proof fn lemma_parse_ipv6_text(a: Ipv6)
    ensures
        spec_parse_ipv6(ipv6_text(a)) == Some(a),
        spec_parse_ipv4(ipv6_text(a)) is None,
{
    let gs = ipv6_groups(a);
    let t = ipv6_text(a);
    lemma_groups_text_shape(gs);
    lemma_find_gap_none(t);
    lemma_parse_groups_text(gs);
    assert(ipv6_from_groups(gs) == a);
    assert(forall|j: int| 0 <= j < t.len() ==> #[trigger] t[j] != '.') by {
        assert(forall|j: int|
            0 <= j < t.len() ==> (is_hex_digit(#[trigger] t[j]) || t[j] == ':'));
    }
    lemma_find_char_none(t, '.');
}

// ---------------------------------------------------------------------------
// Addresses of either family
// ---------------------------------------------------------------------------

/// A validated client IP address.
#[derive(Clone, Copy, Debug, PartialEq, Eq, Structural)]
pub enum IpAddress {
    V4(Ipv4),
    V6(Ipv6),
}

/// The address a text denotes, trying the dotted quad first (no text denotes
/// both: an IPv6 text always contains a colon and an IPv4 text never does).
pub open spec fn spec_parse_ip(s: Seq<char>) -> Option<IpAddress> {
    match spec_parse_ipv4(s) {
        Some(a) => Some(IpAddress::V4(a)),
        None => match spec_parse_ipv6(s) {
            Some(b) => Some(IpAddress::V6(b)),
            None => None,
        },
    }
}

/// The canonical text of an address.
pub open spec fn ip_text(a: IpAddress) -> Seq<char> {
    match a {
        IpAddress::V4(x) => ipv4_text(x),
        IpAddress::V6(x) => ipv6_text(x),
    }
}

/// The canonical re-serialization of a textual address, if the text is
/// well formed.
pub open spec fn canonical_ip(s: Seq<char>) -> Option<Seq<char>> {
    match spec_parse_ip(s) {
        Some(a) => Some(ip_text(a)),
        None => None,
    }
}

/// Parses a textual IPv4 or IPv6 address.
pub fn parse_ip(s: &str) -> (r: Option<IpAddress>)
    ensures
        r == spec_parse_ip(s@),
{
    match parse_ipv4(s) {
        Some(a) => Some(IpAddress::V4(a)),
        None => match parse_ipv6(s) {
            Some(b) => Some(IpAddress::V6(b)),
            None => None,
        },
    }
}

/// The canonical string of an address.
pub fn ip_string(a: &IpAddress) -> (r: String)
    ensures
        r@ == ip_text(*a),
{
    match a {
        IpAddress::V4(x) => ipv4_string(x),
        IpAddress::V6(x) => ipv6_string(x),
    }
}

/// Parsing the canonical text of any address yields that address back.
pub proof fn lemma_parse_ip_text(a: IpAddress)
    ensures
        spec_parse_ip(ip_text(a)) == Some(a),
{
    match a {
        IpAddress::V4(x) => lemma_parse_ipv4_text(x),
        IpAddress::V6(x) => lemma_parse_ipv6_text(x),
    }
}

/// Canonicalization is stable: re-serializing a parsed address gives a text
/// that parses to the same address, so repeated parse/serialize round-trips
/// of any well-formed address text never change the canonical string.
pub proof fn lemma_canonical_roundtrip(s: Seq<char>)
    requires
        canonical_ip(s) is Some,
    ensures
        spec_parse_ip(canonical_ip(s).unwrap()) == spec_parse_ip(s),
        canonical_ip(canonical_ip(s).unwrap()) == canonical_ip(s),
{
    lemma_parse_ip_text(spec_parse_ip(s).unwrap());
}

/// Resolves a client identity from the forwarded-IP header, if the header is
/// present and holds a well-formed address; the canonical string form of the
/// address is returned.  An absent header and a malformed value both resolve
/// to no identity; neither is an error.
pub fn resolve_client_ip(header: Option<&str>) -> (r: Option<String>)
    ensures
        match header {
            None => r is None,
            Some(h) => match spec_parse_ip(h@) {
                None => r is None,
                Some(a) => r matches Some(k) && k@ == ip_text(a),
            },
        },
{
    match header {
        None => None,
        Some(h) => match parse_ip(h) {
            Some(a) => Some(ip_string(&a)),
            None => None,
        },
    }
}

} // verus!

