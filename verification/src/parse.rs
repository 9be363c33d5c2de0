//! Parsing of textual addresses: IPv4 literals, decimal numbers, and
//! `host:port` pairs.
use vstd::prelude::*;

verus! {

/// Whether `c` is a decimal digit.
pub open spec fn is_dec_digit(c: char) -> bool {
    '0' <= c && c <= '9'
}

/// The numeric value of a decimal digit character.
pub open spec fn dec_val(c: char) -> int {
    c as int - '0' as int
}

/// The first index at or after `i` where `c` occurs, or the length of `s` if
/// it does not.
pub open spec fn find_char(s: Seq<char>, c: char, i: int) -> int
    decreases s.len() - i,
{
    if i < 0 || i >= s.len() {
        s.len() as int
    } else if s[i] == c {
        i
    } else {
        find_char(s, c, i + 1)
    }
}

/// `find_char` stays within the string: at or after `i`, at most the
/// length.
pub proof fn lemma_find_char_bounds(s: Seq<char>, c: char, i: int)
    requires
        0 <= i <= s.len(),
    ensures
        i <= find_char(s, c, i) <= s.len(),
    decreases s.len() - i,
{
    if i < s.len() && s[i] != c {
        lemma_find_char_bounds(s, c, i + 1);
    }
}

/// The value of the decimal digits `s[from..to]`, read most significant
/// first.
pub open spec fn dec_seq_val(s: Seq<char>, from: int, to: int) -> int
    decreases to - from,
{
    if from >= to {
        0
    } else {
        dec_seq_val(s, from, to - 1) * 10 + dec_val(s[to - 1])
    }
}

/// Whether `s[from..to]` consists only of decimal digits.
pub open spec fn all_dec_digits(s: Seq<char>, from: int, to: int) -> bool {
    forall|j: int| from <= j < to ==> is_dec_digit(s[j])
}

/// One octet of a dotted-quad literal, parsed greedily from index `i`:
/// at most three digits, no leading zero, value at most 255. Yields the
/// value and the index just past the octet.
pub open spec fn sp_octet(s: Seq<char>, i: int) -> Option<(int, int)> {
    if 0 <= i < s.len() && is_dec_digit(s[i]) {
        if s[i] == '0' {
            Some((0, i + 1))
        } else {
            let d0 = dec_val(s[i]);
            if i + 1 < s.len() && is_dec_digit(s[i + 1]) {
                let d1 = d0 * 10 + dec_val(s[i + 1]);
                if i + 2 < s.len() && is_dec_digit(s[i + 2]) {
                    let d2 = d1 * 10 + dec_val(s[i + 2]);
                    if d2 <= 255 {
                        Some((d2, i + 3))
                    } else {
                        None
                    }
                } else {
                    Some((d1, i + 2))
                }
            } else {
                Some((d0, i + 1))
            }
        }
    } else {
        None
    }
}

/// The IPv4 address made of four octet values.
pub open spec fn ipv4_from_octets(a: int, b: int, c: int, d: int) -> u32 {
    (a * 0x1000000 + b * 0x10000 + c * 0x100 + d) as u32
}

/// The IPv4 literal language: four octets separated by dots, spanning the
/// whole string. Yields the address value, or `None` when `s` is no IPv4
/// literal.
pub open spec fn spec_parse_ipv4(s: Seq<char>) -> Option<u32> {
    match sp_octet(s, 0) {
        None => None,
        Some((a, i)) => if i < s.len() && s[i] == '.' {
            match sp_octet(s, i + 1) {
                None => None,
                Some((b, j)) => if j < s.len() && s[j] == '.' {
                    match sp_octet(s, j + 1) {
                        None => None,
                        Some((c, k)) => if k < s.len() && s[k] == '.' {
                            match sp_octet(s, k + 1) {
                                None => None,
                                Some((d, l)) => if l == s.len() {
                                    Some(ipv4_from_octets(a, b, c, d))
                                } else {
                                    None
                                },
                            }
                        } else {
                            None
                        },
                    }
                } else {
                    None
                },
            }
        } else {
            None
        },
    }
}

/// Tests a character for being a decimal digit.
pub fn dec_digit_check(c: char) -> (r: bool)
    ensures
        r == is_dec_digit(c),
{
    '0' <= c && c <= '9'
}

/// Parses one octet of a dotted-quad literal starting at `i`.
fn parse_octet(s: &str, i: usize) -> (r: Option<(u32, usize)>)
    requires
        i <= s@.len(),
    ensures
        match r {
            Some((v, n)) => sp_octet(s@, i as int) == Some((v as int, n as int)) && v <= 255 && i
                < n <= s@.len(),
            None => sp_octet(s@, i as int) is None,
        },
{
    let len = s.unicode_len();
    if i < len && dec_digit_check(s.get_char(i)) {
        let c0 = s.get_char(i);
        if c0 == '0' {
            Some((0, i + 1))
        } else {
            let d0 = c0 as u32 - '0' as u32;
            if i + 1 < len && dec_digit_check(s.get_char(i + 1)) {
                let d1 = d0 * 10 + (s.get_char(i + 1) as u32 - '0' as u32);
                if i + 2 < len && dec_digit_check(s.get_char(i + 2)) {
                    let d2 = d1 * 10 + (s.get_char(i + 2) as u32 - '0' as u32);
                    if d2 <= 255 {
                        Some((d2, i + 3))
                    } else {
                        None
                    }
                } else {
                    Some((d1, i + 2))
                }
            } else {
                Some((d0, i + 1))
            }
        }
    } else {
        None
    }
}

/// Parses an IPv4 dotted-quad literal; `None` when `s` is not one.
pub fn parse_ipv4(s: &str) -> (r: Option<u32>)
    ensures
        r == spec_parse_ipv4(s@),
{
    let len = s.unicode_len();
    match parse_octet(s, 0) {
        None => None,
        Some((a, i)) => {
            if i < len && s.get_char(i) == '.' {
                match parse_octet(s, i + 1) {
                    None => None,
                    Some((b, j)) => {
                        if j < len && s.get_char(j) == '.' {
                            match parse_octet(s, j + 1) {
                                None => None,
                                Some((c, k)) => {
                                    if k < len && s.get_char(k) == '.' {
                                        match parse_octet(s, k + 1) {
                                            None => None,
                                            Some((d, l)) => {
                                                if l == len {
                                                    Some(
                                                        a * 0x1000000 + b * 0x10000 + c * 0x100
                                                            + d,
                                                    )
                                                } else {
                                                    None
                                                }
                                            },
                                        }
                                    } else {
                                        None
                                    }
                                },
                            }
                        } else {
                            None
                        }
                    },
                }
            } else {
                None
            }
        },
    }
}

/// Finds the first occurrence of `c` at or after `i`, or the string length.
pub fn find_char_at(s: &str, c: char, i: usize) -> (r: usize)
    requires
        i <= s@.len(),
    ensures
        r as int == find_char(s@, c, i as int),
        i <= r <= s@.len(),
    decreases s@.len() - i,
{
    let len = s.unicode_len();
    if i >= len {
        len
    } else if s.get_char(i) == c {
        i
    } else {
        find_char_at(s, c, i + 1)
    }
}

/// Parses the decimal digits `s[from..to]` into a value at most 65535.
fn parse_dec_u16(s: &str, from: usize, to: usize) -> (r: u16)
    requires
        from < to <= s@.len(),
        all_dec_digits(s@, from as int, to as int),
        dec_seq_val(s@, from as int, to as int) <= 65535,
    ensures
        r as int == dec_seq_val(s@, from as int, to as int),
{
    let mut acc: u32 = 0;
    let mut i = from;
    while i < to
        invariant
            from <= i <= to <= s@.len(),
            all_dec_digits(s@, from as int, to as int),
            dec_seq_val(s@, from as int, to as int) <= 65535,
            acc as int == dec_seq_val(s@, from as int, i as int),
            acc <= 65535,
        decreases to - i,
    {
        proof {
            lemma_dec_seq_val_bound(s@, from as int, i as int + 1, to as int);
        }
        let c = s.get_char(i);
        acc = acc * 10 + (c as u32 - '0' as u32);
        i += 1;
    }
    acc as u16
}

/// A prefix of the digits is never larger than the whole: the value of
/// `s[from..mid]` is at most the value of `s[from..to]` when all characters
/// are digits.
proof fn lemma_dec_seq_val_bound(s: Seq<char>, from: int, mid: int, to: int)
    requires
        from <= mid <= to <= s.len(),
        all_dec_digits(s, from, to),
    ensures
        dec_seq_val(s, from, mid) <= dec_seq_val(s, from, to),
        dec_seq_val(s, from, to) >= 0,
    decreases to - mid,
{
    if mid < to {
        lemma_dec_seq_val_bound(s, from, mid, to - 1);
        lemma_dec_seq_val_nonneg(s, from, mid);
    } else {
        lemma_dec_seq_val_nonneg(s, from, to);
    }
}

/// Digit sequences have non-negative values.
proof fn lemma_dec_seq_val_nonneg(s: Seq<char>, from: int, to: int)
    requires
        all_dec_digits(s, from, to),
    ensures
        dec_seq_val(s, from, to) >= 0,
    decreases to - from,
{
    if from < to {
        lemma_dec_seq_val_nonneg(s, from, to - 1);
    }
}

/// Whether `s` has the `host:port` shape that `addr_to_tuple` accepts: a
/// colon, followed by a non-empty run of decimal digits up to the next colon
/// or the end, whose value fits a port.
pub open spec fn valid_host_port(s: Seq<char>) -> bool {
    let c1 = find_char(s, ':', 0);
    let c2 = find_char(s, ':', c1 + 1);
    c1 < s.len() && c2 > c1 + 1 && all_dec_digits(s, c1 + 1, c2) && dec_seq_val(s, c1 + 1, c2)
        <= 65535
}

/// Splits `host:port` text into the host and the parsed port. The port is
/// read from between the first and second colon, as the second `:`-separated
/// field.
pub fn addr_to_tuple(s: &str) -> (r: (String, u16))
    requires
        valid_host_port(s@),
    ensures
        r.0@ == s@.take(find_char(s@, ':', 0)),
        r.1 as int == dec_seq_val(s@, find_char(s@, ':', 0) + 1, find_char(
            s@,
            ':',
            find_char(s@, ':', 0) + 1,
        )),
{
    let len = s.unicode_len();
    let c1 = find_char_at(s, ':', 0);
    proof {
        assert(c1 < len);
    }
    let c2 = find_char_at(s, ':', c1 + 1);
    let host = s.substring_char(0, c1);
    let port = parse_dec_u16(s, c1 + 1, c2);
    proof {
        assert(s@.subrange(0, c1 as int) =~= s@.take(c1 as int));
    }
    (String::from_str(host), port)
}



/// Whether `c` is a hexadecimal digit.
pub open spec fn is_hex_digit_char(c: char) -> bool {
    ('0' <= c && c <= '9') || ('a' <= c && c <= 'f') || ('A' <= c && c <= 'F')
}

/// The numeric value of a hexadecimal digit character.
pub open spec fn hex_char_val(c: char) -> int {
    if '0' <= c && c <= '9' {
        c as int - '0' as int
    } else if 'a' <= c && c <= 'f' {
        c as int - 'a' as int + 10
    } else {
        c as int - 'A' as int + 10
    }
}

/// One group of an IPv6 literal, parsed greedily from index `i`: one to
/// four hexadecimal digits; a fifth digit makes the group invalid.
pub open spec fn sp_hex_group(s: Seq<char>, i: int) -> Option<(int, int)> {
    if 0 <= i < s.len() && is_hex_digit_char(s[i]) {
        let d0 = hex_char_val(s[i]);
        if i + 1 < s.len() && is_hex_digit_char(s[i + 1]) {
            let d1 = d0 * 16 + hex_char_val(s[i + 1]);
            if i + 2 < s.len() && is_hex_digit_char(s[i + 2]) {
                let d2 = d1 * 16 + hex_char_val(s[i + 2]);
                if i + 3 < s.len() && is_hex_digit_char(s[i + 3]) {
                    let d3 = d2 * 16 + hex_char_val(s[i + 3]);
                    if i + 4 < s.len() && is_hex_digit_char(s[i + 4]) {
                        None
                    } else {
                        Some((d3, i + 4))
                    }
                } else {
                    Some((d2, i + 3))
                }
            } else {
                Some((d1, i + 2))
            }
        } else {
            Some((d0, i + 1))
        }
    } else {
        None
    }
}

/// A run of groups separated by single colons, stopping before `::` or any
/// other character. Yields the groups and the index just past them.
pub open spec fn sp_groups(s: Seq<char>, i: int) -> Option<(Seq<u16>, int)>
    decreases s.len() - i,
{
    match sp_hex_group(s, i) {
        None => None,
        Some((g, j)) => if j + 1 < s.len() && s[j] == ':' && s[j + 1] != ':' {
            match sp_groups(s, j + 1) {
                None => None,
                Some((rest, k)) => Some((seq![g as u16] + rest, k)),
            }
        } else {
            Some((seq![g as u16], j))
        },
    }
}

/// The address value of a run of 16-bit groups, most significant first.
pub open spec fn groups_val(gs: Seq<u16>, from: int, to: int) -> int
    decreases to - from,
{
    if from >= to {
        0
    } else {
        groups_val(gs, from, to - 1) * 0x10000 + gs[to - 1]
    }
}

/// The eight groups of an address written with a `::`: the head, the elided
/// zeros, the tail.
pub open spec fn spliced_groups(head: Seq<u16>, tail: Seq<u16>) -> Seq<u16> {
    head + Seq::new((8 - head.len() - tail.len()) as nat, |j: int| 0u16) + tail
}

/// The IPv6 literal language: eight colon-separated groups, or at most
/// seven around one `::`. Yields the address value, or `None` when `s` is
/// no IPv6 literal.
pub open spec fn spec_parse_ipv6(s: Seq<char>) -> Option<u128> {
    if s.len() >= 2 && s[0] == ':' && s[1] == ':' {
        if s.len() == 2 {
            Some(0)
        } else {
            match sp_groups(s, 2) {
                Some((tail, k)) => if k == s.len() && tail.len() <= 7 {
                    Some(groups_val(spliced_groups(Seq::empty(), tail), 0, 8) as u128)
                } else {
                    None
                },
                None => None,
            }
        }
    } else {
        match sp_groups(s, 0) {
            None => None,
            Some((head, j)) => if j == s.len() {
                if head.len() == 8 {
                    Some(groups_val(head, 0, 8) as u128)
                } else {
                    None
                }
            } else if j + 1 < s.len() && s[j] == ':' && s[j + 1] == ':' {
                if j + 2 == s.len() {
                    if head.len() <= 7 {
                        Some(groups_val(spliced_groups(head, Seq::empty()), 0, 8) as u128)
                    } else {
                        None
                    }
                } else {
                    match sp_groups(s, j + 2) {
                        Some((tail, k)) => if k == s.len() && head.len() + tail.len() <= 7 {
                            Some(groups_val(spliced_groups(head, tail), 0, 8) as u128)
                        } else {
                            None
                        },
                        None => None,
                    }
                }
            } else {
                None
            },
        }
    }
}

/// Tests a character for being a hexadecimal digit.
fn hex_digit_check(c: char) -> (r: bool)
    ensures
        r == is_hex_digit_char(c),
{
    ('0' <= c && c <= '9') || ('a' <= c && c <= 'f') || ('A' <= c && c <= 'F')
}

/// The numeric value of a hexadecimal digit character.
fn hex_digit_value(c: char) -> (r: u32)
    requires
        is_hex_digit_char(c),
    ensures
        r as int == hex_char_val(c),
        r < 16,
{
    if '0' <= c && c <= '9' {
        c as u32 - '0' as u32
    } else if 'a' <= c && c <= 'f' {
        c as u32 - 'a' as u32 + 10
    } else {
        c as u32 - 'A' as u32 + 10
    }
}

/// Parses one group of an IPv6 literal starting at `i`.
fn parse_hex_group(s: &str, i: usize) -> (r: Option<(u16, usize)>)
    requires
        i <= s@.len(),
    ensures
        match r {
            Some((v, n)) => sp_hex_group(s@, i as int) == Some((v as int, n as int)) && i < n
                <= s@.len(),
            None => sp_hex_group(s@, i as int) is None,
        },
{
    let len = s.unicode_len();
    if !(i < len && hex_digit_check(s.get_char(i))) {
        return None;
    }
    let d0 = hex_digit_value(s.get_char(i));
    if !(i + 1 < len && hex_digit_check(s.get_char(i + 1))) {
        return Some((d0 as u16, i + 1));
    }
    let d1 = d0 * 16 + hex_digit_value(s.get_char(i + 1));
    if !(i + 2 < len && hex_digit_check(s.get_char(i + 2))) {
        return Some((d1 as u16, i + 2));
    }
    let d2 = d1 * 16 + hex_digit_value(s.get_char(i + 2));
    if !(i + 3 < len && hex_digit_check(s.get_char(i + 3))) {
        return Some((d2 as u16, i + 3));
    }
    let d3 = d2 * 16 + hex_digit_value(s.get_char(i + 3));
    if i + 4 < len && hex_digit_check(s.get_char(i + 4)) {
        return None;
    }
    Some((d3 as u16, i + 4))
}

/// Parses a run of groups separated by single colons starting at `i`.
fn parse_groups(s: &str, i: usize) -> (r: Option<(Vec<u16>, usize)>)
    requires
        i <= s@.len(),
    ensures
        match r {
            Some((gs, n)) => sp_groups(s@, i as int) == Some((gs@, n as int)) && i < n
                <= s@.len(),
            None => sp_groups(s@, i as int) is None,
        },
    decreases s@.len() - i,
{
    let len = s.unicode_len();
    let (g, j) = match parse_hex_group(s, i) {
        None => {
            return None;
        },
        Some(x) => x,
    };
    if j < len && s.get_char(j) == ':' && j + 1 < len && s.get_char(j + 1) != ':' {
        match parse_groups(s, j + 1) {
            None => None,
            Some((rest, k)) => {
                let mut gs: Vec<u16> = Vec::new();
                gs.push(g);
                let mut tail = rest;
                gs.append(&mut tail);
                proof {
                    assert(gs@ =~= seq![g] + sp_groups(s@, j as int + 1)->Some_0.0);
                }
                Some((gs, k))
            },
        }
    } else {
        let mut gs: Vec<u16> = Vec::new();
        gs.push(g);
        proof {
            assert(gs@ =~= seq![g]);
        }
        Some((gs, j))
    }
}

/// A run of groups is below `0x10000` to the number of groups.
proof fn lemma_groups_val_bound(gs: Seq<u16>, from: int, to: int)
    requires
        from <= to <= gs.len(),
    ensures
        0 <= groups_val(gs, from, to) < vstd::arithmetic::power::pow(0x10000, (to - from) as nat),
    decreases to - from,
{
    vstd::arithmetic::power::lemma_pow_positive(0x10000, (to - from) as nat);
    if from < to {
        lemma_groups_val_bound(gs, from, to - 1);
        vstd::arithmetic::power::lemma_pow_adds(0x10000, (to - from - 1) as nat, 1);
        vstd::arithmetic::power::lemma_pow1(0x10000);
    }
}

/// The address value of eight groups.
fn groups_to_value(gs: &Vec<u16>) -> (r: u128)
    requires
        gs@.len() == 8,
    ensures
        r as int == groups_val(gs@, 0, 8),
{
    let mut acc: u128 = 0;
    let mut i: usize = 0;
    while i < 8
        invariant
            i <= 8,
            gs@.len() == 8,
            acc as int == groups_val(gs@, 0, i as int),
        decreases 8 - i,
    {
        proof {
            lemma_groups_val_bound(gs@, 0, i as int);
            reveal_with_fuel(vstd::arithmetic::power::pow, 8);
            assert(vstd::arithmetic::power::pow(0x10000, 7)
                == 0x10000000000000000000000000000) by {
                reveal_with_fuel(vstd::arithmetic::power::pow, 8);
            }
            vstd::arithmetic::power::lemma_pow_increases(0x10000, (i as int) as nat, 7);
        }
        acc = acc * 0x10000 + (gs[i] as u128);
        i += 1;
    }
    acc
}

/// Splices the head and tail of a `::` literal around the elided zeros.
fn splice_groups(head: &Vec<u16>, tail: &Vec<u16>) -> (r: Vec<u16>)
    requires
        head@.len() + tail@.len() <= 8,
    ensures
        r@ == spliced_groups(head@, tail@),
        r@.len() == 8,
{
    let mut out: Vec<u16> = Vec::new();
    out.extend_from_slice(head.as_slice());
    let zeros = 8 - head.len() - tail.len();
    let mut z: usize = 0;
    while z < zeros
        invariant
            z <= zeros,
            out@ =~= head@ + Seq::new(z as nat, |j: int| 0u16),
        decreases zeros - z,
    {
        out.push(0);
        proof {
            assert(head@ + Seq::new((z + 1) as nat, |j: int| 0u16) =~= (head@ + Seq::new(
                z as nat,
                |j: int| 0u16,
            )).push(0u16));
        }
        z += 1;
    }
    out.extend_from_slice(tail.as_slice());
    proof {
        assert(out@ =~= spliced_groups(head@, tail@));
    }
    out
}

/// Parses an IPv6 literal; `None` when `s` is not one.
#[verifier::loop_isolation(false)]
pub fn parse_ipv6(s: &str) -> (r: Option<u128>)
    ensures
        r == spec_parse_ipv6(s@),
{
    let len = s.unicode_len();
    if len >= 2 && s.get_char(0) == ':' && s.get_char(1) == ':' {
        if len == 2 {
            return Some(0);
        }
        return match parse_groups(s, 2) {
            Some((tail, k)) => {
                if k == len && tail.len() <= 7 {
                    let empty_head: Vec<u16> = Vec::new();
                    let full = splice_groups(&empty_head, &tail);
                    proof {
                        assert(empty_head@ =~= Seq::<u16>::empty());
                        assert(full@ == spliced_groups(Seq::empty(), tail@));
                    }
                    Some(groups_to_value(&full))
                } else {
                    None
                }
            },
            None => None,
        };
    }
    match parse_groups(s, 0) {
        None => None,
        Some((head, j)) => {
            if j == len {
                if head.len() == 8 {
                    Some(groups_to_value(&head))
                } else {
                    None
                }
            } else if j < len && s.get_char(j) == ':' && j + 1 < len && s.get_char(j + 1)
                == ':' {
                if j + 2 == len {
                    if head.len() <= 7 {
                        let empty_tail: Vec<u16> = Vec::new();
                        let full = splice_groups(&head, &empty_tail);
                        proof {
                            assert(empty_tail@ =~= Seq::<u16>::empty());
                            assert(full@ == spliced_groups(head@, Seq::empty()));
                        }
                        Some(groups_to_value(&full))
                    } else {
                        None
                    }
                } else {
                    match parse_groups(s, j + 2) {
                        Some((tail, k)) => {
                            if k == len && tail.len() <= 7 && head.len() <= 7 - tail.len() {
                                let full = splice_groups(&head, &tail);
                                Some(groups_to_value(&full))
                            } else {
                                None
                            }
                        },
                        None => None,
                    }
                }
            } else {
                None
            }
        },
    }
}

} // verus!
