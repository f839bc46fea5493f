//! Hardware addresses as text: six octets in hexadecimal joined by colons.

use crate::text;
use vstd::prelude::*;

verus! {

/// Why a text is no hardware address.
#[derive(Debug, Clone, Copy, PartialEq, Eq, Structural)]
pub enum MacError {
    /// There are not six parts.
    WrongFormat,
    /// The part at this place is no octet.
    BadOctet(usize),
}

/// The parts of a text between the separators.
pub open spec fn split(s: Seq<char>, sep: char) -> Seq<Seq<char>>
    decreases s.len(),
{
    if s.len() == 0 {
        seq![Seq::empty()]
    } else {
        let before = split(s.drop_last(), sep);
        if s.last() == sep {
            before.push(Seq::empty())
        } else {
            before.drop_last().push(before.last().push(s.last()))
        }
    }
}

/// The value of a hexadecimal digit of either case.
pub open spec fn hex_digit(c: char) -> Option<int> {
    if '0' <= c <= '9' {
        Some(c as int - '0' as int)
    } else if 'a' <= c <= 'f' {
        Some(c as int - 'a' as int + 10)
    } else if 'A' <= c <= 'F' {
        Some(c as int - 'A' as int + 10)
    } else {
        None
    }
}

/// The number that hexadecimal digits write.
pub open spec fn hex_value(s: Seq<char>) -> Option<int>
    decreases s.len(),
{
    if s.len() == 0 {
        Some(0)
    } else {
        match (hex_value(s.drop_last()), hex_digit(s.last())) {
            (Some(v), Some(d)) => Some(v * 16 + d),
            _ => None,
        }
    }
}

/// The octet that a text writes in hexadecimal, with any number of leading
/// zeros and maybe a plus sign.
pub open spec fn hex_octet(s: Seq<char>) -> Option<int> {
    let digits = text::unsigned_part(s);
    match hex_value(digits) {
        Some(v) if digits.len() > 0 && v < 256 => Some(v),
        _ => None,
    }
}

/// The first of the parts that is no octet, if there is one.
pub open spec fn first_bad_octet(parts: Seq<Seq<char>>) -> Option<usize>
    decreases parts.len(),
{
    if parts.len() == 0 {
        None
    } else if first_bad_octet(parts.drop_last()) is Some {
        first_bad_octet(parts.drop_last())
    } else if hex_octet(parts.last()) is None {
        Some((parts.len() - 1) as usize)
    } else {
        None
    }
}

/// The hardware address that a text writes, or why it writes none.
pub open spec fn mac_of(s: Seq<char>) -> Result<Seq<u8>, MacError> {
    let parts = split(s, ':');
    if parts.len() != 6 {
        Err(MacError::WrongFormat)
    } else {
        match first_bad_octet(parts) {
            Some(i) => Err(MacError::BadOctet(i)),
            None => Ok(Seq::new(6, |i: int| hex_octet(parts[i]).unwrap() as u8)),
        }
    }
}

proof fn lemma_bad_octet_stays(parts: Seq<Seq<char>>, n: int)
    requires
        0 <= n <= parts.len(),
        first_bad_octet(parts.take(n)) is Some,
    ensures
        first_bad_octet(parts) == first_bad_octet(parts.take(n)),
    decreases parts.len() - n,
{
    if n < parts.len() {
        assert(parts.take(n + 1).drop_last() =~= parts.take(n));
        lemma_bad_octet_stays(parts, n + 1);
    } else {
        assert(parts.take(n) =~= parts);
    }
}

proof fn lemma_hex_value_prefix(s: Seq<char>, n: int)
    requires
        0 <= n <= s.len(),
    ensures
        hex_value(s) is Some ==> hex_value(s.take(n)) is Some && 0 <= hex_value(s.take(n)).unwrap()
            <= hex_value(s).unwrap(),
    decreases s.len(),
{
    if n == s.len() {
        assert(s.take(n) =~= s);
        if s.len() > 0 {
            assert(s.take(n - 1) =~= s.drop_last());
            lemma_hex_value_prefix(s.drop_last(), n - 1);
            assert(s.drop_last().take(n - 1) =~= s.drop_last());
        }
    } else {
        lemma_hex_value_prefix(s.drop_last(), n);
        assert(s.drop_last().take(n) =~= s.take(n));
    }
}

fn hex_digit_value(c: char) -> (r: Option<u32>)
    ensures
        match r {
            Some(d) => hex_digit(c) == Some(d as int) && d < 16,
            None => hex_digit(c) is None,
        },
{
    if c >= '0' && c <= '9' {
        Some(c as u32 - 48)
    } else if c >= 'a' && c <= 'f' {
        Some(c as u32 - 87)
    } else if c >= 'A' && c <= 'F' {
        Some(c as u32 - 55)
    } else {
        None
    }
}

/// Reads the characters from `from` up to `to` as an octet.
fn read_octet(chars: &Vec<char>, from: usize, to: usize) -> (r: Option<u8>)
    requires
        from <= to <= chars@.len(),
    ensures
        match r {
            Some(v) => hex_octet(chars@.subrange(from as int, to as int)) == Some(v as int),
            None => hex_octet(chars@.subrange(from as int, to as int)) is None,
        },
{
    let ghost part = chars@.subrange(from as int, to as int);
    let mut start: usize = from;
    if from < to && chars[from] == '+' {
        start = from + 1;
    }
    let ghost digits = text::unsigned_part(part);
    assert(digits =~= chars@.subrange(start as int, to as int));
    if start == to {
        return None;
    }
    let mut value: u32 = 0;
    let mut i: usize = start;
    assert(digits.take(0) =~= Seq::<char>::empty());
    while i < to
        invariant
            start <= i <= to <= chars@.len(),
            start < to,
            digits == chars@.subrange(start as int, to as int),
            digits == text::unsigned_part(part),
            part == chars@.subrange(from as int, to as int),
            hex_value(digits.take(i - start)) == Some(value as int),
            value < 256,
        decreases to - i,
    {
        assert(digits.take(i - start + 1).drop_last() =~= digits.take(i - start));
        assert(digits.take(i - start + 1).last() == chars@[i as int]);
        proof {
            lemma_hex_value_prefix(digits, i - start + 1);
        }
        match hex_digit_value(chars[i]) {
            Some(d) => {
                value = value * 16 + d;
                if value >= 256 {
                    return None;
                }
            },
            None => return None,
        }
        i += 1;
    }
    assert(digits.take(i - start) =~= digits);
    Some(value as u8)
}

/// Where the parts of a text stand.
fn split_places(chars: &Vec<char>, sep: char) -> (r: Vec<(usize, usize)>)
    ensures
        r@.len() == split(chars@, sep).len(),
        forall|i: int|
            0 <= i < r@.len() ==> (#[trigger] r@[i]).0 <= r@[i].1 <= chars@.len() && split(
                chars@,
                sep,
            )[i] == chars@.subrange(r@[i].0 as int, r@[i].1 as int),
{
    let mut r: Vec<(usize, usize)> = Vec::new();
    let mut start: usize = 0;
    let mut i: usize = 0;
    assert(chars@.take(0) =~= Seq::<char>::empty());
    assert(chars@.subrange(0, 0) =~= Seq::<char>::empty());
    while i < chars.len()
        invariant
            start <= i <= chars@.len(),
            split(chars@.take(i as int), sep).len() == r@.len() + 1,
            split(chars@.take(i as int), sep).last() == chars@.subrange(start as int, i as int),
            forall|k: int|
                0 <= k < r@.len() ==> (#[trigger] r@[k]).0 <= r@[k].1 <= chars@.len() && split(
                    chars@.take(i as int),
                    sep,
                )[k] == chars@.subrange(r@[k].0 as int, r@[k].1 as int),
        decreases chars@.len() - i,
    {
        assert(chars@.take(i + 1).drop_last() =~= chars@.take(i as int));
        let ghost before = split(chars@.take(i as int), sep);
        let ghost after = split(chars@.take(i + 1), sep);
        let ghost places = r@;
        if chars[i] == sep {
            r.push((start, i));
            start = i + 1;
            assert(chars@.subrange(i + 1, i + 1) =~= Seq::<char>::empty());
            assert(after == before.push(Seq::empty()));
            assert(before[places.len() as int] == before.last());
        } else {
            assert(chars@.subrange(start as int, i + 1) =~= chars@.subrange(
                start as int,
                i as int,
            ).push(chars@[i as int]));
        }
        proof {
            assert forall|k: int| 0 <= k < r@.len() implies (#[trigger] r@[k]).0 <= r@[k].1
                <= chars@.len() && after[k] == chars@.subrange(r@[k].0 as int, r@[k].1 as int) by {
                if k < places.len() {
                    assert(r@[k] == places[k]);
                    assert(after[k] == before[k]);
                }
            }
        }
        i += 1;
    }
    assert(chars@.take(i as int) =~= chars@);
    r.push((start, i));
    r
}

/// Reads a hardware address. The first part that is no octet is told.
pub fn parse_mac(s: &str) -> (r: Result<[u8; 6], MacError>)
    ensures
        match r {
            Ok(mac) => mac_of(s@) == Ok::<Seq<u8>, MacError>(mac@),
            Err(e) => mac_of(s@) == Err::<Seq<u8>, MacError>(e),
        },
{
    let chars: Vec<char> = text::chars_of(s);
    let places: Vec<(usize, usize)> = split_places(&chars, ':');
    if places.len() != 6 {
        return Err(MacError::WrongFormat);
    }
    let ghost parts = split(s@, ':');
    let mut mac: [u8; 6] = [0u8; 6];
    let mut i: usize = 0;
    while i < 6
        invariant
            i <= 6,
            parts == split(s@, ':'),
            chars@ == s@,
            places@.len() == 6 == parts.len(),
            forall|k: int|
                0 <= k < 6 ==> (#[trigger] places@[k]).0 <= places@[k].1 <= chars@.len()
                    && parts[k] == chars@.subrange(places@[k].0 as int, places@[k].1 as int),
            first_bad_octet(parts.take(i as int)) is None,
            forall|k: int| 0 <= k < i ==> hex_octet(#[trigger] parts[k]) == Some(mac@[k] as int),
        decreases 6 - i,
    {
        let place: (usize, usize) = places[i];
        assert(parts[i as int] == chars@.subrange(place.0 as int, place.1 as int));
        assert(parts.take(i + 1).drop_last() =~= parts.take(i as int));
        match read_octet(&chars, place.0, place.1) {
            Some(v) => mac[i] = v,
            None => {
                proof {
                    lemma_bad_octet_stays(parts, i + 1);
                }
                return Err(MacError::BadOctet(i));
            },
        }
        i += 1;
    }
    assert(parts.take(i as int) =~= parts);
    assert(mac@ =~= Seq::new(6, |k: int| hex_octet(parts[k]).unwrap() as u8));
    Ok(mac)
}

/// The lower-case hexadecimal digit of a value.
pub open spec fn hex_char(d: int) -> char {
    if d < 10 {
        ('0' as int + d) as char
    } else {
        ('a' as int + d - 10) as char
    }
}

/// An octet in two hexadecimal digits.
pub open spec fn octet_hex(v: u8) -> Seq<char> {
    seq![hex_char(v as int / 16), hex_char(v as int % 16)]
}

/// The first `n` octets of a hardware address in hexadecimal, with colons
/// between them.
pub open spec fn mac_text(mac: Seq<u8>, n: int) -> Seq<char>
    decreases n,
{
    if n <= 0 {
        Seq::empty()
    } else if n == 1 {
        octet_hex(mac[0])
    } else {
        mac_text(mac, n - 1).push(':') + octet_hex(mac[n - 1])
    }
}

fn push_hex(s: &mut String, d: u8)
    requires
        d < 16,
    ensures
        final(s)@ == old(s)@.push(hex_char(d as int)),
{
    let c: u8 = if d < 10 {
        48 + d
    } else {
        87 + d
    };
    s.push(c as char);
}

/// Writes a hardware address.
pub fn format_mac(mac: &[u8; 6]) -> (s: String)
    ensures
        s@ == mac_text(mac@, 6),
{
    let mut s: String = String::new();
    let mut i: usize = 0;
    while i < 6
        invariant
            i <= 6,
            s@ == mac_text(mac@, i as int),
        decreases 6 - i,
    {
        let ghost before = s@;
        if i > 0 {
            s.push(':');
        }
        let v: u8 = mac[i];
        push_hex(&mut s, v / 16);
        push_hex(&mut s, v % 16);
        assert(s@ =~= mac_text(mac@, i + 1));
        i += 1;
    }
    s
}

proof fn lemma_split_with_tail(a: Seq<char>, b: Seq<char>, sep: char)
    requires
        forall|i: int| 0 <= i < b.len() ==> #[trigger] b[i] != sep,
    ensures
        split(a.push(sep) + b, sep) == split(a, sep).push(b),
    decreases b.len(),
{
    let s = a.push(sep) + b;
    if b.len() == 0 {
        assert(s =~= a.push(sep));
        assert(s.drop_last() =~= a);
        assert(b =~= Seq::<char>::empty());
    } else {
        assert(s.drop_last() =~= a.push(sep) + b.drop_last());
        lemma_split_with_tail(a, b.drop_last(), sep);
        assert(b.drop_last().push(b.last()) =~= b);
        assert(b[b.len() - 1] != sep);
        assert(split(a, sep).push(b.drop_last()).drop_last() =~= split(a, sep));
    }
}

proof fn lemma_split_of_octet(v: u8)
    ensures
        split(octet_hex(v), ':') == seq![octet_hex(v)],
        hex_octet(octet_hex(v)) == Some(v as int),
        forall|i: int| 0 <= i < octet_hex(v).len() ==> #[trigger] octet_hex(v)[i] != ':',
{
    let o = octet_hex(v);
    let one = o.drop_last();
    let none = one.drop_last();
    assert(none =~= Seq::<char>::empty());
    assert(one =~= seq![o[0]]);
    assert(split(none, ':') == seq![Seq::<char>::empty()]);
    assert(split(one, ':') =~= seq![seq![o[0]]]) by {
        assert(Seq::<char>::empty().push(o[0]) =~= seq![o[0]]);
    }
    assert(split(o, ':') =~= seq![o]) by {
        assert(seq![o[0]].push(o[1]) =~= o);
    }
    assert(hex_value(none) == Some(0int));
    assert(hex_value(one) == Some(v as int / 16));
    assert(hex_value(o) == Some(v as int / 16 * 16 + v as int % 16));
    assert(text::unsigned_part(o) == o);
}

proof fn lemma_split_of_mac(mac: Seq<u8>, n: int)
    requires
        1 <= n <= mac.len(),
    ensures
        split(mac_text(mac, n), ':').len() == n,
        forall|i: int|
            0 <= i < n ==> #[trigger] split(mac_text(mac, n), ':')[i] == octet_hex(mac[i]),
    decreases n,
{
    lemma_split_of_octet(mac[n - 1]);
    if n > 1 {
        lemma_split_of_mac(mac, n - 1);
        lemma_split_with_tail(mac_text(mac, n - 1), octet_hex(mac[n - 1]), ':');
    }
}

/// A hardware address that was written reads back as the same address.
pub proof fn law_mac_reads_back(mac: Seq<u8>)
    requires
        mac.len() == 6,
    ensures
        mac_of(mac_text(mac, 6)) == Ok::<Seq<u8>, MacError>(mac),
{
    lemma_split_of_mac(mac, 6);
    let parts = split(mac_text(mac, 6), ':');
    assert forall|i: int| 0 <= i < 6 implies hex_octet(#[trigger] parts[i]) == Some(
        mac[i] as int,
    ) by {
        lemma_split_of_octet(mac[i]);
    }
    lemma_no_bad_octet(parts);
    assert(Seq::new(6, |i: int| hex_octet(parts[i]).unwrap() as u8) =~= mac);
}

proof fn lemma_no_bad_octet(parts: Seq<Seq<char>>)
    requires
        forall|i: int| 0 <= i < parts.len() ==> hex_octet(#[trigger] parts[i]) is Some,
    ensures
        first_bad_octet(parts) is None,
    decreases parts.len(),
{
    if parts.len() > 0 {
        assert(hex_octet(parts[parts.len() - 1]) is Some);
        assert forall|i: int| 0 <= i < parts.drop_last().len() implies hex_octet(
            #[trigger] parts.drop_last()[i],
        ) is Some by {
            assert(hex_octet(parts[i]) is Some);
        }
        lemma_no_bad_octet(parts.drop_last());
    }
}

/// A text without separator is a single part, and a separator parts what is
/// before it from what is behind it.
pub proof fn law_separators_part_a_text(a: Seq<char>, b: Seq<char>, sep: char)
    ensures
        !a.contains(sep) ==> split(a, sep) == seq![a],
        split(a + seq![sep] + b, sep) == split(a, sep) + split(b, sep),
    decreases a.len() + b.len(),
{
    lemma_split_is_not_empty(b, sep);
    if !a.contains(sep) {
        lemma_split_without_separator(a, sep);
    }
    let s = a + seq![sep] + b;
    if b.len() == 0 {
        assert(s.drop_last() =~= a);
        assert(split(s, sep) =~= split(a, sep) + split(b, sep));
    } else {
        law_separators_part_a_text(a, b.drop_last(), sep);
        lemma_split_is_not_empty(b.drop_last(), sep);
        assert(s.drop_last() =~= a + seq![sep] + b.drop_last());
        assert(s.last() == b.last());
        let before = split(a, sep) + split(b.drop_last(), sep);
        assert(before.last() == split(b.drop_last(), sep).last());
        assert(before.drop_last() =~= split(a, sep) + split(b.drop_last(), sep).drop_last());
        assert(split(s, sep) =~= split(a, sep) + split(b, sep));
    }
}

proof fn lemma_split_is_not_empty(s: Seq<char>, sep: char)
    ensures
        split(s, sep).len() > 0,
    decreases s.len(),
{
    if s.len() > 0 {
        lemma_split_is_not_empty(s.drop_last(), sep);
    }
}

proof fn lemma_split_without_separator(s: Seq<char>, sep: char)
    requires
        !s.contains(sep),
    ensures
        split(s, sep) == seq![s],
    decreases s.len(),
{
    if s.len() > 0 {
        let rest = s.drop_last();
        assert(s[s.len() - 1] != sep);
        assert(!rest.contains(sep)) by {
            if rest.contains(sep) {
                let k = rest.index_of(sep);
                assert(s[k] == sep);
            }
        }
        lemma_split_without_separator(rest, sep);
        assert(rest.push(s.last()) =~= s);
        assert(split(s, sep) =~= seq![s]);
    } else {
        assert(s =~= Seq::<char>::empty());
    }
}

/// The hexadecimal digits are `0` to `9` for 0 to 9, and `a` to `f` or `A` to
/// `F` for 10 to 15; each further digit moves the others up by one place.
pub proof fn law_hexadecimal_digits_count_by_their_place(s: Seq<char>, c: char, v: int)
    ensures
        hex_digit(c) == Some(v) <==> (48 <= c as int <= 57 && v == c as int - 48) || (97
            <= c as int <= 102 && v == c as int - 87) || (65 <= c as int <= 70 && v == c as int
            - 55),
        hex_value(Seq::empty()) == Some(0int),
        hex_value(s.push(c)) is Some <==> hex_value(s) is Some && hex_digit(c) is Some,
        hex_value(s.push(c)) is Some ==> hex_value(s.push(c)).unwrap() == 16
            * hex_value(s).unwrap() + hex_digit(c).unwrap(),
{
    assert(s.push(c).drop_last() =~= s);
}

/// Digits of value 255 at most are an octet, bare or behind a plus sign; no
/// digits are none.
pub proof fn law_octets_in_hexadecimal(s: Seq<char>)
    requires
        s.len() > 0,
        s[0] != '+',
    ensures
        hex_octet(s) == match hex_value(s) {
            Some(v) => if v <= 255 {
                Some(v)
            } else {
                None
            },
            None => None,
        },
        hex_octet(seq!['+'] + s) == hex_octet(s),
        hex_octet(Seq::empty()) is None,
        hex_octet(seq!['+']) is None,
{
    assert((seq!['+'] + s).skip(1) =~= s);
    assert(seq!['+'].skip(1) =~= Seq::<char>::empty());
}

/// A text writes a hardware address exactly if it has six parts between
/// colons and each writes an octet; these are the octets of the address.
/// Otherwise the number of parts is at fault, or the first part that writes
/// none.
pub proof fn law_six_octets_make_a_mac(s: Seq<char>)
    ensures
        match mac_of(s) {
            Ok(m) => m.len() == 6 && split(s, ':').len() == 6 && forall|i: int|
                0 <= i < 6 ==> hex_octet(#[trigger] split(s, ':')[i]) == Some(m[i] as int),
            Err(MacError::WrongFormat) => split(s, ':').len() != 6,
            Err(MacError::BadOctet(i)) => split(s, ':').len() == 6 && i < 6 && hex_octet(
                split(s, ':')[i as int],
            ) is None && forall|j: int|
                0 <= j < i ==> hex_octet(#[trigger] split(s, ':')[j]) is Some,
        },
{
    let parts = split(s, ':');
    if parts.len() == 6 {
        lemma_first_bad_octet(parts);
        assert forall|i: int| 0 <= i < 6 && hex_octet(
            #[trigger] parts[i],
        ) is Some implies hex_octet(parts[i]).unwrap() < 256 && 0 <= hex_octet(
            parts[i],
        ).unwrap() by {
            lemma_hex_value_is_not_negative(text::unsigned_part(parts[i]));
        }
    }
}

proof fn lemma_hex_value_is_not_negative(s: Seq<char>)
    ensures
        hex_value(s) is Some ==> hex_value(s).unwrap() >= 0,
    decreases s.len(),
{
    if s.len() > 0 {
        lemma_hex_value_is_not_negative(s.drop_last());
    }
}

proof fn lemma_first_bad_octet(parts: Seq<Seq<char>>)
    requires
        parts.len() <= 6,
    ensures
        match first_bad_octet(parts) {
            Some(i) => i < parts.len() && hex_octet(parts[i as int]) is None && forall|j: int|
                0 <= j < i ==> hex_octet(#[trigger] parts[j]) is Some,
            None => forall|j: int|
                0 <= j < parts.len() ==> hex_octet(#[trigger] parts[j]) is Some,
        },
    decreases parts.len(),
{
    if parts.len() > 0 {
        let rest = parts.drop_last();
        lemma_first_bad_octet(rest);
        assert forall|j: int| 0 <= j < rest.len() implies #[trigger] parts[j] == rest[j] by {}
    }
}

/// A hardware address is written in seventeen characters: two digits for each
/// octet, the greater part first, in lower case, with a colon between each
/// two octets.
pub proof fn law_macs_are_written_in_pairs(mac: Seq<u8>, i: int)
    requires
        mac.len() == 6,
        0 <= i < 6,
    ensures
        ({
            let t = mac_text(mac, 6);
            &&& t.len() == 17
            &&& i < 5 ==> t[3 * i + 2] == ':'
            &&& t[3 * i] as int == if mac[i] / 16 < 10 {
                48 + mac[i] / 16
            } else {
                87 + mac[i] / 16
            }
            &&& t[3 * i + 1] as int == if mac[i] % 16 < 10 {
                48 + mac[i] % 16
            } else {
                87 + mac[i] % 16
            }
        }),
{
    reveal_with_fuel(mac_text, 7);
}

} // verus!
