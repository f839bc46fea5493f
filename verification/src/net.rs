//! IPv4 addresses, as numbers and as dotted decimal text.

use crate::text;
use vstd::prelude::*;

verus! {

/// An IPv4 address: the number that its four octets write, the first octet
/// being the most significant.
#[derive(Clone, Copy, PartialEq, Eq, Structural, Hash, Debug, PartialOrd, Ord)]
pub struct Ipv4Addr {
    pub bits: u32,
}

/// The character of a decimal digit.
pub open spec fn digit_char(d: int) -> char {
    ('0' as int + d) as char
}

/// An octet in decimal, without leading zeros.
pub open spec fn octet_text(v: int) -> Seq<char> {
    if v < 10 {
        seq![digit_char(v)]
    } else if v < 100 {
        seq![digit_char(v / 10), digit_char(v % 10)]
    } else {
        seq![digit_char(v / 100), digit_char(v / 10 % 10), digit_char(v % 10)]
    }
}

/// The octets of an address joined by a separator.
pub open spec fn joined_octets(ip: Ipv4Addr, sep: char) -> Seq<char> {
    octet_text(ip.octet(0)).push(sep) + octet_text(ip.octet(1)).push(sep) + octet_text(
        ip.octet(2),
    ).push(sep) + octet_text(ip.octet(3))
}

impl Ipv4Addr {
    /// One of the four octets, counted from the left.
    pub open spec fn octet(self, i: int) -> int {
        if i == 0 {
            self.bits as int / 256 / 256 / 256
        } else if i == 1 {
            self.bits as int / 256 / 256 % 256
        } else if i == 2 {
            self.bits as int / 256 % 256
        } else {
            self.bits as int % 256
        }
    }

    /// The address in dotted decimal.
    pub open spec fn text(self) -> Seq<char> {
        joined_octets(self, '.')
    }

    /// The octets as a packet carries them.
    pub open spec fn wire_bytes(self) -> Seq<u8> {
        seq![
            self.octet(0) as u8,
            self.octet(1) as u8,
            self.octet(2) as u8,
            self.octet(3) as u8,
        ]
    }

    pub fn new(a: u8, b: u8, c: u8, d: u8) -> (ip: Self)
        ensures
            ip.octet(0) == a,
            ip.octet(1) == b,
            ip.octet(2) == c,
            ip.octet(3) == d,
            ip.bits == ((a * 256 + b) * 256 + c) * 256 + d,
    {
        proof {
            lemma_octets(a as int, b as int, c as int, d as int);
        }
        Ipv4Addr { bits: ((a as u32 * 256 + b as u32) * 256 + c as u32) * 256 + d as u32 }
    }

    pub fn from_octets(octets: [u8; 4]) -> (ip: Self)
        ensures
            forall|i: int| 0 <= i < 4 ==> ip.octet(i) == #[trigger] octets@[i],
    {
        Ipv4Addr::new(octets[0], octets[1], octets[2], octets[3])
    }

    pub fn octets(&self) -> (r: [u8; 4])
        ensures
            r@ == self.wire_bytes(),
            forall|i: int| 0 <= i < 4 ==> self.octet(i) == #[trigger] r@[i],
    {
        let r: [u8; 4] = [
            (self.bits / 256 / 256 / 256) as u8,
            (self.bits / 256 / 256 % 256) as u8,
            (self.bits / 256 % 256) as u8,
            (self.bits % 256) as u8,
        ];
        assert(r@ =~= self.wire_bytes());
        r
    }

    /// Writes the address in dotted decimal.
    pub fn to_text(&self) -> (s: String)
        ensures
            s@ == self.text(),
    {
        self.to_text_with('.')
    }

    /// Writes the four octets in decimal with a separator of choice.
    pub fn to_text_with(&self, sep: char) -> (s: String)
        ensures
            s@ == joined_octets(*self, sep),
    {
        let octets: [u8; 4] = self.octets();
        let mut s: String = String::new();
        push_octet(&mut s, octets[0]);
        s.push(sep);
        push_octet(&mut s, octets[1]);
        s.push(sep);
        push_octet(&mut s, octets[2]);
        s.push(sep);
        push_octet(&mut s, octets[3]);
        assert(s@ =~= joined_octets(*self, sep));
        s
    }

    /// Reads an address in dotted decimal: four octets of at most three
    /// digits, none above 255, none with a leading zero, and nothing else.
    pub fn parse(s: &str) -> (r: Option<Self>)
        ensures
            match r {
                Some(ip) => s@ == ip.text(),
                None => forall|ip: Ipv4Addr| s@ != #[trigger] ip.text(),
            },
            r == address_of(s@),
    {
        let chars: Vec<char> = text::chars_of(s);
        let r: Option<Ipv4Addr> = parse_chars(&chars);
        proof {
            match r {
                Some(ip) => {
                    lemma_parsed_is_text(s@, ip);
                    law_text_reads_back(ip);
                },
                None => {
                    assert forall|ip: Ipv4Addr| s@ != #[trigger] ip.text() by {
                        lemma_joined_is_parsed(ip, '.');
                    }
                },
            }
        }
        r
    }
}

/// The address that a text writes in dotted decimal, if it writes one.
pub open spec fn address_of(s: Seq<char>) -> Option<Ipv4Addr> {
    if exists|ip: Ipv4Addr| s == #[trigger] ip.text() {
        Some(choose|ip: Ipv4Addr| s == #[trigger] ip.text())
    } else {
        None
    }
}

/// Reading what was written gives the address back.
pub proof fn law_text_reads_back(ip: Ipv4Addr)
    ensures
        address_of(ip.text()) == Some(ip),
{
    let s = ip.text();
    let other = choose|x: Ipv4Addr| s == #[trigger] x.text();
    assert(s == other.text());
    law_octets_tell_addresses_apart(ip, other, '.');
}

/// The addresses that texts write, or the first text that writes none.
pub open spec fn addresses_of(texts: Seq<Seq<char>>) -> Result<Seq<Ipv4Addr>, Seq<char>>
    decreases texts.len(),
{
    if texts.len() == 0 {
        Ok(Seq::empty())
    } else {
        match addresses_of(texts.drop_last()) {
            Ok(ips) => match address_of(texts.last()) {
                Some(ip) => Ok(ips.push(ip)),
                None => Err(texts.last()),
            },
            Err(bad) => Err(bad),
        }
    }
}

proof fn lemma_bad_text_stays(texts: Seq<Seq<char>>, n: int)
    requires
        0 <= n <= texts.len(),
        addresses_of(texts.take(n)) is Err,
    ensures
        addresses_of(texts) == addresses_of(texts.take(n)),
    decreases texts.len() - n,
{
    if n < texts.len() {
        assert(texts.take(n + 1).drop_last() =~= texts.take(n));
        lemma_bad_text_stays(texts, n + 1);
    } else {
        assert(texts.take(n) =~= texts);
    }
}

/// Reading a list of addresses that was written gives the list back.
pub proof fn law_texts_read_back(ips: Seq<Ipv4Addr>)
    ensures
        addresses_of(ips.map_values(|ip: Ipv4Addr| ip.text())) == Ok::<
            Seq<Ipv4Addr>,
            Seq<char>,
        >(ips),
    decreases ips.len(),
{
    let texts = ips.map_values(|ip: Ipv4Addr| ip.text());
    if ips.len() > 0 {
        law_texts_read_back(ips.drop_last());
        assert(texts.drop_last() =~= ips.drop_last().map_values(|ip: Ipv4Addr| ip.text()));
        law_text_reads_back(ips.last());
        assert(ips.drop_last().push(ips.last()) =~= ips);
    } else {
        assert(ips =~= Seq::<Ipv4Addr>::empty());
    }
}

/// Reads a list of addresses, up to the first that cannot be read, which is
/// then told by its place.
pub fn parse_all(raw: &Vec<String>) -> (r: Result<Vec<Ipv4Addr>, usize>)
    ensures
        match r {
            Ok(ips) => addresses_of(text::texts(raw@)) == Ok::<Seq<Ipv4Addr>, Seq<char>>(ips@),
            Err(i) => i < raw@.len() && addresses_of(text::texts(raw@)) == Err::<
                Seq<Ipv4Addr>,
                Seq<char>,
            >(raw@[i as int]@),
        },
{
    let mut ips: Vec<Ipv4Addr> = Vec::new();
    let mut i: usize = 0;
    let ghost all = text::texts(raw@);
    while i < raw.len()
        invariant
            i <= raw@.len(),
            all == text::texts(raw@),
            addresses_of(all.take(i as int)) == Ok::<Seq<Ipv4Addr>, Seq<char>>(ips@),
        decreases raw@.len() - i,
    {
        assert(all.take(i + 1).drop_last() =~= all.take(i as int));
        match Ipv4Addr::parse(raw[i].as_str()) {
            Some(ip) => ips.push(ip),
            None => {
                proof {
                    lemma_bad_text_stays(all, i + 1);
                }
                return Err(i);
            },
        }
        i += 1;
    }
    assert(all.take(i as int) =~= all);
    Ok(ips)
}

/// Writes a list of addresses in dotted decimal.
pub fn texts_of(ips: &Vec<Ipv4Addr>) -> (r: Vec<String>)
    ensures
        text::texts(r@) == ips@.map_values(|ip: Ipv4Addr| ip.text()),
{
    let mut r: Vec<String> = Vec::new();
    let mut i: usize = 0;
    while i < ips.len()
        invariant
            i <= ips@.len(),
            text::texts(r@) == ips@.take(i as int).map_values(|ip: Ipv4Addr| ip.text()),
        decreases ips@.len() - i,
    {
        let ghost before = r@;
        r.push(ips[i].to_text());
        assert(text::texts(r@) =~= text::texts(before).push(ips@[i as int].text()));
        assert(ips@.take(i + 1).map_values(|ip: Ipv4Addr| ip.text()) =~= ips@.take(
            i as int,
        ).map_values(|ip: Ipv4Addr| ip.text()).push(ips@[i as int].text()));
        i += 1;
    }
    assert(ips@.take(i as int) =~= ips@);
    r
}

/// Copies a list of addresses.
pub fn copy_addresses(ips: &Vec<Ipv4Addr>) -> (r: Vec<Ipv4Addr>)
    ensures
        r@ == ips@,
{
    let mut r: Vec<Ipv4Addr> = Vec::new();
    let mut i: usize = 0;
    while i < ips.len()
        invariant
            i <= ips@.len(),
            r@ == ips@.take(i as int),
        decreases ips@.len() - i,
    {
        r.push(ips[i]);
        assert(ips@.take(i + 1) =~= ips@.take(i as int).push(ips@[i as int]));
        i += 1;
    }
    assert(ips@.take(i as int) =~= ips@);
    r
}

/// Appends an octet in decimal.
fn push_octet(s: &mut String, v: u8)
    ensures
        final(s)@ == old(s)@ + octet_text(v as int),
{
    let ghost before = s@;
    if v >= 100 {
        push_digit(s, v / 100);
    }
    if v >= 10 {
        push_digit(s, v / 10 % 10);
    }
    push_digit(s, v % 10);
    assert(s@ =~= before + octet_text(v as int));
}

fn push_digit(s: &mut String, d: u8)
    requires
        d < 10,
    ensures
        final(s)@ == old(s)@.push(digit_char(d as int)),
{
    let c: u8 = 48 + d;
    s.push(c as char);
}

/// The octet that stands at `pos`, if one does, and where it ends.
#[verifier::opaque]
spec fn octet_at(s: Seq<char>, pos: int) -> Option<(int, int)> {
    if !digit_at(s, pos) {
        None
    } else if !digit_at(s, pos + 1) {
        Some((value_at(s, pos), pos + 1))
    } else if s[pos] == '0' {
        None
    } else if !digit_at(s, pos + 2) {
        Some((value_at(s, pos) * 10 + value_at(s, pos + 1), pos + 2))
    } else {
        let v = value_at(s, pos) * 100 + value_at(s, pos + 1) * 10 + value_at(s, pos + 2);
        if digit_at(s, pos + 3) || v > 255 {
            None
        } else {
            Some((v, pos + 3))
        }
    }
}

spec fn digit_at(s: Seq<char>, pos: int) -> bool {
    0 <= pos < s.len() && text::digit(s[pos])
}

spec fn value_at(s: Seq<char>, pos: int) -> int {
    s[pos] as int - '0' as int
}

/// The address with the given octets.
spec fn address(a: int, b: int, c: int, d: int) -> Ipv4Addr {
    Ipv4Addr { bits: (((a * 256 + b) * 256 + c) * 256 + d) as u32 }
}

proof fn lemma_octets(a: int, b: int, c: int, d: int)
    requires
        0 <= a < 256,
        0 <= b < 256,
        0 <= c < 256,
        0 <= d < 256,
    ensures
        address(a, b, c, d).bits == ((a * 256 + b) * 256 + c) * 256 + d,
        address(a, b, c, d).octet(0) == a,
        address(a, b, c, d).octet(1) == b,
        address(a, b, c, d).octet(2) == c,
        address(a, b, c, d).octet(3) == d,
{
    let x = a * 256 + b;
    let y = x * 256 + c;
    let z = y * 256 + d;
    assert(z / 256 == y && z % 256 == d);
    assert(y / 256 == x && y % 256 == c);
    assert(x / 256 == a && x % 256 == b);
}

/// The address that a text writes with the given separator, read from left to
/// right.
spec fn parsed(s: Seq<char>, sep: char) -> Option<Ipv4Addr> {
    match octet_at(s, 0) {
        Some((a, p)) if p < s.len() && s[p] == sep => match octet_at(s, p + 1) {
            Some((b, q)) if q < s.len() && s[q] == sep => match octet_at(s, q + 1) {
                Some((c, r)) if r < s.len() && s[r] == sep => match octet_at(s, r + 1) {
                    Some((d, e)) if e == s.len() => Some(address(a, b, c, d)),
                    _ => None,
                },
                _ => None,
            },
            _ => None,
        },
        _ => None,
    }
}

proof fn lemma_octet_at(s: Seq<char>, pos: int, v: int)
    requires
        0 <= v < 256,
        0 <= pos,
        pos + octet_text(v).len() <= s.len(),
        s.subrange(pos, pos + octet_text(v).len()) == octet_text(v),
        !digit_at(s, pos + octet_text(v).len()),
    ensures
        octet_at(s, pos) == Some((v, pos + octet_text(v).len())),
{
    reveal(octet_at);
    let o = octet_text(v);
    assert forall|i: int| 0 <= i < o.len() implies s[pos + i] == o[i] by {
        assert(s.subrange(pos, pos + o.len())[i] == s[pos + i]);
    }
    assert(s[pos + 0] == o[0]);
    if v >= 10 {
        assert(s[pos + 1] == o[1]);
    }
    if v >= 100 {
        assert(s[pos + 2] == o[2]);
    }
}

proof fn lemma_octet_text_at(s: Seq<char>, pos: int)
    requires
        octet_at(s, pos) is Some,
        0 <= pos,
    ensures
        ({
            let (v, n) = octet_at(s, pos).unwrap();
            0 <= v < 256 && pos < n <= s.len() && s.subrange(pos, n) == octet_text(v)
        }),
{
    reveal(octet_at);
    let (v, n) = octet_at(s, pos).unwrap();
    if n == pos + 2 {
        assert(v / 10 == value_at(s, pos) && v % 10 == value_at(s, pos + 1));
    } else if n == pos + 3 {
        assert(v / 100 == value_at(s, pos));
        assert(v / 10 % 10 == value_at(s, pos + 1));
        assert(v % 10 == value_at(s, pos + 2));
    }
    assert(s.subrange(pos, n) =~= octet_text(v));
}

/// Four octets in decimal with separators between them.
spec fn separated(a: int, b: int, c: int, d: int, sep: char) -> Seq<char> {
    octet_text(a).push(sep) + octet_text(b).push(sep) + octet_text(c).push(sep) + octet_text(d)
}

proof fn lemma_parsed_is_text(s: Seq<char>, ip: Ipv4Addr)
    requires
        parsed(s, '.') == Some(ip),
    ensures
        s == ip.text(),
{
    let (a, p) = octet_at(s, 0).unwrap();
    let (b, q) = octet_at(s, p + 1).unwrap();
    let (c, r) = octet_at(s, q + 1).unwrap();
    let (d, e) = octet_at(s, r + 1).unwrap();
    lemma_octet_text_at(s, 0);
    lemma_octet_text_at(s, p + 1);
    lemma_octet_text_at(s, q + 1);
    lemma_octet_text_at(s, r + 1);
    lemma_octets(a, b, c, d);
    assert(s =~= s.subrange(0, p).push('.') + s.subrange(p + 1, q).push('.') + s.subrange(
        q + 1,
        r,
    ).push('.') + s.subrange(r + 1, e));
}

proof fn lemma_separated_is_parsed(a: int, b: int, c: int, d: int, sep: char)
    requires
        0 <= a < 256,
        0 <= b < 256,
        0 <= c < 256,
        0 <= d < 256,
        !text::digit(sep),
    ensures
        parsed(separated(a, b, c, d, sep), sep) == Some(address(a, b, c, d)),
{
    let s = separated(a, b, c, d, sep);
    let p = octet_text(a).len() as int;
    let q = p + 1 + octet_text(b).len();
    let r = q + 1 + octet_text(c).len();
    assert(s.subrange(0, p) =~= octet_text(a));
    assert(s.subrange(p + 1, q) =~= octet_text(b));
    assert(s.subrange(q + 1, r) =~= octet_text(c));
    assert(s.subrange(r + 1, s.len() as int) =~= octet_text(d));
    assert(s[p] == sep && s[q] == sep && s[r] == sep);
    lemma_octet_at(s, 0, a);
    lemma_octet_at(s, p + 1, b);
    lemma_octet_at(s, q + 1, c);
    lemma_octet_at(s, r + 1, d);
}

proof fn lemma_joined_is_parsed(ip: Ipv4Addr, sep: char)
    requires
        !text::digit(sep),
    ensures
        parsed(joined_octets(ip, sep), sep) == Some(ip),
{
    let a = ip.octet(0);
    let b = ip.octet(1);
    let c = ip.octet(2);
    let d = ip.octet(3);
    assert(0 <= a < 256 && 0 <= b < 256 && 0 <= c < 256 && 0 <= d < 256);
    lemma_separated_is_parsed(a, b, c, d, sep);
    assert(address(a, b, c, d) == ip);
}

/// Two addresses whose octets are written alike, with a separator that is no
/// digit, are the same address.
pub proof fn law_octets_tell_addresses_apart(x: Ipv4Addr, y: Ipv4Addr, sep: char)
    requires
        joined_octets(x, sep) == joined_octets(y, sep),
        !text::digit(sep),
    ensures
        x == y,
{
    lemma_joined_is_parsed(x, sep);
    lemma_joined_is_parsed(y, sep);
}

/// Whether a decimal digit stands at `pos`.
fn is_digit_at(chars: &Vec<char>, pos: usize) -> (r: bool)
    ensures
        r == digit_at(chars@, pos as int),
{
    pos < chars.len() && chars[pos] >= '0' && chars[pos] <= '9'
}

fn digit_value(c: char) -> (v: u32)
    requires
        text::digit(c),
    ensures
        v == c as int - '0' as int,
{
    c as u32 - 48
}

fn read_octet(chars: &Vec<char>, pos: usize) -> (r: Option<(u8, usize)>)
    requires
        pos <= chars@.len(),
    ensures
        match r {
            Some((v, n)) => octet_at(chars@, pos as int) == Some((v as int, n as int)) && n
                <= chars@.len(),
            None => octet_at(chars@, pos as int) is None,
        },
{
    proof {
        reveal(octet_at);
    }
    let len: usize = chars.len();
    if pos == len || !is_digit_at(chars, pos) {
        return None;
    }
    let first: u32 = digit_value(chars[pos]);
    if !is_digit_at(chars, pos + 1) {
        return Some((first as u8, pos + 1));
    }
    if chars[pos] == '0' {
        return None;
    }
    let second: u32 = digit_value(chars[pos + 1]);
    if !is_digit_at(chars, pos + 2) {
        return Some(((first * 10 + second) as u8, pos + 2));
    }
    let third: u32 = digit_value(chars[pos + 2]);
    let v: u32 = first * 100 + second * 10 + third;
    if is_digit_at(chars, pos + 3) || v > 255 {
        None
    } else {
        Some((v as u8, pos + 3))
    }
}

fn parse_chars(chars: &Vec<char>) -> (r: Option<Ipv4Addr>)
    ensures
        r == parsed(chars@, '.'),
{
    let (a, p) = match read_octet(chars, 0) {
        Some(read) => read,
        None => return None,
    };
    if p >= chars.len() || chars[p] != '.' {
        return None;
    }
    let (b, q) = match read_octet(chars, p + 1) {
        Some(read) => read,
        None => return None,
    };
    if q >= chars.len() || chars[q] != '.' {
        return None;
    }
    let (c, r) = match read_octet(chars, q + 1) {
        Some(read) => read,
        None => return None,
    };
    if r >= chars.len() || chars[r] != '.' {
        return None;
    }
    let (d, e) = match read_octet(chars, r + 1) {
        Some(read) => read,
        None => return None,
    };
    if e != chars.len() {
        return None;
    }
    proof {
        lemma_octets(a as int, b as int, c as int, d as int);
    }
    Some(Ipv4Addr::new(a, b, c, d))
}

/// The octets make up the address, the first counting most, and a packet
/// carries them in this order.
pub proof fn law_octets_make_up_the_address(ip: Ipv4Addr)
    ensures
        ip.bits == 16777216 * ip.octet(0) + 65536 * ip.octet(1) + 256 * ip.octet(2) + ip.octet(3),
        0 <= ip.octet(0) <= 255,
        0 <= ip.octet(1) <= 255,
        0 <= ip.octet(2) <= 255,
        0 <= ip.octet(3) <= 255,
        ip.wire_bytes().len() == 4,
        ip.bits == 16777216 * ip.wire_bytes()[0] + 65536 * ip.wire_bytes()[1] + 256
            * ip.wire_bytes()[2] + ip.wire_bytes()[3],
{
}

/// An octet is written with one to three decimal digits that make up its
/// value, the first of several not being zero.
pub proof fn law_octets_are_written_in_decimal(v: int)
    requires
        0 <= v <= 255,
    ensures
        ({
            let t = octet_text(v);
            &&& 1 <= t.len() <= 3
            &&& forall|i: int| 0 <= i < t.len() ==> '0' <= #[trigger] t[i] <= '9'
            &&& t.len() > 1 ==> t[0] != '0'
            &&& t.len() == 1 ==> v == t[0] as int - 48
            &&& t.len() == 2 ==> v == 10 * (t[0] as int - 48) + (t[1] as int - 48)
            &&& t.len() == 3 ==> v == 100 * (t[0] as int - 48) + 10 * (t[1] as int - 48) + (
            t[2] as int - 48)
        }),
{
}

/// An address is written as its four octets with a dot between each two.
pub proof fn law_addresses_are_written_dotted(ip: Ipv4Addr)
    ensures
        ip.text() == octet_text(ip.bits as int / 16777216) + seq!['.'] + octet_text(
            ip.bits as int / 65536 % 256,
        ) + seq!['.'] + octet_text(ip.bits as int / 256 % 256) + seq!['.'] + octet_text(
            ip.bits as int % 256,
        ),
{
    assert(ip.text() =~= octet_text(ip.octet(0)) + seq!['.'] + octet_text(ip.octet(1)) + seq!['.']
        + octet_text(ip.octet(2)) + seq!['.'] + octet_text(ip.octet(3)));
}

/// A text is an address exactly if it is how that address is written.
pub proof fn law_only_written_addresses_are_read(s: Seq<char>, ip: Ipv4Addr)
    ensures
        address_of(s) == Some(ip) <==> s == ip.text(),
{
    if s == ip.text() {
        law_text_reads_back(ip);
    }
}

/// Texts are read one by one: all of them, in order, where each writes an
/// address; otherwise the first that writes none is told.
pub proof fn law_texts_are_read_one_by_one(texts: Seq<Seq<char>>)
    ensures
        match addresses_of(texts) {
            Ok(ips) => ips.len() == texts.len() && forall|i: int|
                0 <= i < texts.len() ==> #[trigger] texts[i] == ips[i].text(),
            Err(bad) => exists|i: int|
                0 <= i < texts.len() && #[trigger] texts[i] == bad && address_of(bad) is None && (
                forall|j: int| 0 <= j < i ==> address_of(#[trigger] texts[j]) is Some),
        },
    decreases texts.len(),
{
    if texts.len() > 0 {
        let rest = texts.drop_last();
        let last = texts.len() - 1;
        law_texts_are_read_one_by_one(rest);
        assert(texts[last] == texts.last());
        assert forall|i: int| 0 <= i < last implies #[trigger] texts[i] == rest[i] by {}
        match addresses_of(rest) {
            Ok(ips) => {
                assert forall|j: int| 0 <= j < last implies address_of(
                    #[trigger] texts[j],
                ) is Some by {
                    assert(rest[j] == ips[j].text());
                    law_text_reads_back(ips[j]);
                }
            },
            Err(bad) => {
                let i = choose|i: int|
                    0 <= i < rest.len() && #[trigger] rest[i] == bad && address_of(bad) is None && (
                    forall|j: int| 0 <= j < i ==> address_of(#[trigger] rest[j]) is Some);
                assert(texts[i] == bad);
                assert forall|j: int| 0 <= j < i implies address_of(
                    #[trigger] texts[j],
                ) is Some by {
                    assert(address_of(rest[j]) is Some);
                }
            },
        }
    }
}

/// Four bytes are those of an address exactly if they have its value, the
/// first counting most.
pub proof fn law_wire_bytes_are_told_by_their_value(bytes: Seq<u8>, ip: Ipv4Addr)
    requires
        bytes.len() == 4,
    ensures
        bytes == ip.wire_bytes() <==> 16777216 * bytes[0] + 65536 * bytes[1] + 256 * bytes[2]
            + bytes[3] == ip.bits,
{
    if 16777216 * bytes[0] + 65536 * bytes[1] + 256 * bytes[2] + bytes[3] == ip.bits {
        lemma_octets(bytes[0] as int, bytes[1] as int, bytes[2] as int, bytes[3] as int);
        assert(ip == address(bytes[0] as int, bytes[1] as int, bytes[2] as int, bytes[3] as int));
        assert(bytes =~= ip.wire_bytes());
    }
}

} // verus!
