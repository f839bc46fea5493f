//! Text as sequences of characters: reading, cutting, trimming, comparing.

use vstd::prelude::*;

verus! {

/// Whether a character has the Unicode property `White_Space`: tab to carriage
/// return, the space, next line, the no-break space, the ogham space mark, the
/// spaces from U+2000 to U+200A, the line and paragraph separators, the narrow
/// no-break space, the medium mathematical space and the ideographic space.
pub open spec fn white_space(c: char) -> bool {
    let n = c as int;
    ||| 0x09 <= n <= 0x0d
    ||| n == 0x20
    ||| n == 0x85
    ||| n == 0xa0
    ||| n == 0x1680
    ||| 0x2000 <= n <= 0x200a
    ||| n == 0x2028
    ||| n == 0x2029
    ||| n == 0x202f
    ||| n == 0x205f
    ||| n == 0x3000
}

/// Whether a character is alphabetic or numeric by the Unicode tables.
pub uninterp spec fn alphanumeric(c: char) -> bool;

/// The ASCII letters and digits.
pub open spec fn ascii_alphanumeric(c: char) -> bool {
    '0' <= c <= '9' || 'A' <= c <= 'Z' || 'a' <= c <= 'z'
}

/// `char::is_whitespace` tells whether a character has the Unicode property
/// `White_Space`.
pub assume_specification[ char::is_whitespace ](c: char) -> (r: bool)
    ensures
        r == white_space(c),
;

/// `char::is_alphanumeric` tells whether a character is a letter or a number
/// by the Unicode tables, which for the ASCII characters are the letters and
/// the decimal digits.
pub assume_specification[ char::is_alphanumeric ](c: char) -> (r: bool)
    ensures
        r == alphanumeric(c),
        (c as int) < 128 ==> r == ascii_alphanumeric(c),
;

/// `String::push` appends one character.
pub assume_specification[ String::push ](s: &mut String, c: char)
    ensures
        final(s)@ == old(s)@.push(c),
;

/// The characters of a string.
pub fn chars_of(s: &str) -> (chars: Vec<char>)
    ensures
        chars@ == s@,
{
    let mut chars: Vec<char> = Vec::new();
    for c in it: s.chars()
        invariant
            it.seq() == s@,
            chars@ == s@.take(it.index()),
    {
        chars.push(c);
        assert(s@.take(it.index() + 1) =~= s@.take(it.index()).push(c));
    }
    assert(s@.take(s@.len() as int) =~= s@);
    chars
}

/// The characters from `from` up to `to`, as a string.
pub fn string_of(chars: &Vec<char>, from: usize, to: usize) -> (s: String)
    requires
        from <= to <= chars@.len(),
    ensures
        s@ == chars@.subrange(from as int, to as int),
{
    let mut s: String = String::new();
    let mut i: usize = from;
    while i < to
        invariant
            from <= i <= to <= chars@.len(),
            s@ == chars@.subrange(from as int, i as int),
        decreases to - i,
    {
        s.push(chars[i]);
        assert(chars@.subrange(from as int, i + 1) =~= chars@.subrange(from as int, i as int).push(
            chars@[i as int],
        ));
        i += 1;
    }
    s
}

/// Appends a text to a string.
pub fn append(s: &mut String, t: &str)
    ensures
        final(s)@ == old(s)@ + t@,
{
    let chars: Vec<char> = chars_of(t);
    let mut i: usize = 0;
    assert(chars@.take(0) =~= Seq::<char>::empty());
    assert(old(s)@ + Seq::<char>::empty() =~= old(s)@);
    while i < chars.len()
        invariant
            i <= chars@.len(),
            s@ == old(s)@ + chars@.take(i as int),
        decreases chars@.len() - i,
    {
        s.push(chars[i]);
        assert(chars@.take(i + 1) =~= chars@.take(i as int).push(chars@[i as int]));
        assert(s@ =~= old(s)@ + chars@.take(i + 1));
        i += 1;
    }
    assert(chars@.take(i as int) =~= chars@);
}

/// Whether a text has no characters.
pub fn is_empty(s: &str) -> (r: bool)
    ensures
        r == (s@.len() == 0),
{
    let chars: Vec<char> = chars_of(s);
    chars.len() == 0
}

/// The views of a list of strings.
pub open spec fn texts(strings: Seq<String>) -> Seq<Seq<char>> {
    strings.map_values(|s: String| s@)
}

/// Copies a list of strings.
pub fn copy_texts(strings: &Vec<String>) -> (r: Vec<String>)
    ensures
        texts(r@) == texts(strings@),
{
    let mut r: Vec<String> = Vec::new();
    let mut i: usize = 0;
    while i < strings.len()
        invariant
            i <= strings@.len(),
            texts(r@) == texts(strings@.take(i as int)),
        decreases strings@.len() - i,
    {
        let ghost before = r@;
        r.push(strings[i].clone());
        assert(texts(r@) =~= texts(before).push(strings@[i as int]@));
        assert(texts(strings@.take(i + 1)) =~= texts(strings@.take(i as int)).push(
            strings@[i as int]@,
        ));
        i += 1;
    }
    assert(strings@.take(i as int) =~= strings@);
    r
}

/// Whether `a` stands before `b` in the order of strings: character by
/// character, a string standing before its own continuations.
pub open spec fn text_less(a: Seq<char>, b: Seq<char>) -> bool
    decreases a.len(),
{
    if b.len() == 0 {
        false
    } else if a.len() == 0 {
        true
    } else if a[0] != b[0] {
        a[0] < b[0]
    } else {
        text_less(a.drop_first(), b.drop_first())
    }
}

pub proof fn lemma_text_less_irreflexive(a: Seq<char>)
    ensures
        !text_less(a, a),
    decreases a.len(),
{
    if a.len() > 0 {
        lemma_text_less_irreflexive(a.drop_first());
    }
}

pub proof fn lemma_text_less_transitive(a: Seq<char>, b: Seq<char>, c: Seq<char>)
    requires
        text_less(a, b),
        text_less(b, c),
    ensures
        text_less(a, c),
    decreases a.len(),
{
    if a.len() > 0 && b.len() > 0 && c.len() > 0 && a[0] == b[0] && b[0] == c[0] {
        lemma_text_less_transitive(a.drop_first(), b.drop_first(), c.drop_first());
    }
}

pub proof fn lemma_text_less_total(a: Seq<char>, b: Seq<char>)
    ensures
        a == b || text_less(a, b) || text_less(b, a),
    decreases a.len(),
{
    if a.len() == 0 || b.len() == 0 {
        if a.len() == b.len() {
            assert(a =~= b);
        }
    } else if a[0] == b[0] {
        lemma_text_less_total(a.drop_first(), b.drop_first());
        if a.drop_first() == b.drop_first() {
            assert(a =~= seq![a[0]] + a.drop_first());
            assert(b =~= seq![b[0]] + b.drop_first());
        }
    }
}

/// Whether `a` stands before `b` in the order of strings.
pub fn is_text_less(a: &str, b: &str) -> (r: bool)
    ensures
        r == text_less(a@, b@),
{
    let x: Vec<char> = chars_of(a);
    let y: Vec<char> = chars_of(b);
    let mut i: usize = 0;
    assert(x@.skip(0) =~= x@ && y@.skip(0) =~= y@);
    while i < x.len() && i < y.len()
        invariant
            x@ == a@,
            y@ == b@,
            i <= x@.len(),
            i <= y@.len(),
            text_less(x@, y@) == text_less(x@.skip(i as int), y@.skip(i as int)),
        decreases x@.len() - i,
    {
        if x[i] != y[i] {
            assert(x@.skip(i as int)[0] == x@[i as int]);
            assert(y@.skip(i as int)[0] == y@[i as int]);
            return x[i] < y[i];
        }
        assert(x@.skip(i as int).drop_first() =~= x@.skip(i + 1));
        assert(y@.skip(i as int).drop_first() =~= y@.skip(i + 1));
        i += 1;
    }
    i < y.len()
}

/// Whether two texts are the same.
pub fn same_text(a: &str, b: &str) -> (r: bool)
    ensures
        r == (a@ == b@),
{
    proof {
        lemma_text_less_total(a@, b@);
        lemma_text_less_irreflexive(a@);
    }
    !is_text_less(a, b) && !is_text_less(b, a)
}

/// A text without the white space at its end.
pub open spec fn trimmed_end(s: Seq<char>) -> Seq<char>
    decreases s.len(),
{
    if s.len() > 0 && white_space(s.last()) {
        trimmed_end(s.drop_last())
    } else {
        s
    }
}

/// A text without the white space at its start.
pub open spec fn trimmed_start(s: Seq<char>) -> Seq<char>
    decreases s.len(),
{
    if s.len() > 0 && white_space(s[0]) {
        trimmed_start(s.drop_first())
    } else {
        s
    }
}

/// A text without the white space at either end.
pub open spec fn trimmed(s: Seq<char>) -> Seq<char> {
    trimmed_end(trimmed_start(s))
}

/// Where the text from `from` to `to` ends once trailing white space is cut.
pub fn end_of_trimmed(chars: &Vec<char>, from: usize, to: usize) -> (end: usize)
    requires
        from <= to <= chars@.len(),
    ensures
        from <= end <= to,
        chars@.subrange(from as int, end as int) == trimmed_end(
            chars@.subrange(from as int, to as int),
        ),
{
    let mut end: usize = to;
    let ghost whole = chars@.subrange(from as int, to as int);
    while end > from && chars[end - 1].is_whitespace()
        invariant
            from <= end <= to <= chars@.len(),
            trimmed_end(whole) == trimmed_end(chars@.subrange(from as int, end as int)),
        ensures
            from <= end <= to,
            end == from || !white_space(chars@[end - 1]),
            trimmed_end(whole) == trimmed_end(chars@.subrange(from as int, end as int)),
        decreases end,
    {
        assert(chars@.subrange(from as int, end as int).drop_last() =~= chars@.subrange(
            from as int,
            end - 1,
        ));
        end -= 1;
    }
    assert(chars@.subrange(from as int, end as int).len() == end - from);
    end
}

/// A text without the white space at either end.
pub fn trim_text(s: &str) -> (r: String)
    ensures
        r@ == trimmed(s@),
{
    let chars: Vec<char> = chars_of(s);
    let mut from: usize = 0;
    let len: usize = chars.len();
    assert(chars@.subrange(0, len as int) =~= chars@);
    while from < len && chars[from].is_whitespace()
        invariant
            from <= len == chars@.len(),
            trimmed_start(chars@) == trimmed_start(chars@.subrange(from as int, len as int)),
        ensures
            from <= len,
            from == len || !white_space(chars@[from as int]),
            trimmed_start(chars@) == trimmed_start(chars@.subrange(from as int, len as int)),
        decreases len - from,
    {
        assert(chars@.subrange(from as int, len as int).drop_first() =~= chars@.subrange(
            from + 1,
            len as int,
        ));
        from += 1;
    }
    assert(trimmed_start(chars@) == chars@.subrange(from as int, len as int));
    let end: usize = end_of_trimmed(&chars, from, len);
    string_of(&chars, from, end)
}

/// Whether a character is an ASCII decimal digit.
pub open spec fn digit(c: char) -> bool {
    '0' <= c <= '9'
}

/// Whether every character is an ASCII decimal digit.
pub open spec fn all_digits(s: Seq<char>) -> bool {
    forall|i: int| 0 <= i < s.len() ==> digit(#[trigger] s[i])
}

/// The number that decimal digits write.
pub open spec fn decimal_value(s: Seq<char>) -> int
    decreases s.len(),
{
    if s.len() == 0 {
        0
    } else {
        decimal_value(s.drop_last()) * 10 + (s.last() as int - '0' as int)
    }
}

pub proof fn lemma_decimal_value_grows(s: Seq<char>, n: int)
    requires
        all_digits(s),
        0 <= n <= s.len(),
    ensures
        0 <= decimal_value(s.take(n)) <= decimal_value(s),
    decreases s.len(),
{
    if s.len() > 0 {
        assert(all_digits(s.drop_last()));
        if n < s.len() {
            lemma_decimal_value_grows(s.drop_last(), n);
            assert(s.drop_last().take(n) =~= s.take(n));
        } else {
            lemma_decimal_value_grows(s.drop_last(), n - 1);
            assert(s.take(n) =~= s);
        }
    } else {
        assert(s.take(n) =~= s);
    }
}

/// The digits of a number that may have a plus sign in front.
pub open spec fn unsigned_part(s: Seq<char>) -> Seq<char> {
    if s.len() > 0 && s[0] == '+' {
        s.skip(1)
    } else {
        s
    }
}

/// The number that the digits of a text write, if the text is nothing but
/// digits, at least one, and the number does not exceed `max`.
pub open spec fn number_in(s: Seq<char>, max: int) -> Option<int> {
    if s.len() > 0 && all_digits(s) && decimal_value(s) <= max {
        Some(decimal_value(s))
    } else {
        None
    }
}

/// Reads the digits from `from` up to `to` as a number of at most `max`.
pub fn number_between(chars: &Vec<char>, from: usize, to: usize, max: u32) -> (r: Option<u32>)
    requires
        from <= to <= chars@.len(),
    ensures
        match r {
            Some(n) => number_in(chars@.subrange(from as int, to as int), max as int) == Some(
                n as int,
            ),
            None => number_in(chars@.subrange(from as int, to as int), max as int) is None,
        },
{
    let ghost s = chars@.subrange(from as int, to as int);
    if from == to {
        return None;
    }
    let mut value: u64 = 0;
    let mut i: usize = from;
    assert(s.take(0) =~= Seq::<char>::empty());
    while i < to
        invariant
            from <= i <= to <= chars@.len(),
            s == chars@.subrange(from as int, to as int),
            forall|j: int| 0 <= j < i - from ==> digit(#[trigger] s[j]),
            value == decimal_value(s.take(i - from)),
            value <= max,
        decreases to - i,
    {
        let c: char = chars[i];
        assert(s[i - from] == c);
        if c < '0' || c > '9' {
            return None;
        }
        let next: u64 = value * 10 + (c as u64 - '0' as u64);
        assert(s.take(i - from + 1).drop_last() =~= s.take(i - from));
        assert(next == decimal_value(s.take(i - from + 1)));
        if next > max as u64 {
            proof {
                if all_digits(s) {
                    lemma_decimal_value_grows(s, i - from + 1);
                }
            }
            return None;
        }
        value = next;
        i += 1;
    }
    assert(s.take(to - from) =~= s);
    Some(value as u32)
}

/// The unsigned number of 32 bits that a text writes in decimal, with any
/// number of leading zeros and maybe a plus sign.
pub open spec fn u32_of(s: Seq<char>) -> Option<int> {
    number_in(unsigned_part(s), u32::MAX as int)
}

/// The signed number of 32 bits that a text writes in decimal, with any
/// number of leading zeros and maybe a sign.
pub open spec fn i32_of(s: Seq<char>) -> Option<int> {
    if s.len() > 0 && s[0] == '-' {
        match number_in(s.skip(1), 0x8000_0000) {
            Some(n) => Some(-n),
            None => None,
        }
    } else {
        number_in(unsigned_part(s), 0x7fff_ffff)
    }
}

/// Reads an unsigned number in decimal.
pub fn parse_u32(s: &str) -> (r: Option<u32>)
    ensures
        match r {
            Some(n) => u32_of(s@) == Some(n as int),
            None => u32_of(s@) is None,
        },
{
    let chars: Vec<char> = chars_of(s);
    let len: usize = chars.len();
    let start: usize = if len > 0 && chars[0] == '+' {
        1
    } else {
        0
    };
    assert(chars@.subrange(start as int, len as int) =~= unsigned_part(s@));
    number_between(&chars, start, len, u32::MAX)
}

/// Reads a signed number in decimal.
pub fn parse_i32(s: &str) -> (r: Option<i32>)
    ensures
        match r {
            Some(n) => i32_of(s@) == Some(n as int),
            None => i32_of(s@) is None,
        },
{
    let chars: Vec<char> = chars_of(s);
    let len: usize = chars.len();
    if len > 0 && chars[0] == '-' {
        assert(chars@.subrange(1, len as int) =~= s@.skip(1));
        match number_between(&chars, 1, len, 0x8000_0000) {
            Some(n) => Some((-(n as i64)) as i32),
            None => None,
        }
    } else {
        let start: usize = if len > 0 && chars[0] == '+' {
            1
        } else {
            0
        };
        assert(chars@.subrange(start as int, len as int) =~= unsigned_part(s@));
        match number_between(&chars, start, len, 0x7fff_ffff) {
            Some(n) => Some(n as i32),
            None => None,
        }
    }
}

/// A number in decimal, without leading zeros.
pub open spec fn decimal_text(n: nat) -> Seq<char>
    decreases n,
{
    if n < 10 {
        seq![('0' as int + n) as char]
    } else {
        decimal_text(n / 10).push(('0' as int + n % 10) as char)
    }
}

/// Appends a number in decimal.
pub fn append_number(s: &mut String, n: u64)
    ensures
        final(s)@ == old(s)@ + decimal_text(n as nat),
    decreases n,
{
    if n >= 10 {
        append_number(s, n / 10);
    }
    let d: u8 = (n % 10) as u8 + 48;
    s.push(d as char);
    assert(s@ =~= old(s)@ + decimal_text(n as nat));
}

/// Cutting the end leaves a start of the text; what is cut is white space,
/// and what is left does not end in any.
pub proof fn law_trimming_the_end_cuts_white_space(s: Seq<char>)
    ensures
        trimmed_end(s).len() <= s.len(),
        trimmed_end(s) == s.take(trimmed_end(s).len() as int),
        forall|k: int| trimmed_end(s).len() <= k < s.len() ==> white_space(#[trigger] s[k]),
        trimmed_end(s).len() > 0 ==> !white_space(s[trimmed_end(s).len() - 1]),
    decreases s.len(),
{
    if s.len() > 0 && white_space(s.last()) {
        let rest = s.drop_last();
        law_trimming_the_end_cuts_white_space(rest);
        let n = trimmed_end(s).len() as int;
        assert(rest.take(n) =~= s.take(n));
        assert forall|k: int| n <= k < s.len() implies white_space(#[trigger] s[k]) by {
            if k < rest.len() {
                assert(white_space(rest[k]));
            }
        }
    } else {
        assert(s.take(s.len() as int) =~= s);
    }
}

/// Cutting the start leaves an end of the text; what is cut is white space,
/// and what is left does not start with any.
pub proof fn law_trimming_the_start_cuts_white_space(s: Seq<char>)
    ensures
        trimmed_start(s).len() <= s.len(),
        trimmed_start(s) == s.skip(s.len() - trimmed_start(s).len()),
        forall|k: int|
            0 <= k < s.len() - trimmed_start(s).len() ==> white_space(#[trigger] s[k]),
        trimmed_start(s).len() > 0 ==> !white_space(s[s.len() - trimmed_start(s).len()]),
    decreases s.len(),
{
    if s.len() > 0 && white_space(s[0]) {
        let rest = s.drop_first();
        law_trimming_the_start_cuts_white_space(rest);
        let n = s.len() - trimmed_start(s).len();
        assert(rest.skip(n - 1) =~= s.skip(n));
        assert forall|k: int| 0 <= k < n implies white_space(#[trigger] s[k]) by {
            if k > 0 {
                assert(white_space(rest[k - 1]));
            }
        }
        if trimmed_start(s).len() > 0 {
            assert(rest[n - 1] == s[n]);
        }
    } else {
        assert(s.skip(0) =~= s);
    }
}

/// Trimming leaves the part of a text between the white space at its start
/// and the white space at its end.
pub proof fn law_trimming_cuts_white_space_at_both_ends(s: Seq<char>)
    ensures
        exists|i: int, j: int|
            0 <= i <= j <= s.len() && trimmed(s) == #[trigger] s.subrange(i, j) && (forall|k: int|
                0 <= k < i ==> white_space(#[trigger] s[k])) && (forall|k: int|
                j <= k < s.len() ==> white_space(#[trigger] s[k])) && (i < j ==> !white_space(s[i])
                && !white_space(s[j - 1])),
{
    let head = trimmed_start(s);
    law_trimming_the_start_cuts_white_space(s);
    law_trimming_the_end_cuts_white_space(head);
    let i = s.len() - head.len();
    let j = i + trimmed(s).len();
    assert(trimmed(s) =~= s.subrange(i, j));
    assert forall|k: int| j <= k < s.len() implies white_space(#[trigger] s[k]) by {
        assert(white_space(head[k - i]));
    }
    if i < j {
        assert(head[j - 1 - i] == s[j - 1]);
    }
}

/// One text comes before another exactly if, behind a common start, it ends
/// or has the lesser character.
pub proof fn law_texts_are_ordered_by_their_first_difference(a: Seq<char>, b: Seq<char>)
    ensures
        text_less(a, b) <==> exists|k: int|
            0 <= k <= a.len() && k < b.len() && #[trigger] a.take(k) == b.take(k) && (k == a.len()
                || a[k] < b[k]),
    decreases a.len(),
{
    if b.len() > 0 && a.len() > 0 && a[0] == b[0] {
        let x = a.drop_first();
        let y = b.drop_first();
        law_texts_are_ordered_by_their_first_difference(x, y);
        if text_less(x, y) {
            let k = choose|k: int|
                0 <= k <= x.len() && k < y.len() && #[trigger] x.take(k) == y.take(k) && (k
                    == x.len() || x[k] < y[k]);
            assert forall|i: int| 0 <= i < k + 1 implies a[i] == b[i] by {
                if i > 0 {
                    assert(x.take(k)[i - 1] == y.take(k)[i - 1]);
                }
            }
            assert(a.take(k + 1) =~= b.take(k + 1));
        }
        if exists|k: int|
            0 <= k <= a.len() && k < b.len() && #[trigger] a.take(k) == b.take(k) && (k == a.len()
                || a[k] < b[k]) {
            let k = choose|k: int|
                0 <= k <= a.len() && k < b.len() && #[trigger] a.take(k) == b.take(k) && (k
                    == a.len() || a[k] < b[k]);
            assert(k > 0);
            assert forall|i: int| 0 <= i < k - 1 implies x[i] == y[i] by {
                assert(a.take(k)[i + 1] == b.take(k)[i + 1]);
            }
            assert(x.take(k - 1) =~= y.take(k - 1));
        }
    } else if b.len() > 0 {
        assert(a.take(0) =~= b.take(0));
        if a.len() > 0 {
            assert forall|k: int| 0 < k <= a.len() && k < b.len() implies #[trigger] a.take(k)
                != b.take(k) by {
                assert(a.take(k)[0] != b.take(k)[0]);
            }
        }
    }
}

/// A further digit moves the others up by one place.
pub proof fn law_digits_count_by_their_place(s: Seq<char>, c: char)
    ensures
        decimal_value(Seq::empty()) == 0,
        decimal_value(s.push(c)) == 10 * decimal_value(s) + (c as int - 48),
{
    assert(s.push(c).drop_last() =~= s);
}

/// A text is a number within a bound exactly if it is made of the characters
/// from `0` to `9`, at least one, and their value keeps to the bound.
pub proof fn law_numbers_are_made_of_digits(s: Seq<char>, max: int, n: int)
    ensures
        number_in(s, max) == Some(n) <==> s.len() > 0 && (forall|i: int|
            0 <= i < s.len() ==> 48 <= #[trigger] s[i] as int <= 57) && n == decimal_value(s) && n
            <= max,
{
    if forall|i: int| 0 <= i < s.len() ==> 48 <= #[trigger] s[i] as int <= 57 {
        assert forall|i: int| 0 <= i < s.len() implies digit(#[trigger] s[i]) by {
            assert(48 <= s[i] as int <= 57);
        }
    }
    if all_digits(s) {
        assert forall|i: int| 0 <= i < s.len() implies 48 <= #[trigger] s[i] as int <= 57 by {
            assert(digit(s[i]));
        }
    }
}

/// Numbers of 32 bits: digits up to the greatest number, bare or behind a
/// plus sign, and behind a minus sign down to the least signed one. Nothing
/// else is read.
pub proof fn law_signs_and_bounds_of_numbers(s: Seq<char>)
    requires
        s.len() > 0,
        forall|i: int| 0 <= i < s.len() ==> 48 <= #[trigger] s[i] as int <= 57,
    ensures
        u32_of(s) == if decimal_value(s) <= 4294967295 {
            Some(decimal_value(s))
        } else {
            None
        },
        u32_of(seq!['+'] + s) == u32_of(s),
        u32_of(seq!['-'] + s) is None,
        i32_of(s) == if decimal_value(s) <= 2147483647 {
            Some(decimal_value(s))
        } else {
            None
        },
        i32_of(seq!['+'] + s) == i32_of(s),
        i32_of(seq!['-'] + s) == if decimal_value(s) <= 2147483648 {
            Some(-decimal_value(s))
        } else {
            None
        },
{
    assert(48 <= s[0] as int <= 57);
    assert forall|i: int| 0 <= i < s.len() implies digit(#[trigger] s[i]) by {
        assert(48 <= s[i] as int <= 57);
    }
    assert((seq!['+'] + s).skip(1) =~= s);
    assert((seq!['-'] + s).skip(1) =~= s);
    let signed = seq!['-'] + s;
    assert(!digit(signed[0]));
}

/// What is read as a number is digits, at least one, with at most one sign
/// before them, which for an unsigned number is a plus sign.
pub proof fn law_only_digits_are_read_as_numbers(s: Seq<char>)
    ensures
        u32_of(s) is Some ==> ({
            let d = if s[0] == '+' {
                s.skip(1)
            } else {
                s
            };
            d.len() > 0 && forall|i: int| 0 <= i < d.len() ==> 48 <= #[trigger] d[i] as int <= 57
        }),
        i32_of(s) is Some ==> ({
            let d = if s[0] == '+' || s[0] == '-' {
                s.skip(1)
            } else {
                s
            };
            d.len() > 0 && forall|i: int| 0 <= i < d.len() ==> 48 <= #[trigger] d[i] as int <= 57
        }),
{
}

/// A number is written in decimal digits that make it up, the first not being
/// zero unless the number is.
pub proof fn law_written_numbers_read_back(n: nat)
    ensures
        decimal_value(decimal_text(n)) == n,
        decimal_text(n).len() > 0,
        forall|i: int|
            0 <= i < decimal_text(n).len() ==> 48 <= #[trigger] decimal_text(n)[i] as int <= 57,
        n > 0 ==> decimal_text(n)[0] != '0',
        n < 10 ==> decimal_text(n).len() == 1,
    decreases n,
{
    if n >= 10 {
        law_written_numbers_read_back(n / 10);
        let c = ('0' as int + n % 10) as char;
        law_digits_count_by_their_place(decimal_text(n / 10), c);
        assert(decimal_text(n)[0] == decimal_text(n / 10)[0]);
        assert forall|i: int| 0 <= i < decimal_text(n).len() implies 48 <= #[trigger] decimal_text(
            n,
        )[i] as int <= 57 by {
            if i < decimal_text(n / 10).len() {
                assert(48 <= decimal_text(n / 10)[i] as int <= 57);
            }
        }
    } else {
        reveal_with_fuel(decimal_value, 2);
    }
}

} // verus!
